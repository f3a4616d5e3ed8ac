use debr::pipeline::Setting;
use debr::ringer::{is_https_url, keyring_jobs, partition_keyring_entries, should_retry, RawEntry};
use debr::snap::{snap_artifact_names, snap_target_names};

fn setting(key: &str, value: &str) -> Setting {
    Setting { key: key.to_string(), value: value.to_string() }
}

#[test]
fn https_urls_are_recognized() {
    assert!(is_https_url("https://example.org/key.pub"));
    assert!(!is_https_url("http://example.org/key.pub"));
    assert!(!is_https_url("ftp://example.org"));
    assert!(!is_https_url(""));
}

#[test]
fn keyring_jobs_name_destinations_and_check_urls() {
    let keyrings = vec![
        setting("chrome", "https://dl.example/linux_signing_key.pub"),
        setting("bad", "http://insecure.example/key"),
    ];
    let jobs = keyring_jobs(&keyrings);
    assert_eq!(jobs.len(), 2);
    assert_eq!(jobs[0].name, "chrome");
    assert_eq!(jobs[0].dest_file, "chrome.gpg");
    assert!(jobs[0].https_ok);
    assert_eq!(jobs[1].dest_file, "bad.gpg");
    assert!(!jobs[1].https_ok);
}

#[test]
fn fetches_are_retried_at_most_three_times() {
    assert!(should_retry(0));
    assert!(should_retry(2));
    assert!(!should_retry(3));
    assert!(!should_retry(4));
}

#[test]
fn malformed_keyring_entries_are_reported_not_kept() {
    let entries = vec![
        RawEntry { name: "good".to_string(), value: Some("https://x/key".to_string()) },
        RawEntry { name: "broken".to_string(), value: None },
    ];
    let (good, bad) = partition_keyring_entries(&entries);
    assert_eq!(good.len(), 1);
    assert_eq!(good[0].key, "good");
    assert_eq!(good[0].value, "https://x/key");
    assert_eq!(bad, vec!["broken".to_string()]);
}

#[test]
fn snap_artifacts_are_matched_by_prefix_and_ending() {
    let files = vec![
        "firefox_100.snap".to_string(),
        "firefox_100.assert".to_string(),
        "other_1.snap".to_string(),
        "firefox_101.snap".to_string(),
    ];
    let (assert_file, snap_file) = snap_artifact_names(&files, "firefox");
    assert_eq!(assert_file.as_deref(), Some("firefox_100.assert"));
    assert_eq!(snap_file.as_deref(), Some("firefox_101.snap"));
}

#[test]
fn snap_artifacts_absent_when_nothing_matches() {
    let files = vec!["unrelated.txt".to_string()];
    let (assert_file, snap_file) = snap_artifact_names(&files, "firefox");
    assert!(assert_file.is_none());
    assert!(snap_file.is_none());
}

#[test]
fn snap_targets_use_the_package_name() {
    let (snap_name, assert_name) = snap_target_names("firefox");
    assert_eq!(snap_name, "firefox.snap");
    assert_eq!(assert_name, "firefox.assert");
}
