use debr::kv::{add, get, strip};

#[test]
fn get_finds_first_matching_assignment() {
    let content = "# comment\nLB_ARCH=\"amd64\"\nLB_ARCH=\"arm64\"\n";
    let p = get("LB_ARCH", content).unwrap();
    assert_eq!(p.value, "amd64");
    assert_eq!(p.start_pos, 10);
    assert_eq!(p.end_pos, 26);
}

#[test]
fn get_skips_comment_lines() {
    let content = "# LB_ARCH=\"amd64\"\n   # another\nLB_ARCH=\"arm64\"\n";
    let p = get("LB_ARCH", content).unwrap();
    assert_eq!(p.value, "arm64");
}

#[test]
fn get_requires_exact_key() {
    let content = "LB_ARCHIVE=\"x\"\n";
    assert!(get("LB_ARCH", content).is_none());
}

#[test]
fn get_unquotes_and_trims_value() {
    let content = "KEY=  \"spaced value\"  \n";
    let p = get("KEY", content).unwrap();
    assert_eq!(p.value, "spaced value");
}

#[test]
fn get_line_without_equals_has_empty_value() {
    let p = get("FLAG", "FLAG\n").unwrap();
    assert_eq!(p.value, "");
}

#[test]
fn get_missing_key_is_none() {
    assert!(get("NOPE", "# nothing here\n").is_none());
}

#[test]
fn set_replaces_only_the_matched_line() {
    let content = "A=\"1\"\nB=\"2\"\nC=\"3\"\n";
    let out = debr::kv::set("B", "9", content);
    assert_eq!(out, "A=\"1\"\nB=\"9\"\nC=\"3\"\n");
}

#[test]
fn set_appends_when_key_is_absent() {
    let out = debr::kv::set("NEW", "v", "A=\"1\"\n");
    assert_eq!(out, "A=\"1\"\n\nNEW=\"v\"");
}

#[test]
fn set_is_noop_when_value_already_matches() {
    let content = "A=\"1\"\nB= \"2\" \n";
    let out = debr::kv::set("B", "2", content);
    assert_eq!(out, content);
}

#[test]
fn set_then_get_returns_value() {
    let content = "# header\nOTHER=\"z\"\n";
    let out = debr::kv::set("KEY", "hello world", content);
    let p = get("KEY", &out).unwrap();
    assert_eq!(p.value, "hello world");
}

#[test]
fn set_twice_is_byte_identical_to_once() {
    for content in ["", "A=\"1\"", "A=\"1\"\nKEY=\"old\"\nB=\"2\"\n", "# only comments\n"] {
        let once = debr::kv::set("KEY", "v", content);
        let twice = debr::kv::set("KEY", "v", &once);
        assert_eq!(once.as_bytes(), twice.as_bytes());
    }
}

#[test]
fn add_appends_a_fresh_line() {
    let out = add("deb http://x main", Some("existing\n"));
    assert_eq!(out, "existing\n\ndeb http://x main\n");
}

#[test]
fn add_creates_missing_file() {
    let out = add("line one", None);
    assert_eq!(out, "\nline one\n");
}

#[test]
fn add_twice_yields_one_occurrence() {
    let once = add("deb http://x main", None);
    let twice = add("deb http://x main", Some(&once));
    assert_eq!(once, twice);
    let n = twice.lines().filter(|l| *l == "deb http://x main").count();
    assert_eq!(n, 1);
}

#[test]
fn strip_removes_all_occurrences() {
    let content = "keep\ndrop\nkeep two\ndrop\n";
    let out = strip("drop", Some(content)).unwrap();
    assert_eq!(out, "keep\nkeep two\n");
    assert_eq!(out.lines().filter(|l| *l == "drop").count(), 0);
}

#[test]
fn strip_is_noop_on_missing_file() {
    assert!(strip("anything", None).is_none());
}

#[test]
fn strip_on_empty_content_stays_empty() {
    let out = strip("x", Some("")).unwrap();
    assert_eq!(out, "");
}

#[test]
fn get_handles_crlf_line_endings() {
    let p = get("KEY", "KEY=\"v\"\r\nOTHER=\"w\"\r\n").unwrap();
    assert_eq!(p.value, "v");
}

#[test]
fn set_preserves_every_other_byte() {
    let content = "# note   \n\nA =\"1\"\nKEY=\"old\"\ntrailing text";
    let out = debr::kv::set("KEY", "new", content);
    assert_eq!(out, "# note   \n\nA =\"1\"\nKEY=\"new\"\ntrailing text");
}

#[test]
fn strip_normalizes_missing_final_newline() {
    let out = strip("drop", Some("keep\ndrop")).unwrap();
    assert_eq!(out, "keep\n");
}
