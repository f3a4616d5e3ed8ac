use debr::cfg::{Config, Extra};
use debr::deboot::parse;
use debr::pipeline::{plan_apply, preprocess, s, BuildError};

fn strings(items: &[&str]) -> Vec<String> {
    items.iter().map(|v| v.to_string()).collect()
}

#[test]
fn s_returns_an_owned_copy() {
    assert_eq!(s("abc"), "abc".to_string());
}

#[test]
fn plan_uses_the_documented_defaults() {
    let plan = plan_apply(&Config::empty()).unwrap();
    assert_eq!(plan.dist, "bookworm");
    let boot: Vec<(&str, &str)> = plan
        .bootstrap_settings
        .iter()
        .map(|st| (st.key.as_str(), st.value.as_str()))
        .collect();
    assert_eq!(
        boot,
        vec![
            ("LB_ARCHITECTURE", "amd64"),
            ("LB_ARCHIVE_AREAS", "main contrib non-free non-free-firmware"),
            ("LB_PARENT_ARCHIVE_AREAS", "main contrib non-free non-free-firmware"),
        ]
    );
    assert_eq!(plan.common_settings[0].key, "LB_APT");
    assert_eq!(plan.common_settings[0].value, "apt");
    assert_eq!(plan.common_settings[1].key, "LB_APT_RECOMMENDS");
    assert_eq!(plan.common_settings[1].value, "true");
    assert_eq!(plan.common_settings[2].key, "DEBOOTSTRAP_OPTIONS");
    assert!(plan.common_settings[2].value.contains("apt-transport-https"));
    assert!(plan.keyringer_assets);
    assert!(plan.theme_hook.is_none());
    assert!(plan.snap_hook.is_none());
    assert!(plan.apt_install_hook.is_none());
    // The keyring agent's units are enabled even with nothing else asked.
    assert!(plan.services_hook.is_some());
    let svc = plan.services_hook.unwrap();
    assert!(svc.contains("\"keyringer.service\" \"keyringer.timer\""));
    assert_eq!(plan.package_list, "pkg-config");
}

#[test]
fn plan_rejects_reserved_repository_name_before_any_output() {
    let mut config = Config::empty();
    config.extras = Some(vec![Extra {
        name: "keyringer".to_string(),
        key: "https://example/key".to_string(),
        src: "deb http://example stable main".to_string(),
        add: strings(&[]),
    }]);
    match plan_apply(&config) {
        Err(BuildError::ReservedNameConflict { name }) => assert_eq!(name, "keyringer"),
        other => panic!("expected a reserved-name rejection, got {:?}", other.map(|_| ())),
    }
}

#[test]
fn plan_rejects_exclusion_requests() {
    let mut config = Config::empty();
    config.exclude = Some(strings(&["some-pkg"]));
    match plan_apply(&config) {
        Err(BuildError::UnimplementedFeature { feature }) => assert_eq!(feature, "exclude"),
        other => panic!("expected an unimplemented-feature error, got {:?}", other.map(|_| ())),
    }
}

#[test]
fn plan_accepts_an_explicitly_empty_exclusion_set() {
    let mut config = Config::empty();
    config.exclude = Some(strings(&[]));
    assert!(plan_apply(&config).is_ok());
}

#[test]
fn end_to_end_plan_for_one_extra_repository() {
    let mut config = Config::empty();
    config.dist = Some("bookworm".to_string());
    config.includes = Some(strings(&["vim"]));
    config.keyringer = Some(false);
    config.extras = Some(vec![Extra {
        name: "foo".to_string(),
        key: "https://example/key.pub".to_string(),
        src: "deb http://example/ stable main".to_string(),
        add: strings(&["foo-tools"]),
    }]);
    let plan = plan_apply(&config).unwrap();
    assert_eq!(plan.dist, "bookworm");
    assert_eq!(plan.repo_adds.len(), 1);
    let repo = &plan.repo_adds[0];
    assert_eq!(repo.name, "foo");
    assert_eq!(
        repo.line,
        "deb [arch=amd64 signed-by=/etc/apt/keyrings/foo.gpg] deb http://example/ stable main"
    );
    assert_eq!(
        repo.list_path,
        "config/includes.chroot_after_packages/etc/apt/sources.list.d/foo.list"
    );
    assert_eq!(repo.key_url, "https://example/key.pub");
    assert_eq!(
        repo.key_path,
        "config/includes.chroot_after_packages/tmp/apt-keyrings-cache-debr/foo.gpg"
    );
    assert_eq!(plan.keyrings.len(), 1);
    assert_eq!(plan.keyrings[0].key, "foo");
    assert_eq!(plan.keyrings[0].value, "https://example/key.pub");
    assert_eq!(plan.package_list, "vim");
    let hook = plan.apt_install_hook.unwrap();
    assert!(hook.contains("\"foo-tools\""));
    assert!(hook.contains("mv /tmp/apt-keyrings-cache-debr/*.gpg /etc/apt/keyrings/"));
}

#[test]
fn plan_merges_service_requests_with_implied_units() {
    let mut config = Config::empty();
    config.snaps = Some(strings(&["firefox", "firefox"]));
    config.e_service = Some(strings(&["custom.service"]));
    config.d_service = Some(strings(&["bluetooth.service"]));
    let plan = plan_apply(&config).unwrap();
    assert_eq!(plan.snap_packages, strings(&["firefox"]));
    let snap_hook = plan.snap_hook.unwrap();
    assert!(snap_hook.contains("snap_cache=\"/tmp/snap-cache-debr\""));
    assert!(snap_hook.contains("for package in \"firefox\"; do"));
    let svc = plan.services_hook.unwrap();
    assert!(svc.contains(
        "\"keyringer.service\" \"keyringer.timer\" \"snapd_installer.service\" \"custom.service\"",
    ));
    assert!(svc.contains("for service in \"bluetooth.service\"; do"));
}

#[test]
fn plan_emits_theme_hook_on_dark_mode() {
    let mut config = Config::empty();
    config.dark_mode = Some(true);
    let plan = plan_apply(&config).unwrap();
    assert!(plan.theme_hook.unwrap().contains("prefer-dark"));
}

#[test]
fn deboot_parse_appends_flag_when_absent() {
    let out = parse(
        &"--merged-usr".to_string(),
        strings(&["apt-transport-https", "ca-certificates,openssl"]),
    );
    assert_eq!(out, "--merged-usr --inc\u{6c}ude=apt-transport-https,ca-certificates,openssl");
}

#[test]
fn deboot_parse_merges_into_existing_flag() {
    let raw = "--inc\u{6c}ude=vim,git --merged-usr".to_string();
    let out = parse(&raw, strings(&["git", "curl"]));
    assert_eq!(out, "--inc\u{6c}ude=vim,git,curl --merged-usr");
}

#[test]
fn preprocess_guards_dash_arguments_after_lb() {
    let mut args = strings(&["debr", "--verbose", "lb", "--help", "clean"]);
    preprocess(&mut args);
    assert_eq!(args, strings(&["debr", "--verbose", "lb", "--", "--help", "clean"]));
}

#[test]
fn deboot_parse_on_empty_options() {
    let out = parse(&String::new(), strings(&["base"]));
    assert_eq!(out, " --inc\u{6c}ude=base");
}
