use debr::hooks::{
    apt_install, apt_purge, escape_to_list, gen_apt_install_hook, gen_services_hook,
    gnome_set_dark, logger_wrap, services, snap_install_from,
};
use ordermap::OrderSet;

fn strings(items: &[&str]) -> Vec<String> {
    items.iter().map(|s| s.to_string()).collect()
}

#[test]
fn escape_to_list_quotes_and_joins() {
    assert_eq!(escape_to_list(&strings(&["a", "b c"])), "\"a\" \"b c\"");
    assert_eq!(escape_to_list(&strings(&[])), "");
}

#[test]
fn escape_to_list_escapes_double_quotes() {
    assert_eq!(escape_to_list(&strings(&["sa\"y"])), "\"sa\\\"y\"");
}

#[test]
fn services_hook_disables_before_enabling() {
    let hook = services(&strings(&["a"]), &strings(&["b"]));
    let disable = hook.find("systemctl disable \"$service\"").unwrap();
    let stop = hook.find("systemctl stop \"$service\"").unwrap();
    let enable = hook.find("systemctl enable \"$service\"").unwrap();
    let start = hook.find("systemctl start \"$service\"").unwrap();
    assert!(disable < enable);
    assert!(stop < enable);
    assert!(enable < start);
    assert!(hook.find("for service in \"b\"; do").unwrap() < hook.find(
        "for service in \"a\"; do",
    ).unwrap());
    assert!(hook.starts_with("#!/bin/bash\necho \"I: running $0\"\n\nset -e\n"));
}

#[test]
fn services_hook_exact_text_disable_only() {
    let hook = services(&strings(&[]), &strings(&["b"]));
    assert_eq!(
        hook,
        "#!/bin/bash\necho \"I: running $0\"\n\nset -e\n\
         for service in \"b\"; do\n\
         \x20   echo \"Disabling $service\"\n\
         \x20   systemctl disable \"$service\" || true\n\
         \x20   systemctl stop \"$service\" || true\n\
         done\n"
    );
}

#[test]
fn services_hook_empty_sets_contribute_nothing() {
    let hook = services(&strings(&[]), &strings(&[]));
    assert_eq!(hook, "#!/bin/bash\necho \"I: running $0\"\n\nset -e\n");
}

#[test]
fn gen_services_hook_has_plain_preamble() {
    let hook = gen_services_hook(&strings(&["a"]), &strings(&[]));
    assert!(hook.starts_with("#!/bin/bash\necho \"I: running $0\"\n\nfor service in \"a\"; do\n"));
    assert!(hook.contains("systemctl enable \"$service\" || true"));
    assert!(hook.contains("systemctl start \"$service\" || true"));
}

#[test]
fn apt_install_exact_text() {
    let hook = apt_install(&strings(&["vim", "git"]), "apt");
    assert_eq!(
        hook,
        "#!/bin/bash\necho \"I: running $0\"\n\nset -e\n\
         mv /tmp/apt-keyrings-cache-debr/*.gpg /etc/apt/keyrings/\n\
         rm -rf /tmp/apt-keyrings-cache-debr/\n\
         apt update\n\n\
         echo \"Installing packages: vim git\"\n\
         DEBIAN_FRONTEND=noninteractive apt install -y --no-install-recommends \"vim\" \"git\"\n\
         \n\
         echo \"Packages installed successfully.\"\n"
    );
}

#[test]
fn apt_install_aptitude_keeps_recommends() {
    let hook = apt_install(&strings(&["vim"]), "aptitude");
    assert!(hook.contains("aptitude install -y \"vim\"\n"));
    assert!(!hook.contains("--no-install-recommends"));
}

#[test]
fn gen_apt_install_hook_uses_apt_get() {
    let hook = gen_apt_install_hook(&strings(&["foo-tools"]));
    assert!(hook.contains("set -e  # Exit immediately if a command exits with a non-zero status\n"));
    assert!(hook.contains("apt update\n\n"));
    assert!(hook.contains(
        "DEBIAN_FRONTEND=noninteractive apt-get install -y --no-install-recommends \"foo-tools\"\n",
    ));
}

#[test]
fn apt_purge_tolerates_missing_packages() {
    let hook = apt_purge(&strings(&["old-pkg"]));
    assert!(hook.contains("for package in \"old-pkg\"; do\n"));
    assert!(hook.contains("if [ $exit_code -eq 100 ]; then\n        continue\n"));
    assert!(hook.ends_with("echo \"Purge complete\"\n"));
}

#[test]
fn gnome_dark_hook_applies_preferences_and_self_removes() {
    let hook = gnome_set_dark();
    assert!(hook.contains("color-scheme 'prefer-dark'"));
    assert!(hook.contains("gtk-theme 'Adwaita-dark'"));
    assert!(hook.contains("button-layout ':minimize,maximize,close'"));
    assert!(hook.contains("rm /etc/systemd/system/apply_gnome_settings.service"));
    assert!(hook.contains("systemctl disable \"apply_gnome_settings.service\""));
}

#[test]
fn logger_wrap_exact_text() {
    let wrapped = logger_wrap("echo hi");
    assert_eq!(
        wrapped,
        "#!/bin/bash\nLOG_FILE=/tmp/debr_boot_script.log\nset -e \n\
         exec &>> $LOG_FILE\necho \"I: running $0\"\n\n\
         echo hi\n\
         echo \"Script completed successfully.\" >> $LOG_FILE\n"
    );
}

#[test]
fn snap_hook_keeps_the_set_order() {
    let mut set: OrderSet<String> = OrderSet::new();
    set.insert("second-app".to_string());
    set.insert("first-app".to_string());
    set.insert("second-app".to_string());
    let hook = snap_install_from(&set, "/tmp/snap-cache");
    assert!(hook.contains("snap_cache=\"/tmp/snap-cache\"\n"));
    assert!(hook.contains("for package in \"second-app\" \"first-app\"; do\n"));
    assert!(hook.contains("snap ack \"$snap_cache/$package.assert\"\n"));
    assert!(hook.contains("snap install --classic \"$snap_cache/$package.snap\"\n"));
    assert!(hook.ends_with("systemctl disable \"snapd_installer.service\""));
}
