use debr::cfg::{add, merge, Config, ConfigError, Extra};

fn strings(items: &[&str]) -> Vec<String> {
    items.iter().map(|s| s.to_string()).collect()
}

#[test]
fn merge_adopts_fields_present_on_one_side() {
    let mut a = Config::empty();
    a.dist = Some("bookworm".to_string());
    let mut b = Config::empty();
    b.arch = Some("arm64".to_string());
    b.recommends = Some(false);
    let m = merge(&a, &b).unwrap();
    assert_eq!(m.dist.as_deref(), Some("bookworm"));
    assert_eq!(m.arch.as_deref(), Some("arm64"));
    assert_eq!(m.recommends, Some(false));
    assert!(m.includes.is_none());
}

#[test]
fn merge_unions_set_fields() {
    let mut a = Config::empty();
    a.includes = Some(strings(&["vim", "git"]));
    let mut b = Config::empty();
    b.includes = Some(strings(&["git", "curl"]));
    let m = merge(&a, &b).unwrap();
    assert_eq!(m.includes.unwrap(), strings(&["vim", "git", "curl"]));
}

#[test]
fn merge_concatenates_extras() {
    let mut a = Config::empty();
    a.extras = Some(vec![Extra {
        name: "one".to_string(),
        key: "https://a/key".to_string(),
        src: "deb http://a stable main".to_string(),
        add: strings(&["pkg-a"]),
    }]);
    let mut b = Config::empty();
    b.extras = Some(vec![Extra {
        name: "two".to_string(),
        key: "https://b/key".to_string(),
        src: "deb http://b stable main".to_string(),
        add: strings(&["pkg-b"]),
    }]);
    let m = merge(&a, &b).unwrap();
    let extras = m.extras.unwrap();
    assert_eq!(extras.len(), 2);
    assert_eq!(extras[0].name, "one");
    assert_eq!(extras[1].name, "two");
}

#[test]
fn merge_is_commutative_for_compatible_specs() {
    let mut a = Config::empty();
    a.dist = Some("bookworm".to_string());
    a.includes = Some(strings(&["vim", "git"]));
    a.e_service = Some(strings(&["svc-a"]));
    let mut b = Config::empty();
    b.dist = Some("bookworm".to_string());
    b.arch = Some("amd64".to_string());
    b.includes = Some(strings(&["git", "curl"]));
    b.e_service = Some(strings(&["svc-b"]));
    let ab = merge(&a, &b).unwrap();
    let ba = merge(&b, &a).unwrap();
    assert_eq!(ab.dist, ba.dist);
    assert_eq!(ab.arch, ba.arch);
    let mut inc_ab = ab.includes.unwrap();
    let mut inc_ba = ba.includes.unwrap();
    inc_ab.sort();
    inc_ba.sort();
    assert_eq!(inc_ab, inc_ba);
    let mut e_ab = ab.e_service.unwrap();
    let mut e_ba = ba.e_service.unwrap();
    e_ab.sort();
    e_ba.sort();
    assert_eq!(e_ab, e_ba);
}

#[test]
fn merge_conflicting_dist_fails_on_that_field() {
    let mut a = Config::empty();
    a.dist = Some("bookworm".to_string());
    let mut b = Config::empty();
    b.dist = Some("bullseye".to_string());
    let e = merge(&a, &b).unwrap_err();
    match e {
        ConfigError::Conflict { field, value_a, value_b, source_module } => {
            assert_eq!(field, "dist");
            assert_eq!(value_a, "bookworm");
            assert_eq!(value_b, "bullseye");
            assert_eq!(source_module, "");
        },
        other => panic!("expected a conflict, got {:?}", other),
    }
}

#[test]
fn merge_conflicting_bool_reports_text_values() {
    let mut a = Config::empty();
    a.recommends = Some(true);
    let mut b = Config::empty();
    b.recommends = Some(false);
    let e = merge(&a, &b).unwrap_err();
    match e {
        ConfigError::Conflict { field, value_a, value_b, .. } => {
            assert_eq!(field, "recommends");
            assert_eq!(value_a, "true");
            assert_eq!(value_b, "false");
        },
        other => panic!("expected a conflict, got {:?}", other),
    }
}

#[test]
fn merge_equal_scalars_do_not_conflict() {
    let mut a = Config::empty();
    a.apt = Some("apt".to_string());
    let mut b = Config::empty();
    b.apt = Some("apt".to_string());
    let m = merge(&a, &b).unwrap();
    assert_eq!(m.apt.as_deref(), Some("apt"));
}

#[test]
fn add_blames_the_source_module() {
    let mut a = Config::empty();
    a.lang = Some("en".to_string());
    let mut b = Config::empty();
    b.lang = Some("de".to_string());
    let e = add(&a, "base-module", &b).unwrap_err();
    match e {
        ConfigError::Conflict { field, source_module, .. } => {
            assert_eq!(field, "lang");
            assert_eq!(source_module, "base-module");
        },
        other => panic!("expected a conflict, got {:?}", other),
    }
}

#[test]
fn merge_is_associative_for_compatible_specs() {
    let mut a = Config::empty();
    a.dist = Some("bookworm".to_string());
    a.includes = Some(strings(&["vim"]));
    let mut b = Config::empty();
    b.includes = Some(strings(&["git", "vim"]));
    b.lang = Some("en".to_string());
    let mut c = Config::empty();
    c.includes = Some(strings(&["curl"]));
    c.lang = Some("en".to_string());
    let ab_c = merge(&merge(&a, &b).unwrap(), &c).unwrap();
    let a_bc = merge(&a, &merge(&b, &c).unwrap()).unwrap();
    assert_eq!(ab_c.dist, a_bc.dist);
    assert_eq!(ab_c.lang, a_bc.lang);
    let mut left = ab_c.includes.unwrap();
    let mut right = a_bc.includes.unwrap();
    left.sort();
    right.sort();
    assert_eq!(left, right);
}
