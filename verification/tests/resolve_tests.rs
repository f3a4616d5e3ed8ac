use debr::cfg::{Config, ConfigError};
use debr::resolve::{resolve, Module};

fn strings(items: &[&str]) -> Vec<String> {
    items.iter().map(|v| v.to_string()).collect()
}

fn module(name: &str, config: Config) -> Module {
    Module { name: name.to_string(), config }
}

#[test]
fn resolve_without_requirements_returns_the_root() {
    let mut root = Config::empty();
    root.dist = Some("bookworm".to_string());
    let resolved = resolve(&root, &Vec::new()).unwrap();
    assert_eq!(resolved.dist.as_deref(), Some("bookworm"));
}

#[test]
fn resolve_merges_a_required_module() {
    let mut root = Config::empty();
    root.requires = Some(strings(&["desktop"]));
    root.includes = Some(strings(&["vim"]));
    let mut desktop = Config::empty();
    desktop.includes = Some(strings(&["gnome-shell"]));
    desktop.dark_mode = Some(true);
    let modules = vec![module("desktop", desktop)];
    let resolved = resolve(&root, &modules).unwrap();
    assert_eq!(resolved.includes.unwrap(), strings(&["vim", "gnome-shell"]));
    assert_eq!(resolved.dark_mode, Some(true));
}

#[test]
fn resolve_follows_nested_requirements_depth_first() {
    let mut root = Config::empty();
    root.requires = Some(strings(&["mid"]));
    let mut mid = Config::empty();
    mid.requires = Some(strings(&["base"]));
    mid.includes = Some(strings(&["mid-pkg"]));
    let mut base = Config::empty();
    base.includes = Some(strings(&["base-pkg"]));
    base.lang = Some("en".to_string());
    let modules = vec![module("mid", mid), module("base", base)];
    let resolved = resolve(&root, &modules).unwrap();
    assert_eq!(resolved.includes.unwrap(), strings(&["mid-pkg", "base-pkg"]));
    assert_eq!(resolved.lang.as_deref(), Some("en"));
}

#[test]
fn resolve_reports_a_missing_module() {
    let mut root = Config::empty();
    root.requires = Some(strings(&["ghost"]));
    let e = resolve(&root, &Vec::new()).unwrap_err();
    match e {
        ConfigError::NotFound { module } => assert_eq!(module, "ghost"),
        other => panic!("expected a missing module, got {:?}", other),
    }
}

#[test]
fn resolve_detects_a_cycle() {
    let mut root = Config::empty();
    root.requires = Some(strings(&["a"]));
    let mut a = Config::empty();
    a.requires = Some(strings(&["b"]));
    let mut b = Config::empty();
    b.requires = Some(strings(&["a"]));
    let modules = vec![module("a", a), module("b", b)];
    let e = resolve(&root, &modules).unwrap_err();
    match e {
        ConfigError::Cycle { module } => assert_eq!(module, "a"),
        other => panic!("expected a cycle, got {:?}", other),
    }
}

#[test]
fn resolve_blames_conflicts_on_the_required_module() {
    let mut root = Config::empty();
    root.requires = Some(strings(&["other"]));
    root.dist = Some("bookworm".to_string());
    let mut other = Config::empty();
    other.dist = Some("bullseye".to_string());
    let modules = vec![module("other", other)];
    let e = resolve(&root, &modules).unwrap_err();
    match e {
        ConfigError::Conflict { field, value_a, value_b, source_module } => {
            assert_eq!(field, "dist");
            assert_eq!(value_a, "bookworm");
            assert_eq!(value_b, "bullseye");
            assert_eq!(source_module, "other");
        },
        other => panic!("expected a conflict, got {:?}", other),
    }
}
