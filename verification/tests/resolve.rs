use pcb_core::resolve::path::normalize_path;
use pcb_core::resolve::warnings::{check_and_create_unstable_ref_warning, format_spec_without_path};
use pcb_core::resolve::{classify_ref, AliasInfo, LoadSpec, RefKind, RemoteRef, ResolveContext, ResolveError};

#[test]
fn default_package_aliases() {
    let aliases = LoadSpec::default_package_aliases();
    assert_eq!(
        aliases.get("kicad-symbols").map(|a| &a.target),
        Some(&"@gitlab/kicad/libraries/kicad-symbols:9.0.0".to_string())
    );
    assert_eq!(
        aliases.get("stdlib").map(|a| &a.target),
        Some(&"@github/diodeinc/stdlib:HEAD".to_string())
    );
}

#[test]
fn default_aliases_without_workspace() {
    let aliases = LoadSpec::default_package_aliases();
    assert_eq!(
        aliases.get("kicad-symbols").map(|a| &a.target),
        Some(&"@gitlab/kicad/libraries/kicad-symbols:9.0.0".to_string())
    );
    assert_eq!(
        aliases.get("stdlib").map(|a| &a.target),
        Some(&"@github/diodeinc/stdlib:HEAD".to_string())
    );
    assert!(aliases.get("nonexistent").is_none());
}

#[test]
fn normalizes_paths() {
    assert_eq!(normalize_path("/a/b/../c/./d"), "/a/c/d");
    assert_eq!(normalize_path("a//b/"), "a/b");
    assert_eq!(normalize_path("../x"), "../x");
    assert_eq!(normalize_path("../../x"), "../../x");
    assert_eq!(normalize_path("a/../../b"), "../b");
    assert_eq!(normalize_path("/.."), "/..");
    assert_eq!(normalize_path(""), "");
}

fn pkg(name: &str) -> LoadSpec {
    LoadSpec::Package { package: name.to_string(), tag: "latest".to_string(), path: "x.zen".to_string() }
}

fn gh(rev: &str) -> LoadSpec {
    LoadSpec::Github { user: "u".to_string(), repo: "r".to_string(), rev: rev.to_string(), path: "x.zen".to_string() }
}

#[test]
fn resolution_history_detects_cycles() {
    let mut c = ResolveContext::new("/w/a.zen".to_string(), pkg("self"), pkg("stdlib"));
    assert!(c.push_spec(gh("HEAD")).is_ok());
    match c.push_spec(pkg("stdlib")) {
        Err(ResolveError::CircularDependency(m)) => assert_eq!(
            m,
            "Circular dependency detected: spec @stdlib:latest/x.zen creates a cycle in resolution history"
        ),
        Ok(()) => panic!("a cycle was accepted"),
    }
    assert_eq!(c.spec_history.len(), 2);
    assert!(matches!(c.latest_spec(), LoadSpec::Github { .. }));
    assert!(matches!(c.original_spec(), LoadSpec::Package { .. }));
}

#[test]
fn remote_refs_and_classification() {
    let r = RemoteRef::GitHub { user: "u".to_string(), repo: "r".to_string(), rev: "main".to_string() };
    assert_eq!(r.repo_url(), Some("https://github.com/u/r".to_string()));
    assert_eq!(r.rev(), "main");
    let l = RemoteRef::GitLab { project_path: "a/b".to_string(), rev: "v1".to_string() };
    assert_eq!(l.repo_url(), Some("https://gitlab.com/a/b".to_string()));
    let sha = "0123456789abcdef0123456789abcdef01234567".to_string();
    assert_eq!(classify_ref("v1", true, Some(sha.clone()), sha.clone()).kind, RefKind::Tag);
    assert_eq!(classify_ref("01234567", false, None, sha.clone()).kind, RefKind::Commit);
    assert_eq!(classify_ref("0123", false, None, sha.clone()).kind, RefKind::Unstable);
    assert!(!classify_ref("main", false, None, sha).stable());
}

#[test]
fn unstable_reference_warning() {
    let mut c = ResolveContext::new("/w/a.zen".to_string(), pkg("self"), pkg("stdlib"));
    c.alias_info.insert(
        "stdlib".to_string(),
        AliasInfo { target: "@github/u/r:HEAD".to_string(), source_path: Some("/w/pcb.toml".to_string()) },
    );
    c.push_spec(gh("HEAD")).unwrap();
    let meta = classify_ref("HEAD", false, None, "abc".to_string());
    let w = check_and_create_unstable_ref_warning("/w/a.zen", &c, Some(meta)).unwrap();
    assert_eq!(w.message, "'@stdlib:latest' is an unstable reference. Use a pinned version.");
    let (toml, msg) = w.alias_note.unwrap();
    assert_eq!(toml, "/w/pcb.toml");
    assert_eq!(msg, "'@github/u/r:HEAD' is an unstable reference. Use a pinned version.");
    let stable = classify_ref("v1", true, Some("abc".to_string()), "abc".to_string());
    assert!(check_and_create_unstable_ref_warning("/w/a.zen", &c, Some(stable)).is_none());
    assert_eq!(
        format_spec_without_path(&LoadSpec::Path { path: "a/b".to_string(), workspace_relative: true, allow_not_exist: false }),
        "//a/b"
    );
}
