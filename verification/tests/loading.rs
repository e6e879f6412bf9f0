use pcb_core::bundle::{Bundle, BundleLoadResolver, BundleManifest, BundleMetadata, LoadedBundle};
use pcb_core::lang::error::{BenchTestResult, Error, SuppressedDiagnostics};
use pcb_core::provider::{FileProviderError, NoopRemoteFetcher, RemoteFetcher};
use pcb_core::resolve::resolver::{
    merge_aliases, missing_file_error, remote_relative_spec, resolve_local_target, should_track, LocalTarget,
};
use pcb_core::resolve::remote::{
    alias_folder, alias_link_path, archive_url, cached_file, clone_urls, download_failure_message, remote_cache_root,
    DefaultRemoteFetcher,
};
use pcb_core::resolve::{LoadSpec, RefKind, RemoteRef, RemoteRefMeta, ResolveContext};
use pcb_core::strmap::StrMap;

fn gh(path: &str) -> LoadSpec {
    LoadSpec::Github { user: "acme".to_string(), repo: "parts".to_string(), rev: "v1".to_string(), path: path.to_string() }
}

fn local(path: &str, ws: bool) -> LoadSpec {
    LoadSpec::Path { path: path.to_string(), workspace_relative: ws, allow_not_exist: false }
}

fn metadata() -> BundleMetadata {
    BundleMetadata { created_at: "2024-01-01T00:00:00Z".to_string(), version: "1".to_string(), description: None, build_config: None }
}

#[test]
fn loads_from_remote_files_stay_in_their_package() {
    let cur = gh("modules/amp/amp.zen");
    match remote_relative_spec(&cur, &local("../common/r.zen", false)) {
        Some(LoadSpec::Github { path, rev, .. }) => {
            assert_eq!(path, "modules/common/r.zen");
            assert_eq!(rev, "v1");
        },
        other => panic!("unexpected {:?}", other),
    }
    match remote_relative_spec(&cur, &local("lib/x.zen", true)) {
        Some(LoadSpec::Github { path, .. }) => assert_eq!(path, "lib/x.zen"),
        other => panic!("unexpected {:?}", other),
    }
    assert!(remote_relative_spec(&cur, &local("/abs/x.zen", false)).is_none());
    assert!(remote_relative_spec(&local("/w/a.zen", false), &local("b.zen", false)).is_none());
    assert!(cur.is_remote());
    assert_eq!(cur.path(), "modules/amp/amp.zen");

    let mut ctx = ResolveContext::new("/cache/amp.zen".to_string(), gh("modules/amp/amp.zen"), local("r.zen", false));
    assert!(ctx.handle_remote_relative_paths().is_ok());
    assert!(matches!(ctx.latest_spec(), LoadSpec::Github { path, .. } if path == "modules/amp/r.zen"));
}

#[test]
fn local_targets_and_missing_files() {
    assert!(matches!(
        resolve_local_target(&local("lib/a.zen", true), "/ws", "/ws/boards/main.zen"),
        LocalTarget::Resolved(p) if p == "/ws/lib/a.zen"
    ));
    assert!(matches!(
        resolve_local_target(&local("/abs/a.zen", false), "/ws", "/ws/boards/main.zen"),
        LocalTarget::Resolved(p) if p == "/abs/a.zen"
    ));
    assert!(matches!(
        resolve_local_target(&local("../lib/a.zen", false), "/ws", "/ws/boards/main.zen"),
        LocalTarget::Canonicalize(p) if p == "/ws/boards/../lib/a.zen"
    ));
    assert_eq!(missing_file_error("/ws/x.zen", false, &local("x.zen", false)).unwrap(), "File not found: /ws/x.zen");
    assert!(missing_file_error("/ws/x.zen", true, &local("x.zen", false)).is_none());
    let optional = LoadSpec::Path { path: "x.zen".to_string(), workspace_relative: false, allow_not_exist: true };
    assert!(missing_file_error("/ws/x.zen", false, &optional).is_none());
    assert!(should_track(&gh("a.zen"), true));
    assert!(!should_track(&gh("a.zen"), false));
}

#[test]
fn deeper_aliases_win() {
    let mut inner = StrMap::new();
    inner.insert("stdlib".to_string(), "@github/me/stdlib:v2".to_string());
    let mut outer = StrMap::new();
    outer.insert("stdlib".to_string(), "@github/org/stdlib:v1".to_string());
    outer.insert("parts".to_string(), "@github/org/parts".to_string());
    let merged = merge_aliases(&vec![("/ws/b/pcb.toml".to_string(), inner), ("/ws/pcb.toml".to_string(), outer)]);
    let stdlib = merged.get("stdlib").unwrap();
    assert_eq!(stdlib.target, "@github/me/stdlib:v2");
    assert_eq!(stdlib.source_path, Some("/ws/b/pcb.toml".to_string()));
    assert_eq!(merged.get("parts").unwrap().source_path, Some("/ws/pcb.toml".to_string()));
    assert_eq!(merged.get("kicad-symbols").unwrap().source_path, None);
}

#[test]
fn bundles_resolve_through_their_load_map() {
    let mut per_file = StrMap::new();
    per_file.insert("@stdlib/units.zen".to_string(), "deps/stdlib/units.zen".to_string());
    let mut load_map = StrMap::new();
    load_map.insert("main.zen".to_string(), per_file);
    let manifest = BundleManifest { entry_point: "main.zen".to_string(), load_map, metadata: metadata() };
    let r = BundleLoadResolver::new(Bundle::new("/b".to_string(), manifest));
    assert_eq!(r.resolve_path("/b/main.zen", "@stdlib/units.zen"), "deps/stdlib/units.zen");
    assert_eq!(r.resolve_path("/b/main.zen", "other.zen"), "other.zen");
    assert_eq!(r.resolve_path("/elsewhere/main.zen", "@stdlib/units.zen"), "@stdlib/units.zen");

    let loaded = LoadedBundle::from_entries(
        BundleManifest { entry_point: "main.zen".to_string(), load_map: StrMap::new(), metadata: metadata() },
        vec![
            ("bundle.toml".to_string(), Some("x".to_string())),
            ("main.zen".to_string(), Some("load(\"a\")".to_string())),
            ("img.png".to_string(), None),
        ],
    );
    assert_eq!(loaded.entry_point(), "main.zen");
    assert_eq!(loaded.bundle.bundle_path, "/");
    assert_eq!(loaded.file_provider.files.get("/main.zen").unwrap(), "load(\"a\")");
    assert!(loaded.file_provider.files.get("/bundle.toml").is_none());
    assert!(loaded.file_provider.files.get("/img.png").is_none());

    let empty = Bundle::empty("/tmp/b".to_string(), metadata());
    assert_eq!(empty.manifest.entry_point, "");
    assert_eq!(BundleMetadata::now("2".to_string()).version, "2");
}

#[test]
fn messages_of_errors() {
    assert_eq!(Error::Io("denied".to_string()).message(), "I/O error: denied");
    assert_eq!(Error::Parse("bad".to_string()).message(), "Parse error: bad");
    assert_eq!(FileProviderError::NotFound("/x".to_string()).message(), "File not found: /x");
    assert_eq!(FileProviderError::PermissionDenied("/x".to_string()).message(), "Permission denied: /x");
    assert_eq!(FileProviderError::IoError("boom".to_string()).message(), "IO error: boom");
    let s: SuppressedDiagnostics<u8> = SuppressedDiagnostics { suppressed: vec![1] };
    assert_eq!(s.message(), "Suppressed similar diagnostics");
    let r = BenchTestResult {
        test_bench_name: "tb".to_string(),
        case_name: None,
        check_name: "c".to_string(),
        file_path: "f".to_string(),
        passed: true,
    };
    assert!(!r.message().is_empty());
    let refused = NoopRemoteFetcher.fetch_remote(&gh("a.zen"), "/ws").unwrap_err();
    assert!(refused.starts_with("Remote fetch for @github/acme/parts:v1"));
    assert!(refused.ends_with("Run 'pcb vendor' to download dependencies locally."));
}

#[test]
fn remote_cache_layout_and_addresses() {
    let lab = LoadSpec::Gitlab { project_path: "kicad/libraries/symbols".to_string(), rev: "9.0.0".to_string(), path: "Device.kicad_sym".to_string() };
    assert_eq!(remote_cache_root("/c", &gh("a.zen")).unwrap(), "/c/github/acme/parts/v1");
    assert_eq!(remote_cache_root("/c", &lab).unwrap(), "/c/gitlab/kicad/libraries/symbols/9.0.0");
    assert_eq!(
        remote_cache_root("/c", &local("x.zen", false)).unwrap_err(),
        "ensure_remote_cached only handles remote specs"
    );
    assert_eq!(cached_file("/c/github/acme/parts/v1", &gh("m/a.zen")), "/c/github/acme/parts/v1/m/a.zen");
    assert_eq!(cached_file("/c/root", &gh("")), "/c/root");
    assert_eq!(alias_folder(&gh("a.zen")).unwrap(), "github/acme/parts/v1");
    assert_eq!(alias_folder(&lab).unwrap(), "gitlab/kicad/libraries/symbols/9.0.0");
    assert!(alias_folder(&local("x", false)).is_none());
    assert_eq!(alias_link_path("/ws", "github/acme/parts/v1", "m/a.zen"), "/ws/.pcb/cache/github/acme/parts/v1/m/a.zen");
    assert_eq!(alias_link_path("/ws", "stdlib", ""), "/ws/.pcb/cache/stdlib");
    assert_eq!(clone_urls(&gh("a")), vec!["https://github.com/acme/parts.git", "git@github.com:acme/parts.git"]);
    assert_eq!(
        clone_urls(&lab),
        vec!["https://gitlab.com/kicad/libraries/symbols.git", "git@gitlab.com:kicad/libraries/symbols.git"]
    );
    assert_eq!(archive_url(&gh("a")).unwrap(), "https://codeload.github.com/acme/parts/tar.gz/v1");
    assert_eq!(
        archive_url(&lab).unwrap(),
        "https://gitlab.com/api/v4/projects/kicad%2Flibraries%2Fsymbols/repository/archive.tar.gz?sha=9.0.0"
    );
    assert_eq!(
        download_failure_message(&gh("a"), 500, "500 Internal Server Error").unwrap(),
        "Failed to download GitHub repo acme/parts at v1 (HTTP 500 Internal Server Error)"
    );
    assert!(download_failure_message(&gh("a"), 404, "404 Not Found")
        .unwrap()
        .ends_with("If this repository is private, set an access token in GITHUB_TOKEN."));
    assert!(download_failure_message(&lab, 401, "401 Unauthorized").unwrap().contains("GITLAB_TOKEN"));
    assert!(!download_failure_message(&lab, 403, "403 Forbidden").unwrap().contains("GITLAB_TOKEN"));

    let mut f = DefaultRemoteFetcher::new();
    let r = RemoteRef::GitHub { user: "acme".to_string(), repo: "parts".to_string(), rev: "v1".to_string() };
    assert!(f.remote_ref_meta(&r).is_none());
    f.record_meta(&r, None);
    assert!(f.remote_ref_meta(&r).is_none());
    f.record_meta(&r, Some(RemoteRefMeta { commit_sha1: "abc".to_string(), commit_sha256: None, kind: RefKind::Tag }));
    f.record_meta(&r, Some(RemoteRefMeta { commit_sha1: "def".to_string(), commit_sha256: None, kind: RefKind::Unstable }));
    let m = f.remote_ref_meta(&r).unwrap();
    assert_eq!(m.commit_sha1, "abc");
    assert!(m.stable());
}
