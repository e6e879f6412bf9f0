use pcb_core::resolve::aliases::{alias_toml_candidates, count_components, parent_dir, up_directories};
use pcb_core::strmap::StrMap;
use pcb_core::provider::{FileProvider, FileProviderError, NoopRemoteFetcher};
use pcb_core::resolve::tracking::CoreLoadResolver;
use pcb_core::resolve::{LoadSpec, RemoteRef};

struct Files(Vec<String>);

impl FileProvider for Files {
    fn read_file(&self, path: &str) -> Result<String, FileProviderError> {
        Err(FileProviderError::NotFound(path.to_string()))
    }
    fn file_exists(&self, path: &str) -> bool {
        self.0.iter().any(|p| p == path)
    }
    fn is_directory(&self, _path: &str) -> bool {
        false
    }
    fn list_directory(&self, path: &str) -> Result<Vec<String>, FileProviderError> {
        Err(FileProviderError::NotFound(path.to_string()))
    }
    fn canonicalize(&self, path: &str) -> Result<String, FileProviderError> {
        Ok(path.to_string())
    }
}

fn resolver(files: &[&str]) -> CoreLoadResolver<Files, NoopRemoteFetcher> {
    CoreLoadResolver::new(Files(files.iter().map(|s| s.to_string()).collect()), NoopRemoteFetcher, "/ws".to_string(), false)
}

fn gh(path: &str) -> LoadSpec {
    LoadSpec::Github { user: "acme".to_string(), repo: "parts".to_string(), rev: "v1".to_string(), path: path.to_string() }
}

#[test]
fn recorded_specs_are_read_back() {
    let mut r = resolver(&["/cache/acme/parts/r.zen"]);
    assert_eq!(r.workspace_root(), "/ws");
    r.insert_load_spec("/cache/acme/parts/r.zen".to_string(), gh("r.zen"));
    r.insert_load_spec("/cache/acme/parts/missing.zen".to_string(), gh("missing.zen"));
    assert!(matches!(r.get_load_spec("/cache/acme/parts/r.zen"), Some(LoadSpec::Github { ref path, .. }) if path == "r.zen"));
    assert!(r.get_load_spec("/cache/acme/parts/missing.zen").is_none());
    assert!(matches!(r.remote_ref("/cache/acme/parts/r.zen"), Some(RemoteRef::GitHub { ref rev, .. }) if rev == "v1"));
    assert!(r.remote_ref("/ws/none.zen").is_none());
    assert!(r.remote_ref_meta(&RemoteRef::GitHub { user: "a".into(), repo: "b".into(), rev: "c".into() }).is_none());

    let files = r.get_tracked_files();
    assert_eq!(files.len(), 1);
    assert_eq!(files[0].0, "/cache/acme/parts/r.zen");
}

#[test]
fn footprint_library_paths_are_not_recorded() {
    let mut r = resolver(&[]);
    let p = "/x/gitlab/kicad/libraries/kicad-footprints/R.kicad_mod".to_string();
    r.record_load_spec(
        p.clone(),
        LoadSpec::Path { path: p.clone(), workspace_relative: false, allow_not_exist: false },
        true,
    );
    assert!(r.get_load_spec(&p).is_none());
    r.record_load_spec("/ws/a.zen".to_string(), gh("a.zen"), true);
    r.record_load_spec("/ws/a.zen".to_string(), gh("b.zen"), true);
    assert!(matches!(r.get_load_spec("/ws/a.zen"), Some(LoadSpec::Github { ref path, .. }) if path == "b.zen"));
}

#[test]
fn entry_points_are_tracked_once() {
    let mut r = resolver(&["/ws/main.zen"]);
    r.track_file("/ws/main.zen".to_string());
    assert!(matches!(
        r.get_load_spec("/ws/main.zen"),
        Some(LoadSpec::Path { ref path, workspace_relative: false, allow_not_exist: false }) if path == "/ws/main.zen"
    ));
    r.record_load_spec("/ws/main.zen".to_string(), gh("main.zen"), true);
    r.track_file("/ws/main.zen".to_string());
    assert!(matches!(r.get_load_spec("/ws/main.zen"), Some(LoadSpec::Github { .. })));
    r.track_file("/ws/gone.zen".to_string());
    assert!(r.get_load_spec("/ws/gone.zen").is_none());
    assert_eq!(r.get_tracked_files().len(), 1);
}

#[test]
fn alias_candidates_walk_up_to_root() {
    assert_eq!(
        alias_toml_candidates("/ws/boards/main/main.zen", "/ws"),
        vec![
            "/ws/boards/main/main.zen/pcb.toml".to_string(),
            "/ws/boards/main/pcb.toml".to_string(),
            "/ws/boards/pcb.toml".to_string(),
            "/ws/pcb.toml".to_string(),
        ]
    );
    assert!(alias_toml_candidates("/wsx/a.zen", "/ws").is_empty());
    assert_eq!(parent_dir("/a"), Some("/".to_string()));
    assert_eq!(parent_dir("/"), None);
    assert_eq!(count_components("lib/sub/x.zen"), 3);
    assert_eq!(up_directories("/cache/acme/parts/lib/x.zen", 2), "/cache/acme/parts");
}

#[test]
fn cached_aliases_are_read_back() {
    let mut r = resolver(&[]);
    assert!(r.cached_aliases("/ws/boards").is_none());
    let mut inner = StrMap::new();
    inner.insert("stdlib".to_string(), "@github/me/stdlib:v2".to_string());
    inner.insert("parts".to_string(), "@github/me/parts:v1".to_string());
    let mut outer = StrMap::new();
    outer.insert("parts".to_string(), "@github/org/parts:v0".to_string());
    let tomls = vec![("/ws/boards/pcb.toml".to_string(), inner), ("/ws/pcb.toml".to_string(), outer)];
    r.cache_aliases("/ws/boards".to_string(), &tomls);
    let m = r.cached_aliases("/ws/boards").unwrap();
    assert_eq!(m.get("stdlib").unwrap().target, "@github/me/stdlib:v2");
    assert_eq!(m.get("parts").unwrap().target, "@github/me/parts:v1");
    assert_eq!(m.get("parts").unwrap().source_path.as_deref(), Some("/ws/boards/pcb.toml"));
    assert!(m.get("kicad-symbols").unwrap().source_path.is_none());
}
