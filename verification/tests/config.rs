use pcb_core::config::{
    member_globs, member_patterns, with_default_board, BoardConfig, BoardInfo, DiscoveryState, PcbToml,
    WorkspaceConfig, WorkspaceInfo,
};
use pcb_core::strmap::StrMap;

fn toml_with_board(name: &str, path: &str) -> PcbToml {
    PcbToml {
        workspace: None,
        module: None,
        board: Some(BoardConfig { name: name.to_string(), path: path.to_string(), description: String::new() }),
        packages: StrMap::new(),
    }
}

#[test]
fn discovery_rules() {
    let patterns = member_patterns(&None);
    assert_eq!(patterns, vec!["boards/*".to_string(), "boards".to_string()]);
    let globs = member_globs(&None).ok().unwrap();
    let mut st = DiscoveryState::new();
    assert!(st.is_member_dir(&globs, "boards/main"));
    assert!(!st.is_member_dir(&globs, "other/x"));
    st.add_member_toml("/w/boards/main".to_string(), "boards/main", "/w/boards/main/pcb.toml".to_string(), Ok(toml_with_board("Main", "main.zen")));
    st.add_member_toml("/w/boards/dup".to_string(), "boards/dup", "/w/boards/dup/pcb.toml".to_string(), Ok(toml_with_board("MAIN", "dup.zen")));
    st.add_member_toml("/w/boards/bad".to_string(), "boards/bad", "/w/boards/bad/pcb.toml".to_string(), Err("oops".to_string()));
    assert!(st.is_visited("/w/boards/main"));
    st.add_legacy_dir("boards/alpha", &vec!["alpha.zen".to_string(), "notes.txt".to_string()], "/w/boards/alpha");
    st.add_legacy_dir("boards/two", &vec!["a.zen".to_string(), "b.zen".to_string()], "/w/boards/two");
    let r = st.finish();
    let names: Vec<&str> = r.boards.iter().map(|b| b.name.as_str()).collect();
    assert_eq!(names, vec!["Main", "alpha"]);
    assert_eq!(r.boards[0].zen_path, "boards/main/main.zen");
    assert_eq!(r.boards[1].zen_path, "boards/alpha/alpha.zen");
    assert_eq!(r.errors.len(), 2);
    assert_eq!(r.errors[0].error, "Duplicate board name: 'MAIN'");
    assert_eq!(r.errors[1].error, "Failed to parse pcb.toml: oops");

    let cfg = with_default_board(None, &r.boards).unwrap();
    assert_eq!(cfg.default_board, Some("alpha".to_string()));
    assert_eq!(cfg.members, vec!["boards/*".to_string()]);
    let kept = with_default_board(
        Some(WorkspaceConfig { name: None, members: vec![], default_board: Some("Main".to_string()) }),
        &r.boards,
    )
    .unwrap();
    assert_eq!(kept.default_board, Some("Main".to_string()));

    let info = WorkspaceInfo { root: "/w".to_string(), config: None, boards: r.boards, errors: vec![] };
    assert_eq!(info.board_name_for_zen("/w/boards/alpha/alpha.zen"), Some("alpha".to_string()));
    assert_eq!(info.board_name_for_zen("/w/boards/x.zen"), None);
}

#[test]
fn pcb_toml_kinds_and_paths() {
    let t = toml_with_board("B", "b.zen");
    assert!(t.is_board() && !t.is_module() && !t.is_workspace());
    let b = BoardInfo { name: "B".to_string(), zen_path: "boards/b/b.zen".to_string(), description: String::new() };
    assert_eq!(b.absolute_zen_path("/w"), "/w/boards/b/b.zen");
    assert_eq!(b.absolute_zen_path("/w/"), "/w/boards/b/b.zen");
}

#[test]
fn member_globs_reports_bad_pattern() {
    let bad = Some(WorkspaceConfig { name: None, members: vec!["boards/[".to_string()], default_board: None });
    let e = member_globs(&bad).err().unwrap();
    assert!(!e.is_empty());
    let good = Some(WorkspaceConfig { name: None, members: vec!["hw/*".to_string()], default_board: None });
    assert!(member_globs(&good).is_ok());
}
