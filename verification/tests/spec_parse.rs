use pcb_core::resolve::spec_parse::{DEFAULT_GITHUB_REV, DEFAULT_GITLAB_REV, DEFAULT_PKG_TAG};
use pcb_core::resolve::warnings::format_spec_without_path;
use pcb_core::resolve::LoadSpec;

fn package(package: &str, tag: &str, path: &str) -> Option<LoadSpec> {
    Some(LoadSpec::Package { package: package.to_string(), tag: tag.to_string(), path: path.to_string() })
}

fn github(rev: &str, path: &str) -> Option<LoadSpec> {
    Some(LoadSpec::Github { user: "foo".to_string(), repo: "bar".to_string(), rev: rev.to_string(), path: path.to_string() })
}

fn gitlab(project: &str, rev: &str, path: &str) -> Option<LoadSpec> {
    Some(LoadSpec::Gitlab { project_path: project.to_string(), rev: rev.to_string(), path: path.to_string() })
}

#[test]
fn parses_package_without_tag() {
    assert_eq!(LoadSpec::parse("@stdlib/math.zen"), package("stdlib", DEFAULT_PKG_TAG, "math.zen"));
}

#[test]
fn parses_package_with_tag_and_root_path() {
    assert_eq!(LoadSpec::parse("@stdlib:1.2.3"), package("stdlib", "1.2.3", ""));
}

#[test]
fn parses_github_with_rev_and_path() {
    assert_eq!(LoadSpec::parse("@github/foo/bar:abc123/scripts/build.zen"), github("abc123", "scripts/build.zen"));
}

#[test]
fn parses_github_without_rev() {
    assert_eq!(LoadSpec::parse("@github/foo/bar/scripts/build.zen"), github(DEFAULT_GITHUB_REV, "scripts/build.zen"));
}

#[test]
fn parses_github_repo_root_with_rev() {
    assert_eq!(LoadSpec::parse("@github/foo/bar:main"), github("main", ""));
}

#[test]
fn parses_github_repo_root_with_long_commit() {
    let sha = "0123456789abcdef0123456789abcdef01234567";
    let input = format!("@github/foo/bar:{sha}");
    assert_eq!(LoadSpec::parse(&input), github(sha, ""));
}

#[test]
fn parses_gitlab_with_rev_and_path() {
    assert_eq!(LoadSpec::parse("@gitlab/foo/bar:abc123/scripts/build.zen"), gitlab("foo/bar", "abc123", "scripts/build.zen"));
}

#[test]
fn parses_gitlab_without_rev() {
    assert_eq!(
        LoadSpec::parse("@gitlab/foo/bar/scripts/build.zen"),
        gitlab("foo/bar", DEFAULT_GITLAB_REV, "scripts/build.zen")
    );
}

#[test]
fn parses_gitlab_repo_root_with_rev() {
    assert_eq!(LoadSpec::parse("@gitlab/foo/bar:main"), gitlab("foo/bar", "main", ""));
}

#[test]
fn parses_gitlab_repo_root_with_long_commit() {
    let sha = "0123456789abcdef0123456789abcdef01234567";
    let input = format!("@gitlab/foo/bar:{sha}");
    assert_eq!(LoadSpec::parse(&input), gitlab("foo/bar", sha, ""));
}

#[test]
fn parses_gitlab_nested_groups_with_rev() {
    assert_eq!(
        LoadSpec::parse("@gitlab/kicad/libraries/kicad-symbols:main/Device.kicad_sym"),
        gitlab("kicad/libraries/kicad-symbols", "main", "Device.kicad_sym")
    );
}

#[test]
fn parses_gitlab_simple_without_rev_with_file_path() {
    assert_eq!(LoadSpec::parse("@gitlab/user/repo/src/main.zen"), gitlab("user/repo", DEFAULT_GITLAB_REV, "src/main.zen"));
}

#[test]
fn parses_gitlab_nested_groups_no_file() {
    assert_eq!(
        LoadSpec::parse("@gitlab/kicad/libraries/kicad-symbols:v7.0.0"),
        gitlab("kicad/libraries/kicad-symbols", "v7.0.0", "")
    );
}

#[test]
fn alias_with_custom_tag_override() {
    assert_eq!(LoadSpec::parse("@stdlib:zen/math.zen"), package("stdlib", "zen", "math.zen"));
    assert_eq!(LoadSpec::parse("@stdlib/math.zen"), package("stdlib", DEFAULT_PKG_TAG, "math.zen"));
    assert_eq!(LoadSpec::parse("@kicad-symbols:8.0.0/Device.kicad_sym"), package("kicad-symbols", "8.0.0", "Device.kicad_sym"));
}

#[test]
fn parses_paths_and_refuses_incomplete_specs() {
    assert_eq!(
        LoadSpec::parse("//lib/a.zen"),
        Some(LoadSpec::Path { path: "lib/a.zen".to_string(), workspace_relative: true, allow_not_exist: false })
    );
    assert_eq!(
        LoadSpec::parse("../a.zen"),
        Some(LoadSpec::Path { path: "../a.zen".to_string(), workspace_relative: false, allow_not_exist: false })
    );
    assert_eq!(LoadSpec::parse("@"), None);
    assert_eq!(LoadSpec::parse("@:1.0"), None);
    assert_eq!(LoadSpec::parse("@github/foo"), None);
    assert_eq!(LoadSpec::parse("@github//bar"), None);
    assert_eq!(LoadSpec::parse("@gitlab/foo"), None);
    assert_eq!(LoadSpec::parse("@gitlab/:v1"), None);
    assert_eq!(LoadSpec::parse("@stdlib"), package("stdlib", DEFAULT_PKG_TAG, ""));
}

#[test]
fn text_without_path_reads_back() {
    let specs = vec![
        LoadSpec::Package { package: "stdlib".to_string(), tag: "1.2.3".to_string(), path: "math.zen".to_string() },
        LoadSpec::Github { user: "foo".to_string(), repo: "bar".to_string(), rev: "abc".to_string(), path: "x/y.zen".to_string() },
        LoadSpec::Gitlab { project_path: "g/sub/proj".to_string(), rev: "v1".to_string(), path: "a.zen".to_string() },
    ];
    for spec in specs {
        let text = format_spec_without_path(&spec);
        let back = LoadSpec::parse(&text).unwrap();
        let expected = match spec {
            LoadSpec::Package { package, tag, .. } => LoadSpec::Package { package, tag, path: String::new() },
            LoadSpec::Github { user, repo, rev, .. } => LoadSpec::Github { user, repo, rev, path: String::new() },
            LoadSpec::Gitlab { project_path, rev, .. } => LoadSpec::Gitlab { project_path, rev, path: String::new() },
            other => other,
        };
        assert_eq!(back, expected);
    }
}
