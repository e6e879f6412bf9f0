//! The text form of a load spec: `@<package>[:<tag>][/<path>]`,
//! `@github/<user>/<repo>[:<rev>][/<path>]`, `@gitlab/<project>[:<rev>][/<path>]`,
//! `//<path>` for a workspace path, and any other text as a path.
use vstd::prelude::*;

use super::resolver::with_path_spec;
use super::warnings::spec_text;
use super::{LoadSpec, LoadSpecView};
use crate::text::{find_char, first_index_of, has_prefix, starts_with, substring};

verus! {

/// The tag of a package spec that names none.
pub const DEFAULT_PKG_TAG: &'static str = "latest";

/// The revision of a GitHub spec that names none.
pub const DEFAULT_GITHUB_REV: &'static str = "HEAD";

/// The revision of a GitLab spec that names none.
pub const DEFAULT_GITLAB_REV: &'static str = "HEAD";

/// The position of the first `:` or `/`.
pub open spec fn first_sep(s: Seq<char>) -> Option<int> {
    match (first_index_of(s, ':'), first_index_of(s, '/')) {
        (None, None) => None,
        (Some(a), None) => Some(a),
        (None, Some(b)) => Some(b),
        (Some(a), Some(b)) => Some(if a < b { a } else { b }),
    }
}

/// A name, the revision after a `:` when there is one, and the path after the
/// following `/`.
pub open spec fn name_rev_path(s: Seq<char>) -> (Seq<char>, Option<Seq<char>>, Seq<char>) {
    match first_sep(s) {
        None => (s, None, Seq::empty()),
        Some(i) => if s[i] == ':' {
            let after = s.skip(i + 1);
            match first_index_of(after, '/') {
                None => (s.take(i), Some(after), Seq::empty()),
                Some(j) => (s.take(i), Some(after.take(j)), after.skip(j + 1)),
            }
        } else {
            (s.take(i), None, s.skip(i + 1))
        },
    }
}

/// The revision given, or the default.
pub open spec fn or_default(r: Option<Seq<char>>, d: Seq<char>) -> Seq<char> {
    match r {
        Some(x) => x,
        None => d,
    }
}

/// A GitHub spec from the text after `@github/`.
pub open spec fn github_spec(r: Seq<char>) -> Option<LoadSpecView> {
    match first_index_of(r, '/') {
        None => None,
        Some(u) => {
            let (repo, rev, path) = name_rev_path(r.skip(u + 1));
            if u == 0 || repo.len() == 0 {
                None
            } else {
                Some(LoadSpecView::Github { user: r.take(u), repo, rev: or_default(rev, DEFAULT_GITHUB_REV@), path })
            }
        },
    }
}

/// A GitLab spec from the text after `@gitlab/`: with a revision, the project
/// is everything before the `:`; without one, its first two segments.
pub open spec fn gitlab_spec(r: Seq<char>) -> Option<LoadSpecView> {
    match first_index_of(r, ':') {
        Some(k) => {
            let after = r.skip(k + 1);
            let (rev, path) = match first_index_of(after, '/') {
                None => (after, Seq::empty()),
                Some(j) => (after.take(j), after.skip(j + 1)),
            };
            if k == 0 {
                None
            } else {
                Some(LoadSpecView::Gitlab { project_path: r.take(k), rev, path })
            }
        },
        None => match first_index_of(r, '/') {
            None => None,
            Some(a) => {
                let r2 = r.skip(a + 1);
                let (s2, path) = match first_index_of(r2, '/') {
                    None => (r2, Seq::empty()),
                    Some(b) => (r2.take(b), r2.skip(b + 1)),
                };
                if a == 0 || s2.len() == 0 {
                    None
                } else {
                    Some(
                        LoadSpecView::Gitlab {
                            project_path: r.take(a) + "/"@ + s2,
                            rev: DEFAULT_GITLAB_REV@,
                            path,
                        },
                    )
                }
            },
        },
    }
}

/// The spec a load path stands for; none when it is not well formed.
pub open spec fn parse_spec(s: Seq<char>) -> Option<LoadSpecView> {
    if has_prefix(s, "@"@) {
        let rest = s.skip(1);
        if has_prefix(rest, "github/"@) {
            github_spec(rest.skip(7))
        } else if has_prefix(rest, "gitlab/"@) {
            gitlab_spec(rest.skip(7))
        } else {
            let (package, tag, path) = name_rev_path(rest);
            if package.len() == 0 {
                None
            } else {
                Some(LoadSpecView::Package { package, tag: or_default(tag, DEFAULT_PKG_TAG@), path })
            }
        }
    } else if has_prefix(s, "//"@) {
        Some(LoadSpecView::Path { path: s.skip(2), workspace_relative: true, allow_not_exist: false })
    } else {
        Some(LoadSpecView::Path { path: s, workspace_relative: false, allow_not_exist: false })
    }
}

fn first_separator(s: &str) -> (r: Option<usize>)
    ensures
        match r {
            Some(i) => first_sep(s@) == Some(i as int) && i < s@.len(),
            None => first_sep(s@) is None,
        },
{
    match (find_char(s, ':'), find_char(s, '/')) {
        (None, None) => None,
        (Some(a), None) => Some(a),
        (None, Some(b)) => Some(b),
        (Some(a), Some(b)) => Some(if a < b { a } else { b }),
    }
}

fn split_name_rev_path(s: &str) -> (r: (String, Option<String>, String))
    ensures
        ({
            let (n, v, p) = name_rev_path(s@);
            &&& r.0@ == n
            &&& crate::text::opt_str(r.1) == v
            &&& r.2@ == p
        }),
{
    let n = s.unicode_len();
    match first_separator(s) {
        None => (s.to_owned(), None, String::new()),
        Some(i) => {
            if s.get_char(i) == ':' {
                let after = substring(s, i + 1, n);
                let m = after.as_str().unicode_len();
                match find_char(after.as_str(), '/') {
                    None => (substring(s, 0, i), Some(after), String::new()),
                    Some(j) => (
                        substring(s, 0, i),
                        Some(substring(after.as_str(), 0, j)),
                        substring(after.as_str(), j + 1, m),
                    ),
                }
            } else {
                (substring(s, 0, i), None, substring(s, i + 1, n))
            }
        },
    }
}

fn default_or(r: Option<String>, d: &str) -> (x: String)
    ensures
        x@ == or_default(crate::text::opt_str(r), d@),
{
    match r {
        Some(v) => v,
        None => d.to_owned(),
    }
}

fn parse_github(r: &str) -> (x: Option<LoadSpec>)
    ensures
        match x {
            Some(v) => github_spec(r@) == Some(v@),
            None => github_spec(r@) is None,
        },
{
    let n = r.unicode_len();
    match find_char(r, '/') {
        None => None,
        Some(u) => {
            let tail = substring(r, u + 1, n);
            let (repo, rev, path) = split_name_rev_path(tail.as_str());
            if u == 0 || repo.as_str().unicode_len() == 0 {
                None
            } else {
                Some(
                    LoadSpec::Github {
                        user: substring(r, 0, u),
                        repo,
                        rev: default_or(rev, DEFAULT_GITHUB_REV),
                        path,
                    },
                )
            }
        },
    }
}

fn parse_gitlab(r: &str) -> (x: Option<LoadSpec>)
    ensures
        match x {
            Some(v) => gitlab_spec(r@) == Some(v@),
            None => gitlab_spec(r@) is None,
        },
{
    let n = r.unicode_len();
    match find_char(r, ':') {
        Some(k) => {
            let after = substring(r, k + 1, n);
            let m = after.as_str().unicode_len();
            let (rev, path) = match find_char(after.as_str(), '/') {
                None => (after.clone(), String::new()),
                Some(j) => (substring(after.as_str(), 0, j), substring(after.as_str(), j + 1, m)),
            };
            if k == 0 {
                None
            } else {
                Some(LoadSpec::Gitlab { project_path: substring(r, 0, k), rev, path })
            }
        },
        None => match find_char(r, '/') {
            None => None,
            Some(a) => {
                let r2 = substring(r, a + 1, n);
                let m = r2.as_str().unicode_len();
                let (s2, path) = match find_char(r2.as_str(), '/') {
                    None => (r2.clone(), String::new()),
                    Some(b) => (substring(r2.as_str(), 0, b), substring(r2.as_str(), b + 1, m)),
                };
                if a == 0 || s2.as_str().unicode_len() == 0 {
                    None
                } else {
                    let mut project = substring(r, 0, a);
                    project.append("/");
                    project.append(s2.as_str());
                    proof {
                        reveal_strlit("/");
                    }
                    Some(LoadSpec::Gitlab { project_path: project, rev: DEFAULT_GITLAB_REV.to_owned(), path })
                }
            },
        },
    }
}

impl LoadSpec {
    /// The spec a load path stands for: `@<package>[:<tag>][/<path>]` (tag
    /// `latest` when none), `@github/<user>/<repo>[:<rev>][/<path>]` and
    /// `@gitlab/<project>[:<rev>][/<path>]` (revision `HEAD` when none; without a
    /// revision a GitLab project is its first two segments), `//<path>` for a
    /// path under the workspace root, and any other text as a path. `None` when
    /// a package, user, repository or project is missing.
    pub fn parse(s: &str) -> (r: Option<LoadSpec>)
        ensures
            match r {
                Some(v) => parse_spec(s@) == Some(v@),
                None => parse_spec(s@) is None,
            },
    {
        let n = s.unicode_len();
        proof {
            reveal_strlit("@");
            reveal_strlit("github/");
            reveal_strlit("gitlab/");
            reveal_strlit("//");
        }
        if starts_with(s, "@") {
            let rest = substring(s, 1, n);
            let m = rest.as_str().unicode_len();
            proof {
                assert(rest@ =~= s@.skip(1));
            }
            if starts_with(rest.as_str(), "github/") {
                let r = substring(rest.as_str(), 7, m);
                proof {
                    assert(r@ =~= rest@.skip(7));
                }
                parse_github(r.as_str())
            } else if starts_with(rest.as_str(), "gitlab/") {
                let r = substring(rest.as_str(), 7, m);
                proof {
                    assert(r@ =~= rest@.skip(7));
                }
                parse_gitlab(r.as_str())
            } else {
                let (package, tag, path) = split_name_rev_path(rest.as_str());
                if package.as_str().unicode_len() == 0 {
                    None
                } else {
                    Some(LoadSpec::Package { package, tag: default_or(tag, DEFAULT_PKG_TAG), path })
                }
            }
        } else if starts_with(s, "//") {
            let p = substring(s, 2, n);
            proof {
                assert(p@ =~= s@.skip(2));
            }
            Some(LoadSpec::Path { path: p, workspace_relative: true, allow_not_exist: false })
        } else {
            Some(LoadSpec::Path { path: s.to_owned(), workspace_relative: false, allow_not_exist: false })
        }
    }
}

proof fn lemma_first_index_concat(a: Seq<char>, b: Seq<char>, c: char)
    ensures
        first_index_of(a + b, c) == match first_index_of(a, c) {
            Some(i) => Some(i),
            None => match first_index_of(b, c) {
                Some(j) => Some(a.len() + j),
                None => None::<int>,
            },
        },
    decreases a.len(),
{
    if a.len() == 0 {
        assert(a + b =~= b);
    } else {
        assert((a + b)[0] == a[0]);
        assert((a + b).drop_first() =~= a.drop_first() + b);
        lemma_first_index_concat(a.drop_first(), b, c);
    }
}

proof fn lemma_first_index_absent(a: Seq<char>, c: char)
    requires
        !a.contains(c),
    ensures
        first_index_of(a, c) is None,
    decreases a.len(),
{
    if a.len() > 0 {
        assert(a[0] != c);
        assert(!a.drop_first().contains(c)) by {
            if a.drop_first().contains(c) {
                let k = choose|k: int| 0 <= k < a.drop_first().len() && a.drop_first()[k] == c;
                assert(a[k + 1] == c);
            }
        }
        lemma_first_index_absent(a.drop_first(), c);
    }
}

/// `name` followed by `:` and `rev`, where the name holds neither `:` nor `/`
/// and the revision no `/`, splits back into them.
proof fn lemma_name_rev(name: Seq<char>, rev: Seq<char>)
    requires
        !name.contains(':'),
        !name.contains('/'),
        !rev.contains('/'),
    ensures
        name_rev_path(name + ":"@ + rev) == (name, Some(rev), Seq::<char>::empty()),
{
    reveal_strlit(":");
    let t = name + ":"@ + rev;
    assert(t =~= name + (seq![':'] + rev));
    lemma_first_index_concat(name, seq![':'] + rev, ':');
    lemma_first_index_concat(name, seq![':'] + rev, '/');
    lemma_first_index_absent(name, ':');
    lemma_first_index_absent(name, '/');
    lemma_first_index_concat(seq![':'], rev, '/');
    lemma_first_index_absent(rev, '/');
    assert(first_index_of(seq![':'], '/') is None) by {
        assert(seq![':'].drop_first() =~= Seq::<char>::empty());
        assert(first_index_of(seq![':'].drop_first(), '/') is None);
        assert(seq![':'][0] != '/');
    }
    assert(first_index_of(seq![':'] + rev, ':') == Some(0int));
    assert(t[name.len() as int] == ':');
    assert(t.skip((name.len() + 1) as int) =~= rev);
    assert(t.take(name.len() as int) =~= name);
}

/// A revision or tag can be written after a `:`: it holds no `/`.
pub open spec fn plain_rev(r: Seq<char>) -> bool {
    !r.contains('/')
}

/// A name can be written before a `:`: it is not empty and holds neither `:` nor `/`.
pub open spec fn plain_name(n: Seq<char>) -> bool {
    n.len() > 0 && !n.contains(':') && !n.contains('/')
}

/// A spec whose text without its path reads back as itself: its names and
/// revisions hold no separators where they would end early, and a plain path
/// does not look like a package or workspace path.
pub open spec fn reads_back(s: LoadSpecView) -> bool {
    match s {
        LoadSpecView::Package { package, tag, .. } => plain_name(package) && plain_rev(tag),
        LoadSpecView::Github { user, repo, rev, .. } => user.len() > 0 && !user.contains('/') && plain_name(repo)
            && plain_rev(rev),
        LoadSpecView::Gitlab { project_path, rev, .. } => project_path.len() > 0 && !project_path.contains(':')
            && plain_rev(rev),
        LoadSpecView::Path { path, workspace_relative, allow_not_exist } => !allow_not_exist && (workspace_relative
            || !(has_prefix(path, "@"@) || has_prefix(path, "//"@))),
    }
}

/// Reading back the text of a spec without its path gives the spec with an
/// empty path (a path spec, whose text is its path, gives itself).
pub proof fn lemma_parse_spec_text(s: LoadSpecView)
    requires
        reads_back(s),
    ensures
        s is Path ==> parse_spec(spec_text(s)) == Some(s),
        !(s is Path) ==> parse_spec(spec_text(s)) == Some(with_path_spec(s, Seq::empty())),
{
    reveal_strlit("@");
    reveal_strlit("//");
    reveal_strlit(":");
    reveal_strlit("/");
    reveal_strlit("github/");
    reveal_strlit("gitlab/");
    reveal_strlit("@github/");
    reveal_strlit("@gitlab/");
    match s {
        LoadSpecView::Package { package, tag, path } => {
            let t = spec_text(s);
            let rest = package + ":"@ + tag;
            assert(t =~= "@"@ + rest);
            assert(t.subrange(0, 1) =~= "@"@);
            assert(has_prefix(t, "@"@));
            assert(t.skip(1) =~= rest);
            assert(!has_prefix(rest, "github/"@)) by {
                if has_prefix(rest, "github/"@) {
                    let k = package.len() as int;
                    assert("github/"@ =~= seq!['g', 'i', 't', 'h', 'u', 'b', '/']);
                    if k > 6 {
                        assert(rest.subrange(0, 7)[6] == rest[6]);
                        assert(rest[6] == package[6]);
                        assert(package.contains('/'));
                    } else {
                        assert(rest[k] == ':');
                        assert(rest.subrange(0, 7)[k] == rest[k]);
                        assert(k == 1 || k == 2 || k == 3 || k == 4 || k == 5 || k == 6);
                    }
                }
            }
            assert(!has_prefix(rest, "gitlab/"@)) by {
                if has_prefix(rest, "gitlab/"@) {
                    let k = package.len() as int;
                    assert("gitlab/"@ =~= seq!['g', 'i', 't', 'l', 'a', 'b', '/']);
                    if k > 6 {
                        assert(rest.subrange(0, 7)[6] == rest[6]);
                        assert(rest[6] == package[6]);
                        assert(package.contains('/'));
                    } else {
                        assert(rest[k] == ':');
                        assert(rest.subrange(0, 7)[k] == rest[k]);
                        assert(k == 1 || k == 2 || k == 3 || k == 4 || k == 5 || k == 6);
                    }
                }
            }
            lemma_name_rev(package, tag);
            assert(name_rev_path(rest) == (package, Some(tag), Seq::<char>::empty()));
            assert(parse_spec(t) == Some(LoadSpecView::Package { package, tag, path: Seq::empty() }));
            assert(with_path_spec(s, Seq::empty()) == LoadSpecView::Package { package, tag, path: Seq::empty() });
            assert(parse_spec(spec_text(s)) == Some(with_path_spec(s, Seq::empty())));
        },
        LoadSpecView::Github { user, repo, rev, path } => {
            let t = spec_text(s);
            let r = user + "/"@ + repo + ":"@ + rev;
            assert(t =~= "@"@ + ("github/"@ + r));
            assert(t.subrange(0, 1) =~= "@"@);
            assert(has_prefix(t, "@"@));
            assert(t.skip(1) =~= "github/"@ + r);
            assert(t.skip(1).subrange(0, 7) =~= "github/"@);
            assert(has_prefix(t.skip(1), "github/"@));
            assert(t.skip(1).skip(7) =~= r);
            assert(r =~= user + (seq!['/'] + (repo + ":"@ + rev)));
            lemma_first_index_concat(user, seq!['/'] + (repo + ":"@ + rev), '/');
            lemma_first_index_absent(user, '/');
            assert(first_index_of(seq!['/'] + (repo + ":"@ + rev), '/') == Some(0int));
            assert(r.skip((user.len() + 1) as int) =~= repo + ":"@ + rev);
            assert(r.take(user.len() as int) =~= user);
            lemma_name_rev(repo, rev);
            assert(parse_spec(spec_text(s)) == Some(with_path_spec(s, Seq::empty())));
        },
        LoadSpecView::Gitlab { project_path, rev, path } => {
            let t = spec_text(s);
            let r = project_path + ":"@ + rev;
            assert(t =~= "@"@ + ("gitlab/"@ + r));
            assert(t.subrange(0, 1) =~= "@"@);
            assert(has_prefix(t, "@"@));
            assert(t.skip(1) =~= "gitlab/"@ + r);
            assert(t.skip(1).subrange(0, 7) =~= "gitlab/"@);
            assert(has_prefix(t.skip(1), "gitlab/"@));
            assert(!has_prefix(t.skip(1), "github/"@)) by {
                assert(t.skip(1)[3] == 'l');
                assert("github/"@[3] == 'h');
            }
            assert(t.skip(1).skip(7) =~= r);
            assert(r =~= project_path + (seq![':'] + rev));
            lemma_first_index_concat(project_path, seq![':'] + rev, ':');
            lemma_first_index_absent(project_path, ':');
            assert(first_index_of(seq![':'] + rev, ':') == Some(0int));
            let after = r.skip((project_path.len() + 1) as int);
            assert(after =~= rev);
            lemma_first_index_absent(rev, '/');
            assert(r.take(project_path.len() as int) =~= project_path);
            assert(parse_spec(spec_text(s)) == Some(with_path_spec(s, Seq::empty())));
        },
        LoadSpecView::Path { path, workspace_relative, allow_not_exist } => {
            if workspace_relative {
                let t = spec_text(s);
                assert(t =~= "//"@ + path);
                assert(t.subrange(0, 2) =~= "//"@);
                assert(has_prefix(t, "//"@));
                assert(!has_prefix(t, "@"@)) by {
                    assert(t[0] == '/');
                }
                assert(t.skip(2) =~= path);
            }
        },
    }
}

} // verus!
