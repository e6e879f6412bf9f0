//! The decisions of load resolution: how a path loaded from a remote file is
//! taken relative to that file's package, which package aliases a file sees,
//! where a local load points, which resolved files are recorded, and when a
//! missing file is an error. Reading the file system and fetching packages is
//! the caller's part.
use vstd::prelude::*;

use super::path::{lemma_normalized_relative, normalize_path, normalized};
use super::{AliasInfo, LoadSpec, LoadSpecView, ResolveContext, ResolveError};
use crate::config::{join_path, path_join};
use crate::lang::component::{parent_dir, parent_of};
use crate::strmap::StrMap;
use crate::text::{concat, has_prefix};

verus! {

/// Whether a spec names a package to fetch (a package alias, GitHub or GitLab).
pub open spec fn is_remote_spec(s: LoadSpecView) -> bool {
    !(s is Path)
}

/// The path a spec names within its package (or the path itself).
pub open spec fn spec_path(s: LoadSpecView) -> Seq<char> {
    match s {
        LoadSpecView::Package { path, .. } => path,
        LoadSpecView::Github { path, .. } => path,
        LoadSpecView::Gitlab { path, .. } => path,
        LoadSpecView::Path { path, .. } => path,
    }
}

/// The spec with its path replaced.
pub open spec fn with_path_spec(s: LoadSpecView, p: Seq<char>) -> LoadSpecView {
    match s {
        LoadSpecView::Package { package, tag, .. } => LoadSpecView::Package { package, tag, path: p },
        LoadSpecView::Github { user, repo, rev, .. } => LoadSpecView::Github { user, repo, rev, path: p },
        LoadSpecView::Gitlab { project_path, rev, .. } => LoadSpecView::Gitlab { project_path, rev, path: p },
        LoadSpecView::Path { workspace_relative, allow_not_exist, .. } => LoadSpecView::Path {
            path: p,
            workspace_relative,
            allow_not_exist,
        },
    }
}

impl LoadSpec {
    /// Whether the spec names a package to fetch.
    pub fn is_remote(&self) -> (r: bool)
        ensures
            r == is_remote_spec(self@),
    {
        !matches!(self, LoadSpec::Path { .. })
    }

    /// The path the spec names within its package.
    pub fn path(&self) -> (r: &str)
        ensures
            r@ == spec_path(self@),
    {
        match self {
            LoadSpec::Package { path, .. } => path.as_str(),
            LoadSpec::Github { path, .. } => path.as_str(),
            LoadSpec::Gitlab { path, .. } => path.as_str(),
            LoadSpec::Path { path, .. } => path.as_str(),
        }
    }

    /// The spec with its path replaced.
    pub fn with_path(&self, p: String) -> (r: LoadSpec)
        ensures
            r@ == with_path_spec(self@, p@),
    {
        match self {
            LoadSpec::Package { package, tag, .. } => LoadSpec::Package {
                package: package.clone(),
                tag: tag.clone(),
                path: p,
            },
            LoadSpec::Github { user, repo, rev, .. } => LoadSpec::Github {
                user: user.clone(),
                repo: repo.clone(),
                rev: rev.clone(),
                path: p,
            },
            LoadSpec::Gitlab { project_path, rev, .. } => LoadSpec::Gitlab {
                project_path: project_path.clone(),
                rev: rev.clone(),
                path: p,
            },
            LoadSpec::Path { workspace_relative, allow_not_exist, .. } => LoadSpec::Path {
                path: p,
                workspace_relative: *workspace_relative,
                allow_not_exist: *allow_not_exist,
            },
        }
    }
}

/// A path taken from a directory.
pub open spec fn dir_join(dir: Seq<char>, p: Seq<char>) -> Seq<char> {
    path_join(dir, p)
}

/// The spec a path loaded from a file of a remote package stands for: a
/// workspace path is taken from the package's root, a relative path from the
/// file's directory within the package; an absolute path stays as it is.
pub open spec fn remote_relative(current: LoadSpecView, latest: LoadSpecView) -> Option<LoadSpecView> {
    if !is_remote_spec(current) {
        None
    } else {
        match latest {
            LoadSpecView::Path { path, workspace_relative, .. } => if workspace_relative {
                Some(with_path_spec(current, path))
            } else if !(path.len() > 0 && path[0] == '/') {
                let dir = match parent_dir(spec_path(current)) {
                    Some(d) => d,
                    None => Seq::empty(),
                };
                Some(with_path_spec(current, normalized(dir_join(dir, path))))
            } else {
                None
            },
            _ => None,
        }
    }
}

/// The spec a path loaded from a file of a remote package stands for.
pub fn remote_relative_spec(current: &LoadSpec, latest: &LoadSpec) -> (r: Option<LoadSpec>)
    ensures
        match remote_relative(current@, latest@) {
            Some(s) => r matches Some(x) && x@ == s,
            None => r is None,
        },
{
    if !current.is_remote() {
        return None;
    }
    match latest {
        LoadSpec::Path { path, workspace_relative, .. } => {
            if *workspace_relative {
                Some(current.with_path(path.clone()))
            } else if !(path.as_str().unicode_len() > 0 && path.as_str().get_char(0) == '/') {
                let dir = match parent_of(current.path()) {
                    Some(d) => d,
                    None => String::new(),
                };
                let joined = join_path(dir.as_str(), path.as_str());
                Some(current.with_path(normalize_path(joined.as_str())))
            } else {
                None
            }
        },
        _ => None,
    }
}

impl ResolveContext {
    /// When the current file comes from a remote package, take a path load
    /// relative to that package and push the spec it stands for.
    pub fn handle_remote_relative_paths(&mut self) -> (r: Result<(), ResolveError>)
        requires
            old(self).wf(),
        ensures
            final(self).wf(),
            final(self).current_file@ == old(self).current_file@,
            final(self).current_file_spec@ == old(self).current_file_spec@,
            match remote_relative(old(self).current_file_spec@, old(self).history().last()) {
                None => r is Ok && final(self).history() == old(self).history(),
                Some(s) => if old(self).history().contains(s) {
                    r is Err && final(self).history() == old(self).history()
                } else {
                    r is Ok && final(self).history() == old(self).history().push(s)
                },
            },
    {
        let next = remote_relative_spec(&self.current_file_spec, self.latest_spec());
        match next {
            Some(s) => self.push_spec(s),
            None => Ok(()),
        }
    }
}

/// Whether a resolved file is recorded with its spec: a path spec must be
/// absolute; the kicad-footprints library loaded by absolute path is not
/// recorded, nor is a file that does not exist.
pub open spec fn kept_in_record(spec: LoadSpecView, present: bool) -> bool {
    let footprints = match spec {
        LoadSpecView::Path { path, .. } => crate::sch::entries::has_infix(path, "gitlab/kicad/libraries/kicad-footprints"@),
        _ => false,
    };
    !footprints && present
}

/// Decide whether a resolved file is recorded with its spec.
pub fn should_track(spec: &LoadSpec, present: bool) -> (r: bool)
    requires
        spec@ matches LoadSpecView::Path { path, workspace_relative, .. } ==> path.len() > 0 && path[0] == '/'
            && !workspace_relative,
    ensures
        r == kept_in_record(spec@, present),
{
    let footprints = match spec {
        LoadSpec::Path { path, .. } => crate::sch::entries::contains_text(
            path.as_str(),
            "gitlab/kicad/libraries/kicad-footprints",
        ),
        _ => false,
    };
    !footprints && present
}

/// Where a local load points: a workspace path under the effective
/// workspace root, an absolute path as it is, a relative path under the
/// current file's directory (which the caller then makes canonical).
pub enum LocalTarget {
    Resolved(String),
    Canonicalize(String),
}

/// The target of a local load, as plain values: the path, and whether it is
/// still to be made canonical.
pub open spec fn local_target(spec: LoadSpecView, root: Seq<char>, current_file: Seq<char>) -> (Seq<char>, bool) {
    match spec {
        LoadSpecView::Path { path, workspace_relative, .. } => if workspace_relative {
            (path_join(root, path), false)
        } else if path.len() > 0 && path[0] == '/' {
            (path, false)
        } else {
            let dir = match parent_dir(current_file) {
                Some(d) => d,
                None => Seq::empty(),
            };
            (path_join(dir, path), true)
        },
        _ => (Seq::empty(), false),
    }
}

/// Decide where a local load points.
pub fn resolve_local_target(spec: &LoadSpec, effective_root: &str, current_file: &str) -> (r: LocalTarget)
    requires
        spec@ is Path,
    ensures
        match r {
            LocalTarget::Resolved(p) => local_target(spec@, effective_root@, current_file@) == (p@, false),
            LocalTarget::Canonicalize(p) => local_target(spec@, effective_root@, current_file@) == (p@, true),
        },
{
    match spec {
        LoadSpec::Path { path, workspace_relative, .. } => {
            if *workspace_relative {
                LocalTarget::Resolved(join_path(effective_root, path.as_str()))
            } else if path.as_str().unicode_len() > 0 && path.as_str().get_char(0) == '/' {
                LocalTarget::Resolved(path.clone())
            } else {
                let dir = match parent_of(current_file) {
                    Some(d) => d,
                    None => String::new(),
                };
                LocalTarget::Canonicalize(join_path(dir.as_str(), path.as_str()))
            }
        },
        _ => LocalTarget::Resolved(String::new()),
    }
}

/// Whether a spec allows its file not to exist.
pub open spec fn allows_missing(s: LoadSpecView) -> bool {
    match s {
        LoadSpecView::Path { allow_not_exist, .. } => allow_not_exist,
        _ => false,
    }
}

/// The error for a resolved file that does not exist, unless the original
/// spec allows that.
pub fn missing_file_error(resolved: &str, present: bool, original: &LoadSpec) -> (r: Option<String>)
    ensures
        match r {
            Some(m) => !present && !allows_missing(original@) && m@ == "File not found: "@ + resolved@,
            None => present || allows_missing(original@),
        },
{
    let allowed = match original {
        LoadSpec::Path { allow_not_exist, .. } => *allow_not_exist,
        _ => false,
    };
    if !present && !allowed {
        Some(concat("File not found: ", resolved))
    } else {
        None
    }
}

/// The aliases a file sees: the built-in ones, then those of each pcb.toml
/// from the outermost to the innermost, a deeper file's alias replacing an
/// outer one of the same name. `tomls` lists the pcb.toml files from the
/// file's directory upward, each with its path and its aliases.
pub open spec fn aliases_seen(tomls: Seq<(Seq<char>, Map<Seq<char>, Seq<char>>)>) -> Map<
    Seq<char>,
    (Seq<char>, Option<Seq<char>>),
>
    decreases tomls.len(),
{
    if tomls.len() == 0 {
        super::default_aliases()
    } else {
        let outer = aliases_seen(tomls.drop_first());
        let (src, m) = tomls[0];
        Map::new(
            |k: Seq<char>| outer.contains_key(k) || m.contains_key(k),
            |k: Seq<char>| if m.contains_key(k) {
                (m[k], Some(src))
            } else {
                outer[k]
            },
        )
    }
}

/// Merge the aliases of the pcb.toml files above a file (listed from the
/// file's directory upward) over the built-in aliases.
pub fn merge_aliases(tomls: &Vec<(String, StrMap<String>)>) -> (r: StrMap<AliasInfo>)
    requires
        forall|i: int| 0 <= i < tomls@.len() ==> (#[trigger] tomls@[i]).1.wf(),
    ensures
        r.wf(),
        r@ == aliases_seen(tomls@.map_values(|t: (String, StrMap<String>)| (t.0@, t.1@))),
{
    let ghost tv = tomls@.map_values(|t: (String, StrMap<String>)| (t.0@, t.1@));
    let mut acc = LoadSpec::default_package_aliases();
    let mut i = tomls.len();
    proof {
        assert(tv.skip(tv.len() as int) =~= Seq::<(Seq<char>, Map<Seq<char>, Seq<char>>)>::empty());
    }
    while i > 0
        invariant
            i <= tomls@.len(),
            tv == tomls@.map_values(|t: (String, StrMap<String>)| (t.0@, t.1@)),
            forall|j: int| 0 <= j < tomls@.len() ==> (#[trigger] tomls@[j]).1.wf(),
            acc.wf(),
            acc@ == aliases_seen(tv.skip(i as int)),
        decreases i,
    {
        i = i - 1;
        let src = &tomls[i].0;
        let m = &tomls[i].1;
        let es = m.entries();
        let ghost before = acc@;
        let ghost mv = m@;
        let mut k: usize = 0;
        while k < es.len()
            invariant
                m.wf(),
                mv == m@,
                es@.map_values(|e: (String, String)| e.0@) == m.key_order(),
                forall|q: int| 0 <= q < es@.len() ==> #[trigger] mv.contains_key(es@[q].0@),
                forall|q: int| 0 <= q < es@.len() ==> #[trigger] mv[es@[q].0@] == es@[q].1@,
                k <= es@.len(),
                acc.wf(),
                forall|key: Seq<char>|
                    #[trigger] acc@.contains_key(key) == (before.contains_key(key) || exists|q: int|
                        0 <= q < k && es@[q].0@ == key),
                forall|key: Seq<char>|
                    acc@.contains_key(key) ==> #[trigger] acc@[key] == if (exists|q: int| 0 <= q < k && es@[q].0@ == key) {
                        (mv[key], Some(src@))
                    } else {
                        before[key]
                    },
            decreases es@.len() - k,
        {
            acc.insert(es[k].0.clone(), AliasInfo { target: es[k].1.clone(), source_path: Some(src.clone()) });
            k = k + 1;
        }
        proof {
            assert(tv.skip(i as int).drop_first() =~= tv.skip(i + 1));
            assert(tv.skip(i as int)[0] == tv[i as int]);
            assert forall|key: Seq<char>| mv.contains_key(key) <==> exists|q: int| 0 <= q < es@.len() && es@[q].0@ == key by {
                m.lemma_key_order_contains(key);
                if mv.contains_key(key) {
                    let q = choose|q: int| 0 <= q < m.key_order().len() && m.key_order()[q] == key;
                    assert(es@.map_values(|e: (String, String)| e.0@)[q] == key);
                }
            }
            assert(acc@ =~= aliases_seen(tv.skip(i as int)));
        }
    }
    proof {
        assert(tv.skip(0) =~= tv);
    }
    acc
}


/// A relative load from a file of a remote package stays in that package: the
/// result is a spec of the same package whose path does not start with `/`
/// (when the file's own path within the package does not), and from a file at
/// the package's root it is the loaded path, normalized.
pub proof fn lemma_remote_relative_inside(current: LoadSpecView, latest: LoadSpecView)
    requires
        is_remote_spec(current),
        !(spec_path(current).len() > 0 && spec_path(current)[0] == '/'),
        latest matches LoadSpecView::Path { path, workspace_relative, .. } && !workspace_relative && !(path.len() > 0
            && path[0] == '/'),
    ensures
        remote_relative(current, latest) is Some,
        remote_relative(current, latest)->0 == with_path_spec(current, spec_path(remote_relative(current, latest)->0)),
        !(spec_path(remote_relative(current, latest)->0).len() > 0 && spec_path(remote_relative(current, latest)->0)[0]
            == '/'),
        !spec_path(current).contains('/') ==> spec_path(remote_relative(current, latest)->0) == normalized(spec_path(latest)),
{
    let cp = spec_path(current);
    let p = spec_path(latest);
    let dir = match parent_dir(cp) {
        Some(d) => d,
        None => Seq::<char>::empty(),
    };
    lemma_last_slash_props(cp);
    if cp.len() > 0 {
        match crate::lang::component::last_slash(cp) {
            Some(i) => {
                assert(i != 0);
                assert(dir =~= cp.subrange(0, i));
                assert(dir[0] == cp[0]);
            },
            None => {
                assert(dir =~= Seq::<char>::empty());
            },
        }
    }
    let j = dir_join(dir, p);
    assert(!(j.len() > 0 && j[0] == '/')) by {
        if dir.len() == 0 || dir.last() == '/' {
            assert(j =~= dir + p);
            if dir.len() > 0 {
                assert(j[0] == dir[0]);
            } else if p.len() > 0 {
                assert(j[0] == p[0]);
            }
        } else {
            assert(j[0] == dir[0]);
        }
    }
    lemma_normalized_relative(j);
    let r = normalized(j);
    let s = with_path_spec(current, r);
    assert(spec_path(s) == r);
    assert(with_path_spec(current, spec_path(s)) == s);
    if !cp.contains('/') {
        assert(dir =~= Seq::<char>::empty()) by {
            if cp.len() > 0 {
                if crate::lang::component::last_slash(cp) is Some {
                    let i = crate::lang::component::last_slash(cp)->0;
                    assert(cp[i] == '/');
                }
            }
        }
        assert(j =~= p);
    }
}

proof fn lemma_last_slash_props(p: Seq<char>)
    ensures
        crate::lang::component::last_slash(p) matches Some(i) ==> 0 <= i < p.len() && p[i] == '/',
    decreases p.len(),
{
    if p.len() > 0 && p.last() != '/' {
        lemma_last_slash_props(p.drop_last());
    }
}

} // verus!
