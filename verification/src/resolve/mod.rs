//! Load-path resolution: load specs, package aliases, remote references and
//! the resolution history with its cycle check.
pub mod aliases;
pub mod path;
pub mod remote;
pub mod resolver;
pub mod spec_parse;
pub mod tracking;
pub mod warnings;

use vstd::prelude::*;
use vstd::string::*;

use crate::strmap::StrMap;
use crate::text::{concat, opt_str, starts_with, str_eq};
use warnings::format_spec;

verus! {

/// Kind of a resolved Git reference after fetching.
#[derive(Debug, Clone, Copy, PartialEq, Eq, Structural)]
pub enum RefKind {
    Tag,
    Commit,
    Unstable,
}

/// Remote reference identifier with structured information.
#[derive(Debug, Clone)]
pub enum RemoteRef {
    GitHub { user: String, repo: String, rev: String },
    GitLab { project_path: String, rev: String },
}

/// A remote reference as character sequences.
pub enum RemoteRefView {
    GitHub { user: Seq<char>, repo: Seq<char>, rev: Seq<char> },
    GitLab { project_path: Seq<char>, rev: Seq<char> },
}

impl View for RemoteRef {
    type V = RemoteRefView;

    open spec fn view(&self) -> RemoteRefView {
        match self {
            RemoteRef::GitHub { user, repo, rev } => RemoteRefView::GitHub { user: user@, repo: repo@, rev: rev@ },
            RemoteRef::GitLab { project_path, rev } => RemoteRefView::GitLab {
                project_path: project_path@,
                rev: rev@,
            },
        }
    }
}

/// The repository page of a remote reference.
pub open spec fn repo_url_of(r: RemoteRefView) -> Seq<char> {
    match r {
        RemoteRefView::GitHub { user, repo, .. } => "https://github.com/"@ + user + "/"@ + repo,
        RemoteRefView::GitLab { project_path, .. } => "https://gitlab.com/"@ + project_path,
    }
}

/// The revision of a remote reference.
pub open spec fn rev_of(r: RemoteRefView) -> Seq<char> {
    match r {
        RemoteRefView::GitHub { rev, .. } => rev,
        RemoteRefView::GitLab { rev, .. } => rev,
    }
}

impl RemoteRef {
    /// Get the canonical repository URL for this remote reference.
    pub fn repo_url(&self) -> (r: Option<String>)
        ensures
            r matches Some(u) && u@ == repo_url_of(self@),
    {
        match self {
            RemoteRef::GitHub { user, repo, .. } => {
                let mut u = concat("https://github.com/", user.as_str());
                u.append("/");
                u.append(repo.as_str());
                Some(u)
            },
            RemoteRef::GitLab { project_path, .. } => Some(concat("https://gitlab.com/", project_path.as_str())),
        }
    }

    /// The revision the reference names.
    pub fn rev(&self) -> (r: &str)
        ensures
            r@ == rev_of(self@),
    {
        match self {
            RemoteRef::GitHub { rev, .. } => rev.as_str(),
            RemoteRef::GitLab { rev, .. } => rev.as_str(),
        }
    }
}

/// Metadata about a resolved remote reference.
#[derive(Debug, Clone)]
pub struct RemoteRefMeta {
    /// Full 40-character SHA-1 commit id
    pub commit_sha1: String,
    /// Full SHA-256 commit id when repository uses SHA-256 object format
    pub commit_sha256: Option<String>,
    /// Classification of the ref
    pub kind: RefKind,
}

impl RemoteRefMeta {
    /// Tags and commits are stable; anything else may move.
    pub fn stable(&self) -> (b: bool)
        ensures
            b == (self.kind == RefKind::Tag || self.kind == RefKind::Commit),
    {
        match self.kind {
            RefKind::Tag | RefKind::Commit => true,
            RefKind::Unstable => false,
        }
    }
}

/// How a fetched reference is classified: a tag that exists and points at HEAD,
/// a commit id (longer than 7 bytes) that HEAD's id starts with, or unstable.
pub open spec fn ref_kind_of(
    expected: Seq<char>,
    expected_bytes: nat,
    tag_exists: bool,
    tag_sha1: Option<Seq<char>>,
    head_sha1: Seq<char>,
) -> RefKind {
    if tag_exists && tag_sha1 == Some(head_sha1) {
        RefKind::Tag
    } else if expected_bytes > 7 && crate::text::has_prefix(head_sha1, expected) {
        RefKind::Commit
    } else {
        RefKind::Unstable
    }
}

/// Classify a fetched reference from what the repository reports: whether a tag
/// of that name exists, the commit the tag points at, and the commit at HEAD.
pub fn classify_ref(expected_ref: &str, tag_exists: bool, tag_sha1: Option<String>, head_sha1: String) -> (r:
    RemoteRefMeta)
    ensures
        r.kind == ref_kind_of(
            expected_ref@,
            (expected_ref.spec_bytes().len() as usize) as nat,
            tag_exists,
            opt_str(tag_sha1),
            head_sha1@,
        ),
        r.commit_sha1@ == head_sha1@,
        r.commit_sha256 is None,
{
    let same = match &tag_sha1 {
        Some(t) => *t == head_sha1,
        None => false,
    };
    proof {
        assert(same == (opt_str(tag_sha1) == Some(head_sha1@)));
    }
    let long = expected_ref.len() > 7;
    let pre = starts_with(head_sha1.as_str(), expected_ref);
    proof {
        assert(long == ((expected_ref.spec_bytes().len() as usize) > 7));
    }
    let kind = if tag_exists && same {
        RefKind::Tag
    } else if long && pre {
        RefKind::Commit
    } else {
        RefKind::Unstable
    };
    RemoteRefMeta { commit_sha1: head_sha1, commit_sha256: None, kind }
}

/// What a `load()` refers to.
#[derive(Debug, Clone, PartialEq, Eq)]
pub enum LoadSpec {
    Package { package: String, tag: String, path: String },
    Github { user: String, repo: String, rev: String, path: String },
    Gitlab { project_path: String, rev: String, path: String },
    Path { path: String, workspace_relative: bool, allow_not_exist: bool },
}

/// A load spec as character sequences.
pub enum LoadSpecView {
    Package { package: Seq<char>, tag: Seq<char>, path: Seq<char> },
    Github { user: Seq<char>, repo: Seq<char>, rev: Seq<char>, path: Seq<char> },
    Gitlab { project_path: Seq<char>, rev: Seq<char>, path: Seq<char> },
    Path { path: Seq<char>, workspace_relative: bool, allow_not_exist: bool },
}

impl View for LoadSpec {
    type V = LoadSpecView;

    open spec fn view(&self) -> LoadSpecView {
        match self {
            LoadSpec::Package { package, tag, path } => LoadSpecView::Package {
                package: package@,
                tag: tag@,
                path: path@,
            },
            LoadSpec::Github { user, repo, rev, path } => LoadSpecView::Github {
                user: user@,
                repo: repo@,
                rev: rev@,
                path: path@,
            },
            LoadSpec::Gitlab { project_path, rev, path } => LoadSpecView::Gitlab {
                project_path: project_path@,
                rev: rev@,
                path: path@,
            },
            LoadSpec::Path { path, workspace_relative, allow_not_exist } => LoadSpecView::Path {
                path: path@,
                workspace_relative: *workspace_relative,
                allow_not_exist: *allow_not_exist,
            },
        }
    }
}

/// The remote reference a spec names: GitHub and GitLab specs name one.
pub open spec fn remote_ref_of(s: LoadSpecView) -> Option<RemoteRefView> {
    match s {
        LoadSpecView::Github { user, repo, rev, .. } => Some(RemoteRefView::GitHub { user, repo, rev }),
        LoadSpecView::Gitlab { project_path, rev, .. } => Some(RemoteRefView::GitLab { project_path, rev }),
        _ => None,
    }
}

/// Information about a package alias including its target and source.
#[derive(Debug, Clone)]
pub struct AliasInfo {
    /// The target of the alias (e.g., "@github/mycompany/components:main")
    pub target: String,
    /// The path of the pcb.toml file that defined this alias; none for built-in aliases.
    pub source_path: Option<String>,
}

impl View for AliasInfo {
    type V = (Seq<char>, Option<Seq<char>>);

    open spec fn view(&self) -> (Seq<char>, Option<Seq<char>>) {
        (self.target@, opt_str(self.source_path))
    }
}

/// The built-in package aliases.
pub open spec fn default_aliases() -> Map<Seq<char>, (Seq<char>, Option<Seq<char>>)> {
    map![
        "kicad-symbols"@ => ("@gitlab/kicad/libraries/kicad-symbols:9.0.0"@, None),
        "stdlib"@ => ("@github/diodeinc/stdlib:HEAD"@, None)
    ]
}

impl LoadSpec {
    /// Whether two specs are the same.
    pub fn same(&self, other: &LoadSpec) -> (b: bool)
        ensures
            b == (self@ == other@),
    {
        match (self, other) {
            (
                LoadSpec::Package { package: a1, tag: b1, path: c1 },
                LoadSpec::Package { package: a2, tag: b2, path: c2 },
            ) => *a1 == *a2 && *b1 == *b2 && *c1 == *c2,
            (
                LoadSpec::Github { user: a1, repo: b1, rev: c1, path: d1 },
                LoadSpec::Github { user: a2, repo: b2, rev: c2, path: d2 },
            ) => *a1 == *a2 && *b1 == *b2 && *c1 == *c2 && *d1 == *d2,
            (
                LoadSpec::Gitlab { project_path: a1, rev: b1, path: c1 },
                LoadSpec::Gitlab { project_path: a2, rev: b2, path: c2 },
            ) => *a1 == *a2 && *b1 == *b2 && *c1 == *c2,
            (
                LoadSpec::Path { path: a1, workspace_relative: b1, allow_not_exist: c1 },
                LoadSpec::Path { path: a2, workspace_relative: b2, allow_not_exist: c2 },
            ) => *a1 == *a2 && *b1 == *b2 && *c1 == *c2,
            _ => false,
        }
    }

    /// The remote reference the spec names, for GitHub and GitLab specs.
    pub fn remote_ref(&self) -> (r: Option<RemoteRef>)
        ensures
            match r {
                Some(x) => remote_ref_of(self@) == Some(x@),
                None => remote_ref_of(self@) is None,
            },
    {
        match self {
            LoadSpec::Github { user, repo, rev, .. } => Some(
                RemoteRef::GitHub { user: user.clone(), repo: repo.clone(), rev: rev.clone() },
            ),
            LoadSpec::Gitlab { project_path, rev, .. } => Some(
                RemoteRef::GitLab { project_path: project_path.clone(), rev: rev.clone() },
            ),
            _ => None,
        }
    }

    /// The built-in package aliases, available without any pcb.toml.
    pub fn default_package_aliases() -> (m: StrMap<AliasInfo>)
        ensures
            m.wf(),
            m@ == default_aliases(),
    {
        let mut m = StrMap::new();
        m.insert(
            "kicad-symbols".to_owned(),
            AliasInfo { target: "@gitlab/kicad/libraries/kicad-symbols:9.0.0".to_owned(), source_path: None },
        );
        m.insert(
            "stdlib".to_owned(),
            AliasInfo { target: "@github/diodeinc/stdlib:HEAD".to_owned(), source_path: None },
        );
        proof {
            assert(m@ =~= default_aliases());
        }
        m
    }
}

/// The message of a spec that would close a cycle.
pub open spec fn cycle_text(spec: LoadSpecView) -> Seq<char> {
    "Circular dependency detected: spec "@ + warnings::spec_display(spec)
        + " creates a cycle in resolution history"@
}

/// Errors of load resolution.
#[derive(Debug)]
pub enum ResolveError {
    /// The spec is already in the resolution history; the message names it.
    CircularDependency(String),
}

/// Context for load resolution: the file being resolved from and the specs
/// resolved so far (the first is the original spec, the last the latest).
pub struct ResolveContext {
    pub current_file: String,
    pub current_file_spec: LoadSpec,
    pub spec_history: Vec<LoadSpec>,
    pub alias_info: StrMap<AliasInfo>,
}

impl ResolveContext {
    /// The history of specs as views.
    pub open spec fn history(&self) -> Seq<LoadSpecView> {
        self.spec_history@.map_values(|s: LoadSpec| s@)
    }

    /// The history holds at least the original spec, and the alias table is well formed.
    pub open spec fn wf(&self) -> bool {
        self.spec_history@.len() > 0 && self.alias_info.wf()
    }

    /// Create a context for resolving `load_spec` from `current_file`.
    pub fn new(current_file: String, current_spec: LoadSpec, load_spec: LoadSpec) -> (c: Self)
        ensures
            c.wf(),
            c.history() == seq![load_spec@],
            c.current_file@ == current_file@,
            c.current_file_spec@ == current_spec@,
            c.alias_info@ == Map::<Seq<char>, (Seq<char>, Option<Seq<char>>)>::empty(),
    {
        let mut h = Vec::new();
        h.push(load_spec);
        let c = ResolveContext {
            current_file,
            current_file_spec: current_spec,
            spec_history: h,
            alias_info: StrMap::new(),
        };
        proof {
            assert(c.history() =~= seq![load_spec@]);
        }
        c
    }

    /// The most recently resolved spec.
    pub fn latest_spec(&self) -> (s: &LoadSpec)
        requires
            self.wf(),
        ensures
            s@ == self.history().last(),
    {
        &self.spec_history[self.spec_history.len() - 1]
    }

    /// The spec that resolution started from.
    pub fn original_spec(&self) -> (s: &LoadSpec)
        requires
            self.wf(),
        ensures
            s@ == self.history()[0],
    {
        &self.spec_history[0]
    }

    /// Append a newly resolved spec; a spec already in the history is a cycle and is refused.
    pub fn push_spec(&mut self, spec: LoadSpec) -> (r: Result<(), ResolveError>)
        requires
            old(self).wf(),
        ensures
            final(self).wf(),
            old(self).history().contains(spec@) ==> (r matches Err(ResolveError::CircularDependency(m))
                && m@ == cycle_text(spec@) && final(self).history() == old(self).history()),
            !old(self).history().contains(spec@) ==> (r is Ok && final(self).history() == old(
                self,
            ).history().push(spec@)),
            final(self).current_file@ == old(self).current_file@,
            final(self).current_file_spec@ == old(self).current_file_spec@,
            final(self).alias_info@ == old(self).alias_info@,
    {
        let mut i: usize = 0;
        while i < self.spec_history.len()
            invariant
                self.wf(),
                self.history() == old(self).history(),
                self.current_file@ == old(self).current_file@,
                self.current_file_spec@ == old(self).current_file_spec@,
                self.alias_info@ == old(self).alias_info@,
                i <= self.spec_history@.len(),
                forall|k: int| 0 <= k < i ==> self.history()[k] != spec@,
            decreases self.spec_history@.len() - i,
        {
            if self.spec_history[i].same(&spec) {
                proof {
                    assert(self.history()[i as int] == spec@);
                }
                let mut m = concat("Circular dependency detected: spec ", format_spec(&spec).as_str());
                m.append(" creates a cycle in resolution history");
                return Err(ResolveError::CircularDependency(m));
            }
            i = i + 1;
        }
        let ghost h = self.history();
        self.spec_history.push(spec);
        proof {
            assert(self.history() =~= h.push(spec@));
        }
        Ok(())
    }

    /// The alias the resolution went through, when it started from a package spec.
    pub fn get_alias_info(&self) -> (r: Option<&AliasInfo>)
        requires
            self.wf(),
        ensures
            match self.history()[0] {
                LoadSpecView::Package { package, .. } => match r {
                    Some(a) => self.alias_info@.contains_key(package) && a@ == self.alias_info@[package],
                    None => !self.alias_info@.contains_key(package),
                },
                _ => r is None,
            },
    {
        match self.original_spec() {
            LoadSpec::Package { package, .. } => self.alias_info.get(package.as_str()),
            _ => None,
        }
    }
}

} // verus!
