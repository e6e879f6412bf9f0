//! Where remote packages are cached and fetched from: the cache layout, the
//! workspace links to cached files, the clone and archive addresses, the
//! message for a failed download, and the metadata recorded for each fetched
//! reference. Downloading and the file system are the caller's part.
use vstd::prelude::*;

use super::resolver::spec_path;
use super::{LoadSpec, LoadSpecView, RefKind, RemoteRef, RemoteRefMeta, RemoteRefView};
use crate::config::{join_path, path_join};
use crate::text::{concat, opt_str, str_eq};

verus! {

/// The directory a remote spec's checkout is cached in, under the cache
/// directory; the error for a spec that is not remote.
pub open spec fn cache_root_of(cache_dir: Seq<char>, spec: LoadSpecView) -> Result<Seq<char>, Seq<char>> {
    match spec {
        LoadSpecView::Github { user, repo, rev, .. } => Ok(
            path_join(path_join(path_join(path_join(cache_dir, "github"@), user), repo), rev),
        ),
        LoadSpecView::Gitlab { project_path, rev, .. } => Ok(
            path_join(path_join(path_join(cache_dir, "gitlab"@), project_path), rev),
        ),
        _ => Err("ensure_remote_cached only handles remote specs"@),
    }
}

/// The directory a remote spec's checkout is cached in.
pub fn remote_cache_root(cache_dir: &str, spec: &LoadSpec) -> (r: Result<String, String>)
    ensures
        match cache_root_of(cache_dir@, spec@) {
            Ok(p) => r matches Ok(x) && x@ == p,
            Err(m) => r matches Err(x) && x@ == m,
        },
{
    match spec {
        LoadSpec::Github { user, repo, rev, .. } => {
            let a = join_path(cache_dir, "github");
            let b = join_path(a.as_str(), user.as_str());
            let c = join_path(b.as_str(), repo.as_str());
            Ok(join_path(c.as_str(), rev.as_str()))
        },
        LoadSpec::Gitlab { project_path, rev, .. } => {
            let a = join_path(cache_dir, "gitlab");
            let b = join_path(a.as_str(), project_path.as_str());
            Ok(join_path(b.as_str(), rev.as_str()))
        },
        _ => Err("ensure_remote_cached only handles remote specs".to_owned()),
    }
}

/// The cached file a spec names: its path under the cache root, or the root
/// itself for the empty path.
pub open spec fn cached_file_of(cache_root: Seq<char>, path: Seq<char>) -> Seq<char> {
    if path.len() == 0 {
        cache_root
    } else {
        path_join(cache_root, path)
    }
}

/// The cached file a spec names.
pub fn cached_file(cache_root: &str, spec: &LoadSpec) -> (r: String)
    ensures
        r@ == cached_file_of(cache_root@, spec_path(spec@)),
{
    let p = spec.path();
    if p.unicode_len() == 0 {
        cache_root.to_owned()
    } else {
        join_path(cache_root, p)
    }
}

/// The folder under which a fetched spec is linked into the workspace:
/// `github/<user>/<repo>/<rev>`, `gitlab/<project>/<rev>`, or the package name.
pub open spec fn alias_folder_of(spec: LoadSpecView) -> Option<Seq<char>> {
    match spec {
        LoadSpecView::Github { user, repo, rev, .. } => Some("github/"@ + user + "/"@ + repo + "/"@ + rev),
        LoadSpecView::Gitlab { project_path, rev, .. } => Some("gitlab/"@ + project_path + "/"@ + rev),
        LoadSpecView::Package { package, .. } => Some(package),
        _ => None,
    }
}

/// The folder under which a fetched spec is linked into the workspace.
pub fn alias_folder(spec: &LoadSpec) -> (r: Option<String>)
    ensures
        opt_str(r) == alias_folder_of(spec@),
{
    match spec {
        LoadSpec::Github { user, repo, rev, .. } => {
            let mut f = concat("github/", user.as_str());
            f.append("/");
            f.append(repo.as_str());
            f.append("/");
            f.append(rev.as_str());
            Some(f)
        },
        LoadSpec::Gitlab { project_path, rev, .. } => {
            let mut f = concat("gitlab/", project_path.as_str());
            f.append("/");
            f.append(rev.as_str());
            Some(f)
        },
        LoadSpec::Package { package, .. } => Some(package.clone()),
        _ => None,
    }
}

/// Where the workspace link to a cached file goes:
/// `<workspace>/.pcb/cache/<alias>/<sub_path>`.
pub open spec fn alias_link_of(workspace_root: Seq<char>, alias: Seq<char>, sub_path: Seq<char>) -> Seq<char> {
    let base = path_join(path_join(path_join(workspace_root, ".pcb"@), "cache"@), alias);
    if sub_path.len() == 0 {
        base
    } else {
        path_join(base, sub_path)
    }
}

/// Where the workspace link to a cached file goes.
pub fn alias_link_path(workspace_root: &str, alias: &str, sub_path: &str) -> (r: String)
    ensures
        r@ == alias_link_of(workspace_root@, alias@, sub_path@),
{
    let a = join_path(workspace_root, ".pcb");
    let b = join_path(a.as_str(), "cache");
    let base = join_path(b.as_str(), alias);
    if sub_path.unicode_len() == 0 {
        base
    } else {
        join_path(base.as_str(), sub_path)
    }
}

/// The addresses a remote repository is cloned from, HTTPS first, then SSH.
pub open spec fn clone_urls_of(spec: LoadSpecView) -> Seq<Seq<char>> {
    match spec {
        LoadSpecView::Github { user, repo, .. } => seq![
            "https://github.com/"@ + user + "/"@ + repo + ".git"@,
            "git@github.com:"@ + user + "/"@ + repo + ".git"@,
        ],
        LoadSpecView::Gitlab { project_path, .. } => seq![
            "https://gitlab.com/"@ + project_path + ".git"@,
            "git@gitlab.com:"@ + project_path + ".git"@,
        ],
        _ => Seq::empty(),
    }
}

/// The addresses a remote repository is cloned from.
pub fn clone_urls(spec: &LoadSpec) -> (r: Vec<String>)
    ensures
        crate::text::strs(r@) == clone_urls_of(spec@),
{
    let mut out: Vec<String> = Vec::new();
    match spec {
        LoadSpec::Github { user, repo, .. } => {
            let mut a = concat("https://github.com/", user.as_str());
            a.append("/");
            a.append(repo.as_str());
            a.append(".git");
            let mut b = concat("git@github.com:", user.as_str());
            b.append("/");
            b.append(repo.as_str());
            b.append(".git");
            out.push(a);
            out.push(b);
        },
        LoadSpec::Gitlab { project_path, .. } => {
            let mut a = concat("https://gitlab.com/", project_path.as_str());
            a.append(".git");
            let mut b = concat("git@gitlab.com:", project_path.as_str());
            b.append(".git");
            out.push(a);
            out.push(b);
        },
        _ => {},
    }
    proof {
        assert(crate::text::strs(out@) =~= clone_urls_of(spec@));
    }
    out
}

/// A GitLab project path with each `/` written `%2F`.
pub open spec fn encoded_project(p: Seq<char>) -> Seq<char>
    decreases p.len(),
{
    if p.len() == 0 {
        Seq::empty()
    } else {
        encoded_project(p.drop_last()) + if p.last() == '/' {
            "%2F"@
        } else {
            seq![p.last()]
        }
    }
}

fn encode_project(p: &str) -> (r: String)
    ensures
        r@ == encoded_project(p@),
{
    let n = p.unicode_len();
    let mut out = String::new();
    let mut i: usize = 0;
    while i < n
        invariant
            n == p@.len(),
            i <= n,
            out@ == encoded_project(p@.take(i as int)),
        decreases n - i,
    {
        let c = p.get_char(i);
        proof {
            assert(p@.take(i + 1).drop_last() =~= p@.take(i as int));
            assert(p@.take(i + 1).last() == c);
        }
        if c == '/' {
            out.append("%2F");
        } else {
            out.append(p.substring_char(i, i + 1));
        }
        proof {
            reveal_strlit("%2F");
            assert(out@ =~= encoded_project(p@.take(i + 1)));
        }
        i = i + 1;
    }
    proof {
        assert(p@.take(n as int) =~= p@);
    }
    out
}

/// The archive a remote repository is downloaded as when cloning fails.
pub open spec fn archive_url_of(spec: LoadSpecView) -> Option<Seq<char>> {
    match spec {
        LoadSpecView::Github { user, repo, rev, .. } => Some(
            "https://codeload.github.com/"@ + user + "/"@ + repo + "/tar.gz/"@ + rev,
        ),
        LoadSpecView::Gitlab { project_path, rev, .. } => Some(
            "https://gitlab.com/api/v4/projects/"@ + encoded_project(project_path)
                + "/repository/archive.tar.gz?sha="@ + rev,
        ),
        _ => None,
    }
}

/// The archive a remote repository is downloaded as when cloning fails.
pub fn archive_url(spec: &LoadSpec) -> (r: Option<String>)
    ensures
        opt_str(r) == archive_url_of(spec@),
{
    match spec {
        LoadSpec::Github { user, repo, rev, .. } => {
            let mut u = concat("https://codeload.github.com/", user.as_str());
            u.append("/");
            u.append(repo.as_str());
            u.append("/tar.gz/");
            u.append(rev.as_str());
            Some(u)
        },
        LoadSpec::Gitlab { project_path, rev, .. } => {
            let e = encode_project(project_path.as_str());
            let mut u = concat("https://gitlab.com/api/v4/projects/", e.as_str());
            u.append("/repository/archive.tar.gz?sha=");
            u.append(rev.as_str());
            Some(u)
        },
        _ => None,
    }
}

/// The message for an archive download answered with HTTP status `code`
/// (`status` is the status as shown, code and reason). Answers that suggest a
/// private repository add a hint about the access token.
pub open spec fn download_failure_of(spec: LoadSpecView, code: u16, status: Seq<char>) -> Option<Seq<char>> {
    match spec {
        LoadSpecView::Github { user, repo, rev, .. } => {
            let head = "Failed to download GitHub repo "@ + user + "/"@ + repo + " at "@ + rev + " (HTTP "@ + status
                + ")"@;
            Some(
                if code == 404 || code == 403 {
                    head
                        + ".\nTried clones via HTTPS & SSH, then tarball download.\nIf this repository is private, set an access token in GITHUB_TOKEN."@
                } else {
                    head
                },
            )
        },
        LoadSpecView::Gitlab { project_path, rev, .. } => {
            let head = "Failed to download GitLab repo "@ + project_path + " at "@ + rev + " (HTTP "@ + status + ")"@;
            Some(
                if code == 404 || code == 401 {
                    head
                        + ".\nTried clones via HTTPS & SSH, then archive download.\nIf this repository is private, set an access token in GITLAB_TOKEN."@
                } else {
                    head
                },
            )
        },
        _ => None,
    }
}

/// The message for an archive download that was answered with a failure.
pub fn download_failure_message(spec: &LoadSpec, code: u16, status: &str) -> (r: Option<String>)
    ensures
        opt_str(r) == download_failure_of(spec@, code, status@),
{
    match spec {
        LoadSpec::Github { user, repo, rev, .. } => {
            let mut m = concat("Failed to download GitHub repo ", user.as_str());
            m.append("/");
            m.append(repo.as_str());
            m.append(" at ");
            m.append(rev.as_str());
            m.append(" (HTTP ");
            m.append(status);
            m.append(")");
            if code == 404 || code == 403 {
                m.append(
                    ".\nTried clones via HTTPS & SSH, then tarball download.\nIf this repository is private, set an access token in GITHUB_TOKEN.",
                );
            }
            Some(m)
        },
        LoadSpec::Gitlab { project_path, rev, .. } => {
            let mut m = concat("Failed to download GitLab repo ", project_path.as_str());
            m.append(" at ");
            m.append(rev.as_str());
            m.append(" (HTTP ");
            m.append(status);
            m.append(")");
            if code == 404 || code == 401 {
                m.append(
                    ".\nTried clones via HTTPS & SSH, then archive download.\nIf this repository is private, set an access token in GITLAB_TOKEN.",
                );
            }
            Some(m)
        },
        _ => None,
    }
}

/// A copy of a reference.
pub fn copy_ref(r: &RemoteRef) -> (c: RemoteRef)
    ensures
        c@ == r@,
{
    match r {
        RemoteRef::GitHub { user, repo, rev } => RemoteRef::GitHub {
            user: user.clone(),
            repo: repo.clone(),
            rev: rev.clone(),
        },
        RemoteRef::GitLab { project_path, rev } => RemoteRef::GitLab {
            project_path: project_path.clone(),
            rev: rev.clone(),
        },
    }
}

/// Metadata as plain values.
pub open spec fn meta_view(m: RemoteRefMeta) -> (Seq<char>, Option<Seq<char>>, RefKind) {
    (m.commit_sha1@, opt_str(m.commit_sha256), m.kind)
}

/// A copy of metadata.
pub fn copy_meta(m: &RemoteRefMeta) -> (c: RemoteRefMeta)
    ensures
        meta_view(c) == meta_view(*m),
{
    let sha256 = match &m.commit_sha256 {
        Some(s) => Some(s.clone()),
        None => None,
    };
    RemoteRefMeta { commit_sha1: m.commit_sha1.clone(), commit_sha256: sha256, kind: m.kind }
}

fn same_ref(a: &RemoteRef, b: &RemoteRef) -> (r: bool)
    ensures
        r == (a@ == b@),
{
    match (a, b) {
        (
            RemoteRef::GitHub { user: u1, repo: r1, rev: v1 },
            RemoteRef::GitHub { user: u2, repo: r2, rev: v2 },
        ) => str_eq(u1.as_str(), u2.as_str()) && str_eq(r1.as_str(), r2.as_str()) && str_eq(v1.as_str(), v2.as_str()),
        (
            RemoteRef::GitLab { project_path: p1, rev: v1 },
            RemoteRef::GitLab { project_path: p2, rev: v2 },
        ) => str_eq(p1.as_str(), p2.as_str()) && str_eq(v1.as_str(), v2.as_str()),
        _ => false,
    }
}

/// The fetcher's record of what each fetched reference was classified as.
#[derive(Debug)]
pub struct DefaultRemoteFetcher {
    metadata_cache: Vec<(RemoteRef, RemoteRefMeta)>,
}

impl DefaultRemoteFetcher {
    /// The metadata recorded, by reference.
    pub closed spec fn recorded(&self) -> Map<RemoteRefView, (Seq<char>, Option<Seq<char>>, RefKind)> {
        Map::new(
            |k: RemoteRefView| exists|i: int| 0 <= i < self.metadata_cache@.len() && self.metadata_cache@[i].0@ == k,
            |k: RemoteRefView|
                meta_view(
                    self.metadata_cache@[choose|i: int|
                        0 <= i < self.metadata_cache@.len() && self.metadata_cache@[i].0@ == k].1,
                ),
        )
    }

    /// No reference is recorded twice.
    pub closed spec fn wf(&self) -> bool {
        forall|i: int, j: int|
            0 <= i < j < self.metadata_cache@.len() ==> self.metadata_cache@[i].0@ != self.metadata_cache@[j].0@
    }

    proof fn lemma_recorded_at(&self, i: int)
        requires
            self.wf(),
            0 <= i < self.metadata_cache@.len(),
        ensures
            self.recorded().contains_key(self.metadata_cache@[i].0@),
            self.recorded()[self.metadata_cache@[i].0@] == meta_view(self.metadata_cache@[i].1),
    {
        let k = self.metadata_cache@[i].0@;
        assert(self.recorded().dom().contains(k));
        let c = choose|c: int| 0 <= c < self.metadata_cache@.len() && self.metadata_cache@[c].0@ == k;
        if c != i {
            if c < i {
                assert(self.metadata_cache@[c].0@ != self.metadata_cache@[i].0@);
            } else {
                assert(self.metadata_cache@[i].0@ != self.metadata_cache@[c].0@);
            }
        }
    }

    /// A fetcher that has recorded nothing.
    pub fn new() -> (f: Self)
        ensures
            f.wf(),
            f.recorded() == Map::<RemoteRefView, (Seq<char>, Option<Seq<char>>, RefKind)>::empty(),
    {
        let f = DefaultRemoteFetcher { metadata_cache: Vec::new() };
        proof {
            assert(f.recorded() =~= Map::<RemoteRefView, (Seq<char>, Option<Seq<char>>, RefKind)>::empty());
        }
        f
    }

    fn position(&self, r: &RemoteRef) -> (p: Option<usize>)
        ensures
            match p {
                Some(i) => i < self.metadata_cache@.len() && self.metadata_cache@[i as int].0@ == r@,
                None => forall|i: int| 0 <= i < self.metadata_cache@.len() ==> self.metadata_cache@[i].0@ != r@,
            },
    {
        let mut i: usize = 0;
        while i < self.metadata_cache.len()
            invariant
                i <= self.metadata_cache@.len(),
                forall|k: int| 0 <= k < i ==> self.metadata_cache@[k].0@ != r@,
            decreases self.metadata_cache@.len() - i,
        {
            if same_ref(&self.metadata_cache[i].0, r) {
                return Some(i);
            }
            i = i + 1;
        }
        None
    }

    /// The metadata recorded for a reference.
    pub fn remote_ref_meta(&self, remote_ref: &RemoteRef) -> (r: Option<RemoteRefMeta>)
        requires
            self.wf(),
        ensures
            match r {
                Some(m) => self.recorded().contains_key(remote_ref@) && meta_view(m) == self.recorded()[remote_ref@],
                None => !self.recorded().contains_key(remote_ref@),
            },
    {
        match self.position(remote_ref) {
            Some(i) => {
                proof {
                    self.lemma_recorded_at(i as int);
                }
                Some(copy_meta(&self.metadata_cache[i].1))
            },
            None => None,
        }
    }

    /// Record the classification of a fetched reference, unless one is
    /// recorded already or none could be made (`meta` is `None`).
    pub fn record_meta(&mut self, remote_ref: &RemoteRef, meta: Option<RemoteRefMeta>)
        requires
            old(self).wf(),
        ensures
            final(self).wf(),
            old(self).recorded().contains_key(remote_ref@) ==> final(self).recorded() == old(self).recorded(),
            !old(self).recorded().contains_key(remote_ref@) ==> final(self).recorded() == match meta {
                Some(m) => old(self).recorded().insert(remote_ref@, meta_view(m)),
                None => old(self).recorded(),
            },
    {
        match self.position(remote_ref) {
            Some(i) => {
                proof {
                    self.lemma_recorded_at(i as int);
                }
            },
            None => {
                proof {
                    if old(self).recorded().contains_key(remote_ref@) {
                        let c = choose|c: int|
                            0 <= c < old(self).metadata_cache@.len() && old(self).metadata_cache@[c].0@ == remote_ref@;
                        assert(false);
                    }
                }
                match meta {
                    Some(m) => {
                        let ghost before = *self;
                        let ghost mv = meta_view(m);
                        self.metadata_cache.push((copy_ref(remote_ref), m));
                        proof {
                            let n = before.metadata_cache@.len() as int;
                            assert forall|a: int, b: int| 0 <= a < b < self.metadata_cache@.len() implies self.metadata_cache@[a].0@
                                != self.metadata_cache@[b].0@ by {
                                if b < n {
                                    assert(self.metadata_cache@[a] == before.metadata_cache@[a]);
                                    assert(self.metadata_cache@[b] == before.metadata_cache@[b]);
                                } else {
                                    assert(self.metadata_cache@[a] == before.metadata_cache@[a]);
                                }
                            }
                            assert forall|k: RemoteRefView| #[trigger] self.recorded().contains_key(k) == before.recorded().insert(
                                remote_ref@,
                                mv,
                            ).contains_key(k) by {
                                if before.recorded().contains_key(k) {
                                    let c = choose|c: int|
                                        0 <= c < before.metadata_cache@.len() && before.metadata_cache@[c].0@ == k;
                                    assert(self.metadata_cache@[c] == before.metadata_cache@[c]);
                                }
                                if k == remote_ref@ {
                                    assert(self.metadata_cache@[n].0@ == k);
                                }
                                if self.recorded().contains_key(k) {
                                    let c = choose|c: int|
                                        0 <= c < self.metadata_cache@.len() && self.metadata_cache@[c].0@ == k;
                                    if c < n {
                                        assert(self.metadata_cache@[c] == before.metadata_cache@[c]);
                                    }
                                }
                            }
                            assert forall|k: RemoteRefView| self.recorded().contains_key(k) implies self.recorded()[k]
                                == before.recorded().insert(remote_ref@, mv)[k] by {
                                let c = choose|c: int| 0 <= c < self.metadata_cache@.len() && self.metadata_cache@[c].0@ == k;
                                self.lemma_recorded_at(c);
                                if c < n {
                                    assert(self.metadata_cache@[c] == before.metadata_cache@[c]);
                                    before.lemma_recorded_at(c);
                                }
                            }
                            assert(self.recorded() =~= before.recorded().insert(remote_ref@, mv));
                        }
                    },
                    None => {},
                }
            },
        }
    }
}

/// An ASCII hexadecimal digit.
pub open spec fn is_hex_digit(c: char) -> bool {
    ('0' <= c && c <= '9') || ('a' <= c && c <= 'f') || ('A' <= c && c <= 'F')
}

/// Whether git's answer names a full SHA-1 commit id: 40 hexadecimal digits.
pub fn is_full_sha1(s: &str) -> (b: bool)
    ensures
        b == (s@.len() == 40 && forall|i: int| 0 <= i < s@.len() ==> is_hex_digit(#[trigger] s@[i])),
{
    let n = s.unicode_len();
    if n != 40 {
        return false;
    }
    let mut i: usize = 0;
    while i < n
        invariant
            n == s@.len(),
            i <= n,
            forall|k: int| 0 <= k < i ==> is_hex_digit(#[trigger] s@[k]),
        decreases n - i,
    {
        let c = s.get_char(i);
        if !(('0' <= c && c <= '9') || ('a' <= c && c <= 'f') || ('A' <= c && c <= 'F')) {
            return false;
        }
        i = i + 1;
    }
    true
}

} // verus!
