//! The warning given when a load resolves to a reference that may move.
use vstd::prelude::*;

use super::{
    remote_ref_of, AliasInfo, LoadSpec, LoadSpecView, RefKind, RemoteRef, RemoteRefMeta, ResolveContext,
};
use super::resolver::spec_path;
use crate::text::{concat, opt_str};

verus! {

/// A spec without its path: `@pkg:tag`, `@github/user/repo:rev`,
/// `@gitlab/project:rev`, or the path itself (`//path` when workspace-relative).
pub open spec fn spec_text(s: LoadSpecView) -> Seq<char> {
    match s {
        LoadSpecView::Package { package, tag, .. } => "@"@ + package + ":"@ + tag,
        LoadSpecView::Github { user, repo, rev, .. } => "@github/"@ + user + "/"@ + repo + ":"@ + rev,
        LoadSpecView::Gitlab { project_path, rev, .. } => "@gitlab/"@ + project_path + ":"@ + rev,
        LoadSpecView::Path { path, workspace_relative, .. } => if workspace_relative {
            "//"@ + path
        } else {
            path
        },
    }
}

/// The warning text for an unstable reference.
pub open spec fn unstable_text(spec: Seq<char>) -> Seq<char> {
    "'"@ + spec + "' is an unstable reference. Use a pinned version."@
}

/// Format a spec without its path component.
pub fn format_spec_without_path(spec: &LoadSpec) -> (r: String)
    ensures
        r@ == spec_text(spec@),
{
    match spec {
        LoadSpec::Package { package, tag, .. } => {
            let mut s = concat("@", package.as_str());
            s.append(":");
            s.append(tag.as_str());
            s
        },
        LoadSpec::Github { user, repo, rev, .. } => {
            let mut s = concat("@github/", user.as_str());
            s.append("/");
            s.append(repo.as_str());
            s.append(":");
            s.append(rev.as_str());
            s
        },
        LoadSpec::Gitlab { project_path, rev, .. } => {
            let mut s = concat("@gitlab/", project_path.as_str());
            s.append(":");
            s.append(rev.as_str());
            s
        },
        LoadSpec::Path { path, workspace_relative, .. } => {
            if *workspace_relative {
                concat("//", path.as_str())
            } else {
                path.clone()
            }
        },
    }
}

/// The full text of a spec: its text without path, then `/` and its path when
/// it names one (a path spec is its own text).
pub open spec fn spec_display(s: LoadSpecView) -> Seq<char> {
    match s {
        LoadSpecView::Path { .. } => spec_text(s),
        _ => if spec_path(s).len() == 0 {
            spec_text(s)
        } else {
            spec_text(s) + "/"@ + spec_path(s)
        },
    }
}

/// Format a spec with its path component.
pub fn format_spec(spec: &LoadSpec) -> (r: String)
    ensures
        r@ == spec_display(spec@),
{
    let mut s = format_spec_without_path(spec);
    match spec {
        LoadSpec::Path { .. } => s,
        _ => {
            let p = spec.path();
            if p.unicode_len() > 0 {
                s.append("/");
                s.append(p);
                proof {
                    reveal_strlit("/");
                }
            }
            s
        },
    }
}

/// The details of an unstable reference: how it was reached, from where, and what it is.
#[derive(Debug, Clone)]
pub struct UnstableRefError {
    pub spec_chain: Vec<LoadSpec>,
    pub calling_file: String,
    pub remote_ref_meta: RemoteRefMeta,
    pub remote_ref: RemoteRef,
}

/// A warning about an unstable reference. When the load went through an alias
/// defined in a pcb.toml, `alias_note` holds that file's path and a message
/// naming the reference the alias resolved to.
#[derive(Debug)]
pub struct UnstableRefWarning {
    pub message: String,
    pub error: UnstableRefError,
    pub alias_note: Option<(String, String)>,
}

/// The pcb.toml that defined the alias a resolution went through, if any.
pub open spec fn alias_source(c: ResolveContext) -> Option<Seq<char>> {
    match c.history()[0] {
        LoadSpecView::Package { package, .. } => if c.alias_info@.contains_key(package) {
            c.alias_info@[package].1
        } else {
            None
        },
        _ => None,
    }
}

/// Check whether a load resolved to an unstable reference and build the warning.
/// `meta` is what is known of the remote reference of the last spec in the history.
/// No warning for a load that started from a local path, for a last spec that is
/// not remote, without metadata, or for a stable reference.
pub fn check_and_create_unstable_ref_warning(
    current_file: &str,
    resolve_context: &ResolveContext,
    meta: Option<RemoteRefMeta>,
) -> (r: Option<UnstableRefWarning>)
    requires
        resolve_context.wf(),
    ensures
        ({
            let h = resolve_context.history();
            let warns = !(h[0] is Path) && remote_ref_of(h.last()) is Some && meta is Some && meta->0.kind
                == RefKind::Unstable;
            &&& !warns ==> r is None
            &&& warns ==> (r matches Some(w) && {
                &&& w.message@ == unstable_text(spec_text(h[0]))
                &&& w.error.spec_chain@.map_values(|s: LoadSpec| s@) == h
                &&& w.error.calling_file@ == current_file@
                &&& Some(w.error.remote_ref@) == remote_ref_of(h.last())
                &&& w.error.remote_ref_meta.kind == meta->0.kind
                &&& w.error.remote_ref_meta.commit_sha1@ == meta->0.commit_sha1@
                &&& match alias_source(*resolve_context) {
                    Some(p) => w.alias_note matches Some(n) && n.0@ == p && n.1@ == unstable_text(
                        spec_text(h.last()),
                    ),
                    None => w.alias_note is None,
                }
            })
        }),
{
    let first_spec = resolve_context.original_spec();
    if let LoadSpec::Path { .. } = first_spec {
        return None;
    }
    let last_spec = resolve_context.latest_spec();
    let callee_remote = match last_spec.remote_ref() {
        Some(x) => x,
        None => {
            return None;
        },
    };
    let remote_ref_meta = match meta {
        Some(m) => m,
        None => {
            return None;
        },
    };
    if remote_ref_meta.stable() {
        return None;
    }
    let mut message = concat("'", format_spec_without_path(first_spec).as_str());
    message.append("' is an unstable reference. Use a pinned version.");
    let mut chain: Vec<LoadSpec> = Vec::new();
    let mut i: usize = 0;
    while i < resolve_context.spec_history.len()
        invariant
            i <= resolve_context.spec_history@.len(),
            chain@.len() == i,
            forall|k: int| 0 <= k < i ==> (#[trigger] chain@[k])@ == resolve_context.spec_history@[k]@,
        decreases resolve_context.spec_history@.len() - i,
    {
        chain.push(clone_spec(&resolve_context.spec_history[i]));
        i = i + 1;
    }
    proof {
        assert(chain@.map_values(|s: LoadSpec| s@) =~= resolve_context.history());
    }
    let alias_note = match resolve_context.get_alias_info() {
        Some(a) => match &a.source_path {
            Some(p) => {
                let mut m = concat("'", format_spec_without_path(last_spec).as_str());
                m.append("' is an unstable reference. Use a pinned version.");
                Some((p.clone(), m))
            },
            None => None,
        },
        None => None,
    };
    let error = UnstableRefError {
        spec_chain: chain,
        calling_file: current_file.to_owned(),
        remote_ref_meta,
        remote_ref: callee_remote,
    };
    Some(UnstableRefWarning { message, error, alias_note })
}

/// A copy of a spec.
pub fn clone_spec(s: &LoadSpec) -> (r: LoadSpec)
    ensures
        r@ == s@,
{
    match s {
        LoadSpec::Package { package, tag, path } => LoadSpec::Package {
            package: package.clone(),
            tag: tag.clone(),
            path: path.clone(),
        },
        LoadSpec::Github { user, repo, rev, path } => LoadSpec::Github {
            user: user.clone(),
            repo: repo.clone(),
            rev: rev.clone(),
            path: path.clone(),
        },
        LoadSpec::Gitlab { project_path, rev, path } => LoadSpec::Gitlab {
            project_path: project_path.clone(),
            rev: rev.clone(),
            path: path.clone(),
        },
        LoadSpec::Path { path, workspace_relative, allow_not_exist } => LoadSpec::Path {
            path: path.clone(),
            workspace_relative: *workspace_relative,
            allow_not_exist: *allow_not_exist,
        },
    }
}

} // verus!
