//! The load resolver's record of resolved files: which file was reached
//! through which load spec, so that later loads from that file resolve
//! relative to the right package.
use vstd::prelude::*;

use super::resolver::{aliases_seen, kept_in_record, merge_aliases, should_track};
use super::warnings::clone_spec;
use super::{remote_ref_of, AliasInfo, LoadSpec, LoadSpecView, RemoteRef, RemoteRefMeta};
use crate::text::str_eq;
use crate::provider::{FileProvider, RemoteFetcher};
use crate::strmap::{assoc_keys_unique, assoc_map, lemma_assoc_lookup, StrMap};

verus! {

/// The record after a resolved file was offered to it: the file's spec is
/// recorded (replacing an earlier one) when `kept_in_record` holds.
pub open spec fn recorded(
    m: Map<Seq<char>, LoadSpecView>,
    path: Seq<char>,
    spec: LoadSpecView,
    present: bool,
) -> Map<Seq<char>, LoadSpecView> {
    if kept_in_record(spec, present) {
        m.insert(path, spec)
    } else {
        m
    }
}

/// The spec a file loaded by its own absolute path is recorded with.
pub open spec fn local_path_spec(path: Seq<char>) -> LoadSpecView {
    LoadSpecView::Path { path, workspace_relative: false, allow_not_exist: false }
}

/// A path spec is absolute and not workspace-relative.
pub open spec fn absolute_if_path(spec: LoadSpecView) -> bool {
    spec matches LoadSpecView::Path { path, workspace_relative, .. } ==> path.len() > 0 && path[0] == '/'
        && !workspace_relative
}

/// A recorded spec is read back for its file, and the record of every other
/// file is unchanged.
pub proof fn lemma_recorded_read_back(
    m: Map<Seq<char>, LoadSpecView>,
    path: Seq<char>,
    spec: LoadSpecView,
    present: bool,
    other: Seq<char>,
)
    requires
        kept_in_record(spec, present),
        other != path,
    ensures
        recorded(m, path, spec, present).contains_key(path),
        recorded(m, path, spec, present)[path] == spec,
        recorded(m, path, spec, present).contains_key(other) == m.contains_key(other),
        m.contains_key(other) ==> recorded(m, path, spec, present)[other] == m[other],
{
}

/// Offering the same file with the same spec twice records what offering it
/// once does.
pub proof fn lemma_recorded_idempotent(
    m: Map<Seq<char>, LoadSpecView>,
    path: Seq<char>,
    spec: LoadSpecView,
    present: bool,
)
    ensures
        recorded(recorded(m, path, spec, present), path, spec, present) == recorded(m, path, spec, present),
{
    if kept_in_record(spec, present) {
        assert(m.insert(path, spec).insert(path, spec) =~= m.insert(path, spec));
    }
}

/// The load resolver's state: the file access and remote fetching it was
/// given, the canonical workspace root, whether vendored packages are used,
/// and the record of resolved files.
pub struct CoreLoadResolver<P: FileProvider, R: RemoteFetcher> {
    pub file_provider: P,
    pub remote_fetcher: R,
    workspace_root: String,
    use_vendor_dir: bool,
    path_to_spec: StrMap<LoadSpec>,
    alias_cache: Vec<(String, StrMap<AliasInfo>)>,
}

/// The merged aliases of the pcb.toml files listed (deepest first, each with its
/// path and its `[packages]`).
pub open spec fn merged_aliases(tomls: Seq<(String, StrMap<String>)>) -> Map<
    Seq<char>,
    (Seq<char>, Option<Seq<char>>),
> {
    aliases_seen(tomls.map_values(|t: (String, StrMap<String>)| (t.0@, t.1@)))
}

impl<P: FileProvider, R: RemoteFetcher> CoreLoadResolver<P, R> {
    pub closed spec fn wf(&self) -> bool {
        &&& self.path_to_spec.wf()
        &&& forall|i: int, j: int|
            0 <= i < j < self.alias_cache@.len() ==> self.alias_cache@[i].0@ != self.alias_cache@[j].0@
        &&& forall|i: int| 0 <= i < self.alias_cache@.len() ==> (#[trigger] self.alias_cache@[i]).1.wf()
    }

    /// The aliases cached so far, by directory.
    pub closed spec fn alias_cache_view(&self) -> Map<Seq<char>, Map<Seq<char>, (Seq<char>, Option<Seq<char>>)>> {
        Map::new(
            |d: Seq<char>| exists|i: int| 0 <= i < self.alias_cache@.len() && self.alias_cache@[i].0@ == d,
            |d: Seq<char>|
                self.alias_cache@[choose|i: int| 0 <= i < self.alias_cache@.len() && self.alias_cache@[i].0@ == d].1@,
        )
    }

    proof fn lemma_alias_cache_at(&self, i: int)
        requires
            self.wf(),
            0 <= i < self.alias_cache@.len(),
        ensures
            self.alias_cache_view().contains_key(self.alias_cache@[i].0@),
            self.alias_cache_view()[self.alias_cache@[i].0@] == self.alias_cache@[i].1@,
    {
        let d = self.alias_cache@[i].0@;
        assert(self.alias_cache_view().dom().contains(d));
        let c = choose|c: int| 0 <= c < self.alias_cache@.len() && self.alias_cache@[c].0@ == d;
        if c != i {
            if c < i {
                assert(self.alias_cache@[c].0@ != self.alias_cache@[i].0@);
            } else {
                assert(self.alias_cache@[i].0@ != self.alias_cache@[c].0@);
            }
        }
    }

    fn alias_position(&self, dir: &str) -> (r: Option<usize>)
        requires
            self.wf(),
        ensures
            match r {
                Some(i) => i < self.alias_cache@.len() && self.alias_cache@[i as int].0@ == dir@,
                None => !self.alias_cache_view().contains_key(dir@),
            },
    {
        let mut i: usize = 0;
        while i < self.alias_cache.len()
            invariant
                i <= self.alias_cache@.len(),
                forall|k: int| 0 <= k < i ==> self.alias_cache@[k].0@ != dir@,
            decreases self.alias_cache@.len() - i,
        {
            if str_eq(self.alias_cache[i].0.as_str(), dir) {
                return Some(i);
            }
            i = i + 1;
        }
        None
    }

    /// The aliases cached for a directory.
    pub fn cached_aliases(&self, dir: &str) -> (r: Option<&StrMap<AliasInfo>>)
        requires
            self.wf(),
        ensures
            match r {
                Some(m) => m.wf() && self.alias_cache_view().contains_key(dir@) && m@ == self.alias_cache_view()[dir@],
                None => !self.alias_cache_view().contains_key(dir@),
            },
    {
        match self.alias_position(dir) {
            Some(i) => {
                proof {
                    self.lemma_alias_cache_at(i as int);
                }
                Some(&self.alias_cache[i].1)
            },
            None => None,
        }
    }

    /// Merge the aliases of the pcb.toml files listed (deepest first) over the
    /// built-in ones and cache them for `dir`, replacing what was cached there.
    pub fn cache_aliases(&mut self, dir: String, tomls: &Vec<(String, StrMap<String>)>)
        requires
            old(self).wf(),
            forall|i: int| 0 <= i < tomls@.len() ==> (#[trigger] tomls@[i]).1.wf(),
        ensures
            final(self).wf(),
            final(self).alias_cache_view() == old(self).alias_cache_view().insert(dir@, merged_aliases(tomls@)),
            final(self).record() == old(self).record(),
            final(self).root() == old(self).root(),
            final(self).vendored() == old(self).vendored(),
    {
        let merged = merge_aliases(tomls);
        let ghost mv = merged@;
        let ghost dv = dir@;
        let ghost before = self.alias_cache@;
        let ghost old_view = self.alias_cache_view();
        match self.alias_position(dir.as_str()) {
            Some(i) => {
                self.alias_cache.set(i, (dir, merged));
                proof {
                    assert forall|a: int, b: int|
                        0 <= a < b < self.alias_cache@.len() implies self.alias_cache@[a].0@ != self.alias_cache@[b].0@ by {
                        if a != i as int && b != i as int {
                            assert(self.alias_cache@[a] == before[a]);
                            assert(self.alias_cache@[b] == before[b]);
                        } else if a == i as int {
                            assert(self.alias_cache@[b] == before[b]);
                        } else {
                            assert(self.alias_cache@[a] == before[a]);
                        }
                    }
                    assert forall|d: Seq<char>| #[trigger] self.alias_cache_view().contains_key(d) <==> old_view.insert(dv, mv).contains_key(d) by {
                        if old_view.contains_key(d) {
                            let c = choose|c: int| 0 <= c < before.len() && before[c].0@ == d;
                            if c != i as int {
                                assert(self.alias_cache@[c] == before[c]);
                            }
                        }
                        if d == dv {
                            assert(self.alias_cache@[i as int].0@ == d);
                        }
                        if self.alias_cache_view().contains_key(d) {
                            let c = choose|c: int| 0 <= c < self.alias_cache@.len() && self.alias_cache@[c].0@ == d;
                            if c != i as int {
                                assert(self.alias_cache@[c] == before[c]);
                            }
                        }
                    }
                    assert forall|d: Seq<char>| #[trigger] self.alias_cache_view().contains_key(d) implies self.alias_cache_view()[d] == old_view.insert(dv, mv)[d] by {
                        let c = choose|c: int| 0 <= c < self.alias_cache@.len() && self.alias_cache@[c].0@ == d;
                        self.lemma_alias_cache_at(c);
                        if c != i as int {
                            assert(self.alias_cache@[c] == before[c]);
                            assert(d != dv);
                            assert(old_view.contains_key(d));
                            let c2 = choose|c2: int| 0 <= c2 < before.len() && before[c2].0@ == d;
                            if c2 != c {
                                if c2 < c {
                                    assert(before[c2].0@ != before[c].0@);
                                } else {
                                    assert(before[c].0@ != before[c2].0@);
                                }
                            }
                        }
                    }
                    assert(self.alias_cache_view() =~= old_view.insert(dv, mv));
                }
            },
            None => {
                self.alias_cache.push((dir, merged));
                proof {
                    let n = before.len();
                    assert forall|d: Seq<char>| #[trigger] self.alias_cache_view().contains_key(d) <==> old_view.insert(dv, mv).contains_key(d) by {
                        if old_view.contains_key(d) {
                            let c = choose|c: int| 0 <= c < before.len() && before[c].0@ == d;
                            assert(self.alias_cache@[c] == before[c]);
                        }
                        if d == dv {
                            assert(self.alias_cache@[n as int].0@ == d);
                        }
                        if self.alias_cache_view().contains_key(d) {
                            let c = choose|c: int| 0 <= c < self.alias_cache@.len() && self.alias_cache@[c].0@ == d;
                            if c < n {
                                assert(self.alias_cache@[c] == before[c]);
                            }
                        }
                    }
                    assert forall|d: Seq<char>| #[trigger] self.alias_cache_view().contains_key(d) implies self.alias_cache_view()[d] == old_view.insert(dv, mv)[d] by {
                        let c = choose|c: int| 0 <= c < self.alias_cache@.len() && self.alias_cache@[c].0@ == d;
                        self.lemma_alias_cache_at(c);
                        if c < n {
                            assert(self.alias_cache@[c] == before[c]);
                            assert(d != dv);
                            let c2 = choose|c2: int| 0 <= c2 < before.len() && before[c2].0@ == d;
                            if c2 != c {
                                if c2 < c {
                                    assert(before[c2].0@ != before[c].0@);
                                } else {
                                    assert(before[c].0@ != before[c2].0@);
                                }
                            }
                        }
                    }
                    assert(self.alias_cache_view() =~= old_view.insert(dv, mv));
                }
            },
        }
    }

    /// The record of resolved files: path to the spec it was reached by.
    pub closed spec fn record(&self) -> Map<Seq<char>, LoadSpecView> {
        self.path_to_spec@
    }

    /// The workspace root.
    pub closed spec fn root(&self) -> Seq<char> {
        self.workspace_root@
    }

    /// Whether vendored packages are looked up first.
    pub closed spec fn vendored(&self) -> bool {
        self.use_vendor_dir
    }

    /// A resolver with an empty record; `workspace_root` is the canonical root.
    pub fn new(file_provider: P, remote_fetcher: R, workspace_root: String, use_vendor_dir: bool) -> (r: Self)
        ensures
            r.wf(),
            r.record() == Map::<Seq<char>, LoadSpecView>::empty(),
            r.root() == workspace_root@,
            r.vendored() == use_vendor_dir,
    {
        CoreLoadResolver {
            file_provider,
            remote_fetcher,
            workspace_root,
            use_vendor_dir,
            path_to_spec: StrMap::new(),
            alias_cache: Vec::new(),
        }
    }

    /// The workspace root.
    pub fn workspace_root(&self) -> (r: &str)
        ensures
            r@ == self.root(),
    {
        self.workspace_root.as_str()
    }

    /// Record a resolved file with its spec, given whether the file exists.
    pub fn record_load_spec(&mut self, resolved_path: String, spec: LoadSpec, present: bool)
        requires
            old(self).wf(),
            absolute_if_path(spec@),
        ensures
            final(self).wf(),
            final(self).record() == recorded(old(self).record(), resolved_path@, spec@, present),
            final(self).root() == old(self).root(),
            final(self).vendored() == old(self).vendored(),
            final(self).alias_cache_view() == old(self).alias_cache_view(),
    {
        if should_track(&spec, present) {
            self.path_to_spec.insert(resolved_path, spec);
        }
    }

    /// Record a resolved file with its spec when the file provider finds it.
    pub fn insert_load_spec(&mut self, resolved_path: String, spec: LoadSpec)
        requires
            old(self).wf(),
            absolute_if_path(spec@),
        ensures
            final(self).wf(),
            exists|present: bool| final(self).record() == recorded(old(self).record(), resolved_path@, spec@, present),
            final(self).root() == old(self).root(),
            final(self).vendored() == old(self).vendored(),
            final(self).alias_cache_view() == old(self).alias_cache_view(),
    {
        let present = self.file_provider.file_exists(resolved_path.as_str());
        self.record_load_spec(resolved_path, spec, present);
    }

    /// The spec a file was recorded with.
    pub fn get_load_spec(&self, path: &str) -> (r: Option<LoadSpec>)
        requires
            self.wf(),
        ensures
            match r {
                Some(s) => self.record().contains_key(path@) && s@ == self.record()[path@],
                None => !self.record().contains_key(path@),
            },
    {
        match self.path_to_spec.get(path) {
            Some(s) => Some(clone_spec(s)),
            None => None,
        }
    }

    /// Every recorded file with its spec, in the order first recorded.
    pub fn get_tracked_files(&self) -> (r: Vec<(String, LoadSpec)>)
        requires
            self.wf(),
        ensures
            assoc_keys_unique(r@),
            assoc_map(r@) == self.record(),
    {
        let entries = self.path_to_spec.entries();
        let mut out: Vec<(String, LoadSpec)> = Vec::new();
        let mut i: usize = 0;
        while i < entries.len()
            invariant
                i <= entries@.len(),
                out@.len() == i,
                forall|k: int|
                    0 <= k < i ==> (#[trigger] out@[k]).0@ == entries@[k].0@ && out@[k].1@ == entries@[k].1@,
            decreases entries@.len() - i,
        {
            let s = clone_spec(&entries[i].1);
            out.push((entries[i].0.clone(), s));
            i = i + 1;
        }
        proof {
            let m = self.path_to_spec;
            let keys = entries@.map_values(|e: (String, LoadSpec)| e.0@);
            m.lemma_keys_distinct();
            assert forall|a: int, b: int| 0 <= a < b < out@.len() implies out@[a].0@ != out@[b].0@ by {
                assert(keys[a] == out@[a].0@ && keys[b] == out@[b].0@);
            }
            assert forall|k: Seq<char>| #[trigger] assoc_map(out@).contains_key(k) == m@.contains_key(k) by {
                m.lemma_key_order_contains(k);
                if assoc_map(out@).contains_key(k) {
                    let j = choose|j: int| 0 <= j < out@.len() && out@[j].0@ == k;
                    assert(keys[j] == k);
                }
                if m@.contains_key(k) {
                    let j = choose|j: int| 0 <= j < keys.len() && keys[j] == k;
                    assert(out@[j].0@ == k);
                }
            }
            assert forall|k: Seq<char>| assoc_map(out@).contains_key(k) implies assoc_map(out@)[k] == m@[k] by {
                let j = choose|j: int| 0 <= j < out@.len() && out@[j].0@ == k;
                lemma_assoc_lookup(out@, j);
                assert(m@[entries@[j].0@] == entries@[j].1@);
            }
            assert(assoc_map(out@) =~= m@);
        }
        out
    }

    /// Record an entry-point file by its canonical path, unless it is recorded
    /// already; it is recorded as loaded by its own path when it exists.
    pub fn track_file(&mut self, canonical_path: String)
        requires
            old(self).wf(),
            canonical_path@.len() > 0,
            canonical_path@[0] == '/',
        ensures
            final(self).wf(),
            old(self).record().contains_key(canonical_path@) ==> final(self).record() == old(self).record(),
            !old(self).record().contains_key(canonical_path@) ==> exists|present: bool|
                final(self).record() == recorded(
                    old(self).record(),
                    canonical_path@,
                    local_path_spec(canonical_path@),
                    present,
                ),
            final(self).root() == old(self).root(),
            final(self).vendored() == old(self).vendored(),
            final(self).alias_cache_view() == old(self).alias_cache_view(),
    {
        if self.path_to_spec.contains_key(canonical_path.as_str()) {
            return;
        }
        let spec = LoadSpec::Path { path: canonical_path.clone(), workspace_relative: false, allow_not_exist: false };
        self.insert_load_spec(canonical_path, spec);
    }

    /// The remote reference of the spec a file was recorded with.
    pub fn remote_ref(&self, path: &str) -> (r: Option<RemoteRef>)
        requires
            self.wf(),
        ensures
            match r {
                Some(x) => self.record().contains_key(path@) && remote_ref_of(self.record()[path@]) == Some(x@),
                None => !self.record().contains_key(path@) || remote_ref_of(self.record()[path@]) is None,
            },
    {
        match self.get_load_spec(path) {
            Some(s) => s.remote_ref(),
            None => None,
        }
    }

    /// What the remote fetcher knows of a reference fetched before.
    pub fn remote_ref_meta(&self, remote_ref: &RemoteRef) -> Option<RemoteRefMeta> {
        self.remote_fetcher.remote_ref_meta(remote_ref)
    }
}

} // verus!
