//! Bundles: a directory of files with a manifest mapping each file's load
//! specs to the bundled files they resolve to.
use vstd::prelude::*;

use crate::provider::InMemoryFileProvider;
use crate::strmap::StrMap;
use crate::text::{concat, has_prefix, starts_with, str_eq, substring};

verus! {

/// Metadata recorded in a bundle manifest.
#[derive(Debug)]
pub struct BundleMetadata {
    pub created_at: String,
    pub version: String,
    pub description: Option<String>,
    pub build_config: Option<StrMap<String>>,
}

/// The current time in RFC 3339 form (`chrono::Utc::now().to_rfc3339()`). It
/// depends on the clock; nothing is stated of it.
#[verifier::external_body]
fn utc_now_rfc3339() -> String {
    chrono::Utc::now().to_rfc3339()
}

impl BundleMetadata {
    /// Metadata for a bundle made now by the given tool version.
    pub fn now(version: String) -> (m: Self)
        ensures
            m.version@ == version@,
            m.description is None,
            m.build_config is None,
    {
        BundleMetadata { created_at: utc_now_rfc3339(), version, description: None, build_config: None }
    }
}

/// A self-contained bundle manifest.
#[derive(Debug)]
pub struct BundleManifest {
    /// Entry point path within the bundle (e.g., "main.zen")
    pub entry_point: String,
    /// For each file, its load specs mapped to the bundled paths they resolve to
    pub load_map: StrMap<StrMap<String>>,
    /// Metadata
    pub metadata: BundleMetadata,
}

/// A bundle: where its files are, and its manifest.
#[derive(Debug)]
pub struct Bundle {
    /// Path to the bundle directory (where files are stored)
    pub bundle_path: String,
    /// The manifest
    pub manifest: BundleManifest,
}

impl Bundle {
    /// Create a bundle with the given path and manifest.
    pub fn new(bundle_path: String, manifest: BundleManifest) -> (b: Self)
        ensures
            b.bundle_path == bundle_path,
            b.manifest == manifest,
    {
        Bundle { bundle_path, manifest }
    }

    /// Create a bundle with an empty manifest and the given metadata.
    pub fn empty(bundle_path: String, metadata: BundleMetadata) -> (b: Self)
        ensures
            b.bundle_path == bundle_path,
            b.manifest.entry_point@ == Seq::<char>::empty(),
            b.manifest.load_map@ == Map::<Seq<char>, Map<Seq<char>, Seq<char>>>::empty(),
            b.manifest.load_map.wf(),
            b.manifest.metadata == metadata,
    {
        Bundle {
            bundle_path,
            manifest: BundleManifest { entry_point: String::new(), load_map: StrMap::new(), metadata },
        }
    }
}

/// A file's path inside the bundle: the part after the bundle directory, or
/// the path itself when it is not under the bundle.
pub open spec fn bundle_relative(cur: Seq<char>, bundle: Seq<char>) -> Seq<char> {
    if has_prefix(cur, bundle + seq!['/']) {
        cur.subrange((bundle.len() + 1) as int, cur.len() as int)
    } else if cur == bundle {
        Seq::empty()
    } else {
        cur
    }
}

/// What a load spec resolves to from a file: the bundled path the manifest
/// records for it, or the spec unchanged.
pub open spec fn bundle_resolution(
    load_map: Map<Seq<char>, Map<Seq<char>, Seq<char>>>,
    file: Seq<char>,
    load_path: Seq<char>,
) -> Seq<char> {
    if load_map.contains_key(file) && load_map[file].contains_key(load_path) {
        load_map[file][load_path]
    } else {
        load_path
    }
}

/// A load resolver that uses a bundle's load map.
#[derive(Debug)]
pub struct BundleLoadResolver {
    bundle: Bundle,
}

impl BundleLoadResolver {
    /// A resolver for the bundle.
    pub fn new(bundle: Bundle) -> (r: Self)
        ensures
            r.spec_bundle() == bundle,
    {
        BundleLoadResolver { bundle }
    }

    /// The bundle resolved against.
    pub closed spec fn spec_bundle(&self) -> Bundle {
        self.bundle
    }

    /// Resolve `load_path` as loaded from the file whose canonical path is given.
    pub fn resolve_path(&self, canonical_current_file: &str, load_path: &str) -> (r: String)
        requires
            self.spec_bundle().manifest.load_map.wf(),
            forall|i: int|
                0 <= i < self.spec_bundle().manifest.load_map.values().len()
                    ==> (#[trigger] self.spec_bundle().manifest.load_map.values()[i]).wf(),
        ensures
            r@ == bundle_resolution(
                self.spec_bundle().manifest.load_map@,
                bundle_relative(canonical_current_file@, self.spec_bundle().bundle_path@),
                load_path@,
            ),
    {
        let bp = self.bundle.bundle_path.as_str();
        let mut prefix = bp.to_owned();
        prefix.append("/");
        proof {
            reveal_strlit("/");
            assert(prefix@ =~= bp@ + seq!['/']);
        }
        let rel = if starts_with(canonical_current_file, prefix.as_str()) {
            let n = canonical_current_file.unicode_len();
            let m = prefix.as_str().unicode_len();
            substring(canonical_current_file, m, n)
        } else if str_eq(canonical_current_file, bp) {
            String::new()
        } else {
            canonical_current_file.to_owned()
        };
        match self.bundle.manifest.load_map.get(rel.as_str()) {
            Some(m) => {
                proof {
                    let vs = self.bundle.manifest.load_map.values();
                    let j = choose|j: int| 0 <= j < vs.len() && vs[j] == *m;
                    assert(vs[j].wf());
                }
                match m.get(load_path) {
                    Some(p) => p.clone(),
                    None => load_path.to_owned(),
                }
            },
            None => load_path.to_owned(),
        }
    }
}

/// The files a bundle archive yields, by absolute path: each text entry other
/// than the manifest, under `/` and its name; a later entry of one name wins.
pub open spec fn bundle_files(entries: Seq<(String, Option<String>)>) -> Map<Seq<char>, Seq<char>>
    decreases entries.len(),
{
    if entries.len() == 0 {
        Map::empty()
    } else {
        let rest = bundle_files(entries.drop_last());
        let (name, contents) = entries.last();
        if name@ == "bundle.toml"@ {
            rest
        } else {
            match contents {
                Some(c) => rest.insert("/"@ + name@, c@),
                None => rest,
            }
        }
    }
}

/// A bundle ready to be evaluated: its manifest, and its files in memory.
pub struct LoadedBundle {
    pub bundle: Bundle,
    pub file_provider: InMemoryFileProvider,
}

impl LoadedBundle {
    /// A loaded bundle from its manifest and the entries of its archive,
    /// each with its text (`None` where it is not text). The bundle's root is `/`.
    pub fn from_entries(manifest: BundleManifest, entries: Vec<(String, Option<String>)>) -> (r: Self)
        ensures
            r.bundle.bundle_path@ == "/"@,
            r.bundle.manifest == manifest,
            r.file_provider.files.wf(),
            r.file_provider.files@ == bundle_files(entries@),
    {
        let mut files: StrMap<String> = StrMap::new();
        let mut i: usize = 0;
        while i < entries.len()
            invariant
                i <= entries@.len(),
                files.wf(),
                files@ == bundle_files(entries@.take(i as int)),
            decreases entries@.len() - i,
        {
            proof {
                assert(entries@.take(i + 1).drop_last() =~= entries@.take(i as int));
                assert(entries@.take(i + 1).last() == entries@[i as int]);
            }
            let name = &entries[i].0;
            if !str_eq(name.as_str(), "bundle.toml") {
                match &entries[i].1 {
                    Some(c) => {
                        let key = concat("/", name.as_str());
                        files.insert(key, c.clone());
                    },
                    None => {},
                }
            }
            i = i + 1;
        }
        proof {
            assert(entries@.take(entries@.len() as int) =~= entries@);
        }
        let bundle = Bundle::new("/".to_owned(), manifest);
        LoadedBundle { bundle, file_provider: InMemoryFileProvider::new(files) }
    }

    /// The entry point of the bundle.
    pub fn entry_point(&self) -> (r: &str)
        ensures
            r@ == self.bundle.manifest.entry_point@,
    {
        self.bundle.manifest.entry_point.as_str()
    }
}

} // verus!
