//! What the core asks of its environment: reading files and fetching remote
//! packages, and what it reports about symbols.
use vstd::prelude::*;

use crate::resolve::{LoadSpec, RemoteRef, RemoteRefMeta};
use crate::strmap::StrMap;
use crate::text::concat;

verus! {

/// Why a file could not be read.
#[derive(Debug, Clone)]
pub enum FileProviderError {
    NotFound(String),
    PermissionDenied(String),
    IoError(String),
}

impl FileProviderError {
    /// The error's message.
    pub fn message(&self) -> (r: String)
        ensures
            r@ == match *self {
                FileProviderError::NotFound(p) => "File not found: "@ + p@,
                FileProviderError::PermissionDenied(p) => "Permission denied: "@ + p@,
                FileProviderError::IoError(m) => "IO error: "@ + m@,
            },
    {
        match self {
            FileProviderError::NotFound(p) => concat("File not found: ", p.as_str()),
            FileProviderError::PermissionDenied(p) => concat("Permission denied: ", p.as_str()),
            FileProviderError::IoError(m) => concat("IO error: ", m.as_str()),
        }
    }
}

/// Access to files, which callers provide (a disk, or files held in memory).
pub trait FileProvider {
    /// The contents of the file at `path`.
    fn read_file(&self, path: &str) -> Result<String, FileProviderError>;

    /// Whether a file or directory exists at `path`.
    fn file_exists(&self, path: &str) -> bool;

    /// Whether `path` is a directory.
    fn is_directory(&self, path: &str) -> bool;

    /// The entries of the directory at `path`.
    fn list_directory(&self, path: &str) -> Result<Vec<String>, FileProviderError>;

    /// The absolute form of `path`.
    fn canonicalize(&self, path: &str) -> Result<String, FileProviderError>;
}

/// Fetching of remote packages, which callers provide.
pub trait RemoteFetcher {
    /// Fetch the package a spec names; the local path it was put at.
    fn fetch_remote(&self, spec: &LoadSpec, workspace_root: &str) -> Result<String, String>;

    /// What is known of a reference fetched before.
    fn remote_ref_meta(&self, remote_ref: &RemoteRef) -> Option<RemoteRefMeta>;
}

/// A fetcher for offline use: every fetch is refused.
#[derive(Debug, Clone, Default)]
pub struct NoopRemoteFetcher;

/// The message of a refused fetch, given the spec's text.
pub open spec fn offline_msg(spec: Seq<char>) -> Seq<char> {
    "Remote fetch for "@ + spec
        + " blocked because --offline mode is enabled. Run 'pcb vendor' to download dependencies locally."@
}

impl RemoteFetcher for NoopRemoteFetcher {
    /// Refuse the fetch.
    fn fetch_remote(&self, spec: &LoadSpec, workspace_root: &str) -> (r: Result<String, String>)
        ensures
            r matches Err(m) && m@ == offline_msg(crate::resolve::warnings::spec_text(spec@)),
    {
        let shown = crate::resolve::warnings::format_spec_without_path(spec);
        let mut m = concat("Remote fetch for ", shown.as_str());
        m.append(" blocked because --offline mode is enabled. Run 'pcb vendor' to download dependencies locally.");
        Err(m)
    }

    /// Nothing is known of any reference.
    fn remote_ref_meta(&self, remote_ref: &RemoteRef) -> (r: Option<RemoteRefMeta>)
        ensures
            r is None,
    {
        None
    }
}

/// Files held in memory, by absolute path.
#[derive(Debug)]
pub struct InMemoryFileProvider {
    pub files: StrMap<String>,
}

impl InMemoryFileProvider {
    /// A provider over the given files.
    pub fn new(files: StrMap<String>) -> (r: Self)
        ensures
            r.files == files,
    {
        InMemoryFileProvider { files }
    }
}

/// What kind of thing a module exports.
#[derive(Clone, Copy, Debug, PartialEq, Eq, Structural)]
pub enum SymbolKind {
    Function,
    Module,
    Class,
    Variable,
    Interface,
    Component,
}

/// What is known of a symbol a module exports.
#[derive(Debug, Clone)]
pub struct SymbolInfo {
    pub kind: SymbolKind,
    pub parameters: Option<Vec<String>>,
    pub source_path: Option<String>,
    /// The symbol's type, as its type name.
    pub value_type: String,
    pub documentation: Option<String>,
}

} // verus!
