//! Errors and results that evaluation reports.
use vstd::prelude::*;

use crate::text::concat;

verus! {

/// An evaluation error: reading failed, or parsing did.
#[derive(Debug)]
pub enum Error {
    Io(String),
    Parse(String),
}

impl Error {
    /// The error's message.
    pub fn message(&self) -> (r: String)
        ensures
            r@ == match *self {
                Error::Io(m) => "I/O error: "@ + m@,
                Error::Parse(m) => "Parse error: "@ + m@,
            },
    {
        match self {
            Error::Io(m) => concat("I/O error: ", m.as_str()),
            Error::Parse(m) => concat("Parse error: ", m.as_str()),
        }
    }
}

/// Diagnostics left out in favour of one that stands for them.
#[derive(Debug, Clone)]
pub struct SuppressedDiagnostics<D> {
    pub suppressed: Vec<D>,
}

impl<D> SuppressedDiagnostics<D> {
    /// The message this carries.
    pub fn message(&self) -> (r: &'static str)
        ensures
            r@ == "Suppressed similar diagnostics"@,
    {
        "Suppressed similar diagnostics"
    }
}

/// The outcome of one check of a test bench.
#[derive(Debug, Clone)]
pub struct BenchTestResult {
    pub test_bench_name: String,
    pub case_name: Option<String>,
    pub check_name: String,
    pub file_path: String,
    pub passed: bool,
}

impl BenchTestResult {
    /// The message this carries.
    pub fn message(&self) -> (r: &'static str)
        ensures
            r@ == "Test result"@,
    {
        "Test result"
    }
}

} // verus!
