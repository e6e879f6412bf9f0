//! Schematic symbols read from KiCad symbol files.
pub mod library;
pub mod sexpr;
pub mod symbol;

use vstd::prelude::*;

use self::symbol::{read_matches, read_outcome, KicadSymbol, SymbolView};
use crate::strmap::StrMap;
use crate::text::{concat, opt_str, str_eq};

verus! {

/// A distributor's part: its number and the page that lists it.
#[derive(Debug, Default)]
pub struct Part {
    pub part_number: String,
    pub url: String,
}

impl View for Part {
    type V = (Seq<char>, Seq<char>);

    open spec fn view(&self) -> (Seq<char>, Seq<char>) {
        (self.part_number@, self.url@)
    }
}

/// A pin of a symbol.
#[derive(Debug)]
pub struct Pin {
    pub name: String,
    pub number: String,
}

impl View for Pin {
    type V = (Seq<char>, Seq<char>);

    open spec fn view(&self) -> (Seq<char>, Seq<char>) {
        (self.name@, self.number@)
    }
}

/// A schematic symbol, independent of the file format it was read from.
#[derive(Debug)]
pub struct Symbol {
    pub name: String,
    pub footprint: String,
    pub in_bom: bool,
    pub pins: Vec<Pin>,
    pub datasheet: Option<String>,
    pub manufacturer: Option<String>,
    pub mpn: Option<String>,
    pub distributors: StrMap<Part>,
    pub description: Option<String>,
    pub properties: StrMap<String>,
}

impl View for Symbol {
    type V = SymbolView;

    open spec fn view(&self) -> SymbolView {
        SymbolView {
            name: self.name@,
            footprint: self.footprint@,
            in_bom: self.in_bom,
            pins: self.pins@.map_values(|p: Pin| p@),
            mpn: opt_str(self.mpn),
            manufacturer: opt_str(self.manufacturer),
            datasheet_url: opt_str(self.datasheet),
            description: opt_str(self.description),
            distributors: self.distributors@,
            properties: self.properties@,
        }
    }
}

/// Errors raised while reading symbols.
#[derive(Debug)]
pub enum EdaError {
    /// The text is not an s-expression; the parser's message.
    Parse(String),
    /// A symbol library whose top level is not a list.
    InvalidLibraryFormat,
    /// A symbol file whose top level is not a list.
    InvalidFormat,
    /// No `(symbol ...)` entry at the top level.
    NoSymbol,
    /// A `(symbol ...)` entry without a name.
    SymbolNameNotFound,
    /// A file type other than `kicad_sym`.
    UnsupportedFileType(String),
}

impl EdaError {
    /// The error's message.
    pub fn message(&self) -> (r: String)
        ensures
            r@ == match *self {
                EdaError::Parse(m) => m@,
                EdaError::InvalidLibraryFormat => "Invalid KiCad symbol library format"@,
                EdaError::InvalidFormat => "Invalid S-expression format"@,
                EdaError::NoSymbol => "No 'symbol' expression found"@,
                EdaError::SymbolNameNotFound => "Symbol name not found"@,
                EdaError::UnsupportedFileType(t) => "Unsupported file type: "@ + t@,
            },
    {
        match self {
            EdaError::Parse(m) => m.clone(),
            EdaError::InvalidLibraryFormat => "Invalid KiCad symbol library format".to_owned(),
            EdaError::InvalidFormat => "Invalid S-expression format".to_owned(),
            EdaError::NoSymbol => "No 'symbol' expression found".to_owned(),
            EdaError::SymbolNameNotFound => "Symbol name not found".to_owned(),
            EdaError::UnsupportedFileType(t) => concat("Unsupported file type: ", t.as_str()),
        }
    }
}

impl Symbol {
    /// Read a symbol from the contents of a file of the given type; only
    /// `kicad_sym` is supported.
    pub fn from_string(contents: &str, file_type: &str) -> (r: Result<Self, EdaError>)
        ensures
            file_type@ != "kicad_sym"@ ==> (r matches Err(EdaError::UnsupportedFileType(t)) && t@ == file_type@),
            file_type@ == "kicad_sym"@ ==> read_matches(r, read_outcome(contents@)),
            r matches Ok(s) ==> s.distributors.wf() && s.properties.wf(),
    {
        if str_eq(file_type, "kicad_sym") {
            match KicadSymbol::from_str(contents) {
                Ok(k) => Ok(k.into_symbol()),
                Err(e) => Err(e),
            }
        } else {
            Err(EdaError::UnsupportedFileType(file_type.to_owned()))
        }
    }
}

/// A copy of an optional string.
pub(crate) fn copy_opt(o: &Option<String>) -> (r: Option<String>)
    ensures
        opt_str(r) == opt_str(*o),
{
    match o {
        Some(x) => Some(x.clone()),
        None => None,
    }
}

/// A copy of a map of distributor parts.
pub(crate) fn copy_part_map(m: &StrMap<Part>) -> (r: StrMap<Part>)
    requires
        m.wf(),
    ensures
        r.wf(),
        r@ == m@,
{
    let es = m.entries();
    let ghost ev = m.entries_view();
    let mut out: StrMap<Part> = StrMap::new();
    let mut i: usize = 0;
    proof {
        m.lemma_keys_distinct();
        m.lemma_entries_keys();
    }
    while i < es.len()
        invariant
            ev == m.entries_view(),
            es@.map_values(|e: (String, Part)| (e.0@, e.1@)) == ev,
            m.key_order().no_duplicates(),
            m.key_order() == ev.map_values(|e: (Seq<char>, (Seq<char>, Seq<char>))| e.0),
            i <= es@.len(),
            out.wf(),
            out.entries_view() == ev.take(i as int),
        decreases es@.len() - i,
    {
        proof {
            assert(ev[i as int] == (es@[i as int].0@, es@[i as int].1@));
            crate::strmap::lemma_key_index(ev.take(i as int), ev[i as int].0);
            if crate::strmap::key_index(ev.take(i as int), ev[i as int].0) is Some {
                let j = crate::strmap::key_index(ev.take(i as int), ev[i as int].0)->0;
                assert(m.key_order()[j] == m.key_order()[i as int]);
            }
        }
        let part = Part { part_number: es[i].1.part_number.clone(), url: es[i].1.url.clone() };
        out.insert(es[i].0.clone(), part);
        proof {
            assert(out.entries_view() =~= ev.take(i + 1));
        }
        i = i + 1;
    }
    proof {
        assert(ev.take(es@.len() as int) =~= ev);
        out.lemma_same_entries(m);
    }
    out
}

/// A copy of a map of strings.
pub(crate) fn copy_text_map(m: &StrMap<String>) -> (r: StrMap<String>)
    requires
        m.wf(),
    ensures
        r.wf(),
        r@ == m@,
{
    let r = crate::lang::component::copy_str_map(m);
    proof {
        r.lemma_same_entries(m);
    }
    r
}

impl Symbol {
    /// A copy of the symbol.
    pub fn copy(&self) -> (s: Symbol)
        requires
            self.distributors.wf(),
            self.properties.wf(),
        ensures
            s@ == self@,
            s.distributors.wf(),
            s.properties.wf(),
    {
        let mut pins: Vec<Pin> = Vec::new();
        let mut i: usize = 0;
        while i < self.pins.len()
            invariant
                i <= self.pins@.len(),
                pins@.len() == i,
                forall|k: int| 0 <= k < i ==> (#[trigger] pins@[k])@ == self.pins@[k]@,
            decreases self.pins@.len() - i,
        {
            pins.push(Pin { name: self.pins[i].name.clone(), number: self.pins[i].number.clone() });
            i = i + 1;
        }
        let s = Symbol {
            name: self.name.clone(),
            footprint: self.footprint.clone(),
            in_bom: self.in_bom,
            pins,
            datasheet: copy_opt(&self.datasheet),
            manufacturer: copy_opt(&self.manufacturer),
            mpn: copy_opt(&self.mpn),
            distributors: copy_part_map(&self.distributors),
            description: copy_opt(&self.description),
            properties: copy_text_map(&self.properties),
        };
        proof {
            assert(s@.pins =~= self@.pins);
            assert(s@ =~= self@);
        }
        s
    }
}

} // verus!
