//! A KiCad symbol library: every symbol of a `.kicad_sym` file.
use vstd::prelude::*;

use super::sexpr::{list_items, parse_text, sexp_parse, str_item, SExpr};
use super::symbol::{is_symbol_list, parse_symbol, symbol_model, KicadSymbol, SymbolView};
use super::{EdaError, Symbol};
use crate::text::str_eq;

verus! {

/// The symbols read from the top-level items of a library: each `(symbol ...)`
/// list that has a name, in order; one without a name is passed over.
pub open spec fn library_symbols(items: Seq<SExpr>) -> Seq<SymbolView>
    decreases items.len(),
{
    if items.len() == 0 {
        Seq::empty()
    } else {
        let prev = library_symbols(items.drop_last());
        if is_symbol_list(items.last()) && symbol_model(list_items(items.last())->0) is Some {
            prev.push(symbol_model(list_items(items.last())->0)->0)
        } else {
            prev
        }
    }
}

/// How reading a library ends.
pub enum LibraryOutcome {
    Parsed(Seq<SymbolView>),
    ParseFailed(Seq<char>),
    NotAList,
}

/// Reading a library from a parsed file.
pub open spec fn library_outcome(e: SExpr) -> LibraryOutcome {
    match list_items(e) {
        Some(items) => LibraryOutcome::Parsed(library_symbols(items)),
        None => LibraryOutcome::NotAList,
    }
}

/// Reading a library from the text of a file.
pub open spec fn library_read_outcome(text: Seq<char>) -> LibraryOutcome {
    match sexp_parse(text) {
        Err(m) => LibraryOutcome::ParseFailed(m),
        Ok(e) => library_outcome(e),
    }
}

/// A KiCad symbol library that can contain multiple symbols.
pub struct KicadSymbolLibrary {
    symbols: Vec<KicadSymbol>,
}

/// A result agrees with an outcome.
pub open spec fn library_matches(r: Result<KicadSymbolLibrary, EdaError>, o: LibraryOutcome) -> bool {
    match (r, o) {
        (Ok(lib), LibraryOutcome::Parsed(v)) => lib@ == v && lib.wf(),
        (Err(EdaError::Parse(m)), LibraryOutcome::ParseFailed(t)) => m@ == t,
        (Err(EdaError::InvalidLibraryFormat), LibraryOutcome::NotAList) => true,
        _ => false,
    }
}

impl View for KicadSymbolLibrary {
    type V = Seq<SymbolView>;

    closed spec fn view(&self) -> Seq<SymbolView> {
        self.symbols@.map_values(|s: KicadSymbol| s@)
    }
}

impl KicadSymbolLibrary {
    /// Every symbol is well formed.
    pub closed spec fn wf(&self) -> bool {
        forall|i: int| 0 <= i < self.symbols@.len() ==> (#[trigger] self.symbols@[i]).wf()
    }

    /// Parse a KiCad symbol library from a string.
    pub fn from_string(content: &str) -> (r: Result<Self, EdaError>)
        ensures
            library_matches(r, library_read_outcome(content@)),
    {
        match parse_text(content) {
            Err(m) => Err(EdaError::Parse(m)),
            Ok(e) => Self::from_sexp(&e),
        }
    }

    /// Read a library from its parsed s-expression.
    pub fn from_sexp(e: &SExpr) -> (r: Result<Self, EdaError>)
        ensures
            library_matches(r, library_outcome(*e)),
    {
        match e {
            SExpr::Atom(_) => Err(EdaError::InvalidLibraryFormat),
            SExpr::List(items) => {
                let mut symbols: Vec<KicadSymbol> = Vec::new();
                let mut i: usize = 0;
                proof {
                    assert(items@.take(0) =~= Seq::<SExpr>::empty());
                    assert(symbols@.map_values(|s: KicadSymbol| s@) =~= library_symbols(items@.take(0)));
                }
                while i < items.len()
                    invariant
                        i <= items@.len(),
                        symbols@.map_values(|s: KicadSymbol| s@) == library_symbols(items@.take(i as int)),
                        forall|k: int| 0 <= k < symbols@.len() ==> (#[trigger] symbols@[k]).wf(),
                    decreases items@.len() - i,
                {
                    proof {
                        assert(items@.take(i + 1).drop_last() =~= items@.take(i as int));
                    }
                    let ghost old_syms = symbols@;
                    if let SExpr::List(symbol_list) = &items[i] {
                        if let Some(h) = str_item(symbol_list.as_slice(), 0) {
                            if str_eq(h.as_str(), "symbol") {
                                match parse_symbol(symbol_list.as_slice()) {
                                    Ok(symbol) => {
                                        symbols.push(symbol);
                                        proof {
                                            assert(symbols@.map_values(|s: KicadSymbol| s@) =~= old_syms.map_values(
                                                |s: KicadSymbol| s@,
                                            ).push(symbol_model(symbol_list@)->0));
                                        }
                                    },
                                    Err(_) => {},
                                }
                            }
                        }
                    }
                    i = i + 1;
                }
                proof {
                    assert(items@.take(items@.len() as int) =~= items@);
                }
                Ok(KicadSymbolLibrary { symbols })
            },
        }
    }

    /// All symbols in the library.
    pub fn symbols(&self) -> (r: &[KicadSymbol])
        ensures
            r@.map_values(|s: KicadSymbol| s@) == self@,
            self.wf() ==> forall|i: int| 0 <= i < r@.len() ==> (#[trigger] r@[i]).wf(),
    {
        self.symbols.as_slice()
    }

    /// The first symbol with the given name.
    pub fn get_symbol(&self, name: &str) -> (r: Option<&KicadSymbol>)
        ensures
            match r {
                Some(s) => exists|i: int|
                    0 <= i < self@.len() && self@[i] == s@ && s@.name == name@ && forall|k: int|
                        0 <= k < i ==> (#[trigger] self@[k]).name != name@,
                None => forall|k: int| 0 <= k < self@.len() ==> (#[trigger] self@[k]).name != name@,
            },
    {
        let mut i: usize = 0;
        while i < self.symbols.len()
            invariant
                i <= self.symbols@.len(),
                forall|k: int| 0 <= k < i ==> (#[trigger] self@[k]).name != name@,
            decreases self.symbols@.len() - i,
        {
            if str_eq(self.symbols[i].name(), name) {
                proof {
                    assert(self@[i as int] == self.symbols@[i as int]@);
                }
                return Some(&self.symbols[i]);
            }
            proof {
                assert(self@[i as int] == self.symbols@[i as int]@);
            }
            i = i + 1;
        }
        None
    }

    /// The names of all symbols, in order.
    pub fn symbol_names(&self) -> (r: Vec<&str>)
        ensures
            r@.len() == self@.len(),
            forall|i: int| 0 <= i < r@.len() ==> (#[trigger] r@[i])@ == self@[i].name,
    {
        let mut out: Vec<&str> = Vec::new();
        let mut i: usize = 0;
        while i < self.symbols.len()
            invariant
                i <= self.symbols@.len(),
                out@.len() == i,
                forall|k: int| 0 <= k < i ==> (#[trigger] out@[k])@ == self@[k].name,
            decreases self.symbols@.len() - i,
        {
            out.push(self.symbols[i].name());
            proof {
                assert(self@[i as int] == self.symbols@[i as int]@);
            }
            i = i + 1;
        }
        out
    }

    /// Every symbol as the format-independent `Symbol`.
    pub fn into_symbols(self) -> (r: Vec<Symbol>)
        ensures
            r@.map_values(|s: Symbol| s@) == self@,
    {
        let ghost v = self@;
        let mut out: Vec<Symbol> = Vec::new();
        let mut rest = self.symbols;
        let ghost start = rest@;
        while rest.len() > 0
            invariant
                v == start.map_values(|s: KicadSymbol| s@),
                out@.len() <= start.len(),
                rest@ == start.subrange(out@.len() as int, start.len() as int),
                forall|k: int| 0 <= k < out@.len() ==> (#[trigger] out@[k])@ == start[k]@,
            decreases rest@.len(),
        {
            let s = rest.remove(0);
            proof {
                assert(s == start[out@.len() as int]);
            }
            out.push(s.into_symbol());
            proof {
                assert(rest@ =~= start.subrange(out@.len() as int, start.len() as int));
            }
        }
        proof {
            assert(out@.map_values(|s: Symbol| s@) =~= v);
        }
        out
    }
}

} // verus!
