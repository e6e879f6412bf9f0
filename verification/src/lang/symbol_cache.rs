//! The cache of parsed symbol libraries, by canonical path, with the symbols
//! resolved from each so far.
use vstd::prelude::*;

use crate::eda::library::KicadSymbolLibrary;
use crate::eda::symbol::SymbolView;
use crate::eda::Symbol;
use crate::provider::FileProvider;
use crate::strmap::StrMap;
use crate::text::{concat, str_eq};

verus! {

/// The first symbol of a library with the given name.
pub open spec fn first_named(lib: Seq<SymbolView>, name: Seq<char>) -> Option<SymbolView>
    decreases lib.len(),
{
    if lib.len() == 0 {
        None
    } else if lib[0].name == name {
        Some(lib[0])
    } else {
        first_named(lib.drop_first(), name)
    }
}

/// The symbols a library gives when every name in it is resolved in order: the
/// first symbol of each name, once for each symbol of that name.
pub open spec fn resolved_all(lib: Seq<SymbolView>) -> Seq<SymbolView> {
    lib.map_values(|s: SymbolView| first_named(lib, s.name)->0)
}

proof fn lemma_first_named_found(lib: Seq<SymbolView>, i: int)
    requires
        0 <= i < lib.len(),
        forall|k: int| 0 <= k < i ==> (#[trigger] lib[k]).name != lib[i].name,
    ensures
        first_named(lib, lib[i].name) == Some(lib[i]),
    decreases i,
{
    if i > 0 {
        let t = lib.drop_first();
        assert forall|k: int| 0 <= k < i - 1 implies (#[trigger] t[k]).name != t[i - 1].name by {
            assert(t[k] == lib[k + 1]);
        }
        lemma_first_named_found(t, i - 1);
    }
}

proof fn lemma_first_named_absent(lib: Seq<SymbolView>, name: Seq<char>)
    requires
        forall|k: int| 0 <= k < lib.len() ==> (#[trigger] lib[k]).name != name,
    ensures
        first_named(lib, name) is None,
    decreases lib.len(),
{
    if lib.len() > 0 {
        let t = lib.drop_first();
        assert forall|k: int| 0 <= k < t.len() implies (#[trigger] t[k]).name != name by {
            assert(t[k] == lib[k + 1]);
        }
        lemma_first_named_absent(t, name);
    }
}

proof fn lemma_first_named_is_some(lib: Seq<SymbolView>, i: int)
    requires
        0 <= i < lib.len(),
    ensures
        first_named(lib, lib[i].name) is Some,
        first_named(lib, lib[i].name)->0.name == lib[i].name,
    decreases i,
{
    if lib[0].name != lib[i].name {
        lemma_first_named_is_some(lib.drop_first(), i - 1);
    }
}

/// The message when the provider cannot read a symbol library.
pub open spec fn read_failure_text(path: Seq<char>, detail: Seq<char>) -> Seq<char> {
    "Failed to read symbol library '"@ + path + "': "@ + detail
}

/// The message when a symbol library's text does not parse.
pub open spec fn parse_failure_text(detail: Seq<char>) -> Seq<char> {
    "Failed to parse symbol library: "@ + detail
}

/// The message of a library that could not be read from `path` or parsed.
pub open spec fn load_failure(path: Seq<char>, m: Seq<char>) -> bool {
    (exists|d: Seq<char>| m == #[trigger] read_failure_text(path, d)) || (exists|d: Seq<char>|
        m == #[trigger] parse_failure_text(d))
}

/// Libraries parsed once, by canonical path, each with the symbols resolved
/// from it so far.
pub struct SymbolLibraryCache {
    keys: Vec<String>,
    libraries: Vec<KicadSymbolLibrary>,
    resolved: Vec<StrMap<usize>>,
}

impl SymbolLibraryCache {
    /// The libraries held, by key.
    pub closed spec fn libraries(&self) -> Map<Seq<char>, Seq<SymbolView>> {
        Map::new(
            |k: Seq<char>| exists|i: int| 0 <= i < self.keys@.len() && self.keys@[i]@ == k,
            |k: Seq<char>|
                self.libraries@[choose|i: int| 0 <= i < self.keys@.len() && self.keys@[i]@ == k]@,
        )
    }

    /// Keys are unique, the tables line up, and every resolved symbol is the
    /// first of its name in its library.
    pub closed spec fn wf(&self) -> bool {
        &&& self.keys@.len() == self.libraries@.len()
        &&& self.keys@.len() == self.resolved@.len()
        &&& forall|i: int, j: int| 0 <= i < j < self.keys@.len() ==> self.keys@[i]@ != self.keys@[j]@
        &&& forall|i: int| 0 <= i < self.libraries@.len() ==> (#[trigger] self.libraries@[i]).wf()
        &&& forall|i: int| 0 <= i < self.resolved@.len() ==> (#[trigger] self.resolved@[i]).wf()
        &&& forall|i: int, n: Seq<char>|
            0 <= i < self.resolved@.len() && #[trigger] self.resolved@[i]@.contains_key(n) ==> {
                let j = self.resolved@[i]@[n] as int;
                &&& 0 <= j < self.libraries@[i]@.len()
                &&& first_named(self.libraries@[i]@, n) == Some(self.libraries@[i]@[j])
            }
    }

    proof fn lemma_libraries_at(&self, i: int)
        requires
            self.wf(),
            0 <= i < self.keys@.len(),
        ensures
            self.libraries().contains_key(self.keys@[i]@),
            self.libraries()[self.keys@[i]@] == self.libraries@[i]@,
    {
        let k = self.keys@[i]@;
        assert(self.libraries().dom().contains(k));
        let c = choose|c: int| 0 <= c < self.keys@.len() && self.keys@[c]@ == k;
        if c != i {
            if c < i {
                assert(self.keys@[c]@ != self.keys@[i]@);
            } else {
                assert(self.keys@[i]@ != self.keys@[c]@);
            }
        }
    }

    /// An empty cache.
    pub fn new() -> (c: Self)
        ensures
            c.wf(),
            c.libraries() == Map::<Seq<char>, Seq<SymbolView>>::empty(),
    {
        let c = SymbolLibraryCache { keys: Vec::new(), libraries: Vec::new(), resolved: Vec::new() };
        proof {
            assert(c.libraries() =~= Map::<Seq<char>, Seq<SymbolView>>::empty());
        }
        c
    }

    fn position(&self, key: &str) -> (r: Option<usize>)
        requires
            self.wf(),
        ensures
            match r {
                Some(i) => i < self.keys@.len() && self.keys@[i as int]@ == key@,
                None => !self.libraries().contains_key(key@),
            },
    {
        let mut i: usize = 0;
        while i < self.keys.len()
            invariant
                i <= self.keys@.len(),
                forall|k: int| 0 <= k < i ==> self.keys@[k]@ != key@,
            decreases self.keys@.len() - i,
        {
            if str_eq(self.keys[i].as_str(), key) {
                return Some(i);
            }
            i = i + 1;
        }
        None
    }

    /// Whether a library is held under `key`.
    pub fn contains_library(&self, key: &str) -> (b: bool)
        requires
            self.wf(),
        ensures
            b == self.libraries().contains_key(key@),
    {
        match self.position(key) {
            Some(i) => {
                proof {
                    self.lemma_libraries_at(i as int);
                }
                true
            },
            None => false,
        }
    }

    /// The position of the first symbol named `name` in the library at position `i`.
    fn find_in_library(&self, i: usize, name: &str) -> (r: Option<usize>)
        requires
            self.wf(),
            i < self.keys@.len(),
        ensures
            match r {
                Some(j) => j < self.libraries@[i as int]@.len() && first_named(self.libraries@[i as int]@, name@)
                    == Some(self.libraries@[i as int]@[j as int]),
                None => first_named(self.libraries@[i as int]@, name@) is None,
            },
    {
        let syms = self.libraries[i].symbols();
        let ghost lib = self.libraries@[i as int]@;
        let mut j: usize = 0;
        while j < syms.len()
            invariant
                lib == self.libraries@[i as int]@,
                syms@.map_values(|s: crate::eda::symbol::KicadSymbol| s@) == lib,
                j <= syms@.len(),
                forall|k: int| 0 <= k < j ==> (#[trigger] lib[k]).name != name@,
            decreases syms@.len() - j,
        {
            proof {
                assert(lib[j as int] == syms@[j as int]@);
            }
            if str_eq(syms[j].name(), name) {
                proof {
                    lemma_first_named_found(lib, j as int);
                }
                return Some(j);
            }
            j = j + 1;
        }
        proof {
            lemma_first_named_absent(lib, name@);
        }
        None
    }

    /// The symbol at position `j` of the library at position `i`.
    fn symbol_at(&self, i: usize, j: usize) -> (s: Symbol)
        requires
            self.wf(),
            i < self.keys@.len(),
            j < self.libraries@[i as int]@.len(),
        ensures
            s@ == self.libraries@[i as int]@[j as int],
            s.distributors.wf(),
            s.properties.wf(),
    {
        let syms = self.libraries[i].symbols();
        proof {
            assert(syms@.map_values(|s: crate::eda::symbol::KicadSymbol| s@)[j as int] == syms@[j as int]@);
        }
        syms[j].to_symbol()
    }

    /// Resolve a symbol of the library at position `i`: by the position
    /// recorded when it was resolved before, else by a search of the library,
    /// which is then recorded.
    fn resolve_at(&mut self, i: usize, name: &str) -> (r: Option<Symbol>)
        requires
            old(self).wf(),
            i < old(self).keys@.len(),
        ensures
            final(self).wf(),
            final(self).keys@ == old(self).keys@,
            final(self).libraries@ == old(self).libraries@,
            match r {
                Some(s) => first_named(old(self).libraries@[i as int]@, name@) == Some(s@),
                None => first_named(old(self).libraries@[i as int]@, name@) is None,
            },
    {
        match self.resolved[i].get(name) {
            Some(j) => {
                let j = *j;
                proof {
                    assert(self.resolved@[i as int]@.contains_key(name@));
                }
                return Some(self.symbol_at(i, j));
            },
            None => {},
        }
        match self.find_in_library(i, name) {
            Some(j) => {
                let s = self.symbol_at(i, j);
                let ghost before = self.resolved@;
                let mut table = self.resolved.remove(i);
                proof {
                    assert(table == before[i as int]);
                }
                table.insert(name.to_owned(), j);
                self.resolved.insert(i, table);
                proof {
                    assert(self.resolved@ =~= before.update(i as int, table));
                    assert forall|a: int, n: Seq<char>|
                        0 <= a < self.resolved@.len() && #[trigger] self.resolved@[a]@.contains_key(n) implies {
                        let k = self.resolved@[a]@[n] as int;
                        &&& 0 <= k < self.libraries@[a]@.len()
                        &&& first_named(self.libraries@[a]@, n) == Some(self.libraries@[a]@[k])
                    } by {
                        if a != i {
                            assert(self.resolved@[a] == before[a]);
                        } else if n != name@ {
                            assert(before[a]@.contains_key(n));
                        }
                    }
                }
                Some(s)
            },
            None => None,
        }
    }

    /// The symbol `symbol_name` of the library held under `key`: `None` when no
    /// library is held there; else the first symbol of that name in it, if any.
    /// A symbol resolved before is given from the resolved table.
    pub fn load_symbol(&mut self, key: &str, symbol_name: &str) -> (r: Option<Option<Symbol>>)
        requires
            old(self).wf(),
        ensures
            final(self).wf(),
            final(self).libraries() == old(self).libraries(),
            match r {
                None => !old(self).libraries().contains_key(key@),
                Some(found) => old(self).libraries().contains_key(key@) && match found {
                    Some(s) => first_named(old(self).libraries()[key@], symbol_name@) == Some(s@),
                    None => first_named(old(self).libraries()[key@], symbol_name@) is None,
                },
            },
    {
        match self.position(key) {
            None => None,
            Some(i) => {
                proof {
                    self.lemma_libraries_at(i as int);
                }
                let found = self.resolve_at(i, symbol_name);
                proof {
                    self.lemma_libraries_at(i as int);
                    assert(self.libraries() =~= old(self).libraries());
                }
                Some(found)
            },
        }
    }
    /// Record a parsed library under `key` (replacing one held there), every
    /// name in it resolved; the symbols it gives, each name resolved in order.
    pub fn insert_library(&mut self, key: String, lib: KicadSymbolLibrary) -> (r: Vec<Symbol>)
        requires
            old(self).wf(),
            lib.wf(),
        ensures
            final(self).wf(),
            final(self).libraries() == old(self).libraries().insert(key@, lib@),
            r@.map_values(|s: Symbol| s@) == resolved_all(lib@),
    {
        let ghost lv = lib@;
        let mut table: StrMap<usize> = StrMap::new();
        let syms = lib.symbols();
        let mut j: usize = 0;
        while j < syms.len()
            invariant
                lv == lib@,
                syms@.map_values(|s: crate::eda::symbol::KicadSymbol| s@) == lv,
                j <= syms@.len(),
                table.wf(),
                forall|n: Seq<char>| #[trigger] table@.contains_key(n) <==> exists|k: int| 0 <= k < j && lv[k].name == n,
                forall|n: Seq<char>|
                    #[trigger] table@.contains_key(n) ==> {
                        let t = table@[n] as int;
                        &&& 0 <= t < lv.len()
                        &&& first_named(lv, n) == Some(lv[t])
                    },
            decreases syms@.len() - j,
        {
            let name = syms[j].name();
            proof {
                assert(lv[j as int] == syms@[j as int]@);
            }
            if !table.contains_key(name) {
                proof {
                    assert forall|k: int| 0 <= k < j implies (#[trigger] lv[k]).name != lv[j as int].name by {
                        if lv[k].name == lv[j as int].name {
                            assert(table@.contains_key(lv[k].name));
                        }
                    }
                    lemma_first_named_found(lv, j as int);
                }
                table.insert(name.to_owned(), j);
            }
            j = j + 1;
        }
        let mut out: Vec<Symbol> = Vec::new();
        let mut t: usize = 0;
        while t < syms.len()
            invariant
                lv == lib@,
                lib.wf(),
                syms@.map_values(|s: crate::eda::symbol::KicadSymbol| s@) == lv,
                forall|k: int| 0 <= k < syms@.len() ==> (#[trigger] syms@[k]).wf(),
                t <= syms@.len(),
                table.wf(),
                forall|n: Seq<char>| #[trigger] table@.contains_key(n) <==> exists|k: int| 0 <= k < syms@.len() && lv[k].name == n,
                forall|n: Seq<char>|
                    #[trigger] table@.contains_key(n) ==> {
                        let x = table@[n] as int;
                        &&& 0 <= x < lv.len()
                        &&& first_named(lv, n) == Some(lv[x])
                    },
                out@.len() == t,
                forall|k: int| 0 <= k < t ==> (#[trigger] out@[k])@ == resolved_all(lv)[k],
            decreases syms@.len() - t,
        {
            let name = syms[t].name();
            proof {
                assert(lv[t as int] == syms@[t as int]@);
                assert(table@.contains_key(name@));
            }
            let x = match table.get(name) {
                Some(x) => *x,
                None => 0,
            };
            proof {
                assert(lv[x as int] == syms@[x as int]@);
            }
            let s = syms[x].to_symbol();
            out.push(s);
            t = t + 1;
        }
        proof {
            assert(out@.map_values(|s: Symbol| s@) =~= resolved_all(lv));
        }
        let ghost before = *self;
        match self.position(key.as_str()) {
            Some(i) => {
                self.libraries.set(i, lib);
                self.resolved.set(i, table);
                proof {
                    before.lemma_libraries_at(i as int);
                    assert(self.keys@ == before.keys@);
                    assert forall|a: int, n: Seq<char>|
                        0 <= a < self.resolved@.len() && #[trigger] self.resolved@[a]@.contains_key(n) implies {
                        let k = self.resolved@[a]@[n] as int;
                        &&& 0 <= k < self.libraries@[a]@.len()
                        &&& first_named(self.libraries@[a]@, n) == Some(self.libraries@[a]@[k])
                    } by {
                        if a != i {
                            assert(self.resolved@[a] == before.resolved@[a]);
                            assert(self.libraries@[a] == before.libraries@[a]);
                        }
                    }
                    assert forall|a: int| 0 <= a < self.libraries@.len() implies (#[trigger] self.libraries@[a]).wf() by {
                        if a != i {
                            assert(self.libraries@[a] == before.libraries@[a]);
                        }
                    }
                    assert forall|a: int| 0 <= a < self.resolved@.len() implies (#[trigger] self.resolved@[a]).wf() by {
                        if a != i {
                            assert(self.resolved@[a] == before.resolved@[a]);
                        }
                    }
                    assert forall|k: Seq<char>| #[trigger] self.libraries().contains_key(k) == before.libraries().insert(key@, lv).contains_key(k) by {
                        if before.libraries().contains_key(k) {
                            let c = choose|c: int| 0 <= c < before.keys@.len() && before.keys@[c]@ == k;
                            assert(self.keys@[c]@ == k);
                        }
                        if self.libraries().contains_key(k) {
                            let c = choose|c: int| 0 <= c < self.keys@.len() && self.keys@[c]@ == k;
                            assert(before.keys@[c]@ == k);
                        }
                    }
                    assert forall|k: Seq<char>| self.libraries().contains_key(k) implies self.libraries()[k] == before.libraries().insert(key@, lv)[k] by {
                        let c = choose|c: int| 0 <= c < self.keys@.len() && self.keys@[c]@ == k;
                        self.lemma_libraries_at(c);
                        if c != i {
                            before.lemma_libraries_at(c);
                        }
                    }
                    assert(self.libraries() =~= before.libraries().insert(key@, lv));
                }
            },
            None => {
                self.keys.push(key);
                self.libraries.push(lib);
                self.resolved.push(table);
                proof {
                    let i = before.keys@.len() as int;
                    assert forall|a: int, b: int| 0 <= a < b < self.keys@.len() implies self.keys@[a]@ != self.keys@[b]@ by {
                        if b == i {
                            assert(before.keys@[a]@ != key@) by {
                                if before.keys@[a]@ == key@ {
                                    before.lemma_libraries_at(a);
                                }
                            }
                        } else {
                            assert(self.keys@[a] == before.keys@[a] && self.keys@[b] == before.keys@[b]);
                        }
                    }
                    assert forall|a: int, n: Seq<char>|
                        0 <= a < self.resolved@.len() && #[trigger] self.resolved@[a]@.contains_key(n) implies {
                        let k = self.resolved@[a]@[n] as int;
                        &&& 0 <= k < self.libraries@[a]@.len()
                        &&& first_named(self.libraries@[a]@, n) == Some(self.libraries@[a]@[k])
                    } by {
                        if a < i {
                            assert(self.resolved@[a] == before.resolved@[a]);
                            assert(self.libraries@[a] == before.libraries@[a]);
                        }
                    }
                    assert forall|a: int| 0 <= a < self.libraries@.len() implies (#[trigger] self.libraries@[a]).wf() by {
                        if a < i {
                            assert(self.libraries@[a] == before.libraries@[a]);
                        }
                    }
                    assert forall|a: int| 0 <= a < self.resolved@.len() implies (#[trigger] self.resolved@[a]).wf() by {
                        if a < i {
                            assert(self.resolved@[a] == before.resolved@[a]);
                        }
                    }
                    assert forall|k: Seq<char>| #[trigger] self.libraries().contains_key(k) == before.libraries().insert(key@, lv).contains_key(k) by {
                        if before.libraries().contains_key(k) {
                            let c = choose|c: int| 0 <= c < before.keys@.len() && before.keys@[c]@ == k;
                            assert(self.keys@[c]@ == k);
                        }
                        if k == key@ {
                            assert(self.keys@[i]@ == k);
                        }
                        if self.libraries().contains_key(k) {
                            let c = choose|c: int| 0 <= c < self.keys@.len() && self.keys@[c]@ == k;
                            if c < i {
                                assert(before.keys@[c]@ == k);
                            }
                        }
                    }
                    assert forall|k: Seq<char>| self.libraries().contains_key(k) implies self.libraries()[k] == before.libraries().insert(key@, lv)[k] by {
                        let c = choose|c: int| 0 <= c < self.keys@.len() && self.keys@[c]@ == k;
                        self.lemma_libraries_at(c);
                        if c < i {
                            before.lemma_libraries_at(c);
                            assert(self.libraries@[c] == before.libraries@[c]);
                        }
                    }
                    assert(self.libraries() =~= before.libraries().insert(key@, lv));
                }
            },
        }
        out
    }
    /// The symbols of the library held under `key`, each name resolved in
    /// order; `None` when no library is held there.
    pub fn cached_symbols(&mut self, key: &str) -> (r: Option<Vec<Symbol>>)
        requires
            old(self).wf(),
        ensures
            final(self).wf(),
            final(self).libraries() == old(self).libraries(),
            match r {
                None => !old(self).libraries().contains_key(key@),
                Some(v) => old(self).libraries().contains_key(key@) && v@.map_values(|s: Symbol| s@) == resolved_all(
                    old(self).libraries()[key@],
                ),
            },
    {
        let i = match self.position(key) {
            Some(i) => i,
            None => {
                return None;
            },
        };
        proof {
            self.lemma_libraries_at(i as int);
        }
        let ghost lib = self.libraries@[i as int]@;
        let ghost start = *self;
        let names = self.library_names(i);
        let mut out: Vec<Symbol> = Vec::new();
        let mut t: usize = 0;
        while t < names.len()
            invariant
                self.wf(),
                i < self.keys@.len(),
                self.keys@ == start.keys@,
                self.libraries@ == start.libraries@,
                lib == self.libraries@[i as int]@,
                names@.len() == lib.len(),
                forall|k: int| 0 <= k < names@.len() ==> (#[trigger] names@[k])@ == lib[k].name,
                t <= names@.len(),
                out@.len() == t,
                forall|k: int| 0 <= k < t ==> (#[trigger] out@[k])@ == resolved_all(lib)[k],
            decreases names@.len() - t,
        {
            proof {
                lemma_first_named_is_some(lib, t as int);
            }
            match self.resolve_at(i, names[t].as_str()) {
                Some(s) => {
                    out.push(s);
                },
                None => {
                    proof {
                        assert(false);
                    }
                },
            }
            t = t + 1;
        }
        proof {
            assert(out@.map_values(|s: Symbol| s@) =~= resolved_all(lib));
            self.lemma_libraries_at(i as int);
            assert(self.libraries() =~= start.libraries());
        }
        Some(out)
    }

    /// The names of the symbols of the library at position `i`, in order.
    fn library_names(&self, i: usize) -> (r: Vec<String>)
        requires
            self.wf(),
            i < self.keys@.len(),
        ensures
            r@.len() == self.libraries@[i as int]@.len(),
            forall|k: int| 0 <= k < r@.len() ==> (#[trigger] r@[k])@ == self.libraries@[i as int]@[k].name,
    {
        let syms = self.libraries[i].symbols();
        let ghost lib = self.libraries@[i as int]@;
        let mut out: Vec<String> = Vec::new();
        let mut j: usize = 0;
        while j < syms.len()
            invariant
                syms@.map_values(|s: crate::eda::symbol::KicadSymbol| s@) == lib,
                j <= syms@.len(),
                out@.len() == j,
                forall|k: int| 0 <= k < j ==> (#[trigger] out@[k])@ == lib[k].name,
            decreases syms@.len() - j,
        {
            proof {
                assert(lib[j as int] == syms@[j as int]@);
            }
            out.push(syms[j].name().to_owned());
            j = j + 1;
        }
        out
    }

    /// The library under `key`, read from `path` through the provider and
    /// parsed when none is held there yet; its symbols, each name resolved.
    fn ensure_library<P: FileProvider>(&mut self, key: String, path: &str, file_provider: &P) -> (r: Result<
        Vec<Symbol>,
        String,
    >)
        requires
            old(self).wf(),
        ensures
            final(self).wf(),
            old(self).libraries().contains_key(key@) ==> final(self).libraries() == old(self).libraries() && r is Ok,
            !old(self).libraries().contains_key(key@) ==> (final(self).libraries() == old(self).libraries() || exists|
                lib: Seq<SymbolView>,
            | final(self).libraries() == old(self).libraries().insert(key@, lib)),
            r matches Ok(v) ==> final(self).libraries().contains_key(key@) && v@.map_values(|s: Symbol| s@)
                == resolved_all(final(self).libraries()[key@]),
            r matches Err(m) ==> final(self).libraries() == old(self).libraries() && load_failure(path@, m@),
    {
        match self.cached_symbols(key.as_str()) {
            Some(v) => {
                return Ok(v);
            },
            None => {},
        }
        let contents = match file_provider.read_file(path) {
            Ok(c) => c,
            Err(e) => {
                let mut m = concat("Failed to read symbol library '", path);
                m.append("': ");
                let detail = e.message();
                m.append(detail.as_str());
                proof {
                    assert(m@ =~= read_failure_text(path@, detail@));
                }
                return Err(m);
            },
        };
        let lib = match KicadSymbolLibrary::from_string(contents.as_str()) {
            Ok(lib) => lib,
            Err(e) => {
                let detail = e.message();
                let m = concat("Failed to parse symbol library: ", detail.as_str());
                proof {
                    assert(m@ =~= parse_failure_text(detail@));
                }
                return Err(m);
            },
        };
        let ghost lv = lib@;
        let v = self.insert_library(key, lib);
        proof {
            assert(self.libraries()[key@] == lv);
        }
        Ok(v)
    }

    /// `load_symbols_from_library`: every symbol of the library at `path`,
    /// each name resolved in order. The library is held under the canonical
    /// form of `path` (the path itself when it has none) and read and parsed
    /// only when none is held there yet.
    pub fn load_symbols_from_library<P: FileProvider>(&mut self, path: &str, file_provider: &P) -> (r: Result<
        Vec<Symbol>,
        String,
    >)
        requires
            old(self).wf(),
        ensures
            final(self).wf(),
            r matches Ok(v) ==> exists|key: Seq<char>|
                final(self).libraries().contains_key(key) && v@.map_values(|s: Symbol| s@) == resolved_all(
                    #[trigger] final(self).libraries()[key],
                ),
            r is Ok ==> final(self).libraries() == old(self).libraries() || exists|key: Seq<char>, lib: Seq<SymbolView>|
                final(self).libraries() == #[trigger] old(self).libraries().insert(key, lib),
            r matches Err(m) ==> final(self).libraries() == old(self).libraries() && load_failure(path@, m@),
    {
        let key = match file_provider.canonicalize(path) {
            Ok(k) => k,
            Err(_) => path.to_owned(),
        };
        let ghost kv = key@;
        let r = self.ensure_library(key, path, file_provider);
        proof {
            if r is Ok {
                assert(final(self).libraries().contains_key(kv));
                if self.libraries() != old(self).libraries() {
                    let lib = choose|lib: Seq<SymbolView>| self.libraries() == old(self).libraries().insert(kv, lib);
                    assert(self.libraries() == old(self).libraries().insert(kv, lib));
                }
            }
        }
        r
    }

    /// `load_symbol_from_library`: the first symbol named `symbol_name` in the
    /// library at `path`, if any. The library is held under the canonical form
    /// of `path` (the path itself when it has none); a library held already is
    /// not read again, and a symbol resolved before is found by the position
    /// recorded for it.
    pub fn load_symbol_from_library<P: FileProvider>(
        &mut self,
        path: &str,
        symbol_name: &str,
        file_provider: &P,
    ) -> (r: Result<Option<Symbol>, String>)
        requires
            old(self).wf(),
        ensures
            final(self).wf(),
            r matches Ok(found) ==> exists|key: Seq<char>|
                final(self).libraries().contains_key(key) && match found {
                    Some(s) => first_named(#[trigger] final(self).libraries()[key], symbol_name@) == Some(s@),
                    None => first_named(final(self).libraries()[key], symbol_name@) is None,
                },
            r is Ok ==> final(self).libraries() == old(self).libraries() || exists|key: Seq<char>, lib: Seq<SymbolView>|
                final(self).libraries() == #[trigger] old(self).libraries().insert(key, lib),
            r matches Err(m) ==> final(self).libraries() == old(self).libraries() && load_failure(path@, m@),
    {
        let key = match file_provider.canonicalize(path) {
            Ok(k) => k,
            Err(_) => path.to_owned(),
        };
        match self.load_symbol(key.as_str(), symbol_name) {
            Some(found) => {
                proof {
                    assert(final(self).libraries().contains_key(key@));
                }
                return Ok(found);
            },
            None => {},
        }
        let ghost before = self.libraries();
        let key2 = key.clone();
        let loaded = self.ensure_library(key2, path, file_provider);
        proof {
            if loaded is Ok && self.libraries() != before {
                let lib = choose|lib: Seq<SymbolView>| self.libraries() == before.insert(key2@, lib);
                assert(self.libraries() == old(self).libraries().insert(key2@, lib));
            }
        }
        match loaded {
            Err(e) => Err(e),
            Ok(_) => match self.load_symbol(key.as_str(), symbol_name) {
                Some(found) => {
                    proof {
                        assert(final(self).libraries().contains_key(key@));
                    }
                    Ok(found)
                },
                None => {
                    proof {
                        assert(false);
                    }
                    Ok(None)
                },
            },
        }
    }
}

} // verus!
