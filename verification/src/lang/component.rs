//! Components, symbols and component factories: how their arguments are checked
//! and what they are made of.
use vstd::prelude::*;

use crate::config::path_join;
use crate::strmap::{assoc_insert, StrMap};
use crate::text::{
    concat, ends_with, has_suffix, join_comma, join_with_comma, sort_strings, sorted_strictly, str_eq, strs,
};

verus! {

/// A language value as the component rules see it: a handle the evaluator
/// resolves, its type name, and its text when it is a string.
#[derive(Debug, Clone)]
pub struct LangValue {
    pub handle: u64,
    pub value_type: String,
    pub str_value: Option<String>,
}

impl View for LangValue {
    type V = (u64, Seq<char>, Option<Seq<char>>);

    open spec fn view(&self) -> (u64, Seq<char>, Option<Seq<char>>) {
        (self.handle, self.value_type@, crate::text::opt_str(self.str_value))
    }
}

impl LangValue {
    /// A copy of the value.
    pub fn copy(&self) -> (r: LangValue)
        ensures
            r@ == self@,
    {
        LangValue {
            handle: self.handle,
            value_type: self.value_type.clone(),
            str_value: match &self.str_value {
                Some(s) => Some(s.clone()),
                None => None,
            },
        }
    }
}

/// A property value: a string made by the rules, or a value given by the caller.
#[derive(Debug, Clone)]
pub enum PropValue {
    Text(String),
    Value(LangValue),
}

/// A property value as plain data.
pub enum PropValueView {
    Text(Seq<char>),
    Value((u64, Seq<char>, Option<Seq<char>>)),
}

impl View for PropValue {
    type V = PropValueView;

    open spec fn view(&self) -> PropValueView {
        match self {
            PropValue::Text(s) => PropValueView::Text(s@),
            PropValue::Value(v) => PropValueView::Value(v@),
        }
    }
}

/// A schematic symbol definition: pads mapped to signal names.
#[derive(Debug)]
pub struct SymbolValueGen {
    name: String,
    pins: StrMap<String>,
    source_path: Option<String>,
}

/// A symbol definition as plain data.
pub struct SymbolDef {
    pub name: Seq<char>,
    pub pins: Seq<(Seq<char>, Seq<char>)>,
    pub source_path: Option<Seq<char>>,
}

impl View for SymbolValueGen {
    type V = SymbolDef;

    closed spec fn view(&self) -> SymbolDef {
        SymbolDef {
            name: self.name@,
            pins: self.pins.entries_view(),
            source_path: crate::text::opt_str(self.source_path),
        }
    }
}

impl SymbolValueGen {
    /// The pad table is well formed.
    pub closed spec fn wf(&self) -> bool {
        self.pins.wf()
    }

    /// A symbol with the given name, pads and source.
    pub fn new(name: String, pins: StrMap<String>, source_path: Option<String>) -> (s: Self)
        requires
            pins.wf(),
        ensures
            s.wf(),
            s@.name == name@,
            s@.pins == pins.entries_view(),
            s@.source_path == crate::text::opt_str(source_path),
    {
        SymbolValueGen { name, pins, source_path }
    }

    /// The symbol's name.
    pub fn name(&self) -> (r: &str)
        ensures
            r@ == self@.name,
    {
        self.name.as_str()
    }

    /// The pads, each mapped to its signal.
    pub fn pins(&self) -> (r: &StrMap<String>)
        ensures
            r.entries_view() == self@.pins,
            self.wf() ==> r.wf(),
    {
        &self.pins
    }

    /// The library the symbol was loaded from, if any.
    pub fn source_path(&self) -> (r: Option<&str>)
        ensures
            match r {
                Some(p) => self@.source_path == Some(p@),
                None => self@.source_path is None,
            },
    {
        match &self.source_path {
            Some(p) => Some(p.as_str()),
            None => None,
        }
    }
}

/// A component instance.
#[derive(Debug)]
pub struct ComponentValueGen {
    name: String,
    mpn: Option<String>,
    ctype: Option<String>,
    footprint: String,
    prefix: String,
    pins: StrMap<String>,
    connections: StrMap<LangValue>,
    properties: StrMap<PropValue>,
    source_path: String,
    symbol: Option<LangValue>,
}

/// What a component is made of, as plain data.
pub struct ComponentView {
    pub name: Seq<char>,
    pub mpn: Option<Seq<char>>,
    pub ctype: Option<Seq<char>>,
    pub footprint: Seq<char>,
    pub prefix: Seq<char>,
    pub pins: Seq<(Seq<char>, Seq<char>)>,
    pub connections: Seq<(Seq<char>, (u64, Seq<char>, Option<Seq<char>>))>,
    pub properties: Seq<(Seq<char>, PropValueView)>,
    pub source_path: Seq<char>,
    pub symbol: Option<(u64, Seq<char>, Option<Seq<char>>)>,
}

impl View for ComponentValueGen {
    type V = ComponentView;

    closed spec fn view(&self) -> ComponentView {
        ComponentView {
            name: self.name@,
            mpn: crate::text::opt_str(self.mpn),
            ctype: crate::text::opt_str(self.ctype),
            footprint: self.footprint@,
            prefix: self.prefix@,
            pins: self.pins.entries_view(),
            connections: self.connections.entries_view(),
            properties: self.properties.entries_view(),
            source_path: self.source_path@,
            symbol: match self.symbol {
                Some(v) => Some(v@),
                None => None,
            },
        }
    }
}

impl ComponentValueGen {
    /// The manufacturer part number, if any.
    pub fn mpn(&self) -> (r: Option<&str>)
        ensures
            match r {
                Some(s) => self@.mpn == Some(s@),
                None => self@.mpn is None,
            },
    {
        match &self.mpn {
            Some(m) => Some(m.as_str()),
            None => None,
        }
    }

    /// The reference designator prefix.
    pub fn prefix(&self) -> (r: &str)
        ensures
            r@ == self@.prefix,
    {
        self.prefix.as_str()
    }

    /// The component type, if declared.
    pub fn ctype(&self) -> (r: Option<&str>)
        ensures
            match r {
                Some(s) => self@.ctype == Some(s@),
                None => self@.ctype is None,
            },
    {
        match &self.ctype {
            Some(m) => Some(m.as_str()),
            None => None,
        }
    }

    /// The pins: name to pad.
    pub fn pins(&self) -> (r: &StrMap<String>)
        ensures
            r.entries_view() == self@.pins,
    {
        &self.pins
    }

    /// The footprint.
    pub fn footprint(&self) -> (r: &str)
        ensures
            r@ == self@.footprint,
    {
        self.footprint.as_str()
    }

    /// The properties.
    pub fn properties(&self) -> (r: &StrMap<PropValue>)
        ensures
            r.entries_view() == self@.properties,
    {
        &self.properties
    }

    /// The connections: pin name to net.
    pub fn connections(&self) -> (r: &StrMap<LangValue>)
        ensures
            r.entries_view() == self@.connections,
    {
        &self.connections
    }

    /// The component's name.
    pub fn name(&self) -> (r: &str)
        ensures
            r@ == self@.name,
    {
        self.name.as_str()
    }

    /// The file the component was created in (empty when unknown).
    pub fn source_path(&self) -> (r: &str)
        ensures
            r@ == self@.source_path,
    {
        self.source_path.as_str()
    }

    /// The symbol value given to the component, if any.
    pub fn symbol(&self) -> (r: &Option<LangValue>)
        ensures
            match *r {
                Some(v) => self@.symbol == Some(v@),
                None => self@.symbol is None,
            },
    {
        &self.symbol
    }
}

/// The directory part of a file path: everything before its last `/` (the root
/// for a file directly under it); `""` for a bare name; none for `""` and `/`.
pub open spec fn parent_dir(p: Seq<char>) -> Option<Seq<char>> {
    if p.len() == 0 || p == seq!['/'] {
        None
    } else {
        match last_slash(p) {
            Some(i) => if i == 0 {
                Some(seq!['/'])
            } else {
                Some(p.subrange(0, i))
            },
            None => Some(Seq::empty()),
        }
    }
}

/// The position of the last `/` in `p`.
pub open spec fn last_slash(p: Seq<char>) -> Option<int>
    decreases p.len(),
{
    if p.len() == 0 {
        None
    } else if p.last() == '/' {
        Some(p.len() - 1)
    } else {
        last_slash(p.drop_last())
    }
}

pub(crate) fn find_last_slash(p: &str) -> (r: Option<usize>)
    ensures
        match r {
            Some(i) => last_slash(p@) == Some(i as int) && i < p@.len(),
            None => last_slash(p@) is None,
        },
{
    let n = p.unicode_len();
    let mut i = n;
    proof {
        assert(p@.take(n as int) =~= p@);
    }
    while i > 0
        invariant
            n == p@.len(),
            i <= n,
            last_slash(p@) == last_slash(p@.take(i as int)),
        decreases i,
    {
        proof {
            assert(p@.take(i as int).drop_last() =~= p@.take(i - 1));
        }
        if p.get_char(i - 1) == '/' {
            return Some(i - 1);
        }
        i = i - 1;
    }
    None
}

/// The directory of a file path.
pub fn parent_of(p: &str) -> (r: Option<String>)
    ensures
        match r {
            Some(d) => parent_dir(p@) == Some(d@),
            None => parent_dir(p@) is None,
        },
{
    let n = p.unicode_len();
    proof {
        reveal_strlit("/");
        assert("/"@ =~= seq!['/']);
    }
    if n == 0 || str_eq(p, "/") {
        return None;
    }
    match find_last_slash(p) {
        Some(i) => {
            if i == 0 {
                Some("/".to_owned())
            } else {
                Some(crate::text::substring(p, 0, i))
            }
        },
        None => Some(String::new()),
    }
}

/// The footprint after resolution: a relative `.kicad_mod` path is taken from
/// the directory of the current file.
pub open spec fn footprint_outcome(fp: Seq<char>, source: Seq<char>) -> Result<Seq<char>, Seq<char>> {
    if has_suffix(fp, ".kicad_mod"@) && !(fp.len() > 0 && fp[0] == '/') {
        match parent_dir(source) {
            Some(d) => Ok(path_join(d, fp)),
            None => Err("could not determine parent directory of current file"@),
        }
    } else {
        Ok(fp)
    }
}

fn resolve_footprint(fp: String, source: &str) -> (r: Result<String, String>)
    ensures
        match footprint_outcome(fp@, source@) {
            Ok(f) => r matches Ok(x) && x@ == f,
            Err(e) => r matches Err(x) && x@ == e,
        },
{
    let n = fp.as_str().unicode_len();
    let absolute = n > 0 && fp.as_str().get_char(0) == '/';
    if ends_with(fp.as_str(), ".kicad_mod") && !absolute {
        match parent_of(source) {
            Some(d) => Ok(crate::config::join_path(d.as_str(), fp.as_str())),
            None => Err("could not determine parent directory of current file".to_owned()),
        }
    } else {
        Ok(fp)
    }
}

/// The pin table given by `pin_defs` entries, or the first entry that is not a
/// pair of strings.
pub open spec fn defs_outcome(defs: Seq<(Option<String>, Option<String>)>) -> Result<
    Seq<(Seq<char>, Seq<char>)>,
    Seq<char>,
>
    decreases defs.len(),
{
    if defs.len() == 0 {
        Ok(Seq::empty())
    } else {
        match defs_outcome(defs.drop_last()) {
            Err(e) => Err(e),
            Ok(m) => match defs.last() {
                (None, _) => Err("pin name must be a string"@),
                (Some(_), None) => Err("pad must be a string"@),
                (Some(k), Some(p)) => Ok(assoc_insert(m, k@, p@)),
            },
        }
    }
}

fn pins_from_defs(defs: &Vec<(Option<String>, Option<String>)>) -> (r: Result<StrMap<String>, String>)
    ensures
        match defs_outcome(defs@) {
            Ok(m) => r matches Ok(x) && x.wf() && x.entries_view() == m,
            Err(e) => r matches Err(x) && x@ == e,
        },
{
    let mut m: StrMap<String> = StrMap::new();
    let mut i: usize = 0;
    proof {
        assert(defs@.take(0) =~= Seq::<(Option<String>, Option<String>)>::empty());
    }
    while i < defs.len()
        invariant
            i <= defs@.len(),
            m.wf(),
            defs_outcome(defs@.take(i as int)) == Ok::<Seq<(Seq<char>, Seq<char>)>, Seq<char>>(m.entries_view()),
        decreases defs@.len() - i,
    {
        proof {
            assert(defs@.take(i + 1).drop_last() =~= defs@.take(i as int));
            assert(defs@.take(i + 1).last() == defs@[i as int]);
        }
        match &defs[i] {
            (None, _) => {
                proof {
                    lemma_defs_err_prefix(defs@, i + 1);
                }
                return Err("pin name must be a string".to_owned());
            },
            (Some(_), None) => {
                proof {
                    lemma_defs_err_prefix(defs@, i + 1);
                }
                return Err("pad must be a string".to_owned());
            },
            (Some(k), Some(p)) => {
                m.insert(k.clone(), p.clone());
            },
        }
        i = i + 1;
    }
    proof {
        assert(defs@.take(defs@.len() as int) =~= defs@);
    }
    Ok(m)
}

proof fn lemma_defs_err_prefix(defs: Seq<(Option<String>, Option<String>)>, i: int)
    requires
        0 <= i <= defs.len(),
        defs_outcome(defs.take(i)) is Err,
    ensures
        defs_outcome(defs) == defs_outcome(defs.take(i)),
    decreases defs.len() - i,
{
    if i < defs.len() {
        assert(defs.take(i + 1).drop_last() =~= defs.take(i));
        lemma_defs_err_prefix(defs, i + 1);
    } else {
        assert(defs.take(i) =~= defs);
    }
}

/// The pin table of a symbol: each signal mapped to its pad, in pad order.
pub open spec fn symbol_pin_table(pads: Seq<(Seq<char>, Seq<char>)>) -> Seq<(Seq<char>, Seq<char>)>
    decreases pads.len(),
{
    if pads.len() == 0 {
        Seq::empty()
    } else {
        assoc_insert(symbol_pin_table(pads.drop_last()), pads.last().1, pads.last().0)
    }
}

fn pins_from_symbol(sym: &SymbolValueGen) -> (r: StrMap<String>)
    requires
        sym.wf(),
    ensures
        r.wf(),
        r.entries_view() == symbol_pin_table(sym@.pins),
{
    let pads = sym.pins().entries();
    let ghost ev = sym@.pins;
    proof {
        assert forall|k: int| 0 <= k < ev.len() implies #[trigger] ev[k] == (pads@[k].0@, pads@[k].1@) by {
            assert(pads@.map_values(|e: (String, String)| (e.0@, e.1@))[k] == ev[k]);
        }
    }
    let mut m: StrMap<String> = StrMap::new();
    let mut i: usize = 0;
    proof {
        assert(ev.take(0) =~= Seq::<(Seq<char>, Seq<char>)>::empty());
    }
    while i < pads.len()
        invariant
            ev == sym@.pins,
            ev.len() == pads@.len(),
            forall|k: int| 0 <= k < ev.len() ==> #[trigger] ev[k] == (pads@[k].0@, pads@[k].1@),
            i <= pads@.len(),
            m.wf(),
            m.entries_view() == symbol_pin_table(ev.take(i as int)),
        decreases pads@.len() - i,
    {
        proof {
            assert(ev.take(i + 1).drop_last() =~= ev.take(i as int));
            assert(ev.take(i + 1).last() == ev[i as int]);
        }
        m.insert(pads[i].1.clone(), pads[i].0.clone());
        i = i + 1;
    }
    proof {
        assert(ev.take(pads@.len() as int) =~= ev);
    }
    m
}


/// The keys of a list of entries.
pub open spec fn keys_of<V>(es: Seq<(Seq<char>, V)>) -> Seq<Seq<char>> {
    es.map_values(|e: (Seq<char>, V)| e.0)
}

/// The message for a pin name the component does not have.
pub open spec fn unknown_pin_text(pin: Seq<char>, known: Seq<Seq<char>>) -> Seq<char> {
    "Unknown pin name '"@ + pin + "' (expected one of: "@ + join_comma(known) + ")"@
}

/// The message for a pin connected to something other than a net.
pub open spec fn not_net_text(pin: Seq<char>, got: Seq<char>) -> Seq<char> {
    "Pin '"@ + pin + "' must be connected to a Net, got "@ + got
}

/// The connections given for a pin table, or the first that is refused: a key
/// that is not a string, a pin the table lacks, or a value that is not a net.
pub open spec fn conns_outcome(known: Seq<Seq<char>>, conns: Seq<(Option<String>, LangValue)>) -> Result<
    Seq<(Seq<char>, (u64, Seq<char>, Option<Seq<char>>))>,
    Seq<char>,
>
    decreases conns.len(),
{
    if conns.len() == 0 {
        Ok(Seq::empty())
    } else {
        match conns_outcome(known, conns.drop_last()) {
            Err(e) => Err(e),
            Ok(m) => match conns.last() {
                (None, _) => Err("pin names must be strings"@),
                (Some(k), v) => if !known.contains(k@) {
                    Err(unknown_pin_text(k@, known))
                } else if v.value_type@ != "Net"@ {
                    Err(not_net_text(k@, v.value_type@))
                } else {
                    Ok(assoc_insert(m, k@, v@))
                },
            },
        }
    }
}

proof fn lemma_conns_err_prefix(known: Seq<Seq<char>>, c: Seq<(Option<String>, LangValue)>, i: int)
    requires
        0 <= i <= c.len(),
        conns_outcome(known, c.take(i)) is Err,
    ensures
        conns_outcome(known, c) == conns_outcome(known, c.take(i)),
    decreases c.len() - i,
{
    if i < c.len() {
        assert(c.take(i + 1).drop_last() =~= c.take(i));
        lemma_conns_err_prefix(known, c, i + 1);
    } else {
        assert(c.take(i) =~= c);
    }
}

fn check_connections(table: &StrMap<String>, conns: &Vec<(Option<String>, LangValue)>) -> (r: Result<
    StrMap<LangValue>,
    String,
>)
    requires
        table.wf(),
    ensures
        match conns_outcome(table.key_order(), conns@) {
            Ok(m) => r matches Ok(x) && x.wf() && x.entries_view() == m,
            Err(e) => r matches Err(x) && x@ == e,
        },
{
    let known = table.keys();
    let mut m: StrMap<LangValue> = StrMap::new();
    let mut i: usize = 0;
    proof {
        reveal_strlit("Net");
        assert(conns@.take(0) =~= Seq::<(Option<String>, LangValue)>::empty());
    }
    while i < conns.len()
        invariant
            strs(known@) == table.key_order(),
            table.wf(),
            i <= conns@.len(),
            m.wf(),
            conns_outcome(table.key_order(), conns@.take(i as int)) == Ok::<
                Seq<(Seq<char>, (u64, Seq<char>, Option<Seq<char>>))>,
                Seq<char>,
            >(m.entries_view()),
        decreases conns@.len() - i,
    {
        proof {
            assert(conns@.take(i + 1).drop_last() =~= conns@.take(i as int));
            assert(conns@.take(i + 1).last() == conns@[i as int]);
        }
        let (k, v) = &conns[i];
        match k {
            None => {
                proof {
                    lemma_conns_err_prefix(table.key_order(), conns@, i + 1);
                }
                return Err("pin names must be strings".to_owned());
            },
            Some(k) => {
                if !table.contains_key(k.as_str()) {
                    proof {
                        table.lemma_key_order_contains(k@);
                        lemma_conns_err_prefix(table.key_order(), conns@, i + 1);
                    }
                    let mut msg = concat("Unknown pin name '", k.as_str());
                    msg.append("' (expected one of: ");
                    msg.append(join_with_comma(&known).as_str());
                    msg.append(")");
                    proof {
                        assert(msg@ =~= unknown_pin_text(k@, table.key_order()));
                    }
                    return Err(msg);
                }
                proof {
                    table.lemma_key_order_contains(k@);
                }
                if !str_eq(v.value_type.as_str(), "Net") {
                    proof {
                        lemma_conns_err_prefix(table.key_order(), conns@, i + 1);
                    }
                    let mut msg = concat("Pin '", k.as_str());
                    msg.append("' must be connected to a Net, got ");
                    msg.append(v.value_type.as_str());
                    proof {
                        assert(msg@ =~= not_net_text(k@, v.value_type@));
                    }
                    return Err(msg);
                }
                m.insert(k.clone(), v.copy());
            },
        }
        i = i + 1;
    }
    proof {
        assert(conns@.take(conns@.len() as int) =~= conns@);
    }
    Ok(m)
}

/// The pins of `table` that have no connection, in table order.
pub open spec fn missing_of(table: Seq<Seq<char>>, connected: Seq<Seq<char>>) -> Seq<Seq<char>>
    decreases table.len(),
{
    if table.len() == 0 {
        Seq::empty()
    } else if connected.contains(table.last()) {
        missing_of(table.drop_last(), connected)
    } else {
        missing_of(table.drop_last(), connected).push(table.last())
    }
}

/// The message listing unconnected pins.
pub open spec fn unconnected_text(sorted: Seq<Seq<char>>) -> Seq<char> {
    "Unconnected pin(s): "@ + join_comma(sorted)
}

/// The unconnected pins, sorted.
fn missing_pins(table: &StrMap<String>, conns: &StrMap<LangValue>) -> (r: Vec<String>)
    requires
        table.wf(),
        conns.wf(),
    ensures
        sorted_strictly(strs(r@)),
        forall|x: Seq<char>| #[trigger] strs(r@).contains(x) <==> missing_of(table.key_order(), conns.key_order()).contains(x),
{
    let keys = table.keys();
    let ghost ko = table.key_order();
    let ghost ck = conns.key_order();
    let mut out: Vec<String> = Vec::new();
    let mut i: usize = 0;
    proof {
        assert(ko.take(0) =~= Seq::<Seq<char>>::empty());
        table.lemma_keys_distinct();
    }
    while i < keys.len()
        invariant
            strs(keys@) == ko,
            ko == table.key_order(),
            ck == conns.key_order(),
            ko.no_duplicates(),
            conns.wf(),
            i <= keys@.len(),
            strs(out@) == missing_of(ko.take(i as int), ck),
        decreases keys@.len() - i,
    {
        proof {
            assert(ko.take(i + 1).drop_last() =~= ko.take(i as int));
            assert(ko.take(i + 1).last() == keys@[i as int]@);
        }
        let ghost before = strs(out@);
        let c = conns.contains_key(keys[i].as_str());
        proof {
            conns.lemma_key_order_contains(keys@[i as int]@);
        }
        if !c {
            out.push(keys[i].clone());
            proof {
                assert(strs(out@) =~= before.push(keys@[i as int]@));
            }
        }
        i = i + 1;
    }
    proof {
        assert(ko.take(keys@.len() as int) =~= ko);
        lemma_filter_distinct(ko, ck);
    }
    sort_strings(out)
}

proof fn lemma_missing_sub(ko: Seq<Seq<char>>, ck: Seq<Seq<char>>, x: Seq<char>)
    requires
        missing_of(ko, ck).contains(x),
    ensures
        ko.contains(x),
    decreases ko.len(),
{
    if ko.len() > 0 {
        if x == ko.last() {
            assert(ko[ko.len() - 1] == x);
        } else {
            let m = missing_of(ko.drop_last(), ck);
            if !ck.contains(ko.last()) {
                let j = choose|j: int| 0 <= j < m.push(ko.last()).len() && m.push(ko.last())[j] == x;
                assert(m[j] == x);
            }
            lemma_missing_sub(ko.drop_last(), ck, x);
            let j = choose|j: int| 0 <= j < ko.drop_last().len() && ko.drop_last()[j] == x;
            assert(ko[j] == x);
        }
    }
}

proof fn lemma_filter_distinct(ko: Seq<Seq<char>>, ck: Seq<Seq<char>>)
    requires
        ko.no_duplicates(),
    ensures
        missing_of(ko, ck).no_duplicates(),
    decreases ko.len(),
{
    if ko.len() > 0 {
        assert forall|a: int, b: int| 0 <= a < b < ko.drop_last().len() implies ko.drop_last()[a] != ko.drop_last()[b] by {
            assert(ko[a] != ko[b]);
        }
        lemma_filter_distinct(ko.drop_last(), ck);
        let f = missing_of(ko.drop_last(), ck);
        if !ck.contains(ko.last()) {
            assert(!f.contains(ko.last())) by {
                if f.contains(ko.last()) {
                    lemma_missing_sub(ko.drop_last(), ck, ko.last());
                    let j = choose|j: int| 0 <= j < ko.drop_last().len() && ko.drop_last()[j] == ko.last();
                    assert(ko[j] == ko[ko.len() - 1]);
                }
            }
            assert forall|a: int, b: int| 0 <= a < b < f.push(ko.last()).len() implies f.push(ko.last())[a] != f.push(ko.last())[b] by {
                if b == f.len() {
                    assert(f.contains(f[a]));
                }
            }
        }
    }
}


/// The `symbol` argument of a component.
#[derive(Debug)]
pub enum SymbolArg {
    /// Not given.
    Absent,
    /// A `Symbol` value, with its definition.
    Symbol(LangValue, SymbolValueGen),
    /// Any other value (a library path, in older files).
    Other(LangValue),
}

/// The `properties` argument.
#[derive(Debug)]
pub enum PropertiesArg {
    /// Not given, or `None`.
    Absent,
    /// A dict: each key (its text) with its value, in order.
    Dict(Vec<(String, LangValue)>),
    /// Any other value.
    NotDict,
}

/// The arguments of `Component(...)`, as the evaluator read them. A field holding
/// `None` where a string or a dict is needed stands for a value of another type.
#[derive(Debug)]
pub struct ComponentArgs {
    pub name: Option<String>,
    pub footprint: Option<String>,
    /// `None` when not given; `Some(None)` when not a dict; else its entries (key, pad).
    pub pin_defs: Option<Option<Vec<(Option<String>, Option<String>)>>>,
    /// `None` when not a dict; else its entries (key, value).
    pub pins: Option<Vec<(Option<String>, LangValue)>>,
    /// The prefix (`"U"` when not given); `None` when not a string.
    pub prefix: Option<String>,
    pub symbol: SymbolArg,
    /// The part number, when given as a string.
    pub mpn: Option<String>,
    /// The component type, when given as a string.
    pub ctype: Option<String>,
    pub properties: PropertiesArg,
}

/// The pin table a component takes from `pin_defs` or its symbol.
pub open spec fn pin_table_outcome(pin_defs: Option<Option<Vec<(Option<String>, Option<String>)>>>, symbol: SymbolArg) -> Result<
    Seq<(Seq<char>, Seq<char>)>,
    Seq<char>,
> {
    match pin_defs {
        Some(None) => Err("`pin_defs` must be a dict of name -> pad"@),
        Some(Some(defs)) => defs_outcome(defs@),
        None => match symbol {
            SymbolArg::Symbol(_, sv) => Ok(symbol_pin_table(sv@.pins)),
            SymbolArg::Other(_) => Err("When `symbol` is a string path, `pin_defs` must be provided"@),
            SymbolArg::Absent => Err("Either `pin_defs` or a Symbol value for `symbol` must be provided"@),
        },
    }
}

/// The properties of a component: the given dict's entries, then the symbol's
/// library path and name when the symbol is a `Symbol` value.
pub open spec fn properties_outcome(p: PropertiesArg, symbol: SymbolArg) -> Result<Seq<(Seq<char>, PropValueView)>, Seq<char>> {
    let base: Result<Seq<(Seq<char>, PropValueView)>, Seq<char>> = match p {
        PropertiesArg::Absent => Ok(Seq::empty()),
        PropertiesArg::NotDict => Err("`properties` must be a dict when provided"@),
        PropertiesArg::Dict(d) => Ok(dict_props(Seq::empty(), d@)),
    };
    match base {
        Err(e) => Err(e),
        Ok(b) => match symbol {
            SymbolArg::Symbol(_, sv) => {
                let with_path = match sv@.source_path {
                    Some(path) => assoc_insert(b, "symbol_path"@, PropValueView::Text(path)),
                    None => b,
                };
                Ok(assoc_insert(with_path, "symbol_name"@, PropValueView::Text(sv@.name)))
            },
            _ => Ok(b),
        },
    }
}

/// Property entries after inserting a dict's entries in order.
pub open spec fn dict_props(base: Seq<(Seq<char>, PropValueView)>, d: Seq<(String, LangValue)>) -> Seq<(Seq<char>, PropValueView)>
    decreases d.len(),
{
    if d.len() == 0 {
        base
    } else {
        assoc_insert(dict_props(base, d.drop_last()), d.last().0@, PropValueView::Value(d.last().1@))
    }
}

/// How `Component(...)` ends: an error message, a list of unconnected pins (in
/// table order; the message lists them sorted), or the component.
pub enum ComponentOutcome {
    Failed(Seq<char>),
    Unconnected(Seq<Seq<char>>),
    Built(ComponentView),
}

/// The outcome of `Component(...)` for the given arguments, created in the file `source`.
pub open spec fn component_outcome(a: ComponentArgs, source: Seq<char>) -> ComponentOutcome {
    match a.name {
        None => ComponentOutcome::Failed("`name` must be a string"@),
        Some(name) => match a.footprint {
            None => ComponentOutcome::Failed("`footprint` must be a string"@),
            Some(fp) => match footprint_outcome(fp@, source) {
                Err(e) => ComponentOutcome::Failed(e),
                Ok(footprint) => match a.pins {
                    None => ComponentOutcome::Failed("`pins` must be a dict mapping pin names to Net"@),
                    Some(conns) => match a.prefix {
                        None => ComponentOutcome::Failed("`prefix` must be a string"@),
                        Some(prefix) => match pin_table_outcome(a.pin_defs, a.symbol) {
                            Err(e) => ComponentOutcome::Failed(e),
                            Ok(table) => match conns_outcome(keys_of(table), conns@) {
                                Err(e) => ComponentOutcome::Failed(e),
                                Ok(connections) => {
                                    let missing = missing_of(keys_of(table), keys_of(connections));
                                    if missing.len() > 0 {
                                        ComponentOutcome::Unconnected(missing)
                                    } else {
                                        match properties_outcome(a.properties, a.symbol) {
                                            Err(e) => ComponentOutcome::Failed(e),
                                            Ok(props) => ComponentOutcome::Built(
                                                ComponentView {
                                                    name: name@,
                                                    mpn: crate::text::opt_str(a.mpn),
                                                    ctype: crate::text::opt_str(a.ctype),
                                                    footprint,
                                                    prefix: prefix@,
                                                    pins: table,
                                                    connections,
                                                    properties: props,
                                                    source_path: source,
                                                    symbol: match a.symbol {
                                                        SymbolArg::Absent => None,
                                                        SymbolArg::Symbol(v, _) => Some(v@),
                                                        SymbolArg::Other(v) => Some(v@),
                                                    },
                                                },
                                            ),
                                        }
                                    }
                                },
                            },
                        },
                    },
                },
            },
        },
    }
}

/// A result of `Component(...)` agrees with an outcome.
pub open spec fn component_matches(r: Result<ComponentValueGen, String>, o: ComponentOutcome) -> bool {
    match o {
        ComponentOutcome::Failed(e) => r matches Err(m) && m@ == e,
        ComponentOutcome::Unconnected(ms) => r matches Err(m) && exists|s: Seq<Seq<char>>|
            sorted_strictly(s) && (forall|x: Seq<char>| s.contains(x) <==> ms.contains(x)) && m@ == unconnected_text(s),
        ComponentOutcome::Built(v) => r matches Ok(c) && c@ == v,
    }
}

fn build_properties(p: &PropertiesArg, symbol: &SymbolArg) -> (r: Result<StrMap<PropValue>, String>)
    ensures
        match properties_outcome(*p, *symbol) {
            Ok(v) => r matches Ok(m) && m.wf() && m.entries_view() == v,
            Err(e) => r matches Err(m) && m@ == e,
        },
{
    let mut m: StrMap<PropValue> = StrMap::new();
    match p {
        PropertiesArg::Absent => {},
        PropertiesArg::NotDict => {
            return Err("`properties` must be a dict when provided".to_owned());
        },
        PropertiesArg::Dict(d) => {
            let mut i: usize = 0;
            proof {
                assert(d@.take(0) =~= Seq::<(String, LangValue)>::empty());
            }
            while i < d.len()
                invariant
                    i <= d@.len(),
                    m.wf(),
                    m.entries_view() == dict_props(Seq::empty(), d@.take(i as int)),
                decreases d@.len() - i,
            {
                proof {
                    assert(d@.take(i + 1).drop_last() =~= d@.take(i as int));
                    assert(d@.take(i + 1).last() == d@[i as int]);
                }
                m.insert(d[i].0.clone(), PropValue::Value(d[i].1.copy()));
                i = i + 1;
            }
            proof {
                assert(d@.take(d@.len() as int) =~= d@);
            }
        },
    }
    if let SymbolArg::Symbol(_, sv) = symbol {
        if let Some(path) = sv.source_path() {
            m.insert("symbol_path".to_owned(), PropValue::Text(path.to_owned()));
        }
        m.insert("symbol_name".to_owned(), PropValue::Text(sv.name().to_owned()));
    }
    Ok(m)
}

/// The `Component(...)` constructor.
#[derive(Debug)]
pub struct ComponentType;

impl ComponentType {
    /// Build a component from its arguments, in the file `source_path` (none when
    /// the evaluator has no current file).
    pub fn invoke(&self, args: ComponentArgs, source_path: Option<String>) -> (r: Result<ComponentValueGen, String>)
        requires
            args.symbol matches SymbolArg::Symbol(_, sv) ==> sv.wf(),
        ensures
            component_matches(
                r,
                component_outcome(
                    args,
                    match source_path {
                        Some(s) => s@,
                        None => Seq::empty(),
                    },
                ),
            ),
    {
        let source = match source_path {
            Some(s) => s,
            None => String::new(),
        };
        let ComponentArgs { name, footprint, pin_defs, pins, prefix, symbol, mpn, ctype, properties } = args;
        let name = match name {
            Some(n) => n,
            None => {
                return Err("`name` must be a string".to_owned());
            },
        };
        let footprint = match footprint {
            Some(f) => f,
            None => {
                return Err("`footprint` must be a string".to_owned());
            },
        };
        let footprint = match resolve_footprint(footprint, source.as_str()) {
            Ok(f) => f,
            Err(e) => {
                return Err(e);
            },
        };
        let conns = match pins {
            Some(c) => c,
            None => {
                return Err("`pins` must be a dict mapping pin names to Net".to_owned());
            },
        };
        let prefix = match prefix {
            Some(p) => p,
            None => {
                return Err("`prefix` must be a string".to_owned());
            },
        };
        let table = match &pin_defs {
            Some(None) => {
                return Err("`pin_defs` must be a dict of name -> pad".to_owned());
            },
            Some(Some(defs)) => match pins_from_defs(defs) {
                Ok(t) => t,
                Err(e) => {
                    return Err(e);
                },
            },
            None => match &symbol {
                SymbolArg::Symbol(_, sv) => pins_from_symbol(sv),
                SymbolArg::Other(_) => {
                    return Err("When `symbol` is a string path, `pin_defs` must be provided".to_owned());
                },
                SymbolArg::Absent => {
                    return Err("Either `pin_defs` or a Symbol value for `symbol` must be provided".to_owned());
                },
            },
        };
        proof {
            table.lemma_entries_keys();
        }
        let connections = match check_connections(&table, &conns) {
            Ok(c) => c,
            Err(e) => {
                return Err(e);
            },
        };
        proof {
            connections.lemma_entries_keys();
        }
        let missing = missing_pins(&table, &connections);
        if missing.len() > 0 {
            let mut msg = concat("Unconnected pin(s): ", join_with_comma(&missing).as_str());
            proof {
                let ms = missing_of(table.key_order(), connections.key_order());
                assert(strs(missing@).len() > 0);
                assert(strs(missing@).contains(strs(missing@)[0]));
                assert(ms.len() > 0);
            }
            return Err(msg);
        }
        proof {
            let ms = missing_of(table.key_order(), connections.key_order());
            if ms.len() > 0 {
                assert(ms.contains(ms[0]));
                assert(strs(missing@).contains(ms[0]));
            }
        }
        let props = match build_properties(&properties, &symbol) {
            Ok(p) => p,
            Err(e) => {
                return Err(e);
            },
        };
        let sym_value = match symbol {
            SymbolArg::Absent => None,
            SymbolArg::Symbol(v, _) => Some(v),
            SymbolArg::Other(v) => Some(v),
        };
        Ok(
            ComponentValueGen {
                name,
                mpn,
                ctype,
                footprint,
                prefix,
                pins: table,
                connections,
                properties: props,
                source_path: source,
                symbol: sym_value,
            },
        )
    }
}


/// An element of a `(signal_name, [pad_names])` definition tuple.
#[derive(Debug)]
pub enum DefElem {
    /// A string.
    Str(String),
    /// A list: each element's text when it is a string.
    List(Vec<Option<String>>),
    /// Any other value.
    Other,
}

/// An item of a symbol `definition` list.
#[derive(Debug)]
pub enum DefItem {
    /// A tuple with its elements.
    Tuple(Vec<DefElem>),
    /// Any other value.
    NotTuple,
}

/// The message for a pad given to two signals.
pub open spec fn pad_taken_text(pad: Seq<char>, signal: Seq<char>) -> Seq<char> {
    "Pad '"@ + pad + "' is already assigned to signal '"@ + signal + "'"@
}

/// Adding a signal's pads to a pad table, from the first pad on: a pad that is
/// not a string, or one already in the table, stops it.
pub open spec fn pads_outcome(
    table: Seq<(Seq<char>, Seq<char>)>,
    signal: Seq<char>,
    pads: Seq<Option<String>>,
) -> Result<Seq<(Seq<char>, Seq<char>)>, Seq<char>>
    decreases pads.len(),
{
    if pads.len() == 0 {
        Ok(table)
    } else {
        match pads[0] {
            None => Err("Pad name must be a string"@),
            Some(p) => match crate::strmap::key_index(table, p@) {
                Some(i) => Err(pad_taken_text(p@, table[i].1)),
                None => pads_outcome(table.push((p@, signal)), signal, pads.drop_first()),
            },
        }
    }
}

/// Adding one definition item to a pad table.
pub open spec fn item_outcome(table: Seq<(Seq<char>, Seq<char>)>, item: DefItem) -> Result<
    Seq<(Seq<char>, Seq<char>)>,
    Seq<char>,
> {
    match item {
        DefItem::NotTuple => Err("Each definition item must be a tuple of (signal_name, [pad_names])"@),
        DefItem::Tuple(elems) => if elems@.len() != 2 {
            Err("Each definition tuple must have exactly 2 elements: (signal_name, [pad_names])"@)
        } else {
            match elems@[0] {
                DefElem::Str(signal) => match elems@[1] {
                    DefElem::List(pads) => if pads@.len() == 0 {
                        Err("Pad list for signal '"@ + signal@ + "' cannot be empty"@)
                    } else {
                        pads_outcome(table, signal@, pads@)
                    },
                    _ => Err("Pad names must be a list"@),
                },
                _ => Err("Signal name must be a string"@),
            }
        },
    }
}

/// Adding the definition items in order, from the first on.
pub open spec fn items_outcome(table: Seq<(Seq<char>, Seq<char>)>, items: Seq<DefItem>) -> Result<
    Seq<(Seq<char>, Seq<char>)>,
    Seq<char>,
>
    decreases items.len(),
{
    if items.len() == 0 {
        Ok(table)
    } else {
        match item_outcome(table, items[0]) {
            Err(e) => Err(e),
            Ok(t) => items_outcome(t, items.drop_first()),
        }
    }
}

fn add_pads(table: &mut StrMap<String>, signal: &String, pads: &Vec<Option<String>>) -> (r: Result<(), String>)
    requires
        old(table).wf(),
    ensures
        final(table).wf(),
        match pads_outcome(old(table).entries_view(), signal@, pads@) {
            Ok(t) => r is Ok && final(table).entries_view() == t,
            Err(e) => r matches Err(m) && m@ == e,
        },
{
    let ghost goal = pads_outcome(old(table).entries_view(), signal@, pads@);
    let mut i: usize = 0;
    proof {
        assert(pads@.subrange(0, pads@.len() as int) =~= pads@);
    }
    while i < pads.len()
        invariant
            goal == pads_outcome(old(table).entries_view(), signal@, pads@),
            table.wf(),
            i <= pads@.len(),
            goal == pads_outcome(table.entries_view(), signal@, pads@.subrange(i as int, pads@.len() as int)),
        decreases pads@.len() - i,
    {
        let ghost rest = pads@.subrange(i as int, pads@.len() as int);
        proof {
            assert(rest[0] == pads@[i as int]);
            assert(rest.drop_first() =~= pads@.subrange(i + 1, pads@.len() as int));
        }
        match &pads[i] {
            None => {
                proof {
                    assert(rest.len() > 0);
                    assert(goal == Err::<Seq<(Seq<char>, Seq<char>)>, Seq<char>>("Pad name must be a string"@));
                }
                return Err("Pad name must be a string".to_owned());
            },
            Some(p) => {
                proof {
                    table.lemma_key_order_contains(p@);
                    table.lemma_entries_keys();
                    crate::strmap::lemma_key_index(table.entries_view(), p@);
                }
                match table.get(p.as_str()) {
                    Some(sig) => {
                        proof {
                            let ki = crate::strmap::key_index(table.entries_view(), p@);
                            if ki is None {
                                let j = choose|j: int| 0 <= j < table.key_order().len() && table.key_order()[j] == p@;
                                assert(table.entries_view()[j].0 == p@);
                            }
                            table.lemma_lookup_entry(ki->0);
                        }
                        let mut msg = concat("Pad '", p.as_str());
                        msg.append("' is already assigned to signal '");
                        msg.append(sig.as_str());
                        msg.append("'");
                        proof {
                            let ki = crate::strmap::key_index(table.entries_view(), p@)->0;
                            assert(msg@ =~= pad_taken_text(p@, table.entries_view()[ki].1));
                        }
                        return Err(msg);
                    },
                    None => {
                        proof {
                            if crate::strmap::key_index(table.entries_view(), p@) is Some {
                                let ki = crate::strmap::key_index(table.entries_view(), p@)->0;
                                assert(table.key_order()[ki] == p@);
                            }
                        }
                        table.insert(p.clone(), signal.clone());
                    },
                }
            },
        }
        i = i + 1;
    }
    Ok(())
}

fn add_item(table: &mut StrMap<String>, item: &DefItem) -> (r: Result<(), String>)
    requires
        old(table).wf(),
    ensures
        final(table).wf(),
        match item_outcome(old(table).entries_view(), *item) {
            Ok(t) => r is Ok && final(table).entries_view() == t,
            Err(e) => r matches Err(m) && m@ == e,
        },
{
    match item {
        DefItem::NotTuple => Err("Each definition item must be a tuple of (signal_name, [pad_names])".to_owned()),
        DefItem::Tuple(elems) => {
            if elems.len() != 2 {
                return Err(
                    "Each definition tuple must have exactly 2 elements: (signal_name, [pad_names])".to_owned(),
                );
            }
            match &elems[0] {
                DefElem::Str(signal) => match &elems[1] {
                    DefElem::List(pads) => {
                        if pads.len() == 0 {
                            let mut m = concat("Pad list for signal '", signal.as_str());
                            m.append("' cannot be empty");
                            return Err(m);
                        }
                        add_pads(table, signal, pads)
                    },
                    _ => Err("Pad names must be a list".to_owned()),
                },
                _ => Err("Signal name must be a string".to_owned()),
            }
        },
    }
}

/// The arguments of `Symbol(...)`.
#[derive(Debug)]
pub struct SymbolArgs {
    /// The name, when given as a string.
    pub name: Option<String>,
    /// `None` when not given; `Some(None)` when not a list; else its items.
    pub definition: Option<Option<Vec<DefItem>>>,
    /// `None` when not given; `Some(None)` when not a string; else the library path.
    pub library: Option<Option<String>>,
}

/// A symbol library as loaded for `Symbol(library = ...)`: the path as
/// messages show it, its absolute path, and its symbols.
#[derive(Debug)]
pub struct LoadedLibrary {
    pub display_path: String,
    pub absolute_path: String,
    pub symbols: Vec<crate::eda::Symbol>,
}

/// The signal a library pin stands for: its name, or its number when the name is `~`.
pub open spec fn pin_signal(name: Seq<char>, number: Seq<char>) -> Seq<char> {
    if name == "~"@ {
        number
    } else {
        name
    }
}

/// The pad table of a library symbol: each pin's number mapped to its signal.
pub open spec fn library_pad_table(pins: Seq<(Seq<char>, Seq<char>)>) -> Seq<(Seq<char>, Seq<char>)>
    decreases pins.len(),
{
    if pins.len() == 0 {
        Seq::empty()
    } else {
        assoc_insert(library_pad_table(pins.drop_last()), pins.last().1, pin_signal(pins.last().0, pins.last().1))
    }
}

/// The position of the first symbol with the given name.
pub open spec fn symbol_named(symbols: Seq<crate::eda::Symbol>, name: Seq<char>) -> Option<int>
    decreases symbols.len(),
{
    if symbols.len() == 0 {
        None
    } else {
        match symbol_named(symbols.drop_last(), name) {
            Some(i) => Some(i),
            None => if symbols.last().name@ == name {
                Some(symbols.len() - 1)
            } else {
                None
            },
        }
    }
}

/// The names of the symbols joined by `", "`.
pub open spec fn symbol_names_text(symbols: Seq<crate::eda::Symbol>) -> Seq<char> {
    join_comma(symbols.map_values(|s: crate::eda::Symbol| s.name@))
}

/// Which symbol of a library is used: the only one, or the one named.
pub open spec fn library_choice(lib: LoadedLibrary, name: Option<String>) -> Result<int, Seq<char>> {
    let syms = lib.symbols@;
    if syms.len() == 1 {
        Ok(0)
    } else if syms.len() == 0 {
        Err("No symbols found in library '"@ + lib.display_path@ + "'"@)
    } else {
        match name {
            None => Err(
                "Library '"@ + lib.display_path@ + "' contains "@ + crate::text::digits_of(syms.len())
                    + " symbols. Please specify which one with the 'name' parameter. Available symbols: "@
                    + symbol_names_text(syms),
            ),
            Some(n) => match symbol_named(syms, n@) {
                Some(i) => Ok(i),
                None => Err(
                    "Symbol '"@ + n@ + "' not found in library '"@ + lib.display_path@ + "'. Available symbols: "@
                        + symbol_names_text(syms),
                ),
            },
        }
    }
}

/// How `Symbol(...)` ends.
pub open spec fn symbol_outcome(a: SymbolArgs, loaded: Result<LoadedLibrary, String>) -> Result<SymbolDef, Seq<char>> {
    match a.definition {
        Some(None) => Err("`definition` must be a list of (signal_name, [pad_names]) tuples"@),
        Some(Some(items)) => match items_outcome(Seq::empty(), items@) {
            Err(e) => Err(e),
            Ok(t) => Ok(
                SymbolDef {
                    name: match a.name {
                        Some(n) => n@,
                        None => "Symbol"@,
                    },
                    pins: t,
                    source_path: None,
                },
            ),
        },
        None => match a.library {
            None => Err("Symbol requires either 'definition' or 'library' parameter"@),
            Some(None) => Err("`library` must be a string path"@),
            Some(Some(_)) => match loaded {
                Err(e) => Err(e@),
                Ok(lib) => match library_choice(lib, a.name) {
                    Err(e) => Err(e),
                    Ok(i) => Ok(
                        SymbolDef {
                            name: lib.symbols@[i].name@,
                            pins: library_pad_table(lib.symbols@[i].pins@.map_values(|p: crate::eda::Pin| p@)),
                            source_path: Some(lib.absolute_path@),
                        },
                    ),
                },
            },
        },
    }
}

fn names_text(symbols: &Vec<crate::eda::Symbol>) -> (r: String)
    ensures
        r@ == symbol_names_text(symbols@),
{
    let mut names: Vec<String> = Vec::new();
    let mut i: usize = 0;
    while i < symbols.len()
        invariant
            i <= symbols@.len(),
            names@.len() == i,
            forall|k: int| 0 <= k < i ==> (#[trigger] names@[k])@ == symbols@[k].name@,
        decreases symbols@.len() - i,
    {
        names.push(symbols[i].name.clone());
        i = i + 1;
    }
    proof {
        assert(names@.map_values(|s: String| s@) =~= symbols@.map_values(|s: crate::eda::Symbol| s.name@));
    }
    join_with_comma(&names)
}

fn choose_library_symbol(lib: &LoadedLibrary, name: &Option<String>) -> (r: Result<usize, String>)
    ensures
        match library_choice(*lib, *name) {
            Ok(i) => r matches Ok(k) && k as int == i && k < lib.symbols@.len(),
            Err(e) => r matches Err(m) && m@ == e,
        },
{
    let n = lib.symbols.len();
    if n == 1 {
        return Ok(0);
    }
    if n == 0 {
        let mut m = concat("No symbols found in library '", lib.display_path.as_str());
        m.append("'");
        return Err(m);
    }
    match name {
        None => {
            let mut m = concat("Library '", lib.display_path.as_str());
            m.append("' contains ");
            m.append(crate::text::decimal_text(n as u128).as_str());
            m.append(" symbols. Please specify which one with the 'name' parameter. Available symbols: ");
            m.append(names_text(&lib.symbols).as_str());
            Err(m)
        },
        Some(nm) => {
            let mut i: usize = 0;
            proof {
                assert(lib.symbols@.take(0) =~= Seq::<crate::eda::Symbol>::empty());
            }
            while i < n
                invariant
                    n == lib.symbols@.len(),
                    n > 1,
                    *name matches Some(x) && x@ == nm@,
                    i <= n,
                    symbol_named(lib.symbols@.take(i as int), nm@) is None,
                decreases n - i,
            {
                proof {
                    assert(lib.symbols@.take(i + 1).drop_last() =~= lib.symbols@.take(i as int));
                }
                if str_eq(lib.symbols[i].name.as_str(), nm.as_str()) {
                    proof {
                        assert(lib.symbols@.take(i + 1).last() == lib.symbols@[i as int]);
                        assert(symbol_named(lib.symbols@.take(i + 1), nm@) == Some(i as int));
                        lemma_symbol_named_prefix(lib.symbols@, nm@, i + 1);
                    }
                    return Ok(i);
                }
                i = i + 1;
            }
            proof {
                assert(lib.symbols@.take(n as int) =~= lib.symbols@);
            }
            let mut m = concat("Symbol '", nm.as_str());
            m.append("' not found in library '");
            m.append(lib.display_path.as_str());
            m.append("'. Available symbols: ");
            m.append(names_text(&lib.symbols).as_str());
            Err(m)
        },
    }
}

proof fn lemma_symbol_named_prefix(s: Seq<crate::eda::Symbol>, name: Seq<char>, i: int)
    requires
        0 <= i <= s.len(),
        symbol_named(s.take(i), name) is Some,
    ensures
        symbol_named(s, name) == symbol_named(s.take(i), name),
    decreases s.len() - i,
{
    if i < s.len() {
        assert(s.take(i + 1).drop_last() =~= s.take(i));
        lemma_symbol_named_prefix(s, name, i + 1);
    } else {
        assert(s.take(i) =~= s);
    }
}

/// The `Symbol(...)` constructor.
#[derive(Debug)]
pub struct SymbolType;

impl SymbolType {
    /// Build a symbol from an explicit definition, or from a library; `loaded` is
    /// the library named by `library` as the evaluator loaded it (or why it could not).
    pub fn invoke(&self, args: SymbolArgs, loaded: Result<LoadedLibrary, String>) -> (r: Result<SymbolValueGen, String>)
        ensures
            match symbol_outcome(args, loaded) {
                Ok(d) => r matches Ok(s) && s@ == d && s.wf(),
                Err(e) => r matches Err(m) && m@ == e,
            },
    {
        let SymbolArgs { name, definition, library } = args;
        match definition {
            Some(None) => {
                return Err("`definition` must be a list of (signal_name, [pad_names]) tuples".to_owned());
            },
            Some(Some(items)) => {
                let mut table: StrMap<String> = StrMap::new();
                let ghost goal = items_outcome(Seq::empty(), items@);
                let mut i: usize = 0;
                proof {
                    assert(items@.subrange(0, items@.len() as int) =~= items@);
                }
                while i < items.len()
                    invariant
                        goal == items_outcome(Seq::empty(), items@),
                        args.definition matches Some(Some(x)) && x@ == items@,
                        table.wf(),
                        i <= items@.len(),
                        goal == items_outcome(table.entries_view(), items@.subrange(i as int, items@.len() as int)),
                    decreases items@.len() - i,
                {
                    let ghost rest = items@.subrange(i as int, items@.len() as int);
                    proof {
                        assert(rest[0] == items@[i as int]);
                        assert(rest.drop_first() =~= items@.subrange(i + 1, items@.len() as int));
                    }
                    match add_item(&mut table, &items[i]) {
                        Ok(()) => {},
                        Err(e) => {
                            return Err(e);
                        },
                    }
                    i = i + 1;
                }
                let nm = match name {
                    Some(n) => n,
                    None => "Symbol".to_owned(),
                };
                return Ok(SymbolValueGen { name: nm, pins: table, source_path: None });
            },
            None => {},
        }
        match library {
            None => Err("Symbol requires either 'definition' or 'library' parameter".to_owned()),
            Some(None) => Err("`library` must be a string path".to_owned()),
            Some(Some(_)) => {
                let lib = match loaded {
                    Err(e) => {
                        return Err(e);
                    },
                    Ok(l) => l,
                };
                let i = match choose_library_symbol(&lib, &name) {
                    Ok(i) => i,
                    Err(e) => {
                        return Err(e);
                    },
                };
                let sym = &lib.symbols[i];
                let ghost pv = sym.pins@.map_values(|p: crate::eda::Pin| p@);
                let mut table: StrMap<String> = StrMap::new();
                let mut k: usize = 0;
                proof {
                    reveal_strlit("~");
                    assert(pv.take(0) =~= Seq::<(Seq<char>, Seq<char>)>::empty());
                }
                while k < sym.pins.len()
                    invariant
                        pv == sym.pins@.map_values(|p: crate::eda::Pin| p@),
                        k <= sym.pins@.len(),
                        table.wf(),
                        table.entries_view() == library_pad_table(pv.take(k as int)),
                    decreases sym.pins@.len() - k,
                {
                    proof {
                        assert(pv.take(k + 1).drop_last() =~= pv.take(k as int));
                        assert(pv.take(k + 1).last() == sym.pins@[k as int]@);
                    }
                    let pin = &sym.pins[k];
                    let signal = if str_eq(pin.name.as_str(), "~") {
                        pin.number.clone()
                    } else {
                        pin.name.clone()
                    };
                    table.insert(pin.number.clone(), signal);
                    k = k + 1;
                }
                proof {
                    assert(pv.take(sym.pins@.len() as int) =~= pv);
                }
                Ok(SymbolValueGen { name: sym.name.clone(), pins: table, source_path: Some(lib.absolute_path.clone()) })
            },
        }
    }
}


/// A component factory: the part and pins a symbol file describes.
#[derive(Debug)]
pub struct ComponentFactoryValue {
    mpn: Option<String>,
    ctype: Option<String>,
    footprint: String,
    prefix: String,
    pins: StrMap<String>,
    default_properties: StrMap<String>,
}

/// A component factory as plain data.
pub struct FactoryView {
    pub mpn: Option<Seq<char>>,
    pub ctype: Option<Seq<char>>,
    pub footprint: Seq<char>,
    pub prefix: Seq<char>,
    pub pins: Seq<(Seq<char>, Seq<char>)>,
    pub default_properties: Seq<(Seq<char>, Seq<char>)>,
}

impl View for ComponentFactoryValue {
    type V = FactoryView;

    closed spec fn view(&self) -> FactoryView {
        FactoryView {
            mpn: crate::text::opt_str(self.mpn),
            ctype: crate::text::opt_str(self.ctype),
            footprint: self.footprint@,
            prefix: self.prefix@,
            pins: self.pins.entries_view(),
            default_properties: self.default_properties.entries_view(),
        }
    }
}

/// The arguments of a call of a component factory. `Some(None)` stands for a
/// value that is not a string.
#[derive(Debug)]
pub struct FactoryArgs {
    pub name: Option<String>,
    pub pins: Option<Vec<(Option<String>, LangValue)>>,
    pub footprint: Option<Option<String>>,
    pub prefix: Option<Option<String>>,
    pub mpn: Option<Option<String>>,
    pub ctype: Option<Option<String>>,
    pub properties: PropertiesArg,
}

/// A factory's footprint after resolution: a relative `.kicad_mod` path is taken
/// from the directory of the current file, when it has one.
pub open spec fn factory_footprint(fp: Seq<char>, source: Seq<char>) -> Seq<char> {
    if has_suffix(fp, ".kicad_mod"@) && !(fp.len() > 0 && fp[0] == '/') {
        match parent_dir(source) {
            Some(d) => path_join(d, fp),
            None => fp,
        }
    } else {
        fp
    }
}

/// An optional string argument: the default when not given, an error when not a string.
pub open spec fn opt_arg(a: Option<Option<String>>, default: Seq<char>, err: Seq<char>) -> Result<Seq<char>, Seq<char>> {
    match a {
        None => Ok(default),
        Some(None) => Err(err),
        Some(Some(s)) => Ok(s@),
    }
}

/// An optional string argument that may override an optional default.
pub open spec fn opt_override(a: Option<Option<String>>, default: Option<Seq<char>>, err: Seq<char>) -> Result<
    Option<Seq<char>>,
    Seq<char>,
> {
    match a {
        None => Ok(default),
        Some(None) => Err(err),
        Some(Some(s)) => Ok(Some(s@)),
    }
}

/// The default properties as property entries.
pub open spec fn text_props(d: Seq<(Seq<char>, Seq<char>)>) -> Seq<(Seq<char>, PropValueView)>
    decreases d.len(),
{
    if d.len() == 0 {
        Seq::empty()
    } else {
        assoc_insert(text_props(d.drop_last()), d.last().0, PropValueView::Text(d.last().1))
    }
}

/// The outcome of calling a factory with the given arguments in the file `source`.
pub open spec fn factory_outcome(f: FactoryView, a: FactoryArgs, source: Seq<char>) -> ComponentOutcome {
    match a.name {
        None => ComponentOutcome::Failed("`name` must be a string"@),
        Some(name) => match a.pins {
            None => ComponentOutcome::Failed("`pins` must be a dict mapping pin names to nets"@),
            Some(conns) => match conns_outcome(keys_of(f.pins), conns@) {
                Err(e) => ComponentOutcome::Failed(e),
                Ok(connections) => {
                    let missing = missing_of(keys_of(f.pins), keys_of(connections));
                    if missing.len() > 0 {
                        ComponentOutcome::Unconnected(missing)
                    } else {
                        match opt_arg(a.footprint, f.footprint, "`footprint` must be a string"@) {
                            Err(e) => ComponentOutcome::Failed(e),
                            Ok(fp) => match opt_arg(a.prefix, f.prefix, "`prefix` must be a string"@) {
                                Err(e) => ComponentOutcome::Failed(e),
                                Ok(prefix) => match opt_override(a.mpn, f.mpn, "`mpn` must be a string"@) {
                                    Err(e) => ComponentOutcome::Failed(e),
                                    Ok(mpn) => match opt_override(a.ctype, f.ctype, "`type` must be a string"@) {
                                        Err(e) => ComponentOutcome::Failed(e),
                                        Ok(ctype) => match a.properties {
                                            PropertiesArg::NotDict => ComponentOutcome::Failed("'properties' must be a dict"@),
                                            _ => ComponentOutcome::Built(
                                                ComponentView {
                                                    name: name@,
                                                    mpn,
                                                    ctype,
                                                    footprint: factory_footprint(fp, source),
                                                    prefix,
                                                    pins: f.pins,
                                                    connections,
                                                    properties: match a.properties {
                                                        PropertiesArg::Dict(d) => dict_props(text_props(f.default_properties), d@),
                                                        _ => text_props(f.default_properties),
                                                    },
                                                    source_path: source,
                                                    symbol: None,
                                                },
                                            ),
                                        },
                                    },
                                },
                            },
                        }
                    }
                },
            },
        },
    }
}

pub(crate) fn copy_str_map(m: &StrMap<String>) -> (r: StrMap<String>)
    requires
        m.wf(),
    ensures
        r.wf(),
        r.entries_view() == m.entries_view(),
{
    let es = m.entries();
    let ghost ev = m.entries_view();
    let mut out: StrMap<String> = StrMap::new();
    let mut i: usize = 0;
    proof {
        m.lemma_keys_distinct();
        m.lemma_entries_keys();
    }
    while i < es.len()
        invariant
            ev == m.entries_view(),
            es@.map_values(|e: (String, String)| (e.0@, e.1@)) == ev,
            m.key_order().no_duplicates(),
            m.key_order() == ev.map_values(|e: (Seq<char>, Seq<char>)| e.0),
            i <= es@.len(),
            out.wf(),
            out.entries_view() == ev.take(i as int),
        decreases es@.len() - i,
    {
        proof {
            assert(ev[i as int] == (es@[i as int].0@, es@[i as int].1@));
            crate::strmap::lemma_key_index(ev.take(i as int), ev[i as int].0);
            if crate::strmap::key_index(ev.take(i as int), ev[i as int].0) is Some {
                let j = crate::strmap::key_index(ev.take(i as int), ev[i as int].0)->0;
                assert(m.key_order()[j] == m.key_order()[i as int]);
            }
        }
        out.insert(es[i].0.clone(), es[i].1.clone());
        proof {
            assert(out.entries_view() =~= ev.take(i + 1));
        }
        i = i + 1;
    }
    proof {
        assert(ev.take(es@.len() as int) =~= ev);
    }
    out
}

impl ComponentFactoryValue {
    /// The tables are well formed.
    pub closed spec fn wf(&self) -> bool {
        self.pins.wf() && self.default_properties.wf()
    }

    /// Get the MPN (Manufacturer Part Number) if available.
    pub fn mpn(&self) -> (r: Option<&str>)
        ensures
            match r {
                Some(s) => self@.mpn == Some(s@),
                None => self@.mpn is None,
            },
    {
        match &self.mpn {
            Some(m) => Some(m.as_str()),
            None => None,
        }
    }

    /// Get the component type if available.
    pub fn ctype(&self) -> (r: Option<&str>)
        ensures
            match r {
                Some(s) => self@.ctype == Some(s@),
                None => self@.ctype is None,
            },
    {
        match &self.ctype {
            Some(m) => Some(m.as_str()),
            None => None,
        }
    }

    /// Get the footprint.
    pub fn footprint(&self) -> (r: &str)
        ensures
            r@ == self@.footprint,
    {
        self.footprint.as_str()
    }

    /// Get the reference designator prefix.
    pub fn prefix(&self) -> (r: &str)
        ensures
            r@ == self@.prefix,
    {
        self.prefix.as_str()
    }

    /// Get the pins map: pin name to pad.
    pub fn pins(&self) -> (r: &StrMap<String>)
        ensures
            r.entries_view() == self@.pins,
    {
        &self.pins
    }

    /// Get the default properties.
    pub fn default_properties(&self) -> (r: &StrMap<String>)
        ensures
            r.entries_view() == self@.default_properties,
    {
        &self.default_properties
    }

    /// Instantiate the factory as a component created in the file `source_path`.
    pub fn invoke(&self, args: FactoryArgs, source_path: Option<String>) -> (r: Result<ComponentValueGen, String>)
        requires
            self.wf(),
        ensures
            component_matches(
                r,
                factory_outcome(
                    self@,
                    args,
                    match source_path {
                        Some(s) => s@,
                        None => Seq::empty(),
                    },
                ),
            ),
    {
        let source = match source_path {
            Some(s) => s,
            None => String::new(),
        };
        let FactoryArgs { name, pins, footprint, prefix, mpn, ctype, properties } = args;
        let name = match name {
            Some(n) => n,
            None => {
                return Err("`name` must be a string".to_owned());
            },
        };
        let conns = match pins {
            Some(c) => c,
            None => {
                return Err("`pins` must be a dict mapping pin names to nets".to_owned());
            },
        };
        proof {
            self.pins.lemma_entries_keys();
        }
        let connections = match check_connections(&self.pins, &conns) {
            Ok(c) => c,
            Err(e) => {
                return Err(e);
            },
        };
        proof {
            connections.lemma_entries_keys();
        }
        let missing = missing_pins(&self.pins, &connections);
        if missing.len() > 0 {
            let msg = concat("Unconnected pin(s): ", join_with_comma(&missing).as_str());
            proof {
                assert(strs(missing@).contains(strs(missing@)[0]));
            }
            return Err(msg);
        }
        proof {
            let ms = missing_of(self.pins.key_order(), connections.key_order());
            if ms.len() > 0 {
                assert(ms.contains(ms[0]));
                assert(strs(missing@).contains(ms[0]));
            }
        }
        let fp = match footprint {
            None => self.footprint.clone(),
            Some(None) => {
                return Err("`footprint` must be a string".to_owned());
            },
            Some(Some(f)) => f,
        };
        let n = fp.as_str().unicode_len();
        let absolute = n > 0 && fp.as_str().get_char(0) == '/';
        let final_footprint = if ends_with(fp.as_str(), ".kicad_mod") && !absolute {
            match parent_of(source.as_str()) {
                Some(d) => crate::config::join_path(d.as_str(), fp.as_str()),
                None => fp,
            }
        } else {
            fp
        };
        let final_prefix = match prefix {
            None => self.prefix.clone(),
            Some(None) => {
                return Err("`prefix` must be a string".to_owned());
            },
            Some(Some(p)) => p,
        };
        let final_mpn = match mpn {
            None => match &self.mpn {
                Some(m) => Some(m.clone()),
                None => None,
            },
            Some(None) => {
                return Err("`mpn` must be a string".to_owned());
            },
            Some(Some(m)) => Some(m),
        };
        let final_ctype = match ctype {
            None => match &self.ctype {
                Some(m) => Some(m.clone()),
                None => None,
            },
            Some(None) => {
                return Err("`type` must be a string".to_owned());
            },
            Some(Some(m)) => Some(m),
        };
        let mut props: StrMap<PropValue> = StrMap::new();
        let defaults = self.default_properties.entries();
        let ghost dv = self.default_properties.entries_view();
        let mut i: usize = 0;
        proof {
            assert(dv.take(0) =~= Seq::<(Seq<char>, Seq<char>)>::empty());
        }
        while i < defaults.len()
            invariant
                defaults@.map_values(|e: (String, String)| (e.0@, e.1@)) == dv,
                i <= defaults@.len(),
                props.wf(),
                props.entries_view() == text_props(dv.take(i as int)),
            decreases defaults@.len() - i,
        {
            proof {
                assert(dv.take(i + 1).drop_last() =~= dv.take(i as int));
                assert(dv.take(i + 1).last() == dv[i as int]);
                assert(dv[i as int] == (defaults@[i as int].0@, defaults@[i as int].1@));
            }
            props.insert(defaults[i].0.clone(), PropValue::Text(defaults[i].1.clone()));
            i = i + 1;
        }
        proof {
            assert(dv.take(defaults@.len() as int) =~= dv);
        }
        match &properties {
            PropertiesArg::NotDict => {
                return Err("'properties' must be a dict".to_owned());
            },
            PropertiesArg::Absent => {},
            PropertiesArg::Dict(d) => {
                let ghost base = props.entries_view();
                let mut k: usize = 0;
                proof {
                    assert(d@.take(0) =~= Seq::<(String, LangValue)>::empty());
                }
                while k < d.len()
                    invariant
                        k <= d@.len(),
                        props.wf(),
                        props.entries_view() == dict_props(base, d@.take(k as int)),
                    decreases d@.len() - k,
                {
                    proof {
                        assert(d@.take(k + 1).drop_last() =~= d@.take(k as int));
                        assert(d@.take(k + 1).last() == d@[k as int]);
                    }
                    props.insert(d[k].0.clone(), PropValue::Value(d[k].1.copy()));
                    k = k + 1;
                }
                proof {
                    assert(d@.take(d@.len() as int) =~= d@);
                }
            },
        }
        let pins_copy = copy_str_map(&self.pins);
        Ok(
            ComponentValueGen {
                name,
                mpn: final_mpn,
                ctype: final_ctype,
                footprint: final_footprint,
                prefix: final_prefix,
                pins: pins_copy,
                connections,
                properties: props,
                source_path: source,
                symbol: None,
            },
        )
    }
}


/// The pin table of a component factory made from a library symbol: each
/// pin's signal mapped to its number.
pub open spec fn factory_pin_table(pins: Seq<(Seq<char>, Seq<char>)>) -> Seq<(Seq<char>, Seq<char>)>
    decreases pins.len(),
{
    if pins.len() == 0 {
        Seq::empty()
    } else {
        assoc_insert(factory_pin_table(pins.drop_last()), pin_signal(pins.last().0, pins.last().1), pins.last().1)
    }
}

/// Make a component factory from the symbols of a symbol file: the first symbol's
/// pins, part number, manufacturer (as type) and properties, with `symbol_path`
/// recording `abs_symbol_path`. A footprint override replaces the symbol's; a
/// relative `.kicad_mod` footprint is taken from `base_dir` when there is one.
pub fn build_component_factory_from_symbol(
    symbols: &Vec<crate::eda::Symbol>,
    symbol_path_display: &str,
    footprint_override: Option<String>,
    base_dir: Option<String>,
    abs_symbol_path: String,
) -> (r: Result<ComponentFactoryValue, String>)
    requires
        symbols@.len() > 0 ==> symbols@[0].properties.wf(),
    ensures
        symbols@.len() == 0 ==> (r matches Err(m) && m@ == "No symbols found in file '"@ + symbol_path_display@ + "'"@),
        symbols@.len() > 0 ==> (r matches Ok(f) && f.wf() && {
            let s = symbols@[0];
            let fp = match footprint_override {
                Some(o) => o@,
                None => s.footprint@,
            };
            &&& f@.pins == factory_pin_table(s.pins@.map_values(|p: crate::eda::Pin| p@))
            &&& f@.mpn == crate::text::opt_str(s.mpn)
            &&& f@.ctype == crate::text::opt_str(s.manufacturer)
            &&& f@.prefix == "U"@
            &&& f@.footprint == if has_suffix(fp, ".kicad_mod"@) && !(fp.len() > 0 && fp[0] == '/') {
                match base_dir {
                    Some(d) => path_join(d@, fp),
                    None => fp,
                }
            } else {
                fp
            }
            &&& f@.default_properties == assoc_insert(s.properties.entries_view(), "symbol_path"@, abs_symbol_path@)
        }),
{
    if symbols.len() == 0 {
        let mut m = concat("No symbols found in file '", symbol_path_display);
        m.append("'");
        return Err(m);
    }
    let sym = &symbols[0];
    let ghost pv = sym.pins@.map_values(|p: crate::eda::Pin| p@);
    let mut pins: StrMap<String> = StrMap::new();
    let mut k: usize = 0;
    proof {
        reveal_strlit("~");
        assert(pv.take(0) =~= Seq::<(Seq<char>, Seq<char>)>::empty());
    }
    while k < sym.pins.len()
        invariant
            pv == sym.pins@.map_values(|p: crate::eda::Pin| p@),
            k <= sym.pins@.len(),
            pins.wf(),
            pins.entries_view() == factory_pin_table(pv.take(k as int)),
        decreases sym.pins@.len() - k,
    {
        proof {
            assert(pv.take(k + 1).drop_last() =~= pv.take(k as int));
            assert(pv.take(k + 1).last() == sym.pins@[k as int]@);
        }
        let pin = &sym.pins[k];
        let signal = if str_eq(pin.name.as_str(), "~") {
            pin.number.clone()
        } else {
            pin.name.clone()
        };
        pins.insert(signal, pin.number.clone());
        k = k + 1;
    }
    proof {
        assert(pv.take(sym.pins@.len() as int) =~= pv);
    }
    let fp = match footprint_override {
        Some(o) => o,
        None => sym.footprint.clone(),
    };
    let n = fp.as_str().unicode_len();
    let absolute = n > 0 && fp.as_str().get_char(0) == '/';
    let footprint = if ends_with(fp.as_str(), ".kicad_mod") && !absolute {
        match &base_dir {
            Some(d) => crate::config::join_path(d.as_str(), fp.as_str()),
            None => fp,
        }
    } else {
        fp
    };
    let mut defaults = copy_str_map(&sym.properties);
    defaults.insert("symbol_path".to_owned(), abs_symbol_path);
    Ok(
        ComponentFactoryValue {
            mpn: match &sym.mpn {
                Some(m) => Some(m.clone()),
                None => None,
            },
            ctype: match &sym.manufacturer {
                Some(m) => Some(m.clone()),
                None => None,
            },
            footprint,
            prefix: "U".to_owned(),
            pins,
            default_properties: defaults,
        },
    )
}


/// Only a relative `.kicad_mod` footprint is moved: any other footprint (a
/// library reference such as `Lib:Name`, or an absolute path) is kept exactly
/// as given, and a relative `.kicad_mod` path is joined to the directory of the
/// current file.
pub proof fn lemma_footprint_kept(fp: Seq<char>, source: Seq<char>)
    ensures
        !has_suffix(fp, ".kicad_mod"@) ==> footprint_outcome(fp, source) == Ok::<Seq<char>, Seq<char>>(fp),
        (fp.len() > 0 && fp[0] == '/') ==> footprint_outcome(fp, source) == Ok::<Seq<char>, Seq<char>>(fp),
        (has_suffix(fp, ".kicad_mod"@) && !(fp.len() > 0 && fp[0] == '/') && parent_dir(source) is Some)
            ==> footprint_outcome(fp, source) == Ok::<Seq<char>, Seq<char>>(path_join(parent_dir(source)->0, fp)),
{
}

} // verus!
