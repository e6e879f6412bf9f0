//! A symbol of a KiCad symbol file (`.kicad_sym`), read from its s-expression.
use vstd::prelude::*;
use vstd::string::*;

use super::sexpr::{as_str_atom, atom_str, list_items, parse_text, sexp_parse, str_at, str_item, SExpr};
use super::{EdaError, Part, Pin, Symbol};
use crate::strmap::StrMap;
use crate::text::{
    opt_str,
    ends_with, find_char, first_index_of, has_prefix, has_suffix, starts_with, str_eq, substring,
    trim_end_all, trim_suffix_all,
};

verus! {

/// What is known of a symbol: its fields as character sequences; the maps are
/// keyed by distributor and by property name.
#[verifier::ext_equal]
pub struct SymbolView {
    pub name: Seq<char>,
    pub footprint: Seq<char>,
    pub in_bom: bool,
    pub pins: Seq<(Seq<char>, Seq<char>)>,
    pub mpn: Option<Seq<char>>,
    pub manufacturer: Option<Seq<char>>,
    pub datasheet_url: Option<Seq<char>>,
    pub description: Option<Seq<char>>,
    pub distributors: Map<Seq<char>, (Seq<char>, Seq<char>)>,
    pub properties: Map<Seq<char>, Seq<char>>,
}

/// A symbol with the given name and every other field empty.
pub open spec fn named_symbol(name: Seq<char>) -> SymbolView {
    SymbolView {
        name,
        footprint: Seq::empty(),
        in_bom: false,
        pins: Seq::empty(),
        mpn: None,
        manufacturer: None,
        datasheet_url: None,
        description: None,
        distributors: Map::empty(),
        properties: Map::empty(),
    }
}

/// The footprint named by a `Footprint` property: what follows the first `:`
/// (a library prefix), or the whole value.
pub open spec fn footprint_of(v: Seq<char>) -> Seq<char> {
    match first_index_of(v, ':') {
        Some(i) => v.subrange(i + 1, v.len() as int),
        None => v,
    }
}

/// The effect of `(in_bom <value>)`.
pub open spec fn in_bom_step(s: SymbolView, l: Seq<SExpr>) -> SymbolView {
    SymbolView { in_bom: str_at(l, 1) == Some("yes"@), ..s }
}

/// The effect of `(property <key> <value> ...)` on the fields it names.
pub open spec fn property_fields(s: SymbolView, k: Seq<char>, v: Seq<char>) -> SymbolView {
    if k == "Footprint"@ {
        SymbolView { footprint: footprint_of(v), ..s }
    } else if k == "Datasheet"@ {
        SymbolView { datasheet_url: Some(v), ..s }
    } else if k == "Manufacturer_Name"@ {
        SymbolView { manufacturer: Some(v), ..s }
    } else if k == "Manufacturer_Part_Number"@ {
        SymbolView { mpn: Some(v), ..s }
    } else if k == "ki_description"@ {
        SymbolView { description: Some(v), ..s }
    } else if k == "LCSC Part"@ {
        if s.mpn is None {
            SymbolView { mpn: Some(v), ..s }
        } else {
            s
        }
    } else if k == "Value"@ {
        if s.mpn is None && s.name == v {
            SymbolView { mpn: Some(v), ..s }
        } else {
            s
        }
    } else if has_suffix(k, "Part Number"@) {
        let d = trim_suffix_all(k, " Part Number"@);
        let url = if s.distributors.contains_key(d) {
            s.distributors[d].1
        } else {
            Seq::empty()
        };
        SymbolView { distributors: s.distributors.insert(d, (v, url)), ..s }
    } else if has_suffix(k, "Price/Stock"@) {
        let d = trim_suffix_all(k, " Price/Stock"@);
        let pn = if s.distributors.contains_key(d) {
            s.distributors[d].0
        } else {
            Seq::empty()
        };
        SymbolView { distributors: s.distributors.insert(d, (pn, v)), ..s }
    } else {
        s
    }
}

/// The effect of `(property <key> <value> ...)`: the named field, and the
/// property recorded under its key.
pub open spec fn property_step(s: SymbolView, l: Seq<SExpr>) -> SymbolView {
    match (str_at(l, 1), str_at(l, 2)) {
        (Some(k), Some(v)) => {
            let s1 = property_fields(s, k, v);
            SymbolView { properties: s1.properties.insert(k, v), ..s1 }
        },
        _ => s,
    }
}

/// The name and number given by the `(name ...)` and `(number ...)` entries of a
/// pin; a later entry overrides an earlier one, a missing one leaves it empty.
pub open spec fn pin_fields(items: Seq<SExpr>) -> (Seq<char>, Seq<char>)
    decreases items.len(),
{
    if items.len() == 0 {
        (Seq::empty(), Seq::empty())
    } else {
        let prev = pin_fields(items.drop_last());
        match list_items(items.last()) {
            Some(l) => match (str_at(l, 0), str_at(l, 1)) {
                (Some(a), Some(v)) => if a == "name"@ {
                    (v, prev.1)
                } else if a == "number"@ {
                    (prev.0, v)
                } else {
                    prev
                },
                _ => prev,
            },
            None => prev,
        }
    }
}

/// The pins of a nested `(symbol ...)` section: its `(pin ...)` entries that
/// have both a name and a number.
pub open spec fn section_pins(items: Seq<SExpr>) -> Seq<(Seq<char>, Seq<char>)>
    decreases items.len(),
{
    if items.len() == 0 {
        Seq::empty()
    } else {
        let prev = section_pins(items.drop_last());
        match list_items(items.last()) {
            Some(l) => if str_at(l, 0) == Some("pin"@) && pin_fields(l).0.len() > 0 && pin_fields(l).1.len()
                > 0 {
                prev.push(pin_fields(l))
            } else {
                prev
            },
            None => prev,
        }
    }
}

/// The effect of one entry of a symbol.
pub open spec fn symbol_step(s: SymbolView, item: SExpr) -> SymbolView {
    match list_items(item) {
        Some(l) => match str_at(l, 0) {
            Some(h) => if h == "in_bom"@ {
                in_bom_step(s, l)
            } else if h == "property"@ {
                property_step(s, l)
            } else if h == "pin"@ {
                SymbolView { pins: s.pins.push(pin_fields(l)), ..s }
            } else if has_prefix(h, "symbol"@) {
                SymbolView { pins: s.pins + section_pins(l), ..s }
            } else {
                s
            },
            None => s,
        },
        None => s,
    }
}

/// The effect of the entries of a symbol, in order.
pub open spec fn symbol_fold(s: SymbolView, items: Seq<SExpr>) -> SymbolView
    decreases items.len(),
{
    if items.len() == 0 {
        s
    } else {
        symbol_step(symbol_fold(s, items.drop_last()), items.last())
    }
}

/// The symbol described by the items of a `(symbol <name> ...)` list, when it has a name.
pub open spec fn symbol_model(data: Seq<SExpr>) -> Option<SymbolView> {
    match str_at(data, 1) {
        Some(n) => Some(symbol_fold(named_symbol(n), data.subrange(2, data.len() as int))),
        None => None,
    }
}

/// A `(symbol ...)` list.
pub open spec fn is_symbol_list(e: SExpr) -> bool {
    match list_items(e) {
        Some(l) => str_at(l, 0) == Some("symbol"@),
        None => false,
    }
}

/// The position of the first `(symbol ...)` list among the items.
pub open spec fn first_symbol(items: Seq<SExpr>) -> Option<int>
    decreases items.len(),
{
    if items.len() == 0 {
        None
    } else if is_symbol_list(items[0]) {
        Some(0)
    } else {
        match first_symbol(items.drop_first()) {
            Some(i) => Some(i + 1),
            None => None,
        }
    }
}

/// How reading a symbol file ends.
pub enum ReadOutcome {
    Parsed(SymbolView),
    ParseFailed(Seq<char>),
    NotAList,
    NoSymbol,
    NoName,
}

/// Reading a symbol from a parsed file: the first top-level `(symbol ...)`.
pub open spec fn symbol_outcome(e: SExpr) -> ReadOutcome {
    match list_items(e) {
        None => ReadOutcome::NotAList,
        Some(items) => match first_symbol(items) {
            None => ReadOutcome::NoSymbol,
            Some(i) => match symbol_model(list_items(items[i])->0) {
                Some(v) => ReadOutcome::Parsed(v),
                None => ReadOutcome::NoName,
            },
        },
    }
}

/// Reading a symbol from the text of a file.
pub open spec fn read_outcome(text: Seq<char>) -> ReadOutcome {
    match sexp_parse(text) {
        Err(m) => ReadOutcome::ParseFailed(m),
        Ok(e) => symbol_outcome(e),
    }
}

/// A result agrees with an outcome.
pub open spec fn read_matches<T: View<V = SymbolView>>(r: Result<T, EdaError>, o: ReadOutcome) -> bool {
    match (r, o) {
        (Ok(s), ReadOutcome::Parsed(v)) => s@ == v,
        (Err(EdaError::Parse(m)), ReadOutcome::ParseFailed(t)) => m@ == t,
        (Err(EdaError::InvalidFormat), ReadOutcome::NotAList) => true,
        (Err(EdaError::NoSymbol), ReadOutcome::NoSymbol) => true,
        (Err(EdaError::SymbolNameNotFound), ReadOutcome::NoName) => true,
        _ => false,
    }
}

/// A pin as written in a symbol file.
#[derive(Debug, Default)]
pub struct KicadPin {
    pub name: String,
    pub number: String,
}

impl View for KicadPin {
    type V = (Seq<char>, Seq<char>);

    open spec fn view(&self) -> (Seq<char>, Seq<char>) {
        (self.name@, self.number@)
    }
}

/// A symbol of a KiCad symbol file.
#[derive(Debug)]
pub struct KicadSymbol {
    name: String,
    footprint: String,
    in_bom: bool,
    pins: Vec<KicadPin>,
    mpn: Option<String>,
    manufacturer: Option<String>,
    datasheet_url: Option<String>,
    description: Option<String>,
    distributors: StrMap<Part>,
    properties: StrMap<String>,
}

impl View for KicadSymbol {
    type V = SymbolView;

    closed spec fn view(&self) -> SymbolView {
        SymbolView {
            name: self.name@,
            footprint: self.footprint@,
            in_bom: self.in_bom,
            pins: self.pins@.map_values(|p: KicadPin| p@),
            mpn: opt_str(self.mpn),
            manufacturer: opt_str(self.manufacturer),
            datasheet_url: opt_str(self.datasheet_url),
            description: opt_str(self.description),
            distributors: self.distributors@,
            properties: self.properties@,
        }
    }
}

/// The name and number of a pin entry.
fn parse_pin_fields(items: &[SExpr]) -> (r: KicadPin)
    ensures
        r@ == pin_fields(items@),
{
    let mut pin = KicadPin { name: String::new(), number: String::new() };
    let mut i: usize = 0;
    proof {
        assert(items@.take(0) =~= Seq::<SExpr>::empty());
    }
    while i < items.len()
        invariant
            i <= items@.len(),
            pin@ == pin_fields(items@.take(i as int)),
        decreases items@.len() - i,
    {
        proof {
            assert(items@.take(i + 1).drop_last() =~= items@.take(i as int));
        }
        if let SExpr::List(prop_list) = &items[i] {
            let a = str_item(prop_list.as_slice(), 0);
            let v = str_item(prop_list.as_slice(), 1);
            if let (Some(a), Some(v)) = (a, v) {
                if str_eq(a.as_str(), "name") {
                    pin.name = v.clone();
                } else if str_eq(a.as_str(), "number") {
                    pin.number = v.clone();
                }
            }
        }
        i = i + 1;
    }
    proof {
        assert(items@.take(items@.len() as int) =~= items@);
    }
    pin
}

/// A `(pin ...)` entry at the top of a symbol: always a pin, with whatever name
/// and number it gives.
pub fn parse_pin(pin_list: &[SExpr]) -> (r: Option<KicadPin>)
    ensures
        r matches Some(p) && p@ == pin_fields(pin_list@),
{
    Some(parse_pin_fields(pin_list))
}

/// A `(pin ...)` entry of a nested symbol section: a pin only when it has both a
/// name and a number.
pub fn parse_pin_from_section(pin_data: &[SExpr]) -> (r: Option<KicadPin>)
    ensures
        pin_fields(pin_data@).0.len() > 0 && pin_fields(pin_data@).1.len() > 0 ==> (r matches Some(p) && p@
            == pin_fields(pin_data@)),
        !(pin_fields(pin_data@).0.len() > 0 && pin_fields(pin_data@).1.len() > 0) ==> r is None,
{
    let pin = parse_pin_fields(pin_data);
    if pin.name.as_str().unicode_len() > 0 && pin.number.as_str().unicode_len() > 0 {
        Some(pin)
    } else {
        None
    }
}

impl KicadSymbol {
    /// The map fields hold each key once.
    pub closed spec fn wf(&self) -> bool {
        self.distributors.wf() && self.properties.wf()
    }

    /// The symbol's name.
    pub fn name(&self) -> (r: &str)
        ensures
            r@ == self@.name,
    {
        self.name.as_str()
    }

    fn named(name: String) -> (r: Self)
        ensures
            r.wf(),
            r@ == named_symbol(name@),
    {
        let r = KicadSymbol {
            name,
            footprint: String::new(),
            in_bom: false,
            pins: Vec::new(),
            mpn: None,
            manufacturer: None,
            datasheet_url: None,
            description: None,
            distributors: StrMap::new(),
            properties: StrMap::new(),
        };
        proof {
            assert(r@ =~= named_symbol(name@));
        }
        r
    }

    /// The symbol as the format-independent `Symbol`.
    pub fn into_symbol(self) -> (s: Symbol)
        ensures
            s@ == self@,
            self.wf() ==> s.distributors.wf() && s.properties.wf(),
    {
        let KicadSymbol {
            name,
            footprint,
            in_bom,
            pins,
            mpn,
            manufacturer,
            datasheet_url,
            description,
            distributors,
            properties,
        } = self;
        let mut out: Vec<Pin> = Vec::new();
        let mut i: usize = 0;
        while i < pins.len()
            invariant
                i <= pins@.len(),
                out@.len() == i,
                forall|k: int| 0 <= k < i ==> (#[trigger] out@[k])@ == pins@[k]@,
            decreases pins@.len() - i,
        {
            out.push(Pin { name: pins[i].name.clone(), number: pins[i].number.clone() });
            i = i + 1;
        }
        let s = Symbol {
            name,
            footprint,
            in_bom,
            pins: out,
            datasheet: datasheet_url,
            manufacturer,
            mpn,
            distributors,
            description,
            properties,
        };
        proof {
            assert(s@.pins =~= pins@.map_values(|p: KicadPin| p@));
            assert(s@ =~= self@);
        }
        s
    }

    /// The symbol as the format-independent `Symbol`, leaving this one in place.
    pub fn to_symbol(&self) -> (s: Symbol)
        requires
            self.wf(),
        ensures
            s@ == self@,
            s.distributors.wf(),
            s.properties.wf(),
    {
        let mut out: Vec<Pin> = Vec::new();
        let mut i: usize = 0;
        while i < self.pins.len()
            invariant
                i <= self.pins@.len(),
                out@.len() == i,
                forall|k: int| 0 <= k < i ==> (#[trigger] out@[k])@ == self.pins@[k]@,
            decreases self.pins@.len() - i,
        {
            out.push(Pin { name: self.pins[i].name.clone(), number: self.pins[i].number.clone() });
            i = i + 1;
        }
        let s = Symbol {
            name: self.name.clone(),
            footprint: self.footprint.clone(),
            in_bom: self.in_bom,
            pins: out,
            datasheet: super::copy_opt(&self.datasheet_url),
            manufacturer: super::copy_opt(&self.manufacturer),
            mpn: super::copy_opt(&self.mpn),
            distributors: super::copy_part_map(&self.distributors),
            description: super::copy_opt(&self.description),
            properties: super::copy_text_map(&self.properties),
        };
        proof {
            assert(s@.pins =~= self.pins@.map_values(|p: KicadPin| p@));
            assert(s@ =~= self@);
        }
        s
    }

    /// Read the first symbol of a symbol file.
    pub fn from_str(content: &str) -> (r: Result<Self, EdaError>)
        ensures
            read_matches(r, read_outcome(content@)),
            r matches Ok(s) ==> s.wf(),
    {
        match parse_text(content) {
            Err(m) => Err(EdaError::Parse(m)),
            Ok(e) => Self::from_sexp(&e),
        }
    }

    /// Read the first `(symbol ...)` entry of a parsed symbol file.
    pub fn from_sexp(e: &SExpr) -> (r: Result<Self, EdaError>)
        ensures
            read_matches(r, symbol_outcome(*e)),
            r matches Ok(s) ==> s.wf(),
    {
        match e {
            SExpr::Atom(_) => Err(EdaError::InvalidFormat),
            SExpr::List(items) => {
                let mut i: usize = 0;
                proof {
                    assert(items@.subrange(0, items@.len() as int) =~= items@);
                }
                proof {
                    assert(list_items(*e) == Some(items@));
                }
                while i < items.len()
                    invariant
                        list_items(*e) == Some(items@),
                        i <= items@.len(),
                        first_symbol(items@) == match first_symbol(items@.subrange(i as int, items@.len() as int)) {
                            Some(j) => Some(j + i),
                            None => None::<int>,
                        },
                        forall|k: int| 0 <= k < i ==> !is_symbol_list(#[trigger] items@[k]),
                    decreases items@.len() - i,
                {
                    let ghost rest = items@.subrange(i as int, items@.len() as int);
                    proof {
                        assert(rest[0] == items@[i as int]);
                        assert(rest.drop_first() =~= items@.subrange(i + 1, items@.len() as int));
                    }
                    if let SExpr::List(symbol_list) = &items[i] {
                        if let Some(h) = str_item(symbol_list.as_slice(), 0) {
                            if str_eq(h.as_str(), "symbol") {
                                proof {
                                    assert(list_items(items@[i as int]) == Some(symbol_list@));
                                    assert(is_symbol_list(items@[i as int]));
                                    assert(first_symbol(rest) == Some(0int));
                                    assert(first_symbol(items@) == Some(i as int));
                                    assert(list_items(*e) == Some(items@));
                                    assert(symbol_outcome(*e) == match symbol_model(symbol_list@) {
                                        Some(v) => ReadOutcome::Parsed(v),
                                        None => ReadOutcome::NoName,
                                    });
                                }
                                return match parse_symbol(symbol_list.as_slice()) {
                                    Ok(s) => Ok(s),
                                    Err(err) => Err(err),
                                };
                            }
                        }
                    }
                    i = i + 1;
                }
                proof {
                    assert(items@.subrange(items@.len() as int, items@.len() as int).len() == 0);
                }
                Err(EdaError::NoSymbol)
            },
        }
    }
}

/// `(in_bom yes)` marks the symbol for the bill of materials.
pub fn parse_in_bom(symbol: &mut KicadSymbol, prop_list: &[SExpr])
    requires
        old(symbol).wf(),
    ensures
        final(symbol).wf(),
        final(symbol)@ == in_bom_step(old(symbol)@, prop_list@),
{
    let v = match str_item(prop_list, 1) {
        Some(s) => str_eq(s.as_str(), "yes"),
        None => false,
    };
    symbol.in_bom = v;
    proof {
        assert(symbol@ =~= in_bom_step(old(symbol)@, prop_list@));
    }
}

/// The footprint named by a `Footprint` property value.
fn footprint_value(value: &String) -> (r: String)
    ensures
        r@ == footprint_of(value@),
{
    let n = value.as_str().unicode_len();
    match find_char(value.as_str(), ':') {
        Some(i) => substring(value.as_str(), i + 1, n),
        None => value.clone(),
    }
}

/// Records the property's key and value, and sets the field the key names.
pub fn parse_property(symbol: &mut KicadSymbol, prop_list: &[SExpr])
    requires
        old(symbol).wf(),
    ensures
        final(symbol).wf(),
        final(symbol)@ == property_step(old(symbol)@, prop_list@),
{
    let key = str_item(prop_list, 1);
    let value = str_item(prop_list, 2);
    if let (Some(key), Some(value)) = (key, value) {
        let k = key.as_str();
        let ghost s0 = symbol@;
        if str_eq(k, "Footprint") {
            symbol.footprint = footprint_value(value);
        } else if str_eq(k, "Datasheet") {
            symbol.datasheet_url = Some(value.clone());
        } else if str_eq(k, "Manufacturer_Name") {
            symbol.manufacturer = Some(value.clone());
        } else if str_eq(k, "Manufacturer_Part_Number") {
            symbol.mpn = Some(value.clone());
        } else if str_eq(k, "ki_description") {
            symbol.description = Some(value.clone());
        } else if str_eq(k, "LCSC Part") {
            if symbol.mpn.is_none() {
                symbol.mpn = Some(value.clone());
            }
        } else if str_eq(k, "Value") {
            if symbol.mpn.is_none() && symbol.name == *value {
                symbol.mpn = Some(value.clone());
            }
        } else if ends_with(k, "Part Number") {
            let d = trim_end_all(k, " Part Number");
            let url = match symbol.distributors.get(d.as_str()) {
                Some(p) => p.url.clone(),
                None => String::new(),
            };
            symbol.distributors.insert(d, Part { part_number: value.clone(), url });
        } else if ends_with(k, "Price/Stock") {
            let d = trim_end_all(k, " Price/Stock");
            let pn = match symbol.distributors.get(d.as_str()) {
                Some(p) => p.part_number.clone(),
                None => String::new(),
            };
            symbol.distributors.insert(d, Part { part_number: pn, url: value.clone() });
        }
        proof {
            assert(symbol@ =~= property_fields(s0, key@, value@));
        }
        symbol.properties.insert(key.clone(), value.clone());
        proof {
            assert(symbol@ =~= property_step(s0, prop_list@));
        }
    }
}

/// Adds the pins of a nested `(symbol ...)` section.
pub fn parse_symbol_section(symbol: &mut KicadSymbol, section_data: &[SExpr])
    requires
        old(symbol).wf(),
    ensures
        final(symbol).wf(),
        final(symbol)@ == (SymbolView { pins: old(symbol)@.pins + section_pins(section_data@), ..old(symbol)@ }),
{
    let ghost s0 = symbol@;
    let mut i: usize = 0;
    proof {
        assert(section_data@.take(0) =~= Seq::<SExpr>::empty());
        assert(symbol@ =~= (SymbolView { pins: s0.pins + section_pins(section_data@.take(0)), ..s0 }));
    }
    while i < section_data.len()
        invariant
            i <= section_data@.len(),
            symbol.wf(),
            symbol@ == (SymbolView { pins: s0.pins + section_pins(section_data@.take(i as int)), ..s0 }),
        decreases section_data@.len() - i,
    {
        proof {
            assert(section_data@.take(i + 1).drop_last() =~= section_data@.take(i as int));
            assert(section_data@.take(i + 1).last() == section_data@[i as int]);
        }
        let ghost before = symbol@;
        if let SExpr::List(pin_data) = &section_data[i] {
            if let Some(t) = str_item(pin_data.as_slice(), 0) {
                if str_eq(t.as_str(), "pin") {
                    if let Some(pin) = parse_pin_from_section(pin_data.as_slice()) {
                        let ghost bp = symbol.pins@;
                        symbol.pins.push(pin);
                        proof {
                            assert(symbol.pins@.map_values(|p: KicadPin| p@) =~= bp.map_values(|p: KicadPin| p@).push(
                                pin_fields(pin_data@),
                            ));
                        }
                    }
                }
            }
        }
        i = i + 1;
        proof {
            assert(symbol@ =~= (SymbolView { pins: s0.pins + section_pins(section_data@.take(i as int)), ..s0 }));
        }
    }
    proof {
        assert(section_data@.take(section_data@.len() as int) =~= section_data@);
    }
}

/// Applies one entry of a symbol.
fn apply_entry(symbol: &mut KicadSymbol, item: &SExpr)
    requires
        old(symbol).wf(),
    ensures
        final(symbol).wf(),
        final(symbol)@ == symbol_step(old(symbol)@, *item),
{
    if let SExpr::List(prop_list) = item {
        if let Some(prop_name) = str_item(prop_list.as_slice(), 0) {
            let n = prop_name.as_str();
            if str_eq(n, "in_bom") {
                parse_in_bom(symbol, prop_list.as_slice());
            } else if str_eq(n, "property") {
                parse_property(symbol, prop_list.as_slice());
            } else if str_eq(n, "pin") {
                if let Some(pin) = parse_pin(prop_list.as_slice()) {
                    let ghost s0 = symbol@;
                    symbol.pins.push(pin);
                    proof {
                        assert(symbol@ =~= (SymbolView { pins: s0.pins.push(pin_fields(prop_list@)), ..s0 }));
                    }
                }
            } else if starts_with(n, "symbol") {
                parse_symbol_section(symbol, prop_list.as_slice());
            }
        }
    }
}

/// Reads the items of a `(symbol <name> ...)` list.
pub fn parse_symbol(symbol_data: &[SExpr]) -> (r: Result<KicadSymbol, EdaError>)
    ensures
        match symbol_model(symbol_data@) {
            Some(v) => r matches Ok(s) && s@ == v && s.wf(),
            None => r matches Err(EdaError::SymbolNameNotFound),
        },
{
    let name = match str_item(symbol_data, 1) {
        Some(n) => n.clone(),
        None => {
            return Err(EdaError::SymbolNameNotFound);
        },
    };
    let ghost n = name@;
    let mut symbol = KicadSymbol::named(name);
    let ghost items = symbol_data@.subrange(2, symbol_data@.len() as int);
    let mut i: usize = 2;
    proof {
        assert(items.take(0) =~= Seq::<SExpr>::empty());
    }
    while i < symbol_data.len()
        invariant
            2 <= i <= symbol_data@.len(),
            items == symbol_data@.subrange(2, symbol_data@.len() as int),
            symbol.wf(),
            symbol@ == symbol_fold(named_symbol(n), items.take(i - 2)),
        decreases symbol_data@.len() - i,
    {
        proof {
            assert(items.take(i - 1).drop_last() =~= items.take(i - 2));
            assert(items.take(i - 1).last() == symbol_data@[i as int]);
        }
        apply_entry(&mut symbol, &symbol_data[i]);
        i = i + 1;
    }
    proof {
        assert(items.take(i - 2) =~= items);
    }
    Ok(symbol)
}


/// A `Manufacturer_Part_Number` property sets the symbol's MPN to its value,
/// whatever was set before, and is recorded among the properties.
pub proof fn lemma_mpn_property_wins(s: SymbolView, l: Seq<SExpr>, v: Seq<char>)
    requires
        str_at(l, 1) == Some("Manufacturer_Part_Number"@),
        str_at(l, 2) == Some(v),
    ensures
        property_step(s, l).mpn == Some(v),
        property_step(s, l).properties == s.properties.insert("Manufacturer_Part_Number"@, v),
{
    reveal_strlit("Manufacturer_Part_Number");
    reveal_strlit("Footprint");
    reveal_strlit("Datasheet");
    reveal_strlit("Manufacturer_Name");
    assert("Manufacturer_Part_Number"@ != "Footprint"@) by {
        assert("Manufacturer_Part_Number"@.len() != "Footprint"@.len());
    }
    assert("Manufacturer_Part_Number"@ != "Datasheet"@) by {
        assert("Manufacturer_Part_Number"@.len() != "Datasheet"@.len());
    }
    assert("Manufacturer_Part_Number"@ != "Manufacturer_Name"@) by {
        assert("Manufacturer_Part_Number"@.len() != "Manufacturer_Name"@.len());
    }
}

} // verus!
