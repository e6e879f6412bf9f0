//! Bill-of-materials rules: reading attributes and recognizing well-known parts.
use vstd::prelude::*;

use super::value::{physical_text, AttributeValue, PhysicalValue};
use crate::strmap::StrMap;
use crate::text::{concat, lowercase, str_eq, to_lowercase};

verus! {

/// A capacitor dielectric.
#[derive(Copy, Clone, Debug, PartialEq, Eq, Structural, Hash)]
pub enum Dielectric {
    C0G,
    NP0,
    X5R,
    X7R,
    X7S,
    X7T,
    Y5V,
    Z5U,
}

/// A capacitor recognized from its attributes.
#[derive(Copy, Clone, Debug, PartialEq, Eq, Structural)]
pub struct Capacitor {
    pub capacitance: PhysicalValue,
    pub dielectric: Option<Dielectric>,
    pub esr: Option<PhysicalValue>,
}

/// A resistor recognized from its attributes.
#[derive(Copy, Clone, Debug, PartialEq, Eq, Structural)]
pub struct Resistor {
    pub resistance: PhysicalValue,
}

/// A part of a kind whose values the bill of materials knows how to read.
#[derive(Copy, Clone, Debug, PartialEq, Eq, Structural)]
pub enum WellKnownModule {
    Capacitor(Capacitor),
    Resistor(Resistor),
}

/// The dielectric a name stands for.
pub open spec fn dielectric_named(s: Seq<char>) -> Option<Dielectric> {
    if s == "C0G"@ {
        Some(Dielectric::C0G)
    } else if s == "NP0"@ {
        Some(Dielectric::NP0)
    } else if s == "X5R"@ {
        Some(Dielectric::X5R)
    } else if s == "X7R"@ {
        Some(Dielectric::X7R)
    } else if s == "X7S"@ {
        Some(Dielectric::X7S)
    } else if s == "X7T"@ {
        Some(Dielectric::X7T)
    } else if s == "Y5V"@ {
        Some(Dielectric::Y5V)
    } else if s == "Z5U"@ {
        Some(Dielectric::Z5U)
    } else {
        None
    }
}

impl Dielectric {
    /// Read a dielectric from its name.
    pub fn from_str(s: &str) -> (r: Result<Dielectric, String>)
        ensures
            match dielectric_named(s@) {
                Some(d) => r == Ok::<Dielectric, String>(d),
                None => r matches Err(m) && m@ == "Unknown dielectric: "@ + s@,
            },
    {
        if str_eq(s, "C0G") {
            Ok(Dielectric::C0G)
        } else if str_eq(s, "NP0") {
            Ok(Dielectric::NP0)
        } else if str_eq(s, "X5R") {
            Ok(Dielectric::X5R)
        } else if str_eq(s, "X7R") {
            Ok(Dielectric::X7R)
        } else if str_eq(s, "X7S") {
            Ok(Dielectric::X7S)
        } else if str_eq(s, "X7T") {
            Ok(Dielectric::X7T)
        } else if str_eq(s, "Y5V") {
            Ok(Dielectric::Y5V)
        } else if str_eq(s, "Z5U") {
            Ok(Dielectric::Z5U)
        } else {
            Err(concat("Unknown dielectric: ", s))
        }
    }
}

/// The text an attribute gives: a string's own text, or a physical value's.
pub open spec fn attr_text(m: Map<Seq<char>, AttributeValue>, k: Seq<char>) -> Option<Seq<char>> {
    if m.contains_key(k) {
        match m[k] {
            AttributeValue::String(s) => Some(s@),
            AttributeValue::Physical(pv) => Some(physical_text(pv)),
            _ => None,
        }
    } else {
        None
    }
}

/// The text of the first key, in order, whose attribute gives one.
pub open spec fn string_attr(m: Map<Seq<char>, AttributeValue>, keys: Seq<Seq<char>>) -> Option<Seq<char>>
    decreases keys.len(),
{
    if keys.len() == 0 {
        None
    } else {
        match attr_text(m, keys[0]) {
            Some(t) => Some(t),
            None => string_attr(m, keys.drop_first()),
        }
    }
}

/// The physical value of an attribute.
pub open spec fn attr_physical(m: Map<Seq<char>, AttributeValue>, k: Seq<char>) -> Option<PhysicalValue> {
    if m.contains_key(k) {
        match m[k] {
            AttributeValue::Physical(pv) => Some(pv),
            _ => None,
        }
    } else {
        None
    }
}

/// The physical value of the first key, in order, whose attribute holds one.
pub open spec fn physical_attr(m: Map<Seq<char>, AttributeValue>, keys: Seq<Seq<char>>) -> Option<PhysicalValue>
    decreases keys.len(),
{
    if keys.len() == 0 {
        None
    } else {
        match attr_physical(m, keys[0]) {
            Some(p) => Some(p),
            None => physical_attr(m, keys.drop_first()),
        }
    }
}

/// The keys as character sequences.
pub open spec fn key_views(keys: Seq<&str>) -> Seq<Seq<char>> {
    keys.map_values(|k: &str| k@)
}

proof fn lemma_key_views_skip(keys: Seq<&str>, i: int)
    requires
        0 <= i < keys.len(),
    ensures
        key_views(keys.subrange(i, keys.len() as int)).drop_first() == key_views(
            keys.subrange(i + 1, keys.len() as int),
        ),
        key_views(keys.subrange(i, keys.len() as int))[0] == keys[i]@,
{
    assert(key_views(keys.subrange(i, keys.len() as int)).drop_first() =~= key_views(
        keys.subrange(i + 1, keys.len() as int),
    ));
}

/// The text of one attribute.
fn attribute_text(attributes: &StrMap<AttributeValue>, key: &str) -> (r: Option<String>)
    requires
        attributes.wf(),
    ensures
        match r {
            Some(t) => attr_text(attributes@, key@) == Some(t@),
            None => attr_text(attributes@, key@) is None,
        },
{
    match attributes.get(key) {
        Some(AttributeValue::String(s)) => Some(s.clone()),
        Some(AttributeValue::Physical(pv)) => Some(pv.text()),
        _ => None,
    }
}

/// The text of the first of `keys` whose attribute is a string or a physical value.
pub fn get_string_attribute(attributes: &StrMap<AttributeValue>, keys: &[&str]) -> (r: Option<String>)
    requires
        attributes.wf(),
    ensures
        match r {
            Some(t) => string_attr(attributes@, key_views(keys@)) == Some(t@),
            None => string_attr(attributes@, key_views(keys@)) is None,
        },
{
    let mut i: usize = 0;
    proof {
        assert(keys@.subrange(0, keys@.len() as int) =~= keys@);
    }
    while i < keys.len()
        invariant
            attributes.wf(),
            i <= keys@.len(),
            string_attr(attributes@, key_views(keys@)) == string_attr(
                attributes@,
                key_views(keys@.subrange(i as int, keys@.len() as int)),
            ),
        decreases keys@.len() - i,
    {
        proof {
            lemma_key_views_skip(keys@, i as int);
        }
        match attribute_text(attributes, keys[i]) {
            Some(t) => {
                return Some(t);
            },
            None => {},
        }
        i = i + 1;
    }
    proof {
        assert(key_views(keys@.subrange(i as int, keys@.len() as int)).len() == 0);
    }
    None
}

/// The physical value of the first of `keys` whose attribute holds one.
pub fn get_physical_attribute(attributes: &StrMap<AttributeValue>, keys: &[&str]) -> (r: Option<
    PhysicalValue,
>)
    requires
        attributes.wf(),
    ensures
        r == physical_attr(attributes@, key_views(keys@)),
{
    let mut i: usize = 0;
    proof {
        assert(keys@.subrange(0, keys@.len() as int) =~= keys@);
    }
    while i < keys.len()
        invariant
            attributes.wf(),
            i <= keys@.len(),
            physical_attr(attributes@, key_views(keys@)) == physical_attr(
                attributes@,
                key_views(keys@.subrange(i as int, keys@.len() as int)),
            ),
        decreases keys@.len() - i,
    {
        proof {
            lemma_key_views_skip(keys@, i as int);
        }
        match attributes.get(keys[i]) {
            Some(AttributeValue::Physical(pv)) => {
                return Some(*pv);
            },
            _ => {},
        }
        i = i + 1;
    }
    proof {
        assert(key_views(keys@.subrange(i as int, keys@.len() as int)).len() == 0);
    }
    None
}

/// The part kind that a `Type` attribute names, when the value it needs is present:
/// a resistor needs `__resistance__`, a capacitor `__capacitance__` (its
/// `Dielectric` and `__esr__` are read when present).
pub open spec fn well_known_module(m: Map<Seq<char>, AttributeValue>) -> Option<WellKnownModule> {
    match string_attr(m, seq!["Type"@]) {
        None => None,
        Some(t) => if lowercase(t) == "resistor"@ {
            match physical_attr(m, seq!["__resistance__"@]) {
                Some(r) => Some(WellKnownModule::Resistor(Resistor { resistance: r })),
                None => None,
            }
        } else if lowercase(t) == "capacitor"@ {
            match physical_attr(m, seq!["__capacitance__"@]) {
                Some(c) => Some(
                    WellKnownModule::Capacitor(
                        Capacitor {
                            capacitance: c,
                            dielectric: match string_attr(m, seq!["Dielectric"@]) {
                                Some(d) => dielectric_named(d),
                                None => None,
                            },
                            esr: physical_attr(m, seq!["__esr__"@]),
                        },
                    ),
                ),
                None => None,
            }
        } else {
            None
        },
    }
}

/// Recognize a resistor or a capacitor from a `Type` attribute.
pub fn detect_well_known_module(attributes: &StrMap<AttributeValue>) -> (r: Option<WellKnownModule>)
    requires
        attributes.wf(),
    ensures
        r == well_known_module(attributes@),
{
    let type_keys = ["Type"];
    proof {
        assert(key_views(type_keys@) =~= seq!["Type"@]);
    }
    let module_type = match get_string_attribute(attributes, &type_keys) {
        Some(t) => t,
        None => {
            return None;
        },
    };
    let lower = to_lowercase(module_type.as_str());
    if str_eq(lower.as_str(), "resistor") {
        let keys = ["__resistance__"];
        proof {
            assert(key_views(keys@) =~= seq!["__resistance__"@]);
        }
        if let Some(resistance) = get_physical_attribute(attributes, &keys) {
            return Some(WellKnownModule::Resistor(Resistor { resistance }));
        }
    } else if str_eq(lower.as_str(), "capacitor") {
        let keys = ["__capacitance__"];
        proof {
            assert(key_views(keys@) =~= seq!["__capacitance__"@]);
        }
        if let Some(capacitance) = get_physical_attribute(attributes, &keys) {
            let dkeys = ["Dielectric"];
            proof {
                assert(key_views(dkeys@) =~= seq!["Dielectric"@]);
            }
            let dielectric = match get_string_attribute(attributes, &dkeys) {
                Some(d) => match Dielectric::from_str(d.as_str()) {
                    Ok(x) => Some(x),
                    Err(_) => None,
                },
                None => None,
            };
            let ekeys = ["__esr__"];
            proof {
                assert(key_views(ekeys@) =~= seq!["__esr__"@]);
            }
            let esr = get_physical_attribute(attributes, &ekeys);
            return Some(WellKnownModule::Capacitor(Capacitor { capacitance, dielectric, esr }));
        }
    }
    None
}

} // verus!
