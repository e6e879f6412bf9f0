//! Bill-of-materials entries: one per component instance of a schematic,
//! keyed by the instance's path, and their grouping into lines of identical
//! parts.
use vstd::prelude::*;

use super::bom::{
    detect_well_known_module, get_physical_attribute, get_string_attribute, key_views, physical_attr,
    string_attr, well_known_module, WellKnownModule,
};
use super::value::{AttributeValue, PhysicalValue};
use crate::strmap::StrMap;
use crate::text::{concat, has_prefix, lowercase, seq_lt, sorted_strictly, str_eq, str_less, strs, to_lowercase};

verus! {

/// A component instance of a schematic as the bill of materials reads it:
/// its path, its reference designator once assigned, whether it is a
/// component, and its attributes.
pub struct BomInstance {
    pub instance_path: Vec<String>,
    pub reference_designator: Option<String>,
    pub is_component: bool,
    pub attributes: StrMap<AttributeValue>,
}

/// One line of the bill of materials for one component instance.
#[derive(Debug)]
pub struct BomEntry {
    pub path: String,
    pub designator: String,
    pub manufacturer: Option<String>,
    pub mpn: Option<String>,
    pub alternatives: Vec<String>,
    pub package: Option<String>,
    pub value: Option<String>,
    pub description: Option<String>,
    pub well_known_module: Option<WellKnownModule>,
    pub voltage: Option<PhysicalValue>,
    pub dnp: bool,
}

/// A bill-of-materials entry as plain values.
#[verifier::ext_equal]
pub struct BomEntryView {
    pub path: Seq<char>,
    pub designator: Seq<char>,
    pub manufacturer: Option<Seq<char>>,
    pub mpn: Option<Seq<char>>,
    pub alternatives: Seq<Seq<char>>,
    pub package: Option<Seq<char>>,
    pub value: Option<Seq<char>>,
    pub description: Option<Seq<char>>,
    pub well_known_module: Option<WellKnownModule>,
    pub voltage: Option<PhysicalValue>,
    pub dnp: bool,
}

pub open spec fn entry_view(e: BomEntry) -> BomEntryView {
    BomEntryView {
        path: e.path@,
        designator: e.designator@,
        manufacturer: crate::text::opt_str(e.manufacturer),
        mpn: crate::text::opt_str(e.mpn),
        alternatives: strs(e.alternatives@),
        package: crate::text::opt_str(e.package),
        value: crate::text::opt_str(e.value),
        description: crate::text::opt_str(e.description),
        well_known_module: e.well_known_module,
        voltage: e.voltage,
        dnp: e.dnp,
    }
}

/// The parts of a path joined by `.`.
pub open spec fn join_dot(parts: Seq<Seq<char>>) -> Seq<char>
    decreases parts.len(),
{
    if parts.len() == 0 {
        Seq::empty()
    } else if parts.len() == 1 {
        parts[0]
    } else {
        join_dot(parts.drop_last()) + seq!['.'] + parts.last()
    }
}

/// `t` occurs in `s` at `i`.
pub open spec fn occurs_at(s: Seq<char>, t: Seq<char>, i: int) -> bool {
    0 <= i && i + t.len() <= s.len() && s.subrange(i, i + t.len()) == t
}

/// `t` occurs in `s`.
pub open spec fn has_infix(s: Seq<char>, t: Seq<char>) -> bool {
    exists|i: int| #[trigger] occurs_at(s, t, i)
}

/// The strings among array attribute items, in order.
pub open spec fn array_strings(items: Seq<AttributeValue>) -> Seq<Seq<char>>
    decreases items.len(),
{
    if items.len() == 0 {
        Seq::empty()
    } else {
        let rest = array_strings(items.drop_last());
        match items.last() {
            AttributeValue::String(s) => rest.push(s@),
            _ => rest,
        }
    }
}

/// The alternative parts an instance lists under `__alternatives__`.
pub open spec fn alternatives_of(m: Map<Seq<char>, AttributeValue>) -> Seq<Seq<char>> {
    if m.contains_key("__alternatives__"@) {
        match m["__alternatives__"@] {
            AttributeValue::Array(items) => array_strings(items@),
            _ => Seq::empty(),
        }
    } else {
        Seq::empty()
    }
}

/// The entry of a component instance.
pub open spec fn entry_of(inst: BomInstance) -> BomEntryView {
    let m = inst.attributes@;
    let path = join_dot(strs(inst.instance_path@));
    let designator = match inst.reference_designator {
        Some(d) => d@,
        None => seq!['?'] + path,
    };
    let dnp_attr = match string_attr(m, seq!["do_not_populate"@, "Do_not_populate"@, "DNP"@, "dnp"@]) {
        Some(s) => lowercase(s) == "true"@ || s == "1"@,
        None => false,
    };
    let test_part = has_prefix(designator, "TP"@) || match string_attr(m, seq!["type"@, "Type"@]) {
        Some(t) => has_infix(lowercase(t), "test"@),
        None => false,
    };
    BomEntryView {
        path,
        designator,
        manufacturer: string_attr(m, seq!["Manufacturer"@, "manufacturer"@]),
        mpn: string_attr(m, seq!["MPN"@, "Mpn"@, "mpn"@]),
        alternatives: alternatives_of(m),
        package: string_attr(m, seq!["Package"@, "package"@]),
        value: string_attr(m, seq!["Value"@]),
        description: string_attr(m, seq!["Description"@, "description"@]),
        well_known_module: well_known_module(m),
        voltage: physical_attr(m, seq!["__voltage__"@]),
        dnp: dnp_attr || test_part,
    }
}

fn join_parts(parts: &Vec<String>) -> (r: String)
    ensures
        r@ == join_dot(strs(parts@)),
{
    let ghost sv = strs(parts@);
    let mut out = String::new();
    let mut i: usize = 0;
    proof {
        assert(sv.take(0) =~= Seq::<Seq<char>>::empty());
    }
    while i < parts.len()
        invariant
            sv == strs(parts@),
            i <= parts@.len(),
            out@ == join_dot(sv.take(i as int)),
        decreases parts@.len() - i,
    {
        proof {
            reveal_strlit(".");
            assert(sv.take(i + 1).drop_last() =~= sv.take(i as int));
            assert(sv.take(i + 1).last() == parts@[i as int]@);
        }
        if i > 0 {
            out.append(".");
        }
        out.append(parts[i].as_str());
        proof {
            if i == 0 {
                assert(out@ =~= sv.take(1)[0]);
            } else {
                assert(out@ =~= join_dot(sv.take(i as int)) + seq!['.'] + sv.take(i + 1).last());
            }
        }
        i = i + 1;
    }
    proof {
        assert(sv.take(parts@.len() as int) =~= sv);
    }
    out
}

/// Whether `t` occurs in `s`.
pub fn contains_text(s: &str, t: &str) -> (r: bool)
    ensures
        r == has_infix(s@, t@),
{
    let n = s.unicode_len();
    let m = t.unicode_len();
    if m > n {
        proof {
            assert forall|i: int| !occurs_at(s@, t@, i) by {}
        }
        return false;
    }
    if m == 0 {
        proof {
            assert(s@.subrange(0, 0) =~= t@);
            assert(occurs_at(s@, t@, 0));
        }
        return true;
    }
    let mut i: usize = 0;
    while i <= n - m
        invariant
            n == s@.len(),
            m == t@.len(),
            m <= n,
            m > 0,
            i <= n - m + 1,
            forall|k: int| 0 <= k < i ==> !#[trigger] occurs_at(s@, t@, k),
        decreases n - m + 1 - i,
    {
        let piece = s.substring_char(i, i + m);
        if str_eq(piece, t) {
            proof {
                assert(occurs_at(s@, t@, i as int));
            }
            return true;
        }
        i = i + 1;
    }
    proof {
        assert forall|k: int| !occurs_at(s@, t@, k) by {
            if 0 <= k && k + t@.len() <= s@.len() {
                assert(k < i);
            }
        }
    }
    false
}

fn string_items(items: &Vec<AttributeValue>) -> (r: Vec<String>)
    ensures
        strs(r@) == array_strings(items@),
{
    let mut out: Vec<String> = Vec::new();
    let mut i: usize = 0;
    proof {
        assert(items@.take(0) =~= Seq::<AttributeValue>::empty());
    }
    while i < items.len()
        invariant
            i <= items@.len(),
            strs(out@) == array_strings(items@.take(i as int)),
        decreases items@.len() - i,
    {
        proof {
            assert(items@.take(i + 1).drop_last() =~= items@.take(i as int));
            assert(items@.take(i + 1).last() == items@[i as int]);
        }
        match &items[i] {
            AttributeValue::String(s) => {
                let ghost before = out@;
                out.push(s.clone());
                proof {
                    assert(strs(out@) =~= strs(before).push(s@));
                }
            },
            _ => {},
        }
        i = i + 1;
    }
    proof {
        assert(items@.take(items@.len() as int) =~= items@);
    }
    out
}

/// The entry of a component instance: its path (joined by `.`), its
/// designator (`?` and the path when none was assigned), the part data read
/// from its attributes, and whether it is not to be placed (marked so, or a
/// test point: a `TP` designator or a `type` naming a test part).
pub fn bom_entry(inst: &BomInstance) -> (r: BomEntry)
    requires
        inst.attributes.wf(),
    ensures
        entry_view(r) == entry_of(*inst),
{
    let attrs = &inst.attributes;
    let path = join_parts(&inst.instance_path);
    let designator = match &inst.reference_designator {
        Some(d) => d.clone(),
        None => concat("?", path.as_str()),
    };
    proof {
        reveal_strlit("?");
    }
    let mpn_keys = ["MPN", "Mpn", "mpn"];
    let man_keys = ["Manufacturer", "manufacturer"];
    let pkg_keys = ["Package", "package"];
    let desc_keys = ["Description", "description"];
    let volt_keys = ["__voltage__"];
    let dnp_keys = ["do_not_populate", "Do_not_populate", "DNP", "dnp"];
    let type_keys = ["type", "Type"];
    let value_keys = ["Value"];
    proof {
        assert(key_views(mpn_keys@) =~= seq!["MPN"@, "Mpn"@, "mpn"@]);
        assert(key_views(man_keys@) =~= seq!["Manufacturer"@, "manufacturer"@]);
        assert(key_views(pkg_keys@) =~= seq!["Package"@, "package"@]);
        assert(key_views(desc_keys@) =~= seq!["Description"@, "description"@]);
        assert(key_views(volt_keys@) =~= seq!["__voltage__"@]);
        assert(key_views(dnp_keys@) =~= seq!["do_not_populate"@, "Do_not_populate"@, "DNP"@, "dnp"@]);
        assert(key_views(type_keys@) =~= seq!["type"@, "Type"@]);
        assert(key_views(value_keys@) =~= seq!["Value"@]);
    }
    let mpn = get_string_attribute(attrs, &mpn_keys);
    let manufacturer = get_string_attribute(attrs, &man_keys);
    let package = get_string_attribute(attrs, &pkg_keys);
    let description = get_string_attribute(attrs, &desc_keys);
    let voltage = get_physical_attribute(attrs, &volt_keys);
    let do_not_populate = match get_string_attribute(attrs, &dnp_keys) {
        Some(s) => {
            let low = to_lowercase(s.as_str());
            str_eq(low.as_str(), "true") || str_eq(s.as_str(), "1")
        },
        None => false,
    };
    let is_test = crate::text::starts_with(designator.as_str(), "TP") || match get_string_attribute(
        attrs,
        &type_keys,
    ) {
        Some(t) => {
            let low = to_lowercase(t.as_str());
            contains_text(low.as_str(), "test")
        },
        None => false,
    };
    let value = get_string_attribute(attrs, &value_keys);
    let alternatives = match attrs.get("__alternatives__") {
        Some(AttributeValue::Array(items)) => string_items(items),
        _ => {
            let v: Vec<String> = Vec::new();
            proof {
                assert(strs(v@) =~= Seq::<Seq<char>>::empty());
            }
            v
        },
    };
    let well_known = detect_well_known_module(attrs);
    let e = BomEntry {
        path,
        designator,
        manufacturer,
        mpn,
        alternatives,
        package,
        value,
        description,
        well_known_module: well_known,
        voltage,
        dnp: do_not_populate || is_test,
    };
    proof {
        let m = inst.attributes@;
        let ev = entry_of(*inst);
        assert(e.path@ == ev.path);
        assert(e.designator@ == ev.designator);
        assert(crate::text::opt_str(e.mpn) == ev.mpn);
        assert(crate::text::opt_str(e.manufacturer) == ev.manufacturer);
        assert(crate::text::opt_str(e.package) == ev.package);
        assert(crate::text::opt_str(e.description) == ev.description);
        assert(crate::text::opt_str(e.value) == ev.value);
        assert(e.voltage == ev.voltage);
        assert(e.well_known_module == ev.well_known_module);
        assert(strs(e.alternatives@) == ev.alternatives);
        assert(e.dnp == ev.dnp);
        assert(entry_view(e) =~= entry_of(*inst));
    }
    e
}

/// The entries of the component instances, by path: a later instance with
/// the same path replaces an earlier one.
pub open spec fn entries_by_path(insts: Seq<BomInstance>) -> Map<Seq<char>, BomEntryView>
    decreases insts.len(),
{
    if insts.len() == 0 {
        Map::empty()
    } else {
        let rest = entries_by_path(insts.drop_last());
        if insts.last().is_component {
            rest.insert(entry_of(insts.last()).path, entry_of(insts.last()))
        } else {
            rest
        }
    }
}

impl View for BomEntry {
    type V = BomEntryView;

    open spec fn view(&self) -> BomEntryView {
        entry_view(*self)
    }
}

fn copy_opt(o: &Option<String>) -> (r: Option<String>)
    ensures
        crate::text::opt_str(r) == crate::text::opt_str(*o),
{
    match o {
        Some(s) => Some(s.clone()),
        None => None,
    }
}

fn copy_strings(v: &Vec<String>) -> (r: Vec<String>)
    ensures
        strs(r@) == strs(v@),
{
    let mut out: Vec<String> = Vec::new();
    let mut i: usize = 0;
    while i < v.len()
        invariant
            i <= v@.len(),
            strs(out@) == strs(v@).take(i as int),
        decreases v@.len() - i,
    {
        let ghost before = out@;
        let c = v[i].clone();
        out.push(c);
        proof {
            assert(out@ == before.push(c));
            assert(strs(v@).take(i + 1) =~= strs(v@).take(i as int).push(v@[i as int]@));
            assert(strs(out@) =~= strs(before).push(c@));
            assert(strs(out@) =~= strs(v@).take(i + 1));
        }
        i = i + 1;
    }
    proof {
        assert(strs(v@).take(v@.len() as int) =~= strs(v@));
    }
    out
}

/// A copy of an entry.
pub fn copy_entry(e: &BomEntry) -> (r: BomEntry)
    ensures
        entry_view(r) == entry_view(*e),
{
    let r = BomEntry {
        path: e.path.clone(),
        designator: e.designator.clone(),
        manufacturer: copy_opt(&e.manufacturer),
        mpn: copy_opt(&e.mpn),
        alternatives: copy_strings(&e.alternatives),
        package: copy_opt(&e.package),
        value: copy_opt(&e.value),
        description: copy_opt(&e.description),
        well_known_module: e.well_known_module,
        voltage: e.voltage,
        dnp: e.dnp,
    };
    proof {
        assert(entry_view(r) =~= entry_view(*e));
    }
    r
}

proof fn lemma_entries_by_path_keys(insts: Seq<BomInstance>)
    ensures
        forall|p: Seq<char>| #[trigger] entries_by_path(insts).contains_key(p) ==> entries_by_path(insts)[p].path == p,
    decreases insts.len(),
{
    if insts.len() > 0 {
        lemma_entries_by_path_keys(insts.drop_last());
    }
}

/// The paths of a list of entries.
pub open spec fn entry_paths(es: Seq<BomEntry>) -> Seq<Seq<char>> {
    es.map_values(|e: BomEntry| e.path@)
}

/// Generate the bill-of-materials entries of a schematic's instances: one per
/// component instance, keyed by its path (a later instance of the same path
/// replacing an earlier), listed in the order of their paths.
pub fn generate_bom_entries(instances: &Vec<BomInstance>) -> (r: Vec<BomEntry>)
    requires
        forall|i: int| 0 <= i < instances@.len() ==> (#[trigger] instances@[i]).attributes.wf(),
    ensures
        sorted_strictly(entry_paths(r@)),
        forall|p: Seq<char>| entries_by_path(instances@).contains_key(p) <==> entry_paths(r@).contains(p),
        forall|i: int|
            0 <= i < r@.len() ==> entries_by_path(instances@)[(#[trigger] r@[i]).path@] == entry_view(r@[i]),
{
    let mut by_path: StrMap<BomEntry> = StrMap::new();
    let mut i: usize = 0;
    proof {
        assert(instances@.take(0) =~= Seq::<BomInstance>::empty());
    }
    while i < instances.len()
        invariant
            i <= instances@.len(),
            forall|j: int| 0 <= j < instances@.len() ==> (#[trigger] instances@[j]).attributes.wf(),
            by_path.wf(),
            by_path@ == entries_by_path(instances@.take(i as int)),
        decreases instances@.len() - i,
    {
        proof {
            assert(instances@.take(i + 1).drop_last() =~= instances@.take(i as int));
            assert(instances@.take(i + 1).last() == instances@[i as int]);
        }
        if instances[i].is_component {
            let e = bom_entry(&instances[i]);
            by_path.insert(e.path.clone(), e);
        }
        i = i + 1;
    }
    proof {
        assert(instances@.take(instances@.len() as int) =~= instances@);
    }
    let ghost all = by_path@;
    proof {
        lemma_entries_by_path_keys(instances@);
    }
    let mut out: Vec<BomEntry> = Vec::new();
    proof {
        by_path.lemma_dom_len();
    }
    while by_path.len() > 0
        invariant
            by_path.wf(),
            all == entries_by_path(instances@),
            forall|p: Seq<char>| #[trigger] by_path@.contains_key(p) ==> all.contains_key(p) && by_path@[p] == all[p],
            forall|p: Seq<char>| #[trigger] all.contains_key(p) ==> all[p].path == p,
            forall|k: int| 0 <= k < out@.len() ==> all.contains_key((#[trigger] out@[k]).path@) && all[out@[k].path@]
                == entry_view(out@[k]) && !by_path@.contains_key(out@[k].path@),
            forall|p: Seq<char>| all.contains_key(p) ==> by_path@.contains_key(p) || entry_paths(out@).contains(p),
            sorted_strictly(entry_paths(out@)),
            forall|k: int, p: Seq<char>|
                0 <= k < out@.len() && #[trigger] by_path@.contains_key(p) ==> seq_lt((#[trigger] out@[k]).path@, p),
        decreases by_path@.dom().len(),
    {
        proof {
            by_path.lemma_dom_len();
        }
        let keys = by_path.keys();
        let mut best: usize = 0;
        let mut j: usize = 1;
        proof {
            assert(strs(keys@) == by_path.key_order());
            crate::text::lemma_seq_lt_irreflexive(keys@[0]@);
        }
        while j < keys.len()
            invariant
                1 <= j <= keys@.len(),
                best < keys@.len(),
                strs(keys@) == by_path.key_order(),
                forall|q: int| 0 <= q < j ==> !seq_lt(#[trigger] keys@[q]@, keys@[best as int]@),
            decreases keys@.len() - j,
        {
            if str_less(keys[j].as_str(), keys[best].as_str()) {
                proof {
                    assert forall|q: int| 0 <= q < j + 1 implies !seq_lt(#[trigger] keys@[q]@, keys@[j as int]@) by {
                        if q < j {
                            if seq_lt(keys@[q]@, keys@[j as int]@) {
                                crate::text::lemma_seq_lt_transitive(keys@[q]@, keys@[j as int]@, keys@[best as int]@);
                            }
                        } else {
                            crate::text::lemma_seq_lt_irreflexive(keys@[q]@);
                        }
                    }
                }
                best = j;
            }
            j = j + 1;
        }
        let k = keys[best].as_str();
        proof {
            assert(strs(keys@)[best as int] == keys@[best as int]@);
            by_path.lemma_key_order_contains(k@);
            assert(by_path.key_order().contains(k@));
        }
        let e = match by_path.get(k) {
            Some(v) => copy_entry(v),
            None => {
                proof {
                    assert(false);
                }
                return out;
            },
        };
        proof {
            assert forall|p: Seq<char>| #[trigger] by_path@.contains_key(p) && p != k@ implies seq_lt(k@, p) by {
                by_path.lemma_key_order_contains(p);
                let q = choose|q: int| 0 <= q < by_path.key_order().len() && by_path.key_order()[q] == p;
                assert(strs(keys@)[q] == p);
                assert(keys@[q]@ == p);
                crate::text::lemma_seq_lt_total(k@, p);
            }
        }
        let ghost before = out@;
        let ghost old_map = by_path@;
        proof {
            assert(entry_view(e).path == k@);
        }
        by_path.remove(k);
        out.push(e);
        proof {
            assert(out@ == before.push(e));
            assert(entry_paths(out@) =~= entry_paths(before).push(k@));
            assert(old_map.dom().remove(k@) =~= by_path@.dom());
            assert forall|p: Seq<char>| all.contains_key(p) implies by_path@.contains_key(p) || entry_paths(
                out@,
            ).contains(p) by {
                if p == k@ {
                    assert(entry_paths(out@)[before.len() as int] == p);
                } else if entry_paths(before).contains(p) {
                    let q = choose|q: int| 0 <= q < before.len() && entry_paths(before)[q] == p;
                    assert(entry_paths(out@)[q] == p);
                }
            }
        }
    }
    proof {
        by_path.lemma_dom_len();
        assert forall|p: Seq<char>| entry_paths(out@).contains(p) implies all.contains_key(p) by {
            let q = choose|q: int| 0 <= q < out@.len() && entry_paths(out@)[q] == p;
            assert(out@[q].path@ == p);
        }
        assert forall|p: Seq<char>| all.contains_key(p) implies entry_paths(out@).contains(p) by {
            if by_path@.contains_key(p) {
                assert(by_path@.dom().contains(p));
            }
        }
    }
    out
}


/// An entry is do-not-populate whenever the first of its `do_not_populate`,
/// `Do_not_populate`, `DNP` and `dnp` attributes is `"1"` or reads `"true"`
/// ignoring case, and whenever it is a test part (designator starting `TP`);
/// a part with neither mark and no test type is placed.
pub proof fn lemma_entry_dnp(inst: BomInstance)
    ensures
        (string_attr(inst.attributes@, seq!["do_not_populate"@, "Do_not_populate"@, "DNP"@, "dnp"@]) matches Some(s)
            && (s == "1"@ || lowercase(s) == "true"@)) ==> entry_of(inst).dnp,
        has_prefix(entry_of(inst).designator, "TP"@) ==> entry_of(inst).dnp,
        string_attr(inst.attributes@, seq!["do_not_populate"@, "Do_not_populate"@, "DNP"@, "dnp"@]) is None
            && string_attr(inst.attributes@, seq!["type"@, "Type"@]) is None && !has_prefix(
            entry_of(inst).designator,
            "TP"@,
        ) ==> !entry_of(inst).dnp,
{
}

} // verus!
