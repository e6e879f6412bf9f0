//! Grouping bill-of-materials entries into lines of identical parts.
use vstd::prelude::*;

use super::bom::WellKnownModule;
use super::entries::{copy_entry, entry_view, BomEntry, BomEntryView};
use super::value::PhysicalValue;
use crate::text::{opt_str, seq_lt, sorted_strictly, str_eq, str_less, strs};

verus! {

/// The part data that decides whether two entries share a line.
pub type GroupKey = (
    Option<Seq<char>>,
    Option<Seq<char>>,
    Option<Seq<char>>,
    Option<Seq<char>>,
    Option<Seq<char>>,
    Seq<Seq<char>>,
    bool,
);

/// The key of an entry: part number, manufacturer, package, value,
/// description, alternatives and whether it is placed.
pub open spec fn entry_key(e: BomEntryView) -> GroupKey {
    (e.mpn, e.manufacturer, e.package, e.value, e.description, e.alternatives, e.dnp)
}

/// A line of the bill of materials: the designators of the entries it
/// groups (sorted, each once) and their common part data.
#[derive(Debug)]
pub struct AggregatedBomEntry {
    pub designators: Vec<String>,
    pub manufacturer: Option<String>,
    pub mpn: Option<String>,
    pub alternatives: Vec<String>,
    pub package: Option<String>,
    pub value: Option<String>,
    pub description: Option<String>,
    pub well_known_module: Option<WellKnownModule>,
    pub voltage: Option<PhysicalValue>,
    pub dnp: bool,
}

/// The key of a line.
pub open spec fn line_key(g: AggregatedBomEntry) -> GroupKey {
    (
        opt_str(g.mpn),
        opt_str(g.manufacturer),
        opt_str(g.package),
        opt_str(g.value),
        opt_str(g.description),
        strs(g.alternatives@),
        g.dnp,
    )
}

/// A line as plain values: its designators, its key, and the data taken
/// from its first entry.
pub open spec fn line_view(g: AggregatedBomEntry) -> (Seq<Seq<char>>, GroupKey, Option<WellKnownModule>, Option<
    PhysicalValue,
>) {
    (strs(g.designators@), line_key(g), g.well_known_module, g.voltage)
}

/// `es[i]` is the first entry with key `k`.
pub open spec fn first_with_key(es: Seq<BomEntryView>, k: GroupKey, i: int) -> bool {
    &&& 0 <= i < es.len()
    &&& entry_key(es[i]) == k
    &&& forall|j: int| 0 <= j < i ==> entry_key(#[trigger] es[j]) != k
}

/// A line is right for the entries `es`: its designators are exactly those of
/// the entries with its key, sorted, and the rest of its data is its first
/// entry's.
pub open spec fn line_of(es: Seq<BomEntryView>, g: (Seq<Seq<char>>, GroupKey, Option<WellKnownModule>, Option<PhysicalValue>)) -> bool {
    &&& sorted_strictly(g.0)
    &&& g.0.len() > 0
    &&& forall|d: Seq<char>|
        g.0.contains(d) <==> exists|i: int| 0 <= i < es.len() && entry_key(#[trigger] es[i]) == g.1 && es[i].designator == d
    &&& exists|i: int| #[trigger] first_with_key(es, g.1, i) && g.2 == es[i].well_known_module && g.3 == es[i].voltage
}

/// The lines are right for the entries: each line is, no two share a key,
/// and every entry has its line.
pub open spec fn lines_of(es: Seq<BomEntryView>, ls: Seq<(Seq<Seq<char>>, GroupKey, Option<WellKnownModule>, Option<PhysicalValue>)>) -> bool {
    &&& forall|a: int| 0 <= a < ls.len() ==> line_of(es, #[trigger] ls[a])
    &&& forall|a: int, b: int| 0 <= a < b < ls.len() ==> (#[trigger] ls[a]).1 != (#[trigger] ls[b]).1
    &&& forall|i: int| 0 <= i < es.len() ==> has_line(ls, entry_key(#[trigger] es[i]))
}

/// Some line has the key `k`.
pub open spec fn has_line(ls: Seq<(Seq<Seq<char>>, GroupKey, Option<WellKnownModule>, Option<PhysicalValue>)>, k: GroupKey) -> bool {
    exists|a: int| 0 <= a < ls.len() && (#[trigger] ls[a]).1 == k
}

fn same_opt(a: &Option<String>, b: &Option<String>) -> (r: bool)
    ensures
        r == (opt_str(*a) == opt_str(*b)),
{
    match (a, b) {
        (Some(x), Some(y)) => str_eq(x.as_str(), y.as_str()),
        (None, None) => true,
        _ => false,
    }
}

fn same_strings(a: &Vec<String>, b: &Vec<String>) -> (r: bool)
    ensures
        r == (strs(a@) == strs(b@)),
{
    if a.len() != b.len() {
        proof {
            assert(strs(a@).len() != strs(b@).len());
        }
        return false;
    }
    let mut i: usize = 0;
    while i < a.len()
        invariant
            a@.len() == b@.len(),
            i <= a@.len(),
            forall|k: int| 0 <= k < i ==> a@[k]@ == b@[k]@,
        decreases a@.len() - i,
    {
        if !str_eq(a[i].as_str(), b[i].as_str()) {
            proof {
                assert(strs(a@)[i as int] != strs(b@)[i as int]);
            }
            return false;
        }
        i = i + 1;
    }
    proof {
        assert(strs(a@) =~= strs(b@));
    }
    true
}

/// Whether an entry belongs to a line.
fn same_key(e: &BomEntry, g: &AggregatedBomEntry) -> (r: bool)
    ensures
        r == (entry_key(entry_view(*e)) == line_key(*g)),
{
    same_opt(&e.mpn, &g.mpn) && same_opt(&e.manufacturer, &g.manufacturer) && same_opt(&e.package, &g.package)
        && same_opt(&e.value, &g.value) && same_opt(&e.description, &g.description) && same_strings(
        &e.alternatives,
        &g.alternatives,
    ) && e.dnp == g.dnp
}

/// Put `d` into a sorted list of distinct strings.
fn insert_designator(v: &mut Vec<String>, d: String)
    requires
        sorted_strictly(strs(old(v)@)),
    ensures
        sorted_strictly(strs(final(v)@)),
        forall|x: Seq<char>| strs(final(v)@).contains(x) <==> (strs(old(v)@).contains(x) || x == d@),
{
    let ghost sv = strs(v@);
    let mut i: usize = 0;
    while i < v.len() && str_less(v[i].as_str(), d.as_str())
        invariant
            strs(v@) == sv,
            i <= v@.len(),
            forall|k: int| 0 <= k < i ==> seq_lt(sv[k], d@),
        decreases v@.len() - i,
    {
        i = i + 1;
    }
    if i < v.len() && str_eq(v[i].as_str(), d.as_str()) {
        proof {
            assert(sv[i as int] == d@);
        }
        return;
    }
    let ghost dv = d@;
    v.insert(i, d);
    proof {
        let nv = strs(v@);
        assert(nv =~= sv.insert(i as int, dv));
        if i < sv.len() {
            assert(!seq_lt(sv[i as int], dv));
            assert(sv[i as int] != dv);
            crate::text::lemma_seq_lt_total(sv[i as int], dv);
        }
        assert forall|a: int, b: int| 0 <= a < b < nv.len() implies seq_lt(nv[a], nv[b]) by {
            if a < i && b == i {
            } else if a < i && b > i {
                assert(seq_lt(sv[a], dv));
                if b - 1 > i {
                    assert(seq_lt(sv[i as int], sv[b - 1]));
                    crate::text::lemma_seq_lt_transitive(dv, sv[i as int], sv[b - 1]);
                }
                crate::text::lemma_seq_lt_transitive(sv[a], dv, sv[b - 1]);
            } else if a == i && b > i {
                if b - 1 > i {
                    crate::text::lemma_seq_lt_transitive(dv, sv[i as int], sv[b - 1]);
                }
            }
        }
        assert forall|x: Seq<char>| nv.contains(x) <==> (sv.contains(x) || x == dv) by {
            if nv.contains(x) {
                let k = choose|k: int| 0 <= k < nv.len() && nv[k] == x;
                if k < i {
                    assert(sv[k] == x);
                } else if k > i {
                    assert(sv[k - 1] == x);
                }
            }
            if sv.contains(x) {
                let k = choose|k: int| 0 <= k < sv.len() && sv[k] == x;
                if k < i {
                    assert(nv[k] == x);
                } else {
                    assert(nv[k + 1] == x);
                }
            }
            if x == dv {
                assert(nv[i as int] == x);
            }
        }
    }
}

fn copy_opt(o: &Option<String>) -> (r: Option<String>)
    ensures
        opt_str(r) == opt_str(*o),
{
    match o {
        Some(s) => Some(s.clone()),
        None => None,
    }
}

fn copy_strings(v: &Vec<String>) -> (r: Vec<String>)
    ensures
        strs(r@) == strs(v@),
{
    let mut out: Vec<String> = Vec::new();
    let mut i: usize = 0;
    while i < v.len()
        invariant
            i <= v@.len(),
            strs(out@) == strs(v@).take(i as int),
        decreases v@.len() - i,
    {
        let ghost before = out@;
        let c = v[i].clone();
        out.push(c);
        proof {
            assert(out@ == before.push(c));
            assert(strs(v@).take(i + 1) =~= strs(v@).take(i as int).push(v@[i as int]@));
            assert(strs(out@) =~= strs(before).push(c@));
        }
        i = i + 1;
    }
    proof {
        assert(strs(v@).take(v@.len() as int) =~= strs(v@));
    }
    out
}

fn copy_line(g: &AggregatedBomEntry) -> (r: AggregatedBomEntry)
    ensures
        line_view(r) == line_view(*g),
{
    let r = AggregatedBomEntry {
        designators: copy_strings(&g.designators),
        manufacturer: copy_opt(&g.manufacturer),
        mpn: copy_opt(&g.mpn),
        alternatives: copy_strings(&g.alternatives),
        package: copy_opt(&g.package),
        value: copy_opt(&g.value),
        description: copy_opt(&g.description),
        well_known_module: g.well_known_module,
        voltage: g.voltage,
        dnp: g.dnp,
    };
    proof {
        assert(line_key(r) == line_key(*g));
    }
    r
}

/// The first designator of a line.
pub open spec fn first_designator(g: (Seq<Seq<char>>, GroupKey, Option<WellKnownModule>, Option<PhysicalValue>)) -> Seq<char> {
    g.0[0]
}

/// The views of a list of lines.
pub open spec fn line_views(ls: Seq<AggregatedBomEntry>) -> Seq<(Seq<Seq<char>>, GroupKey, Option<WellKnownModule>, Option<PhysicalValue>)> {
    ls.map_values(|g: AggregatedBomEntry| line_view(g))
}

/// The views of a list of entries.
pub open spec fn entry_views(es: Seq<BomEntry>) -> Seq<BomEntryView> {
    es.map_values(|e: BomEntry| entry_view(e))
}

proof fn lemma_line_keeps(es: Seq<BomEntryView>, e: BomEntryView, g: (Seq<Seq<char>>, GroupKey, Option<WellKnownModule>, Option<PhysicalValue>))
    requires
        line_of(es, g),
        g.1 != entry_key(e),
    ensures
        line_of(es.push(e), g),
{
    let es2 = es.push(e);
    assert forall|d: Seq<char>|
        g.0.contains(d) <==> exists|i: int| 0 <= i < es2.len() && entry_key(#[trigger] es2[i]) == g.1 && es2[i].designator == d by {
        if exists|i: int| 0 <= i < es2.len() && entry_key(#[trigger] es2[i]) == g.1 && es2[i].designator == d {
            let i = choose|i: int| 0 <= i < es2.len() && entry_key(#[trigger] es2[i]) == g.1 && es2[i].designator == d;
            assert(i < es.len());
            assert(es[i] == es2[i]);
        }
        if g.0.contains(d) {
            let i = choose|i: int| 0 <= i < es.len() && entry_key(#[trigger] es[i]) == g.1 && es[i].designator == d;
            assert(es2[i] == es[i]);
        }
    }
    let i = choose|i: int| #[trigger] first_with_key(es, g.1, i) && g.2 == es[i].well_known_module && g.3 == es[i].voltage;
    assert forall|j: int| 0 <= j < i implies entry_key(#[trigger] es2[j]) != g.1 by {
        assert(es2[j] == es[j]);
    }
    assert(first_with_key(es2, g.1, i));
}

proof fn lemma_line_grows(
    es: Seq<BomEntryView>,
    e: BomEntryView,
    g: (Seq<Seq<char>>, GroupKey, Option<WellKnownModule>, Option<PhysicalValue>),
    ds: Seq<Seq<char>>,
)
    requires
        line_of(es, g),
        g.1 == entry_key(e),
        sorted_strictly(ds),
        forall|x: Seq<char>| ds.contains(x) <==> (g.0.contains(x) || x == e.designator),
    ensures
        line_of(es.push(e), (ds, g.1, g.2, g.3)),
{
    let es2 = es.push(e);
    assert(ds.contains(e.designator));
    assert forall|d: Seq<char>|
        ds.contains(d) <==> exists|i: int| 0 <= i < es2.len() && entry_key(#[trigger] es2[i]) == g.1 && es2[i].designator == d by {
        if exists|i: int| 0 <= i < es2.len() && entry_key(#[trigger] es2[i]) == g.1 && es2[i].designator == d {
            let i = choose|i: int| 0 <= i < es2.len() && entry_key(#[trigger] es2[i]) == g.1 && es2[i].designator == d;
            if i < es.len() {
                assert(es[i] == es2[i]);
            }
        }
        if ds.contains(d) {
            if d == e.designator {
                assert(es2[es.len() as int] == e);
            } else {
                let i = choose|i: int| 0 <= i < es.len() && entry_key(#[trigger] es[i]) == g.1 && es[i].designator == d;
                assert(es2[i] == es[i]);
            }
        }
    }
    let i = choose|i: int| #[trigger] first_with_key(es, g.1, i) && g.2 == es[i].well_known_module && g.3 == es[i].voltage;
    assert forall|j: int| 0 <= j < i implies entry_key(#[trigger] es2[j]) != g.1 by {
        assert(es2[j] == es[j]);
    }
    assert(first_with_key(es2, g.1, i));
    assert(ds.len() > 0);
}

proof fn lemma_line_new(es: Seq<BomEntryView>, e: BomEntryView, g: (Seq<Seq<char>>, GroupKey, Option<WellKnownModule>, Option<PhysicalValue>))
    requires
        forall|i: int| 0 <= i < es.len() ==> entry_key(#[trigger] es[i]) != entry_key(e),
        g == (seq![e.designator], entry_key(e), e.well_known_module, e.voltage),
    ensures
        line_of(es.push(e), g),
{
    let es2 = es.push(e);
    assert forall|d: Seq<char>|
        g.0.contains(d) <==> exists|i: int| 0 <= i < es2.len() && entry_key(#[trigger] es2[i]) == g.1 && es2[i].designator == d by {
        if exists|i: int| 0 <= i < es2.len() && entry_key(#[trigger] es2[i]) == g.1 && es2[i].designator == d {
            let i = choose|i: int| 0 <= i < es2.len() && entry_key(#[trigger] es2[i]) == g.1 && es2[i].designator == d;
            if i < es.len() {
                assert(es[i] == es2[i]);
            }
            assert(g.0[0] == d);
        }
        if g.0.contains(d) {
            assert(es2[es.len() as int] == e);
        }
    }
    assert forall|j: int| 0 <= j < es.len() implies entry_key(#[trigger] es2[j]) != g.1 by {
        assert(es2[j] == es[j]);
    }
    assert(first_with_key(es2, g.1, es.len() as int));
}

/// The lines after adding an entry to the line of its key.
proof fn lemma_lines_grow(
    pre: Seq<BomEntryView>,
    ev: BomEntryView,
    gv: Seq<(Seq<Seq<char>>, GroupKey, Option<WellKnownModule>, Option<PhysicalValue>)>,
    j: int,
    nl: (Seq<Seq<char>>, GroupKey, Option<WellKnownModule>, Option<PhysicalValue>),
)
    requires
        lines_of(pre, gv),
        0 <= j < gv.len(),
        gv[j].1 == entry_key(ev),
        nl.1 == gv[j].1,
        line_of(pre.push(ev), nl),
    ensures
        lines_of(pre.push(ev), gv.update(j, nl)),
{
    let gv2 = gv.update(j, nl);
    let es2 = pre.push(ev);
    assert forall|a: int| 0 <= a < gv2.len() implies line_of(es2, #[trigger] gv2[a]) by {
        if a != j {
            if a < j {
                assert(gv[a].1 != gv[j].1);
            } else {
                assert(gv[j].1 != gv[a].1);
            }
            lemma_line_keeps(pre, ev, gv[a]);
        }
    }
    assert forall|i: int| 0 <= i < es2.len() implies has_line(gv2, entry_key(#[trigger] es2[i])) by {
        if i < pre.len() {
            let a = choose|a: int| 0 <= a < gv.len() && gv[a].1 == entry_key(pre[i]);
            assert(gv2[a].1 == gv[a].1);
            assert(es2[i] == pre[i]);
        } else {
            assert(gv2[j].1 == entry_key(es2[i]));
        }
    }
    assert forall|a: int, b: int| 0 <= a < b < gv2.len() implies (#[trigger] gv2[a]).1 != (#[trigger] gv2[b]).1 by {
        assert(gv2[a].1 == gv[a].1);
        assert(gv2[b].1 == gv[b].1);
    }
}

/// The lines after adding an entry whose key has no line yet.
proof fn lemma_lines_new(
    pre: Seq<BomEntryView>,
    ev: BomEntryView,
    gv: Seq<(Seq<Seq<char>>, GroupKey, Option<WellKnownModule>, Option<PhysicalValue>)>,
    nl: (Seq<Seq<char>>, GroupKey, Option<WellKnownModule>, Option<PhysicalValue>),
)
    requires
        lines_of(pre, gv),
        forall|q: int| 0 <= q < gv.len() ==> (#[trigger] gv[q]).1 != entry_key(ev),
        nl == (seq![ev.designator], entry_key(ev), ev.well_known_module, ev.voltage),
    ensures
        lines_of(pre.push(ev), gv.push(nl)),
{
    assert forall|i: int| 0 <= i < pre.len() implies entry_key(#[trigger] pre[i]) != entry_key(ev) by {
        let a = choose|a: int| 0 <= a < gv.len() && gv[a].1 == entry_key(pre[i]);
    }
    lemma_line_new(pre, ev, nl);
    let gv2 = gv.push(nl);
    let es2 = pre.push(ev);
    assert forall|a: int| 0 <= a < gv2.len() implies line_of(es2, #[trigger] gv2[a]) by {
        if a < gv.len() {
            lemma_line_keeps(pre, ev, gv[a]);
        }
    }
    assert forall|i: int| 0 <= i < es2.len() implies has_line(gv2, entry_key(#[trigger] es2[i])) by {
        if i < pre.len() {
            let a = choose|a: int| 0 <= a < gv.len() && gv[a].1 == entry_key(pre[i]);
            assert(gv2[a].1 == gv[a].1);
            assert(es2[i] == pre[i]);
        } else {
            assert(gv2[gv.len() as int].1 == entry_key(es2[i]));
        }
    }
    assert forall|a: int, b: int| 0 <= a < b < gv2.len() implies (#[trigger] gv2[a]).1 != (#[trigger] gv2[b]).1 by {
        if b == gv.len() {
            assert(gv2[a].1 == gv[a].1);
        }
    }
}

/// Group entries with identical part data into lines: each line lists the
/// designators of its entries, sorted, and takes the rest of its data from
/// its first entry. The lines are ordered by their first designators.
pub fn group_bom_entries(entries: &Vec<BomEntry>) -> (r: Vec<AggregatedBomEntry>)
    ensures
        lines_of(entry_views(entries@), line_views(r@)),
        forall|a: int, b: int|
            0 <= a < b < r@.len() ==> !seq_lt(
                first_designator(#[trigger] line_views(r@)[b]),
                first_designator(#[trigger] line_views(r@)[a]),
            ),
{
    let ghost es = entry_views(entries@);
    let mut groups: Vec<AggregatedBomEntry> = Vec::new();
    let mut k: usize = 0;
    proof {
        assert(es.take(0) =~= Seq::<BomEntryView>::empty());
    }
    while k < entries.len()
        invariant
            es == entry_views(entries@),
            k <= entries@.len(),
            lines_of(es.take(k as int), line_views(groups@)),
        decreases entries@.len() - k,
    {
        let e = &entries[k];
        let ghost ev = entry_view(*e);
        let ghost pre = es.take(k as int);
        let ghost gv = line_views(groups@);
        proof {
            assert(es.take(k + 1) =~= pre.push(ev));
            assert(es[k as int] == ev);
        }
        let mut j: usize = 0;
        while j < groups.len() && !same_key(e, &groups[j])
            invariant
                j <= groups@.len(),
                gv == line_views(groups@),
                ev == entry_view(*e),
                forall|q: int| 0 <= q < j ==> (#[trigger] gv[q]).1 != entry_key(ev),
            decreases groups@.len() - j,
        {
            proof {
                assert(gv[j as int].1 == line_key(groups@[j as int]));
            }
            j = j + 1;
        }
        if j < groups.len() {
            proof {
                assert(gv[j as int].1 == line_key(groups@[j as int]));
                assert(gv[j as int].1 == entry_key(ev));
            }
            let mut ds = copy_strings(&groups[j].designators);
            proof {
                assert(line_of(pre, gv[j as int]));
            }
            insert_designator(&mut ds, e.designator.clone());
            let g = &groups[j];
            let newg = AggregatedBomEntry {
                designators: ds,
                manufacturer: copy_opt(&g.manufacturer),
                mpn: copy_opt(&g.mpn),
                alternatives: copy_strings(&g.alternatives),
                package: copy_opt(&g.package),
                value: copy_opt(&g.value),
                description: copy_opt(&g.description),
                well_known_module: g.well_known_module,
                voltage: g.voltage,
                dnp: g.dnp,
            };
            proof {
                lemma_line_grows(pre, ev, gv[j as int], strs(newg.designators@));
                assert(line_view(newg) == (strs(newg.designators@), gv[j as int].1, gv[j as int].2, gv[j as int].3));
                lemma_lines_grow(pre, ev, gv, j as int, line_view(newg));
            }
            groups.set(j, newg);
            proof {
                assert(line_views(groups@) =~= gv.update(j as int, line_view(newg)));
            }
        } else {
            let mut ds: Vec<String> = Vec::new();
            ds.push(e.designator.clone());
            let newg = AggregatedBomEntry {
                designators: ds,
                manufacturer: copy_opt(&e.manufacturer),
                mpn: copy_opt(&e.mpn),
                alternatives: copy_strings(&e.alternatives),
                package: copy_opt(&e.package),
                value: copy_opt(&e.value),
                description: copy_opt(&e.description),
                well_known_module: e.well_known_module,
                voltage: e.voltage,
                dnp: e.dnp,
            };
            proof {
                assert(strs(newg.designators@) =~= seq![ev.designator]);
                assert(line_view(newg) == (seq![ev.designator], entry_key(ev), ev.well_known_module, ev.voltage));
                lemma_lines_new(pre, ev, gv, line_view(newg));
            }
            groups.push(newg);
            proof {
                assert(line_views(groups@) =~= gv.push(line_view(newg)));
            }
        }
        k = k + 1;
    }
    proof {
        assert(es.take(entries@.len() as int) =~= es);
    }
    order_lines(groups, Ghost(es))
}

/// The state of ordering lines: `outv` (the lines put in order so far) are
/// the lines `gv` at the indices `order`, in non-decreasing order of first
/// designator and none after any line still `rem`aining; `rem` and `order`
/// split the indices of `gv` between them.
pub open spec fn ordering_state(
    gv: Seq<(Seq<Seq<char>>, GroupKey, Option<WellKnownModule>, Option<PhysicalValue>)>,
    rem: Seq<usize>,
    order: Seq<usize>,
    outv: Seq<(Seq<Seq<char>>, GroupKey, Option<WellKnownModule>, Option<PhysicalValue>)>,
) -> bool {
    &&& order.len() == outv.len()
    &&& forall|k: int| 0 <= k < outv.len() ==> #[trigger] order[k] < gv.len() && outv[k] == gv[order[k] as int]
    &&& order.no_duplicates()
    &&& rem.no_duplicates()
    &&& forall|p: int| 0 <= p < rem.len() ==> (#[trigger] rem[p]) < gv.len()
    &&& forall|p: int, k: int| 0 <= p < rem.len() && 0 <= k < order.len() ==> #[trigger] rem[p] != #[trigger] order[k]
    &&& forall|q: usize| q < gv.len() ==> #[trigger] rem.contains(q) || order.contains(q)
    &&& forall|a: int, b: int|
        0 <= a < b < outv.len() ==> !seq_lt(first_designator(#[trigger] outv[b]), first_designator(#[trigger] outv[a]))
    &&& forall|k: int, p: int|
        0 <= k < outv.len() && 0 <= p < rem.len() ==> !seq_lt(
            first_designator(gv[#[trigger] rem[p] as int]),
            first_designator(#[trigger] outv[k]),
        )
}

proof fn lemma_ordering_step(
    gv: Seq<(Seq<Seq<char>>, GroupKey, Option<WellKnownModule>, Option<PhysicalValue>)>,
    rem: Seq<usize>,
    order: Seq<usize>,
    outv: Seq<(Seq<Seq<char>>, GroupKey, Option<WellKnownModule>, Option<PhysicalValue>)>,
    best: int,
)
    requires
        ordering_state(gv, rem, order, outv),
        0 <= best < rem.len(),
        forall|q: int| 0 <= q < rem.len() ==> !seq_lt(
            first_designator(gv[#[trigger] rem[q] as int]),
            first_designator(gv[rem[best] as int]),
        ),
    ensures
        ordering_state(gv, rem.remove(best), order.push(rem[best]), outv.push(gv[rem[best] as int])),
{
    let idx = rem[best];
    let rem2 = rem.remove(best);
    let order2 = order.push(idx);
    let outv2 = outv.push(gv[idx as int]);
    assert forall|k: int| 0 <= k < outv2.len() implies #[trigger] order2[k] < gv.len() && outv2[k] == gv[order2[k] as int] by {
        if k < outv.len() {
            assert(order2[k] == order[k]);
        }
    }
    assert forall|a: int, b: int| 0 <= a < b < order2.len() implies order2[a] != order2[b] by {
        if b == order.len() {
            assert(rem[best] != order[a]);
        }
    }
    assert forall|a: int, b: int| 0 <= a < b < rem2.len() implies rem2[a] != rem2[b] by {
        let wa = if a < best { a } else { a + 1 };
        let wb = if b < best { b } else { b + 1 };
        assert(rem2[a] == rem[wa]);
        assert(rem2[b] == rem[wb]);
    }
    assert forall|p: int| 0 <= p < rem2.len() implies (#[trigger] rem2[p]) < gv.len() by {
        let w = if p < best { p } else { p + 1 };
        assert(rem2[p] == rem[w]);
    }
    assert forall|p: int, k: int| 0 <= p < rem2.len() && 0 <= k < order2.len() implies #[trigger] rem2[p] != #[trigger] order2[k] by {
        let w = if p < best { p } else { p + 1 };
        assert(rem2[p] == rem[w]);
        if k == order.len() {
            assert(rem[w] != rem[best]);
        }
    }
    assert forall|q: usize| q < gv.len() implies #[trigger] rem2.contains(q) || order2.contains(q) by {
        if rem.contains(q) {
            let w = choose|w: int| 0 <= w < rem.len() && rem[w] == q;
            if w < best {
                assert(rem2[w] == q);
            } else if w > best {
                assert(rem2[w - 1] == q);
            } else {
                assert(order2[order.len() as int] == q);
            }
        } else {
            let w = choose|w: int| 0 <= w < order.len() && order[w] == q;
            assert(order2[w] == q);
        }
    }
    assert forall|a: int, b: int|
        0 <= a < b < outv2.len() implies !seq_lt(first_designator(#[trigger] outv2[b]), first_designator(#[trigger] outv2[a])) by {
        if b == outv.len() {
            assert(outv2[a] == outv[a]);
            assert(!seq_lt(first_designator(gv[rem[best] as int]), first_designator(outv[a])));
        } else {
            assert(outv2[a] == outv[a]);
            assert(outv2[b] == outv[b]);
        }
    }
    assert forall|k: int, p: int|
        0 <= k < outv2.len() && 0 <= p < rem2.len() implies !seq_lt(
            first_designator(gv[#[trigger] rem2[p] as int]),
            first_designator(#[trigger] outv2[k]),
        ) by {
        let w = if p < best { p } else { p + 1 };
        assert(rem2[p] == rem[w]);
        if k == outv.len() {
            assert(outv2[k] == gv[rem[best] as int]);
            assert(!seq_lt(first_designator(gv[rem[w] as int]), first_designator(gv[rem[best] as int])));
        } else {
            assert(outv2[k] == outv[k]);
        }
    }
}

proof fn lemma_ordering_done(
    es: Seq<BomEntryView>,
    gv: Seq<(Seq<Seq<char>>, GroupKey, Option<WellKnownModule>, Option<PhysicalValue>)>,
    order: Seq<usize>,
    outv: Seq<(Seq<Seq<char>>, GroupKey, Option<WellKnownModule>, Option<PhysicalValue>)>,
)
    requires
        lines_of(es, gv),
        gv.len() <= usize::MAX,
        ordering_state(gv, Seq::empty(), order, outv),
    ensures
        lines_of(es, outv),
{
    assert forall|q: usize| q < gv.len() implies #[trigger] order.contains(q) by {
        assert(!Seq::<usize>::empty().contains(q));
    }
    assert forall|a: int| 0 <= a < outv.len() implies line_of(es, #[trigger] outv[a]) by {
        assert(outv[a] == gv[order[a] as int]);
    }
    assert forall|a: int, b: int| 0 <= a < b < outv.len() implies (#[trigger] outv[a]).1 != (#[trigger] outv[b]).1 by {
        assert(outv[a] == gv[order[a] as int]);
        assert(outv[b] == gv[order[b] as int]);
        assert(order[a] != order[b]);
        if order[a] < order[b] {
            assert(gv[order[a] as int].1 != gv[order[b] as int].1);
        } else {
            assert(gv[order[b] as int].1 != gv[order[a] as int].1);
        }
    }
    assert forall|i: int| 0 <= i < es.len() implies has_line(outv, entry_key(#[trigger] es[i])) by {
        let g = choose|g: int| 0 <= g < gv.len() && gv[g].1 == entry_key(es[i]);
        assert(order.contains(g as usize));
        let k = choose|k: int| 0 <= k < order.len() && order[k] == g as usize;
        assert(order[k] as int == g);
        assert(outv[k] == gv[g]);
    }
    assert(forall|a: int| 0 <= a < outv.len() ==> line_of(es, #[trigger] outv[a]));
    assert(forall|a: int, b: int| 0 <= a < b < outv.len() ==> (#[trigger] outv[a]).1 != (#[trigger] outv[b]).1);
}

/// The lines ordered by their first designators.
fn order_lines(groups: Vec<AggregatedBomEntry>, Ghost(es): Ghost<Seq<BomEntryView>>) -> (r: Vec<AggregatedBomEntry>)
    requires
        lines_of(es, line_views(groups@)),
    ensures
        lines_of(es, line_views(r@)),
        forall|a: int, b: int|
            0 <= a < b < r@.len() ==> !seq_lt(
                first_designator(#[trigger] line_views(r@)[b]),
                first_designator(#[trigger] line_views(r@)[a]),
            ),
{
    let ghost gv = line_views(groups@);
    let n = groups.len();
    let mut remaining: Vec<usize> = Vec::new();
    let mut t: usize = 0;
    while t < n
        invariant
            n == groups@.len(),
            t <= n,
            remaining@ == Seq::new(t as nat, |q: int| q as usize),
        decreases n - t,
    {
        remaining.push(t);
        proof {
            assert(remaining@ =~= Seq::new((t + 1) as nat, |q: int| q as usize));
        }
        t = t + 1;
    }
    let mut out: Vec<AggregatedBomEntry> = Vec::new();
    let ghost mut order: Seq<usize> = Seq::empty();
    proof {
        assert forall|q: usize| q < n implies #[trigger] remaining@.contains(q) by {
            assert(remaining@[q as int] == q);
        }
        assert(line_views(out@) =~= Seq::empty());
    }
    while remaining.len() > 0
        invariant
            n == groups@.len(),
            gv == line_views(groups@),
            lines_of(es, gv),
            ordering_state(gv, remaining@, order, line_views(out@)),
        decreases remaining@.len(),
    {
        let mut best: usize = 0;
        let mut p: usize = 1;
        proof {
            assert(line_of(es, gv[remaining@[0] as int]));
            crate::text::lemma_seq_lt_irreflexive(first_designator(gv[remaining@[0] as int]));
            assert forall|q: int| 0 <= q < n implies (#[trigger] groups@[q]).designators@.len() > 0 by {
                assert(line_of(es, gv[q]));
            }
        }
        while p < remaining.len()
            invariant
                n == groups@.len(),
                gv == line_views(groups@),
                forall|q: int| 0 <= q < n ==> (#[trigger] groups@[q]).designators@.len() > 0,
                1 <= p <= remaining@.len(),
                best < remaining@.len(),
                forall|q: int| 0 <= q < remaining@.len() ==> (#[trigger] remaining@[q]) < n,
                forall|q: int|
                    0 <= q < p ==> !seq_lt(
                        first_designator(gv[#[trigger] remaining@[q] as int]),
                        first_designator(gv[remaining@[best as int] as int]),
                    ),
            decreases remaining@.len() - p,
        {
            let a = remaining[p];
            let b = remaining[best];
            proof {
                assert(gv[a as int].0 == strs(groups@[a as int].designators@));
                assert(gv[b as int].0 == strs(groups@[b as int].designators@));
                assert(groups@[a as int].designators@.len() > 0);
                assert(groups@[b as int].designators@.len() > 0);
                assert(first_designator(gv[a as int]) == groups@[a as int].designators@[0]@);
                assert(first_designator(gv[b as int]) == groups@[b as int].designators@[0]@);
            }
            if str_less(groups[a].designators[0].as_str(), groups[b].designators[0].as_str()) {
                proof {
                    assert forall|q: int| 0 <= q < p + 1 implies !seq_lt(
                        first_designator(gv[#[trigger] remaining@[q] as int]),
                        first_designator(gv[a as int]),
                    ) by {
                        if q < p {
                            if seq_lt(first_designator(gv[remaining@[q] as int]), first_designator(gv[a as int])) {
                                crate::text::lemma_seq_lt_transitive(
                                    first_designator(gv[remaining@[q] as int]),
                                    first_designator(gv[a as int]),
                                    first_designator(gv[b as int]),
                                );
                            }
                        } else {
                            crate::text::lemma_seq_lt_irreflexive(first_designator(gv[a as int]));
                        }
                    }
                }
                best = p;
            }
            p = p + 1;
        }
        let ghost before_rem = remaining@;
        let ghost before_out = out@;
        proof {
            lemma_ordering_step(gv, before_rem, order, line_views(before_out), best as int);
        }
        let idx = remaining.remove(best);
        let line = copy_line(&groups[idx]);
        out.push(line);
        proof {
            order = order.push(idx);
            assert(remaining@ =~= before_rem.remove(best as int));
            assert(out@ == before_out.push(line));
            assert(line_views(out@) =~= line_views(before_out).push(gv[idx as int]));
        }
    }
    proof {
        assert(remaining@ =~= Seq::<usize>::empty());
        lemma_ordering_done(es, gv, order, line_views(out@));
    }
    out
}

} // verus!
