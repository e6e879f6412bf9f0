//! Construction of a circuit graph from nets, component pins and public nets.
use vstd::prelude::*;
use vstd::string::*;

use super::csr::{total_len, bucket_views, CsrList};
use super::{CircuitGraph, ComponentPath, FactorId, FactorType, GraphError, PortId, PortPath};
use crate::seqs::{dedup, index_of, lemma_dedup, lemma_index_of, lemma_index_of_unique};

verus! {

/// A port path as a pair of character sequences: (component, pin).
pub type PathView = (Seq<char>, Seq<char>);

/// The component path under which the ports of public nets are created.
pub open spec fn external_component() -> Seq<char> {
    seq!['<', 'e', 'x', 't', 'e', 'r', 'n', 'a', 'l', '>']
}

/// How a port path is displayed: `component.pin`.
pub open spec fn port_path_text(p: PathView) -> Seq<char> {
    p.0 + seq!['.'] + p.1
}

/// The factor names: the nets in the order given, then the components.
pub open spec fn factor_names_of(
    nets: Seq<(String, Vec<PortPath>)>,
    comps: Seq<(ComponentPath, Vec<String>)>,
) -> Seq<Seq<char>> {
    nets.map_values(|n: (String, Vec<PortPath>)| n.0@) + comps.map_values(
        |c: (ComponentPath, Vec<String>)| c.0@,
    )
}

/// The port paths listed by each factor, in the order of `factor_names_of`.
pub open spec fn factor_rows_of(
    nets: Seq<(String, Vec<PortPath>)>,
    comps: Seq<(ComponentPath, Vec<String>)>,
) -> Seq<Seq<PathView>> {
    nets.map_values(|n: (String, Vec<PortPath>)| n.1@.map_values(|p: PortPath| p@)) + comps.map_values(
        |c: (ComponentPath, Vec<String>)| c.1@.map_values(|pin: String| (c.0@, pin@)),
    )
}

/// The name -> id table after inserting `names` in order; a new entry gets the
/// table's size as its id, and a repeated name is given a new id.
pub open spec fn name_table(names: Seq<Seq<char>>) -> Map<Seq<char>, FactorId>
    decreases names.len(),
{
    if names.len() == 0 {
        Map::empty()
    } else {
        let m = name_table(names.drop_last());
        m.insert(names.last(), FactorId(m.dom().len() as u32))
    }
}

/// The id given to the factor at row `i`.
pub open spec fn factor_id_at(names: Seq<Seq<char>>, i: int) -> FactorId {
    FactorId(name_table(names.take(i)).dom().len() as u32)
}

/// Every (port, factor id) occurrence, row by row.
pub open spec fn occurrences(rows: Seq<Seq<PathView>>, names: Seq<Seq<char>>) -> Seq<(PathView, FactorId)>
    decreases rows.len(),
{
    if rows.len() == 0 {
        Seq::empty()
    } else {
        occurrences(rows.drop_last(), names) + rows.last().map_values(
            |p: PathView| (p, factor_id_at(names, rows.len() - 1)),
        )
    }
}

/// The factor ids of the occurrences of port `x`, in order.
pub open spec fn fids_of(occ: Seq<(PathView, FactorId)>, x: PathView) -> Seq<FactorId>
    decreases occ.len(),
{
    if occ.len() == 0 {
        Seq::empty()
    } else if occ.last().0 == x {
        fids_of(occ.drop_last(), x).push(occ.last().1)
    } else {
        fids_of(occ.drop_last(), x)
    }
}

/// The occurrence at `t` is a port's third (or later) factor.
pub open spec fn overflows_at(occ: Seq<(PathView, FactorId)>, t: int) -> bool {
    0 <= t < occ.len() && fids_of(occ.take(t), occ[t].0).len() >= 2
}

/// The public nets that name a factor, in the order given.
pub open spec fn exported(public: Seq<Seq<char>>, table: Map<Seq<char>, FactorId>) -> Seq<Seq<char>>
    decreases public.len(),
{
    if public.len() == 0 {
        Seq::empty()
    } else if table.contains_key(public.last()) {
        exported(public.drop_last(), table).push(public.last())
    } else {
        exported(public.drop_last(), table)
    }
}

/// The ports created for nets: each distinct port path, in order of first occurrence.
pub open spec fn net_ports(occ: Seq<(PathView, FactorId)>) -> Seq<PathView> {
    dedup(occ.map_values(|o: (PathView, FactorId)| o.0))
}

/// A port created from the nets and components has a single factor and is not external.
pub open spec fn lacks_factor(occ: Seq<(PathView, FactorId)>, p: PathView) -> bool {
    fids_of(occ, p).len() < 2 && p.0 != external_component()
}

/// The graph's ports: the ports of the factors, then one external port per exported net.
pub open spec fn all_ports(occ: Seq<(PathView, FactorId)>, ext: Seq<Seq<char>>) -> Seq<PathView> {
    net_ports(occ) + ext.map_values(|n: Seq<char>| (external_component(), n))
}

/// The ids of the external ports that attach to factor `r`.
pub open spec fn external_members(
    occ: Seq<(PathView, FactorId)>,
    ext: Seq<Seq<char>>,
    table: Map<Seq<char>, FactorId>,
    r: int,
) -> Seq<PortId>
    decreases ext.len(),
{
    if ext.len() == 0 {
        Seq::empty()
    } else {
        let prev = external_members(occ, ext.drop_last(), table, r);
        if table[ext.last()].0 == r {
            prev.push(PortId((net_ports(occ).len() + ext.len() - 1) as u32))
        } else {
            prev
        }
    }
}

/// The factor type recorded for row `i`.
pub open spec fn factor_type_matches(
    t: FactorType,
    nets: Seq<(String, Vec<PortPath>)>,
    comps: Seq<(ComponentPath, Vec<String>)>,
    i: int,
) -> bool {
    if i < nets.len() {
        t matches FactorType::Net(n) && n@ == nets[i].0@
    } else {
        t matches FactorType::Component(c) && c@ == comps[i - nets.len()].0@
    }
}

/// Inputs under which construction cannot panic: ids and row offsets fit in `u32`, and
/// no port path already names the external port of a public net.
pub open spec fn buildable(
    nets: Seq<(String, Vec<PortPath>)>,
    comps: Seq<(ComponentPath, Vec<String>)>,
    public: Seq<Seq<char>>,
) -> bool {
    let names = factor_names_of(nets, comps);
    let rows = factor_rows_of(nets, comps);
    let occ = occurrences(rows, names);
    &&& names.len() < u32::MAX
    &&& occ.len() + public.len() < u32::MAX
    &&& forall|n: Seq<char>|
        #![trigger public.contains(n)]
        public.contains(n) && name_table(names).contains_key(n) ==> !occ.map_values(
            |o: (PathView, FactorId)| o.0,
        ).contains((external_component(), n))
}

/// The views of a vector of port paths.
pub open spec fn paths_view(ps: Seq<PortPath>) -> Seq<PathView> {
    ps.map_values(|p: PortPath| p@)
}

/// The views of a vector of strings.
pub open spec fn strings_view(ss: Seq<String>) -> Seq<Seq<char>> {
    ss.map_values(|s: String| s@)
}

pub fn clone_port_path(p: &PortPath) -> (r: PortPath)
    ensures
        r@ == p@,
{
    PortPath { component: ComponentPath(p.component.0.clone()), pin: p.pin.clone() }
}

pub fn port_path_eq(a: &PortPath, b: &PortPath) -> (r: bool)
    ensures
        r == (a@ == b@),
{
    a.component.0 == b.component.0 && a.pin == b.pin
}

/// `component.pin`, as the graph's errors display a port.
pub fn port_path_display(p: &PortPath) -> (s: String)
    ensures
        s@ == port_path_text(p@),
{
    let mut s = p.component.0.clone();
    let dot = ".";
    proof {
        reveal_strlit(".");
    }
    s.append(dot);
    s.append(p.pin.as_str());
    s
}

/// Position of a port path in a list of port paths.
fn find_port(ports: &Vec<PortPath>, p: &PortPath) -> (r: Option<usize>)
    ensures
        r matches Some(i) ==> i == index_of(paths_view(ports@), p@),
        r is None ==> index_of(paths_view(ports@), p@) == -1,
{
    let mut i: usize = 0;
    proof {
        lemma_index_of(paths_view(ports@), p@);
    }
    while i < ports.len()
        invariant
            i <= ports@.len(),
            forall|k: int| 0 <= k < i ==> paths_view(ports@)[k] != p@,
        decreases ports@.len() - i,
    {
        if port_path_eq(&ports[i], p) {
            proof {
                lemma_index_of(paths_view(ports@), p@);
                let j = index_of(paths_view(ports@), p@);
                if j != i {
                    assert(paths_view(ports@)[i as int] == p@);
                }
            }
            return Some(i);
        }
        i = i + 1;
    }
    proof {
        lemma_index_of(paths_view(ports@), p@);
        if index_of(paths_view(ports@), p@) >= 0 {
            let j = index_of(paths_view(ports@), p@);
            assert(paths_view(ports@)[j] == p@);
        }
    }
    None
}

/// Phase 1: the factor names, rows and types, nets first.
fn collect_factors(
    nets: &Vec<(String, Vec<PortPath>)>,
    comps: &Vec<(ComponentPath, Vec<String>)>,
) -> (r: (Vec<String>, Vec<Vec<PortPath>>, Vec<FactorType>))
    ensures
        strings_view(r.0@) == factor_names_of(nets@, comps@),
        r.1@.len() == r.0@.len(),
        forall|i: int| 0 <= i < r.1@.len() ==> paths_view(#[trigger] r.1@[i]@) == factor_rows_of(nets@, comps@)[i],
        r.2@.len() == r.0@.len(),
        forall|i: int| 0 <= i < r.2@.len() ==> factor_type_matches(#[trigger] r.2@[i], nets@, comps@, i),
{
    let mut names: Vec<String> = Vec::new();
    let mut rows: Vec<Vec<PortPath>> = Vec::new();
    let mut types: Vec<FactorType> = Vec::new();
    let ghost fnames = factor_names_of(nets@, comps@);
    let ghost frows = factor_rows_of(nets@, comps@);
    let mut i: usize = 0;
    while i < nets.len()
        invariant
            fnames == factor_names_of(nets@, comps@),
            frows == factor_rows_of(nets@, comps@),
            i <= nets@.len(),
            names@.len() == i,
            rows@.len() == i,
            types@.len() == i,
            forall|k: int| 0 <= k < i ==> (#[trigger] names@[k])@ == fnames[k],
            forall|k: int| 0 <= k < i ==> paths_view(#[trigger] rows@[k]@) == frows[k],
            forall|k: int| 0 <= k < i ==> factor_type_matches(#[trigger] types@[k], nets@, comps@, k),
        decreases nets@.len() - i,
    {
        let net = &nets[i];
        names.push(net.0.clone());
        types.push(FactorType::Net(net.0.clone()));
        let mut row: Vec<PortPath> = Vec::new();
        let mut j: usize = 0;
        while j < net.1.len()
            invariant
                j <= net.1@.len(),
                row@.len() == j,
                paths_view(row@) == paths_view(net.1@).take(j as int),
            decreases net.1@.len() - j,
        {
            let ghost old_row = row@;
            row.push(clone_port_path(&net.1[j]));
            assert forall|k: int| 0 <= k < j + 1 implies paths_view(row@)[k] == paths_view(net.1@).take(j + 1)[k] by {
                if k < j {
                    assert(row@[k] == old_row[k]);
                    assert(paths_view(old_row)[k] == paths_view(net.1@).take(j as int)[k]);
                }
            }
            j = j + 1;
            assert(paths_view(row@) =~= paths_view(net.1@).take(j as int));
        }
        assert(paths_view(net.1@).take(net.1@.len() as int) =~= paths_view(net.1@));
        rows.push(row);
        assert(frows[i as int] == paths_view(nets@[i as int].1@));
        i = i + 1;
    }
    let mut c: usize = 0;
    while c < comps.len()
        invariant
            fnames == factor_names_of(nets@, comps@),
            frows == factor_rows_of(nets@, comps@),
            c <= comps@.len(),
            names@.len() == nets@.len() + c,
            rows@.len() == nets@.len() + c,
            types@.len() == nets@.len() + c,
            forall|k: int| 0 <= k < nets@.len() + c ==> (#[trigger] names@[k])@ == fnames[k],
            forall|k: int| 0 <= k < nets@.len() + c ==> paths_view(#[trigger] rows@[k]@) == frows[k],
            forall|k: int|
                0 <= k < nets@.len() + c ==> factor_type_matches(#[trigger] types@[k], nets@, comps@, k),
        decreases comps@.len() - c,
    {
        let comp = &comps[c];
        let name = comp.0.0.clone();
        names.push(name.clone());
        types.push(FactorType::Component(name));
        let mut row: Vec<PortPath> = Vec::new();
        let mut j: usize = 0;
        let ghost target = comp.1@.map_values(|pin: String| (comp.0@, pin@));
        while j < comp.1.len()
            invariant
                j <= comp.1@.len(),
                target == comp.1@.map_values(|pin: String| (comp.0@, pin@)),
                row@.len() == j,
                paths_view(row@) == target.take(j as int),
            decreases comp.1@.len() - j,
        {
            let pp = PortPath { component: ComponentPath(comp.0.0.clone()), pin: comp.1[j].clone() };
            let ghost old_row = row@;
            row.push(pp);
            assert forall|k: int| 0 <= k < j + 1 implies paths_view(row@)[k] == target.take(j + 1)[k] by {
                if k < j {
                    assert(row@[k] == old_row[k]);
                    assert(paths_view(old_row)[k] == target.take(j as int)[k]);
                }
            }
            j = j + 1;
            assert(paths_view(row@) =~= target.take(j as int));
        }
        assert(target.take(comp.1@.len() as int) =~= target);
        rows.push(row);
        assert(frows[nets@.len() + c] == target);
        assert(fnames[nets@.len() + c] == comps@[c as int].0@);
        c = c + 1;
    }
    assert(strings_view(names@) =~= fnames);
    (names, rows, types)
}

/// The map described by a list of (name, id) entries.
pub open spec fn entries_map(t: Seq<(String, FactorId)>) -> Map<Seq<char>, FactorId> {
    Map::new(
        |k: Seq<char>| exists|j: int| 0 <= j < t.len() && t[j].0@ == k,
        |k: Seq<char>| t[choose|j: int| 0 <= j < t.len() && t[j].0@ == k].1,
    )
}

/// No name occurs twice among the entries.
pub open spec fn keys_unique(t: Seq<(String, FactorId)>) -> bool {
    forall|i: int, j: int| 0 <= i < j < t.len() ==> t[i].0@ != t[j].0@
}

pub(crate) proof fn lemma_entries_lookup(t: Seq<(String, FactorId)>, j: int)
    requires
        keys_unique(t),
        0 <= j < t.len(),
    ensures
        entries_map(t).contains_key(t[j].0@),
        entries_map(t)[t[j].0@] == t[j].1,
{
    let k = t[j].0@;
    assert(entries_map(t).dom().contains(k));
    let c = choose|c: int| 0 <= c < t.len() && t[c].0@ == k;
    if c != j {
        if c < j {
            assert(t[c].0@ != t[j].0@);
        } else {
            assert(t[j].0@ != t[c].0@);
        }
    }
}

pub(crate) fn find_name(table: &Vec<(String, FactorId)>, name: &String) -> (r: Option<usize>)
    ensures
        r matches Some(j) ==> j < table@.len() && table@[j as int].0@ == name@,
        r is None ==> forall|k: int| 0 <= k < table@.len() ==> table@[k].0@ != name@,
{
    let mut j: usize = 0;
    while j < table.len()
        invariant
            j <= table@.len(),
            forall|k: int| 0 <= k < j ==> table@[k].0@ != name@,
        decreases table@.len() - j,
    {
        if table[j].0 == *name {
            return Some(j);
        }
        j = j + 1;
    }
    None
}

/// Phase 2: give each factor its id, maintaining the name table.
fn assign_ids(names: &Vec<String>) -> (r: (Vec<(String, FactorId)>, Vec<FactorId>))
    requires
        names@.len() < u32::MAX,
    ensures
        keys_unique(r.0@),
        entries_map(r.0@) == name_table(strings_view(names@)),
        r.1@.len() == names@.len(),
        forall|k: int| 0 <= k < r.1@.len() ==> #[trigger] r.1@[k] == factor_id_at(strings_view(names@), k),
{
    let ghost nv = strings_view(names@);
    let mut table: Vec<(String, FactorId)> = Vec::new();
    let mut fids: Vec<FactorId> = Vec::new();
    let mut i: usize = 0;
    proof {
        assert(nv.take(0) =~= Seq::<Seq<char>>::empty());
        assert(entries_map(table@) =~= name_table(nv.take(0)));
    }
    while i < names.len()
        invariant
            nv == strings_view(names@),
            names@.len() < u32::MAX,
            i <= names@.len(),
            keys_unique(table@),
            entries_map(table@) == name_table(nv.take(i as int)),
            name_table(nv.take(i as int)).dom().finite(),
            name_table(nv.take(i as int)).dom().len() == table@.len(),
            table@.len() <= i,
            fids@.len() == i,
            forall|k: int| 0 <= k < i ==> #[trigger] fids@[k] == factor_id_at(nv, k),
        decreases names@.len() - i,
    {
        let ghost m = name_table(nv.take(i as int));
        let fid = FactorId(table.len() as u32);
        fids.push(fid);
        let name = &names[i];
        let found = find_name(&table, name);
        let ghost old_t = table@;
        proof {
            assert(nv.take(i + 1).drop_last() =~= nv.take(i as int));
            assert(nv.take(i + 1).last() == name@);
            assert(name_table(nv.take(i + 1)) == m.insert(name@, fid));
        }
        match found {
            Some(j) => {
                table.set(j, (name.clone(), fid));
                proof {
                    assert(m.contains_key(name@)) by {
                        assert(entries_map(old_t).dom().contains(name@)) by {
                            assert(old_t[j as int].0@ == name@);
                        }
                    }
                    assert(m.insert(name@, fid).dom() =~= m.dom());
                    assert forall|a: int, b: int| 0 <= a < b < table@.len() implies table@[a].0@ != table@[b].0@ by {
                        assert(old_t[a].0@ != old_t[b].0@);
                    }
                    assert forall|k: Seq<char>| #[trigger] entries_map(table@).contains_key(k) <==> m.insert(name@, fid).contains_key(k) by {
                        if entries_map(table@).contains_key(k) {
                            let c = choose|c: int| 0 <= c < table@.len() && table@[c].0@ == k;
                            assert(old_t[c].0@ == k);
                        }
                        if m.contains_key(k) {
                            let c = choose|c: int| 0 <= c < old_t.len() && old_t[c].0@ == k;
                            assert(table@[c].0@ == k);
                        }
                    }
                    assert forall|k: Seq<char>| #[trigger] entries_map(table@).contains_key(k) implies entries_map(table@)[k] == m.insert(name@, fid)[k] by {
                        let c = choose|c: int| 0 <= c < table@.len() && table@[c].0@ == k;
                        lemma_entries_lookup(table@, c);
                        if c != j {
                            lemma_entries_lookup(old_t, c);
                        }
                    }
                    assert(entries_map(table@) =~= m.insert(name@, fid));
                }
            },
            None => {
                table.push((name.clone(), fid));
                proof {
                    assert(!m.contains_key(name@)) by {
                        if m.contains_key(name@) {
                            let c = choose|c: int| 0 <= c < old_t.len() && old_t[c].0@ == name@;
                        }
                    }
                    assert forall|a: int, b: int| 0 <= a < b < table@.len() implies table@[a].0@ != table@[b].0@ by {
                        if b < old_t.len() {
                            assert(old_t[a].0@ != old_t[b].0@);
                        } else {
                            assert(table@[b].0@ == name@);
                            assert(table@[a] == old_t[a]);
                        }
                    }
                    assert forall|k: Seq<char>| #[trigger] entries_map(table@).contains_key(k) <==> m.insert(name@, fid).contains_key(k) by {
                        if entries_map(table@).contains_key(k) {
                            let c = choose|c: int| 0 <= c < table@.len() && table@[c].0@ == k;
                            if c < old_t.len() {
                                assert(old_t[c].0@ == k);
                            }
                        }
                        if m.contains_key(k) {
                            let c = choose|c: int| 0 <= c < old_t.len() && old_t[c].0@ == k;
                            assert(table@[c].0@ == k);
                        }
                        if k == name@ {
                            assert(table@[old_t.len() as int].0@ == k);
                        }
                    }
                    assert forall|k: Seq<char>| #[trigger] entries_map(table@).contains_key(k) implies entries_map(table@)[k] == m.insert(name@, fid)[k] by {
                        let c = choose|c: int| 0 <= c < table@.len() && table@[c].0@ == k;
                        lemma_entries_lookup(table@, c);
                        if c < old_t.len() {
                            assert(table@[c] == old_t[c]);
                            lemma_entries_lookup(old_t, c);
                        }
                    }
                    assert(entries_map(table@) =~= m.insert(name@, fid));
                }
            },
        }
        i = i + 1;
    }
    assert(nv.take(names@.len() as int) =~= nv);
    (table, fids)
}

/// The factor ids held by a port's two slots, filled first to last.
pub open spec fn slot_view(sl: (Option<FactorId>, Option<FactorId>)) -> Seq<FactorId> {
    match sl {
        (Some(a), Some(b)) => seq![a, b],
        (Some(a), None) => seq![a],
        _ => Seq::empty(),
    }
}

/// The ports of a sequence of occurrences.
pub open spec fn occ_ports(occ: Seq<(PathView, FactorId)>) -> Seq<PathView> {
    occ.map_values(|o: (PathView, FactorId)| o.0)
}

/// The occurrences of a row.
pub open spec fn row_occurrences(row: Seq<PathView>, f: FactorId) -> Seq<(PathView, FactorId)> {
    row.map_values(|p: PathView| (p, f))
}

/// The ids of a row's ports among `ports`.
pub open spec fn row_ids(row: Seq<PathView>, ports: Seq<PathView>) -> Seq<PortId> {
    row.map_values(|p: PathView| PortId(index_of(ports, p) as u32))
}

proof fn lemma_occ_prefix(rows: Seq<Seq<PathView>>, names: Seq<Seq<char>>, r: int)
    requires
        0 <= r <= rows.len(),
    ensures
        occurrences(rows.take(r), names).len() <= occurrences(rows, names).len(),
        occurrences(rows, names).take(occurrences(rows.take(r), names).len() as int) == occurrences(
            rows.take(r),
            names,
        ),
    decreases rows.len(),
{
    if r == rows.len() {
        assert(rows.take(r) =~= rows);
        assert(occurrences(rows, names).take(occurrences(rows, names).len() as int) =~= occurrences(rows, names));
    } else {
        let rs = rows.drop_last();
        assert(rows.take(r) =~= rs.take(r));
        lemma_occ_prefix(rs, names, r);
        let a = occurrences(rs, names);
        let n = occurrences(rs.take(r), names).len();
        assert((a + row_occurrences(rows.last(), factor_id_at(names, rows.len() - 1))).take(n as int) =~= a.take(n as int));
    }
}

proof fn lemma_occ_step(rows: Seq<Seq<PathView>>, names: Seq<Seq<char>>, r: int)
    requires
        0 <= r < rows.len(),
    ensures
        occurrences(rows.take(r + 1), names) == occurrences(rows.take(r), names) + row_occurrences(
            rows[r],
            factor_id_at(names, r),
        ),
{
    assert(rows.take(r + 1).drop_last() =~= rows.take(r));
}

proof fn lemma_fids_push(occ: Seq<(PathView, FactorId)>, o: (PathView, FactorId), x: PathView)
    ensures
        fids_of(occ.push(o), x) == if o.0 == x {
            fids_of(occ, x).push(o.1)
        } else {
            fids_of(occ, x)
        },
{
    assert(occ.push(o).drop_last() =~= occ);
}

proof fn lemma_fids_nonempty(occ: Seq<(PathView, FactorId)>, x: PathView)
    requires
        fids_of(occ, x).len() > 0,
    ensures
        occ_ports(occ).contains(x),
    decreases occ.len(),
{
    if occ.last().0 == x {
        assert(occ_ports(occ)[occ.len() - 1] == x);
    } else {
        lemma_fids_nonempty(occ.drop_last(), x);
        let k = choose|k: int| 0 <= k < occ_ports(occ.drop_last()).len() && occ_ports(occ.drop_last())[k] == x;
        assert(occ_ports(occ)[k] == x);
    }
}

proof fn lemma_fids_of_member(occ: Seq<(PathView, FactorId)>, x: PathView)
    requires
        occ_ports(occ).contains(x),
    ensures
        fids_of(occ, x).len() > 0,
    decreases occ.len(),
{
    if occ.last().0 != x {
        let k = choose|k: int| 0 <= k < occ_ports(occ).len() && occ_ports(occ)[k] == x;
        assert(k < occ.len() - 1);
        assert(occ_ports(occ.drop_last())[k] == x);
        lemma_fids_of_member(occ.drop_last(), x);
    }
}

proof fn lemma_overflow_prefix(a: Seq<(PathView, FactorId)>, b: Seq<(PathView, FactorId)>, t: int)
    requires
        a.len() <= b.len(),
        b.take(a.len() as int) == a,
        0 <= t < a.len(),
    ensures
        overflows_at(a, t) == overflows_at(b, t),
{
    assert(a.take(t) =~= b.take(t));
    assert(a[t] == b.take(a.len() as int)[t]);
}

proof fn lemma_dedup_push(s: Seq<PathView>, x: PathView)
    ensures
        dedup(s.push(x)) == if dedup(s).contains(x) {
            dedup(s)
        } else {
            dedup(s).push(x)
        },
{
    assert(s.push(x).drop_last() =~= s);
}

proof fn lemma_index_of_push(s: Seq<PathView>, x: PathView, y: PathView)
    requires
        s.contains(y),
    ensures
        index_of(s.push(x), y) == index_of(s, y),
{
    assert(s.push(x).drop_last() =~= s);
    lemma_index_of(s, y);
}

/// Phase 3 outcome: the ports, their slots and the rows as port ids.
pub struct ScanState {
    pub ports: Vec<PortPath>,
    pub slots: Vec<(Option<FactorId>, Option<FactorId>)>,
    pub buckets: Vec<Vec<PortId>>,
}

/// Phase 3: number the ports in order of first occurrence and fill each port's two factor slots.
#[verifier::rlimit(80)]
fn scan(rows: &Vec<Vec<PortPath>>, fids: &Vec<FactorId>, Ghost(names): Ghost<Seq<Seq<char>>>) -> (r: Result<
    ScanState,
    String,
>)
    requires
        fids@.len() == rows@.len(),
        names.len() == rows@.len(),
        forall|k: int| 0 <= k < fids@.len() ==> #[trigger] fids@[k] == factor_id_at(names, k),
        occurrences(rows@.map_values(|row: Vec<PortPath>| paths_view(row@)), names).len() < u32::MAX,
    ensures
        ({
            let occ = occurrences(rows@.map_values(|row: Vec<PortPath>| paths_view(row@)), names);
            match r {
                Err(s) => exists|t: int|
                    overflows_at(occ, t) && (forall|u: int| 0 <= u < t ==> !overflows_at(occ, u)) && s@
                        == port_path_text(occ[t].0),
                Ok(st) => {
                    &&& forall|t: int| 0 <= t < occ.len() ==> !overflows_at(occ, t)
                    &&& paths_view(st.ports@) == net_ports(occ)
                    &&& st.slots@.len() == st.ports@.len()
                    &&& forall|i: int|
                        0 <= i < st.slots@.len() ==> slot_view(#[trigger] st.slots@[i]) == fids_of(
                            occ,
                            net_ports(occ)[i],
                        )
                    &&& st.buckets@.len() == rows@.len()
                    &&& forall|k: int|
                        0 <= k < rows@.len() ==> (#[trigger] st.buckets@[k])@ == row_ids(
                            paths_view(rows@[k]@),
                            net_ports(occ),
                        )
                    &&& forall|k: int, m: int|
                        0 <= k < rows@.len() && 0 <= m < paths_view(rows@[k]@).len() ==> net_ports(
                            occ,
                        ).contains(#[trigger] paths_view(rows@[k]@)[m])
                },
            }
        }),
{
    let ghost rv = rows@.map_values(|row: Vec<PortPath>| paths_view(row@));
    let ghost occ = occurrences(rv, names);
    let mut ports: Vec<PortPath> = Vec::new();
    let mut slots: Vec<(Option<FactorId>, Option<FactorId>)> = Vec::new();
    let mut buckets: Vec<Vec<PortId>> = Vec::new();
    let mut r: usize = 0;
    proof {
        assert(rv.take(0) =~= Seq::<Seq<PathView>>::empty());
        lemma_occ_prefix(rv, names, 0);
        assert(occ_ports(occurrences(rv.take(0), names)) =~= Seq::<PathView>::empty());
        assert(paths_view(ports@) =~= dedup(Seq::<PathView>::empty()));
    }
    while r < rows.len()
        invariant
            rv == rows@.map_values(|row: Vec<PortPath>| paths_view(row@)),
            occ == occurrences(rv, names),
            occ.len() < u32::MAX,
            fids@.len() == rows@.len(),
            names.len() == rows@.len(),
            forall|k: int| 0 <= k < fids@.len() ==> #[trigger] fids@[k] == factor_id_at(names, k),
            r <= rows@.len(),
            ({
                let o = occurrences(rv.take(r as int), names);
                &&& o.len() <= occ.len()
                &&& occ.take(o.len() as int) == o
                &&& forall|t: int| 0 <= t < o.len() ==> !overflows_at(o, t)
                &&& paths_view(ports@) == net_ports(o)
                &&& slots@.len() == ports@.len()
                &&& forall|i: int|
                    0 <= i < slots@.len() ==> slot_view(#[trigger] slots@[i]) == fids_of(
                        o,
                        net_ports(o)[i],
                    )
                &&& buckets@.len() == r
                &&& forall|k: int|
                    0 <= k < r ==> (#[trigger] buckets@[k])@ == row_ids(rv[k], net_ports(o))
                &&& forall|k: int, m: int| 0 <= k < r && 0 <= m < rv[k].len() ==> net_ports(o).contains(#[trigger] rv[k][m])
            }),
        decreases rows@.len() - r,
    {
        let row = &rows[r];
        let fid = fids[r];
        let mut bucket: Vec<PortId> = Vec::new();
        let ghost o_row = occurrences(rv.take(r as int), names);
        proof {
            lemma_occ_step(rv, names, r as int);
            lemma_occ_prefix(rv, names, r + 1);
            assert(rv[r as int] == paths_view(row@));
        }
        let mut j: usize = 0;
        while j < row.len()
            invariant
                rv == rows@.map_values(|row: Vec<PortPath>| paths_view(row@)),
                occ == occurrences(rv, names),
                occ.len() < u32::MAX,
                r < rows@.len(),
                row == rows@[r as int],
                rv[r as int] == paths_view(row@),
                fid == factor_id_at(names, r as int),
                o_row == occurrences(rv.take(r as int), names),
                occurrences(rv.take(r + 1), names) == o_row + row_occurrences(rv[r as int], fid),
                occurrences(rv.take(r + 1), names).len() <= occ.len(),
                occ.take(occurrences(rv.take(r + 1), names).len() as int) == occurrences(rv.take(r + 1), names),
                j <= row@.len(),
                ({
                    let o = o_row + row_occurrences(rv[r as int].take(j as int), fid);
                    &&& forall|t: int| 0 <= t < o.len() ==> !overflows_at(o, t)
                    &&& paths_view(ports@) == net_ports(o)
                    &&& slots@.len() == ports@.len()
                    &&& forall|i: int|
                        0 <= i < slots@.len() ==> slot_view(#[trigger] slots@[i]) == fids_of(
                            o,
                            net_ports(o)[i],
                        )
                    &&& buckets@.len() == r
                    &&& forall|k: int|
                        0 <= k < r ==> (#[trigger] buckets@[k])@ == row_ids(rv[k], net_ports(o))
                    &&& forall|k: int, m: int| 0 <= k < r && 0 <= m < rv[k].len() ==> net_ports(o).contains(#[trigger] rv[k][m])
                    &&& bucket@ == row_ids(rv[r as int].take(j as int), net_ports(o))
                    &&& forall|m: int| 0 <= m < j ==> net_ports(o).contains(#[trigger] rv[r as int][m])
                }),
            decreases row@.len() - j,
        {
            let ghost o = o_row + row_occurrences(rv[r as int].take(j as int), fid);
            let ghost o2 = o.push((rv[r as int][j as int], fid));
            let ghost np = net_ports(o);
            let ghost old_ports = ports@;
            let ghost old_slots = slots@;
            let ghost old_buckets = buckets@;
            let ghost old_bucket = bucket@;
            let p = &row[j];
            proof {
                assert(p@ == rv[r as int][j as int]);
                assert(o2 =~= o_row + row_occurrences(rv[r as int].take(j + 1), fid));
                assert(occ_ports(o2) =~= occ_ports(o).push(p@));
                lemma_dedup_push(occ_ports(o), p@);
                lemma_dedup(occ_ports(o));
                lemma_dedup(occ_ports(o2));
                assert(occ_ports(o).len() == o.len());
                assert(o2.len() <= occurrences(rv.take(r + 1), names).len()) by {
                    assert(row_occurrences(rv[r as int].take(j + 1), fid).len() <= row_occurrences(rv[r as int], fid).len());
                }
                assert(forall|x: PathView| fids_of(o, x).len() > 0 ==> occ_ports(o).contains(x)) by {
                    assert forall|x: PathView| fids_of(o, x).len() > 0 implies occ_ports(o).contains(x) by {
                        lemma_fids_nonempty(o, x);
                    }
                }
                assert forall|t: int| 0 <= t < o.len() implies !overflows_at(o2, t) by {
                    assert(o2.take(o.len() as int) =~= o);
                    lemma_overflow_prefix(o, o2, t);
                }
                assert(o2.take(o.len() as int) =~= o);
                assert(o2[o.len() as int] == (p@, fid));
                assert forall|x: PathView| x != p@ implies fids_of(o2, x) == fids_of(o, x) by {
                    lemma_fids_push(o, (p@, fid), x);
                }
                lemma_fids_push(o, (p@, fid), p@);
            }
            let found = find_port(&ports, p);
            match found {
                Some(i) => {
                    proof {
                        lemma_index_of(np, p@);
                        assert(np[i as int] == p@);
                    }
                    let sl = slots[i];
                    let new_sl: (Option<FactorId>, Option<FactorId>);
                    if sl.0.is_none() {
                        new_sl = (Some(fid), sl.1);
                    } else if sl.1.is_none() {
                        new_sl = (sl.0, Some(fid));
                    } else {
                        proof {
                            assert(slot_view(sl) == fids_of(o, p@));
                            assert(overflows_at(o2, o.len() as int));
                            let o1 = occurrences(rv.take(r + 1), names);
                            assert(o1.take(o2.len() as int) =~= o2) by {
                                assert forall|k: int| 0 <= k < o2.len() implies o1[k] == o2[k] by {
                                    if k >= o_row.len() {
                                        assert(row_occurrences(rv[r as int], fid)[k - o_row.len()] == row_occurrences(rv[r as int].take(j + 1), fid)[k - o_row.len()]);
                                    }
                                }
                            }
                            assert(occ.take(o2.len() as int) =~= occ.take(o1.len() as int).take(o2.len() as int));
                            assert forall|u: int| 0 <= u < o.len() implies !overflows_at(occ, u) by {
                                lemma_overflow_prefix(o2, occ, u);
                            }
                            lemma_overflow_prefix(o2, occ, o.len() as int);
                            assert(occ[o.len() as int] == o2[o.len() as int]);
                        }
                        return Err(port_path_display(p));
                    }
                    proof {
                        assert(slot_view(sl) == fids_of(o, p@));
                        lemma_dedup(occ_ports(o));
                        assert(np.contains(p@));
                        lemma_fids_of_member(o, p@);
                        assert(fids_of(o, p@).len() > 0);
                        assert(slot_view(new_sl) =~= fids_of(o2, p@));
                    }
                    slots.set(i, new_sl);
                    bucket.push(PortId(i as u32));
                    proof {
                        assert(net_ports(o2) == np);
                        assert forall|ii: int| 0 <= ii < slots@.len() implies slot_view(#[trigger] slots@[ii]) == fids_of(
                            o2,
                            net_ports(o2)[ii],
                        ) by {
                            if ii != i {
                                assert(np[ii] != p@) by {
                                    lemma_dedup(occ_ports(o));
                                }
                                assert(slots@[ii] == old_slots[ii]);
                            }
                        }
                        assert(bucket@ =~= row_ids(rv[r as int].take(j + 1), net_ports(o2)));
                        assert forall|m: int| 0 <= m < j + 1 implies net_ports(o2).contains(#[trigger] rv[r as int][m]) by {
                            if m == j {
                                assert(np[i as int] == rv[r as int][m]);
                            }
                        }
                    }
                },
                None => {
                    proof {
                        lemma_index_of(np, p@);
                        assert(!occ_ports(o).contains(p@));
                        assert(fids_of(o, p@).len() == 0);
                        assert(net_ports(o2) == np.push(p@));
                    }
                    let id = ports.len();
                    ports.push(clone_port_path(p));
                    slots.push((Some(fid), None));
                    bucket.push(PortId(id as u32));
                    proof {
                        assert(paths_view(ports@) =~= np.push(p@));
                        assert forall|ii: int| 0 <= ii < slots@.len() implies slot_view(#[trigger] slots@[ii]) == fids_of(
                            o2,
                            net_ports(o2)[ii],
                        ) by {
                            if ii < old_slots.len() {
                                assert(slots@[ii] == old_slots[ii]);
                                assert(net_ports(o2)[ii] == np[ii]);
                                assert(np[ii] != p@) by {
                                    lemma_dedup(occ_ports(o));
                                    if np[ii] == p@ {
                                        assert(np.contains(p@));
                                    }
                                }
                            } else {
                                assert(fids_of(o, p@) =~= Seq::<FactorId>::empty());
                                assert(slot_view(slots@[ii]) =~= fids_of(o2, p@));
                            }
                        }
                        assert forall|k: int| 0 <= k < r implies (#[trigger] buckets@[k])@ == row_ids(rv[k], net_ports(o2)) by {
                            assert forall|m: int| 0 <= m < rv[k].len() implies row_ids(rv[k], net_ports(o2))[m] == row_ids(rv[k], np)[m] by {
                                assert(np.contains(rv[k][m]));
                                lemma_index_of_push(np, p@, rv[k][m]);
                            }
                            assert(row_ids(rv[k], net_ports(o2)) =~= row_ids(rv[k], np));
                        }
                        assert forall|m: int| 0 <= m < j + 1 implies row_ids(rv[r as int].take(j + 1), net_ports(o2))[m] == bucket@[m] by {
                            if m < j {
                                assert(np.contains(rv[r as int][m]));
                                lemma_index_of_push(np, p@, rv[r as int][m]);
                                assert(bucket@[m] == old_bucket[m]);
                            } else {
                                lemma_dedup(occ_ports(o2));
                                lemma_index_of_unique(net_ports(o2), np.len() as int);
                            }
                        }
                        assert(bucket@ =~= row_ids(rv[r as int].take(j + 1), net_ports(o2)));
                        assert forall|k: int, m: int| 0 <= k < r && 0 <= m < rv[k].len() implies net_ports(o2).contains(#[trigger] rv[k][m]) by {
                            assert(np.contains(rv[k][m]));
                            let c = choose|c: int| 0 <= c < np.len() && np[c] == rv[k][m];
                            assert(net_ports(o2)[c] == rv[k][m]);
                        }
                        assert forall|m: int| 0 <= m < j + 1 implies net_ports(o2).contains(#[trigger] rv[r as int][m]) by {
                            if m < j {
                                assert(np.contains(rv[r as int][m]));
                                let c = choose|c: int| 0 <= c < np.len() && np[c] == rv[r as int][m];
                                assert(net_ports(o2)[c] == rv[r as int][m]);
                            } else {
                                assert(net_ports(o2)[np.len() as int] == p@);
                            }
                        }
                    }
                },
            }
            j = j + 1;
        }
        proof {
            assert(rv[r as int].take(row@.len() as int) =~= rv[r as int]);
        }
        buckets.push(bucket);
        r = r + 1;
    }
    proof {
        assert(rv.take(rows@.len() as int) =~= rv);
        assert forall|k: int, m: int|
            0 <= k < rows@.len() && 0 <= m < paths_view(rows@[k]@).len() implies net_ports(occ).contains(
            #[trigger] paths_view(rows@[k]@)[m],
        ) by {
            assert(rv[k] == paths_view(rows@[k]@));
            assert(net_ports(occ).contains(rv[k][m]));
        }
    }
    Ok(ScanState { ports, slots, buckets })
}

proof fn lemma_name_table_bounds(s: Seq<Seq<char>>)
    requires
        s.len() < u32::MAX,
    ensures
        name_table(s).dom().finite(),
        name_table(s).dom().len() <= s.len(),
        forall|k: Seq<char>| #[trigger] name_table(s).contains_key(k) ==> (name_table(s)[k].0 as int) < s.len(),
    decreases s.len(),
{
    if s.len() > 0 {
        lemma_name_table_bounds(s.drop_last());
    }
}

proof fn lemma_factor_id_at_bound(names: Seq<Seq<char>>, r: int)
    requires
        names.len() < u32::MAX,
        0 <= r < names.len(),
    ensures
        (factor_id_at(names, r).0 as int) <= r,
{
    lemma_name_table_bounds(names.take(r));
}

proof fn lemma_occ_fids_bounded(rows: Seq<Seq<PathView>>, names: Seq<Seq<char>>)
    requires
        names.len() < u32::MAX,
        rows.len() <= names.len(),
    ensures
        forall|t: int| 0 <= t < occurrences(rows, names).len() ==> (#[trigger] occurrences(rows, names)[t]).1.0 < rows.len(),
    decreases rows.len(),
{
    if rows.len() > 0 {
        lemma_occ_fids_bounded(rows.drop_last(), names);
        lemma_factor_id_at_bound(names, rows.len() - 1);
        let a = occurrences(rows.drop_last(), names);
        assert forall|t: int| 0 <= t < occurrences(rows, names).len() implies (#[trigger] occurrences(rows, names)[t]).1.0 < rows.len() by {
            if t < a.len() {
                assert(occurrences(rows, names)[t] == a[t]);
            }
        }
    }
}

proof fn lemma_fids_of_bounded(occ: Seq<(PathView, FactorId)>, x: PathView, b: int)
    requires
        forall|t: int| 0 <= t < occ.len() ==> (#[trigger] occ[t]).1.0 < b,
    ensures
        forall|i: int| 0 <= i < fids_of(occ, x).len() ==> (#[trigger] fids_of(occ, x)[i]).0 < b,
    decreases occ.len(),
{
    if occ.len() > 0 {
        assert forall|t: int| 0 <= t < occ.drop_last().len() implies (#[trigger] occ.drop_last()[t]).1.0 < b by {
            assert(occ.drop_last()[t] == occ[t]);
        }
        lemma_fids_of_bounded(occ.drop_last(), x, b);
        assert(occ[occ.len() - 1].1.0 < b);
        let r = fids_of(occ.drop_last(), x);
        if occ.last().0 == x {
            assert forall|i: int| 0 <= i < fids_of(occ, x).len() implies (#[trigger] fids_of(occ, x)[i]).0 < b by {
                if i < r.len() {
                    assert(fids_of(occ, x)[i] == r[i]);
                }
            }
        }
    }
}

proof fn lemma_no_overflow_bound(occ: Seq<(PathView, FactorId)>, x: PathView)
    requires
        forall|t: int| 0 <= t < occ.len() ==> !overflows_at(occ, t),
    ensures
        fids_of(occ, x).len() <= 2,
    decreases occ.len(),
{
    if occ.len() > 0 {
        let d = occ.drop_last();
        assert forall|t: int| 0 <= t < d.len() implies !overflows_at(d, t) by {
            assert(occ.take(d.len() as int) =~= d);
            lemma_overflow_prefix(d, occ, t);
        }
        lemma_no_overflow_bound(d, x);
        lemma_no_overflow_bound(d, occ.last().0);
        assert(occ.take(d.len() as int) =~= d);
        assert(!overflows_at(occ, d.len() as int));
    }
}

proof fn lemma_total_len_rows(rv: Seq<Seq<PathView>>, names: Seq<Seq<char>>)
    ensures
        total_len(rv) == occurrences(rv, names).len(),
    decreases rv.len(),
{
    if rv.len() > 0 {
        lemma_total_len_rows(rv.drop_last(), names);
    }
}

proof fn lemma_total_len_same_shape<A, B>(a: Seq<Seq<A>>, b: Seq<Seq<B>>)
    requires
        a.len() == b.len(),
        forall|k: int| 0 <= k < a.len() ==> (#[trigger] a[k]).len() == b[k].len(),
    ensures
        total_len(a) == total_len(b),
    decreases a.len(),
{
    if a.len() > 0 {
        lemma_total_len_same_shape(a.drop_last(), b.drop_last());
    }
}

proof fn lemma_total_len_push_row<A>(s: Seq<Seq<A>>, i: int, x: A)
    requires
        0 <= i < s.len(),
    ensures
        total_len(s.update(i, s[i].push(x))) == total_len(s) + 1,
    decreases s.len(),
{
    let t = s.update(i, s[i].push(x));
    if i == s.len() - 1 {
        assert(t.drop_last() =~= s.drop_last());
    } else {
        assert(t.drop_last() =~= s.drop_last().update(i, s.drop_last()[i].push(x)));
        lemma_total_len_push_row(s.drop_last(), i, x);
    }
}

/// The two factors recorded for a port whose slots hold `fs` (one or two factors;
/// a single factor fills both).
pub open spec fn two_factors(fs: Seq<FactorId>) -> [FactorId; 2] {
    if fs.len() >= 2 {
        [fs[0], fs[1]]
    } else {
        [fs[0], fs[0]]
    }
}

proof fn lemma_exported_len(public: Seq<Seq<char>>, table: Map<Seq<char>, FactorId>)
    ensures
        exported(public, table).len() <= public.len(),
        forall|e: int|
            0 <= e < exported(public, table).len() ==> table.contains_key(#[trigger] exported(public, table)[e]),
    decreases public.len(),
{
    if public.len() > 0 {
        lemma_exported_len(public.drop_last(), table);
    }
}

proof fn lemma_external_members_step(
    occ: Seq<(PathView, FactorId)>,
    ext: Seq<Seq<char>>,
    table: Map<Seq<char>, FactorId>,
    r: int,
    e: int,
)
    requires
        0 <= e < ext.len(),
    ensures
        external_members(occ, ext.take(e + 1), table, r) == if table[ext[e]].0 == r {
            external_members(occ, ext.take(e), table, r).push(PortId((net_ports(occ).len() + e) as u32))
        } else {
            external_members(occ, ext.take(e), table, r)
        },
{
    assert(ext.take(e + 1).drop_last() =~= ext.take(e));
}

proof fn lemma_external_members_bound(
    occ: Seq<(PathView, FactorId)>,
    ext: Seq<Seq<char>>,
    table: Map<Seq<char>, FactorId>,
    r: int,
)
    requires
        net_ports(occ).len() + ext.len() <= u32::MAX,
    ensures
        forall|k: int|
            0 <= k < external_members(occ, ext, table, r).len() ==> (#[trigger] external_members(
                occ,
                ext,
                table,
                r,
            )[k]).0 < net_ports(occ).len() + ext.len(),
    decreases ext.len(),
{
    if ext.len() > 0 {
        lemma_external_members_bound(occ, ext.drop_last(), table, r);
        let prev = external_members(occ, ext.drop_last(), table, r);
        assert forall|k: int| 0 <= k < external_members(occ, ext, table, r).len() implies (
        #[trigger] external_members(occ, ext, table, r)[k]).0 < net_ports(occ).len() + ext.len() by {
            if k < prev.len() {
                assert(external_members(occ, ext, table, r)[k] == prev[k]);
            }
        }
    }
}

/// Phase 4: check that every port has two factors; external ports have one, used twice.
fn check_factors(
    ports: &Vec<PortPath>,
    slots: &Vec<(Option<FactorId>, Option<FactorId>)>,
    Ghost(occ): Ghost<Seq<(PathView, FactorId)>>,
    Ghost(ext): Ghost<Seq<Seq<char>>>,
    Ghost(ext_fids): Ghost<Seq<FactorId>>,
) -> (r: Result<Vec<[FactorId; 2]>, String>)
    requires
        slots@.len() == ports@.len(),
        ext_fids.len() == ext.len(),
        paths_view(ports@) == net_ports(occ) + ext.map_values(|n: Seq<char>| (external_component(), n)),
        forall|i: int|
            0 <= i < net_ports(occ).len() ==> slot_view(#[trigger] slots@[i]) == fids_of(occ, net_ports(occ)[i]),
        forall|i: int|
            0 <= i < net_ports(occ).len() ==> 1 <= #[trigger] fids_of(occ, net_ports(occ)[i]).len() <= 2,
        forall|e: int|
            0 <= e < ext.len() ==> #[trigger] slots@[net_ports(occ).len() + e] == (
                Some(ext_fids[e]),
                None::<FactorId>,
            ),
    ensures
        ({
            let np = net_ports(occ);
            match r {
                Err(s) => exists|i: int|
                    0 <= i < np.len() && lacks_factor(occ, np[i]) && (forall|u: int|
                        0 <= u < i ==> !lacks_factor(occ, #[trigger] np[u])) && s@ == port_path_text(np[i]),
                Ok(pf) => {
                    &&& forall|i: int| 0 <= i < np.len() ==> !lacks_factor(occ, #[trigger] np[i])
                    &&& pf@.len() == ports@.len()
                    &&& forall|i: int| 0 <= i < np.len() ==> #[trigger] pf@[i] == two_factors(fids_of(occ, np[i]))
                    &&& forall|e: int|
                        0 <= e < ext.len() ==> #[trigger] pf@[np.len() + e] == [ext_fids[e], ext_fids[e]]
                },
            }
        }),
{
    let ghost np = net_ports(occ);
    let ghost pv = paths_view(ports@);
    let ext_comp = "<external>";
    proof {
        reveal_strlit("<external>");
    }
    let ext_name = ext_comp.to_owned();
    proof {
        assert(pv.len() == ports@.len());
    }
    let mut pf: Vec<[FactorId; 2]> = Vec::new();
    let mut i: usize = 0;
    while i < ports.len()
        invariant
            np == net_ports(occ),
            pv == paths_view(ports@),
            ext_name@ == external_component(),
            slots@.len() == ports@.len(),
            ext_fids.len() == ext.len(),
            pv == np + ext.map_values(|n: Seq<char>| (external_component(), n)),
            ports@.len() == np.len() + ext.len(),
            forall|k: int| 0 <= k < np.len() ==> slot_view(#[trigger] slots@[k]) == fids_of(occ, np[k]),
            forall|k: int| 0 <= k < np.len() ==> 1 <= #[trigger] fids_of(occ, np[k]).len() <= 2,
            forall|e: int|
                0 <= e < ext.len() ==> #[trigger] slots@[np.len() + e] == (Some(ext_fids[e]), None::<FactorId>),
            i <= ports@.len(),
            pf@.len() == i,
            forall|u: int| 0 <= u < i && u < np.len() ==> !lacks_factor(occ, #[trigger] np[u]),
            forall|u: int| 0 <= u < i && u < np.len() ==> #[trigger] pf@[u] == two_factors(fids_of(occ, np[u])),
            forall|e: int|
                0 <= e < ext.len() && np.len() + e < i ==> #[trigger] pf@[np.len() + e] == [
                    ext_fids[e],
                    ext_fids[e],
                ],
        decreases ports@.len() - i,
    {
        let sl = slots[i];
        let is_ext = ports[i].component.0 == ext_name;
        proof {
            assert(pv[i as int] == ports@[i as int]@);
            assert(is_ext == (pv[i as int].0 == external_component()));
            if i >= np.len() {
                let e = i - np.len();
                assert(0 <= e < ext.len());
                assert(slots@[np.len() + e] == (Some(ext_fids[e]), None::<FactorId>));
                assert(pv[i as int] == ext.map_values(|n: Seq<char>| (external_component(), n))[e]);
                assert(pv[i as int] == (external_component(), ext[e]));
            }
        }
        let ghost old_pf = pf@;
        match sl {
            (Some(f0), Some(f1)) => {
                pf.push([f0, f1]);
                proof {
                    if i < np.len() {
                        assert(slot_view(sl) == fids_of(occ, np[i as int]));
                        assert(two_factors(fids_of(occ, np[i as int])) == [f0, f1]);
                    }
                }
            },
            (Some(f0), None) => {
                if is_ext {
                    pf.push([f0, f0]);
                    proof {
                        if i < np.len() {
                            assert(slot_view(sl) == fids_of(occ, np[i as int]));
                            assert(fids_of(occ, np[i as int]) =~= seq![f0]);
                            assert(pv[i as int] == np[i as int]);
                        }
                    }
                } else {
                    proof {
                        assert(i < np.len());
                        assert(pv[i as int] == np[i as int]);
                        assert(slot_view(sl) == fids_of(occ, np[i as int]));
                        assert(lacks_factor(occ, np[i as int]));
                    }
                    return Err(port_path_display(&ports[i]));
                }
            },
            _ => {
                proof {
                    assert(i < np.len());
                    assert(slot_view(sl) == fids_of(occ, np[i as int]));
                }
                return Err(port_path_display(&ports[i]));
            },
        }
        proof {
            assert forall|u: int| 0 <= u < i + 1 && u < np.len() implies #[trigger] pf@[u] == two_factors(
                fids_of(occ, np[u]),
            ) by {
                if u < i {
                    assert(pf@[u] == old_pf[u]);
                }
            }
            assert forall|e: int| 0 <= e < ext.len() && np.len() + e < i + 1 implies #[trigger] pf@[np.len() + e]
                == [ext_fids[e], ext_fids[e]] by {
                if np.len() + e < i {
                    assert(pf@[np.len() + e] == old_pf[np.len() + e]);
                }
            }
            assert forall|u: int| 0 <= u < i + 1 && u < np.len() implies !lacks_factor(occ, #[trigger] np[u]) by {
                if u == i {
                    assert(pv[u] == np[u]);
                }
            }
        }
        i = i + 1;
    }
    Ok(pf)
}

/// Phase 5: append each external port to the row of the net it stands for.
fn attach_external(
    buckets: &mut Vec<Vec<PortId>>,
    ext_fids: &Vec<FactorId>,
    np_len: usize,
    Ghost(occ): Ghost<Seq<(PathView, FactorId)>>,
    Ghost(ext): Ghost<Seq<Seq<char>>>,
    Ghost(table): Ghost<Map<Seq<char>, FactorId>>,
)
    requires
        ext_fids@.len() == ext.len(),
        forall|e: int| 0 <= e < ext.len() ==> #[trigger] ext_fids@[e] == table[ext[e]],
        forall|e: int| 0 <= e < ext.len() ==> (#[trigger] table[ext[e]]).0 < old(buckets)@.len(),
        np_len == net_ports(occ).len(),
        np_len + ext.len() < u32::MAX,
    ensures
        final(buckets)@.len() == old(buckets)@.len(),
        forall|r: int|
            0 <= r < old(buckets)@.len() ==> (#[trigger] final(buckets)@[r])@ == old(buckets)@[r]@ + external_members(
                occ,
                ext,
                table,
                r,
            ),
        total_len(bucket_views(final(buckets)@)) == total_len(bucket_views(old(buckets)@)) + ext.len(),
{
    let ghost start = buckets@;
    let mut e: usize = 0;
    while e < ext_fids.len()
        invariant
            ext_fids@.len() == ext.len(),
            forall|e: int| 0 <= e < ext.len() ==> #[trigger] ext_fids@[e] == table[ext[e]],
            forall|e: int| 0 <= e < ext.len() ==> (#[trigger] table[ext[e]]).0 < start.len(),
            np_len == net_ports(occ).len(),
            np_len + ext.len() < u32::MAX,
            e <= ext.len(),
            buckets@.len() == start.len(),
            forall|r: int|
                0 <= r < start.len() ==> (#[trigger] buckets@[r])@ == start[r]@ + external_members(
                    occ,
                    ext.take(e as int),
                    table,
                    r,
                ),
            total_len(bucket_views(buckets@)) == total_len(bucket_views(start)) + e,
        decreases ext.len() - e,
    {
        let f = ext_fids[e].0 as usize;
        let ghost old_b = buckets@;
        let mut row = Vec::new();
        std::mem::swap(&mut row, &mut buckets[f]);
        row.push(PortId((np_len + e) as u32));
        buckets.set(f, row);
        proof {
            assert(table[ext[e as int]] == ext_fids@[e as int]);
            assert forall|r: int| 0 <= r < start.len() implies (#[trigger] buckets@[r])@ == start[r]@
                + external_members(occ, ext.take(e + 1), table, r) by {
                lemma_external_members_step(occ, ext, table, r, e as int);
                if r != f {
                    assert(buckets@[r] == old_b[r]);
                }
            }
            assert(bucket_views(buckets@) =~= bucket_views(old_b).update(
                f as int,
                bucket_views(old_b)[f as int].push(PortId((np_len + e) as u32)),
            ));
            lemma_total_len_push_row(bucket_views(old_b), f as int, PortId((np_len + e) as u32));
        }
        e = e + 1;
    }
    proof {
        assert(ext.take(ext.len() as int) =~= ext);
    }
}

impl CircuitGraph {
    /// Create a circuit graph. `net_to_ports` lists each net with its ports and
    /// `component_pins` each component with its pins, in the order in which the
    /// caller's maps are walked; `public_nets` are the nets exposed as module io,
    /// each of which gets an external port `<external>.<net>` when it names a factor.
    #[verifier::rlimit(100)]
    pub fn new(
        net_to_ports: Vec<(String, Vec<PortPath>)>,
        component_pins: Vec<(ComponentPath, Vec<String>)>,
        public_nets: Vec<String>,
    ) -> (res: Result<Self, GraphError>)
        requires
            buildable(net_to_ports@, component_pins@, strings_view(public_nets@)),
            strings_view(public_nets@).no_duplicates(),
        ensures
            ({
                let names = factor_names_of(net_to_ports@, component_pins@);
                let rows = factor_rows_of(net_to_ports@, component_pins@);
                let occ = occurrences(rows, names);
                let table = name_table(names);
                let ext = exported(strings_view(public_nets@), table);
                let np = net_ports(occ);
                if exists|t: int| overflows_at(occ, t) {
                    res matches Err(GraphError::TooManyFactors(s)) && exists|t: int|
                        overflows_at(occ, t) && (forall|u: int| 0 <= u < t ==> !overflows_at(occ, u))
                            && s@ == port_path_text(occ[t].0)
                } else if exists|i: int| 0 <= i < np.len() && lacks_factor(occ, #[trigger] np[i]) {
                    res matches Err(GraphError::TooFewFactors(s)) && exists|i: int|
                        0 <= i < np.len() && lacks_factor(occ, np[i]) && (forall|u: int|
                            0 <= u < i ==> !lacks_factor(occ, #[trigger] np[u])) && s@ == port_path_text(
                            np[i],
                        )
                } else {
                    res matches Ok(g) && {
                        &&& g.wf()
                        &&& g.spec_port_paths() == all_ports(occ, ext)
                        &&& g.spec_factor_table() == table
                        &&& g.spec_factor_types().len() == names.len()
                        &&& forall|i: int|
                            0 <= i < names.len() ==> factor_type_matches(
                                #[trigger] g.spec_factor_types()[i],
                                net_to_ports@,
                                component_pins@,
                                i,
                            )
                        &&& g.spec_factor_ports().len() == names.len()
                        &&& forall|r: int|
                            0 <= r < names.len() ==> #[trigger] g.spec_factor_ports()[r] == row_ids(
                                rows[r],
                                np,
                            ) + external_members(occ, ext, table, r)
                        &&& forall|i: int|
                            0 <= i < np.len() ==> #[trigger] g.spec_port_factors()[i] == two_factors(
                                fids_of(occ, np[i]),
                            )
                        &&& forall|k: int|
                            0 <= k < ext.len() ==> #[trigger] g.spec_port_factors()[np.len() + k] == [
                                table[ext[k]],
                                table[ext[k]],
                            ]
                    }
                }
            }),
    {
        let ghost names = factor_names_of(net_to_ports@, component_pins@);
        let ghost rows_v = factor_rows_of(net_to_ports@, component_pins@);
        let ghost occ = occurrences(rows_v, names);
        let ghost table_v = name_table(names);
        let ghost pub_v = strings_view(public_nets@);
        let (names_vec, rows, factor_types) = collect_factors(&net_to_ports, &component_pins);
        let (factor_names, fids) = assign_ids(&names_vec);
        proof {
            assert(rows@.map_values(|row: Vec<PortPath>| paths_view(row@)) =~= rows_v);
            lemma_name_table_bounds(names);
            lemma_occ_fids_bounded(rows_v, names);
        }
        let scanned = scan(&rows, &fids, Ghost(names));
        let st = match scanned {
            Err(s) => {
                return Err(GraphError::TooManyFactors(s));
            },
            Ok(st) => st,
        };
        let ScanState { ports, slots, buckets } = st;
        let mut ports = ports;
        let mut slots = slots;
        let mut buckets = buckets;
        let ghost np = net_ports(occ);
        let ghost np_len = np.len();
        proof {
            assert forall|x: PathView| fids_of(occ, x).len() <= 2 by {
                lemma_no_overflow_bound(occ, x);
            }
            lemma_dedup(occ_ports(occ));
            assert(occ_ports(occ).len() == occ.len());
        }
        // External ports for public nets that name a factor.
        let ext_comp = "<external>";
        proof {
            reveal_strlit("<external>");
        }
        let mut ext_fids: Vec<FactorId> = Vec::new();
        let mut k: usize = 0;
        while k < public_nets.len()
            invariant
                pub_v == strings_view(public_nets@),
                pub_v.no_duplicates(),
                buildable(net_to_ports@, component_pins@, pub_v),
                ext_comp@ == external_component(),
                entries_map(factor_names@) == table_v,
                keys_unique(factor_names@),
                k <= public_nets@.len(),
                np_len == np.len(),
                paths_view(ports@) == np + exported(pub_v.take(k as int), table_v).map_values(
                    |n: Seq<char>| (external_component(), n),
                ),
                slots@.len() == ports@.len(),
                forall|i: int|
                    0 <= i < np.len() ==> slot_view(#[trigger] slots@[i]) == fids_of(occ, np[i]),
                ext_fids@.len() == exported(pub_v.take(k as int), table_v).len(),
                forall|e: int|
                    0 <= e < ext_fids@.len() ==> #[trigger] ext_fids@[e] == table_v[exported(
                        pub_v.take(k as int),
                        table_v,
                    )[e]] && slots@[np.len() + e] == (Some(ext_fids@[e]), None::<FactorId>),
                forall|e: int|
                    0 <= e < exported(pub_v.take(k as int), table_v).len() ==> table_v.contains_key(
                        #[trigger] exported(pub_v.take(k as int), table_v)[e],
                    ),
            decreases public_nets@.len() - k,
        {
            let ghost ex = exported(pub_v.take(k as int), table_v);
            let ghost old_ports = ports@;
            let ghost old_slots = slots@;
            let ghost old_ext = ext_fids@;
            let name = &public_nets[k];
            proof {
                assert(pub_v.take(k + 1).drop_last() =~= pub_v.take(k as int));
                assert(pub_v.take(k + 1).last() == name@);
            }
            match find_name(&factor_names, name) {
                Some(j) => {
                    let fid = factor_names[j].1;
                    proof {
                        lemma_entries_lookup(factor_names@, j as int);
                        assert(exported(pub_v.take(k + 1), table_v) == ex.push(name@));
                    }
                    let pp = PortPath { component: ComponentPath(ext_comp.to_owned()), pin: name.clone() };
                    proof {
                        assert(pp@ == (external_component(), name@));
                    }
                    ports.push(pp);
                    slots.push((Some(fid), None));
                    ext_fids.push(fid);
                    proof {
                        let tgt = np + ex.push(name@).map_values(|n: Seq<char>| (external_component(), n));
                        let otgt = np + ex.map_values(|n: Seq<char>| (external_component(), n));
                        assert(paths_view(old_ports) == otgt);
                        assert(paths_view(old_ports).len() == old_ports.len());
                        assert(otgt.len() == np.len() + ex.len());
                        assert(old_ports.len() == np.len() + ex.len());
                        assert(tgt.len() == ports@.len());
                        assert forall|q: int| 0 <= q < ports@.len() implies paths_view(ports@)[q] == tgt[q] by {
                            if q < old_ports.len() {
                                assert(ports@[q] == old_ports[q]);
                                assert(paths_view(old_ports)[q] == paths_view(ports@)[q]);
                                if q >= np.len() {
                                    assert(tgt[q] == ex.push(name@).map_values(|n: Seq<char>| (external_component(), n))[q - np.len()]);
                                    assert(otgt[q] == ex.map_values(|n: Seq<char>| (external_component(), n))[q - np.len()]);
                                }
                            } else {
                                assert(paths_view(ports@)[q] == pp@);
                                assert(tgt[q] == ex.push(name@).map_values(|n: Seq<char>| (external_component(), n))[q - np.len()]);
                            }
                        }
                        assert(paths_view(ports@) =~= tgt);
                        assert forall|i: int| 0 <= i < np.len() implies slot_view(#[trigger] slots@[i]) == fids_of(occ, np[i]) by {
                            assert(slots@[i] == old_slots[i]);
                        }
                        assert forall|e: int| 0 <= e < ext_fids@.len() implies #[trigger] ext_fids@[e] == table_v[exported(
                            pub_v.take(k + 1),
                            table_v,
                        )[e]] && slots@[np.len() + e] == (Some(ext_fids@[e]), None::<FactorId>) by {
                            if e < old_ext.len() {
                                assert(ext_fids@[e] == old_ext[e]);
                                assert(slots@[np.len() + e] == old_slots[np.len() + e]);
                            }
                        }
                    }
                },
                None => {
                    proof {
                        assert(!table_v.contains_key(name@)) by {
                            if table_v.contains_key(name@) {
                                let c = choose|c: int| 0 <= c < factor_names@.len() && factor_names@[c].0@ == name@;
                            }
                        }
                        assert(exported(pub_v.take(k + 1), table_v) == ex);
                    }
                },
            }
            k = k + 1;
        }
        proof {
            assert(pub_v.take(public_nets@.len() as int) =~= pub_v);
        }
        let ghost ext = exported(pub_v, table_v);
        proof {
            lemma_exported_len(pub_v, table_v);
            assert forall|i: int| 0 <= i < np.len() implies 1 <= #[trigger] fids_of(occ, np[i]).len() <= 2 by {
                lemma_dedup(occ_ports(occ));
                assert(np.contains(np[i]));
                lemma_fids_of_member(occ, np[i]);
                lemma_no_overflow_bound(occ, np[i]);
            }
            assert forall|e: int| 0 <= e < ext.len() implies #[trigger] slots@[np.len() + e] == (
                Some(ext_fids@[e]),
                None::<FactorId>,
            ) by {
                assert(ext_fids@[e] == table_v[ext[e]]);
            }
        }
        // Every port needs two factors; an external port has one, used twice.
        let port_factors = match check_factors(&ports, &slots, Ghost(occ), Ghost(ext), Ghost(ext_fids@)) {
            Err(s) => {
                return Err(GraphError::TooFewFactors(s));
            },
            Ok(pf) => pf,
        };
        proof {
            assert forall|e: int| 0 <= e < ext.len() implies (#[trigger] table_v[ext[e]]).0 < buckets@.len() by {
                assert(table_v.contains_key(ext[e]));
            }
            lemma_total_len_rows(rows_v, names);
            assert(bucket_views(buckets@).len() == rows_v.len());
            assert forall|q: int| 0 <= q < rows_v.len() implies (#[trigger] bucket_views(buckets@)[q]).len()
                == rows_v[q].len() by {
                assert(buckets@[q]@ == row_ids(paths_view(rows@[q]@), np));
                assert(rows_v[q] == paths_view(rows@[q]@));
            }
            lemma_total_len_same_shape(bucket_views(buckets@), rows_v);
        }
        let ghost pre_buckets = buckets@;
        attach_external(&mut buckets, &ext_fids, ports.len() - ext_fids.len(), Ghost(occ), Ghost(ext), Ghost(table_v));
        let factor_ports = CsrList::from_buckets(buckets);
        let g = CircuitGraph { port_paths: ports, factor_names, factor_types, factor_ports, port_factors };
        proof {
            assert forall|i: int| 0 <= i < g.factor_names@.len() implies (#[trigger] g.factor_names@[i]).1.0
                < g.factor_ports.view_rows().len() by {
                lemma_entries_lookup(g.factor_names@, i);
            }
            assert(paths_view(g.port_paths@) == all_ports(occ, ext));
            assert(g.spec_port_paths() =~= all_ports(occ, ext));
            lemma_occ_fids_bounded(rows_v, names);
            assert forall|p: int, k: int|
                0 <= p < g.port_factors@.len() && 0 <= k < 2 implies (#[trigger] g.port_factors@[p][k]).0
                    < g.factor_ports.view_rows().len() by {
                if p < np.len() {
                    lemma_fids_of_bounded(occ, np[p], rows_v.len() as int);
                    assert(fids_of(occ, np[p]).len() >= 1);
                } else {
                    let e = p - np.len();
                    assert(g.port_factors@[np.len() + e] == [ext_fids@[e], ext_fids@[e]]);
                    assert(table_v.contains_key(ext[e]));
                }
            }
            assert forall|r: int| 0 <= r < names.len() implies #[trigger] g.spec_factor_ports()[r] == row_ids(
                rows_v[r],
                np,
            ) + external_members(occ, ext, table_v, r) by {
                assert(pre_buckets[r]@ == row_ids(paths_view(rows@[r]@), np));
            }
            assert forall|f: int, k: int|
                0 <= f < g.factor_ports.view_rows().len() && 0 <= k < g.factor_ports.view_rows()[f].len()
                    implies (#[trigger] g.factor_ports.view_rows()[f][k]).0 < g.port_factors@.len() by {
                let row = row_ids(rows_v[f], np);
                lemma_external_members_bound(occ, ext, table_v, f);
                if k < row.len() {
                    assert(np.contains(rows_v[f][k]));
                    lemma_index_of(np, rows_v[f][k]);
                    assert(g.factor_ports.view_rows()[f][k] == row[k]);
                } else {
                    assert(g.factor_ports.view_rows()[f][k] == external_members(occ, ext, table_v, f)[k - row.len()]);
                }
            }
        }
        Ok(g)
    }
}


/// Every port path of the inputs is listed by exactly two factors, except an
/// external one, which may be listed by one (and never by more than two).
pub open spec fn every_port_twice(occ: Seq<(PathView, FactorId)>) -> bool {
    forall|p: PathView|
        #[trigger] occ_ports(occ).contains(p) ==> fids_of(occ, p).len() <= 2 && (p.0 != external_component()
            ==> fids_of(occ, p).len() == 2)
}

proof fn lemma_fids_prefix(occ: Seq<(PathView, FactorId)>, a: int, x: PathView)
    requires
        0 <= a <= occ.len(),
    ensures
        fids_of(occ.take(a), x).len() <= fids_of(occ, x).len(),
    decreases occ.len() - a,
{
    if a < occ.len() {
        lemma_fids_prefix(occ, a + 1, x);
        assert(occ.take(a + 1).drop_last() =~= occ.take(a));
    } else {
        assert(occ.take(a) =~= occ);
    }
}

/// `CircuitGraph::new` succeeds exactly on the inputs in which every port path
/// is listed by exactly two factors (a public net's external port aside): no
/// port path has a third factor and none that is not external lacks a second.
pub proof fn lemma_new_ok_iff_every_port_twice(
    nets: Seq<(String, Vec<PortPath>)>,
    comps: Seq<(ComponentPath, Vec<String>)>,
)
    ensures
        ({
            let occ = occurrences(factor_rows_of(nets, comps), factor_names_of(nets, comps));
            let np = net_ports(occ);
            (!(exists|t: int| overflows_at(occ, t)) && !(exists|i: int|
                0 <= i < np.len() && lacks_factor(occ, #[trigger] np[i]))) <==> every_port_twice(occ)
        }),
{
    let occ = occurrences(factor_rows_of(nets, comps), factor_names_of(nets, comps));
    let np = net_ports(occ);
    lemma_dedup(occ_ports(occ));
    if !(exists|t: int| overflows_at(occ, t)) && !(exists|i: int| 0 <= i < np.len() && lacks_factor(occ, #[trigger] np[i])) {
        assert forall|p: PathView| #[trigger] occ_ports(occ).contains(p) implies fids_of(occ, p).len() <= 2 && (p.0
            != external_component() ==> fids_of(occ, p).len() == 2) by {
            assert forall|t: int| 0 <= t < occ.len() implies !overflows_at(occ, t) by {}
            lemma_no_overflow_bound(occ, p);
            assert(np.contains(p));
            let i = choose|i: int| 0 <= i < np.len() && np[i] == p;
            assert(!lacks_factor(occ, np[i]));
        }
    }
    if every_port_twice(occ) {
        assert forall|t: int| !overflows_at(occ, t) by {
            if overflows_at(occ, t) {
                let x = occ[t].0;
                assert(occ_ports(occ)[t] == x);
                assert(occ_ports(occ).contains(x));
                assert(occ.take(t + 1) =~= occ.take(t).push(occ[t]));
                lemma_fids_push(occ.take(t), occ[t], x);
                lemma_fids_prefix(occ, t + 1, x);
            }
        }
        assert forall|i: int| 0 <= i < np.len() implies !lacks_factor(occ, #[trigger] np[i]) by {
            assert(np.contains(np[i]));
            assert(occ_ports(occ).contains(np[i]));
        }
    }
}

proof fn lemma_exported_distinct(public: Seq<Seq<char>>, table: Map<Seq<char>, FactorId>)
    requires
        public.no_duplicates(),
    ensures
        exported(public, table).no_duplicates(),
        forall|e: int|
            0 <= e < exported(public, table).len() ==> public.contains(#[trigger] exported(public, table)[e])
                && table.contains_key(exported(public, table)[e]),
    decreases public.len(),
{
    if public.len() > 0 {
        let d = public.drop_last();
        assert(d.no_duplicates()) by {
            assert forall|i: int, j: int| 0 <= i < d.len() && 0 <= j < d.len() && i != j implies d[i] != d[j] by {
                assert(d[i] == public[i] && d[j] == public[j]);
            }
        }
        lemma_exported_distinct(d, table);
        let prev = exported(d, table);
        assert forall|e: int| 0 <= e < prev.len() implies public.contains(#[trigger] prev[e]) by {
            let k = choose|k: int| 0 <= k < d.len() && d[k] == prev[e];
            assert(public[k] == prev[e]);
        }
        if table.contains_key(public.last()) {
            assert(!prev.contains(public.last())) by {
                if prev.contains(public.last()) {
                    let e = choose|e: int| 0 <= e < prev.len() && prev[e] == public.last();
                    let k = choose|k: int| 0 <= k < d.len() && d[k] == prev[e];
                    assert(public[k] == public[public.len() - 1]);
                }
            }
            let cur = exported(public, table);
            assert forall|e: int| 0 <= e < cur.len() implies public.contains(#[trigger] cur[e]) && table.contains_key(cur[e]) by {
                if e < prev.len() {
                    assert(cur[e] == prev[e]);
                } else {
                    assert(cur[e] == public[public.len() - 1]);
                }
            }
        }
    }
}

/// The ports of a graph built from buildable inputs are pairwise distinct, so a
/// port id and its path determine each other.
pub proof fn lemma_built_ports_distinct(
    nets: Seq<(String, Vec<PortPath>)>,
    comps: Seq<(ComponentPath, Vec<String>)>,
    public: Seq<Seq<char>>,
)
    requires
        buildable(nets, comps, public),
        public.no_duplicates(),
    ensures
        ({
            let names = factor_names_of(nets, comps);
            let occ = occurrences(factor_rows_of(nets, comps), names);
            all_ports(occ, exported(public, name_table(names))).no_duplicates()
        }),
{
    let names = factor_names_of(nets, comps);
    let occ = occurrences(factor_rows_of(nets, comps), names);
    let table = name_table(names);
    let ext = exported(public, table);
    let np = net_ports(occ);
    let xs = ext.map_values(|n: Seq<char>| (external_component(), n));
    lemma_dedup(occ_ports(occ));
    lemma_exported_distinct(public, table);
    let all = all_ports(occ, ext);
    assert(all =~= np + xs);
    assert forall|i: int, j: int| 0 <= i < all.len() && 0 <= j < all.len() && i != j implies all[i] != all[j] by {
        if i < np.len() && j < np.len() {
        } else if i >= np.len() && j >= np.len() {
            assert(ext[i - np.len()] != ext[j - np.len()]);
        } else {
            let (a, b) = if i < np.len() { (i, j) } else { (j, i) };
            let n = ext[b - np.len()];
            assert(public.contains(n) && table.contains_key(n));
            assert(public.contains(n));
            assert(!occ_ports(occ).contains((external_component(), n)));
            assert(np.contains(np[a]));
        }
    }
}

/// Reading a port's path and looking that path up again gives the same port,
/// when the graph's port paths are distinct (as `lemma_built_ports_distinct`
/// shows of every graph that `new` builds); and a path the graph holds is found
/// at a port whose path it is.
pub proof fn lemma_port_round_trip(g: CircuitGraph, k: int, p: PathView)
    requires
        g.wf(),
        g.spec_port_paths().no_duplicates(),
    ensures
        0 <= k < g.spec_port_paths().len() ==> index_of(g.spec_port_paths(), g.spec_port_paths()[k]) == k,
        g.spec_port_paths().contains(p) ==> 0 <= index_of(g.spec_port_paths(), p) < g.spec_port_paths().len()
            && g.spec_port_paths()[index_of(g.spec_port_paths(), p)] == p,
{
    if 0 <= k < g.spec_port_paths().len() {
        lemma_index_of_unique(g.spec_port_paths(), k);
    }
    lemma_index_of(g.spec_port_paths(), p);
}


proof fn lemma_row_member_occurs(rows: Seq<Seq<PathView>>, names: Seq<Seq<char>>, r: int, i: int)
    requires
        0 <= r < rows.len(),
        0 <= i < rows[r].len(),
    ensures
        occ_ports(occurrences(rows, names)).contains(rows[r][i]),
    decreases rows.len(),
{
    let d = rows.drop_last();
    let occ = occurrences(rows, names);
    let prev = occurrences(d, names);
    let tail = rows.last().map_values(|p: PathView| (p, factor_id_at(names, rows.len() - 1)));
    assert(occ == prev + tail);
    if r == rows.len() - 1 {
        assert(occ_ports(occ)[prev.len() + i] == rows[r][i]);
    } else {
        assert(d[r] == rows[r]);
        lemma_row_member_occurs(d, names, r, i);
        let k = choose|k: int| 0 <= k < occ_ports(prev).len() && occ_ports(prev)[k] == rows[r][i];
        assert(occ_ports(occ)[k] == rows[r][i]);
    }
}

proof fn lemma_external_members_distinct(
    occ: Seq<(PathView, FactorId)>,
    ext: Seq<Seq<char>>,
    table: Map<Seq<char>, FactorId>,
    r: int,
)
    requires
        net_ports(occ).len() + ext.len() <= u32::MAX,
    ensures
        external_members(occ, ext, table, r).no_duplicates(),
        forall|k: int|
            0 <= k < external_members(occ, ext, table, r).len() ==> net_ports(occ).len() <= (
            #[trigger] external_members(occ, ext, table, r)[k]).0 < net_ports(occ).len() + ext.len(),
    decreases ext.len(),
{
    if ext.len() > 0 {
        lemma_external_members_distinct(occ, ext.drop_last(), table, r);
        let prev = external_members(occ, ext.drop_last(), table, r);
        let cur = external_members(occ, ext, table, r);
        assert forall|k: int| 0 <= k < cur.len() implies net_ports(occ).len() <= (#[trigger] cur[k]).0 < net_ports(
            occ,
        ).len() + ext.len() by {
            if k < prev.len() {
                assert(cur[k] == prev[k]);
            }
        }
        assert forall|a: int, b: int| 0 <= a < cur.len() && 0 <= b < cur.len() && a != b implies cur[a] != cur[b] by {
            if a < prev.len() && b < prev.len() {
                assert(cur[a] == prev[a] && cur[b] == prev[b]);
            } else if a < prev.len() {
                assert(cur[a] == prev[a]);
            } else if b < prev.len() {
                assert(cur[b] == prev[b]);
            }
        }
    }
}

/// In a graph built from nets and components that list no port twice, no
/// factor holds a port twice: the port-path searches then report each path once.
pub proof fn lemma_built_rows_distinct(
    g: CircuitGraph,
    nets: Seq<(String, Vec<PortPath>)>,
    comps: Seq<(ComponentPath, Vec<String>)>,
    public: Seq<Seq<char>>,
)
    requires
        buildable(nets, comps, public),
        forall|r: int|
            0 <= r < factor_rows_of(nets, comps).len() ==> (#[trigger] factor_rows_of(nets, comps)[r]).no_duplicates(),
        ({
            let names = factor_names_of(nets, comps);
            let rows = factor_rows_of(nets, comps);
            let occ = occurrences(rows, names);
            let table = name_table(names);
            let ext = exported(public, table);
            &&& g.spec_factor_ports().len() == names.len()
            &&& forall|r: int|
                0 <= r < names.len() ==> #[trigger] g.spec_factor_ports()[r] == row_ids(rows[r], net_ports(occ))
                    + external_members(occ, ext, table, r)
        }),
    ensures
        g.rows_distinct(),
{
    let names = factor_names_of(nets, comps);
    let rows = factor_rows_of(nets, comps);
    let occ = occurrences(rows, names);
    let table = name_table(names);
    let ext = exported(public, table);
    let np = net_ports(occ);
    lemma_dedup(occ_ports(occ));
    lemma_exported_len(public, table);
    assert(rows.len() == names.len());
    assert forall|r: int| 0 <= r < g.spec_factor_ports().len() implies (#[trigger] g.spec_factor_ports()[r]).no_duplicates() by {
        let ids = row_ids(rows[r], np);
        let em = external_members(occ, ext, table, r);
        lemma_external_members_distinct(occ, ext, table, r);
        let row = g.spec_factor_ports()[r];
        assert(row == ids + em);
        assert forall|i: int| 0 <= i < ids.len() implies (#[trigger] ids[i]).0 < np.len() && np[ids[i].0 as int] == rows[r][i] by {
            lemma_row_member_occurs(rows, names, r, i);
            assert(np.contains(rows[r][i]));
            lemma_index_of(np, rows[r][i]);
        }
        assert forall|a: int, b: int| 0 <= a < row.len() && 0 <= b < row.len() && a != b implies row[a] != row[b] by {
            if a < ids.len() && b < ids.len() {
                assert(row[a] == ids[a] && row[b] == ids[b]);
                assert(rows[r][a] != rows[r][b]);
            } else if a >= ids.len() && b >= ids.len() {
                assert(row[a] == em[a - ids.len()] && row[b] == em[b - ids.len()]);
            } else if a < ids.len() {
                assert(row[a] == ids[a] && row[b] == em[b - ids.len()]);
            } else {
                assert(row[b] == ids[b] && row[a] == em[a - ids.len()]);
            }
        }
    }
}


proof fn lemma_name_table_distinct(s: Seq<Seq<char>>)
    requires
        s.no_duplicates(),
    ensures
        name_table(s).dom().finite(),
        name_table(s).dom().len() == s.len(),
        forall|k: Seq<char>| #[trigger] name_table(s).contains_key(k) <==> s.contains(k),
    decreases s.len(),
{
    if s.len() > 0 {
        let d = s.drop_last();
        assert(d.no_duplicates()) by {
            assert forall|i: int, j: int| 0 <= i < d.len() && 0 <= j < d.len() && i != j implies d[i] != d[j] by {
                assert(d[i] == s[i] && d[j] == s[j]);
            }
        }
        lemma_name_table_distinct(d);
        assert(!d.contains(s.last())) by {
            if d.contains(s.last()) {
                let k = choose|k: int| 0 <= k < d.len() && d[k] == s.last();
                assert(s[k] == s[s.len() - 1]);
            }
        }
        assert forall|k: Seq<char>| #[trigger] name_table(s).contains_key(k) <==> s.contains(k) by {
            if d.contains(k) {
                let i = choose|i: int| 0 <= i < d.len() && d[i] == k;
                assert(s[i] == k);
            }
            if s.contains(k) && k != s.last() {
                let i = choose|i: int| 0 <= i < s.len() && s[i] == k;
                assert(d[i] == k);
            }
            if k == s.last() {
                assert(s[s.len() - 1] == k);
            }
        }
    }
}

/// With distinct names, the factor at row `r` gets id `r`.
proof fn lemma_factor_id_at_distinct(names: Seq<Seq<char>>, r: int)
    requires
        names.no_duplicates(),
        0 <= r <= names.len(),
    ensures
        name_table(names.take(r)).dom().len() == r,
{
    let t = names.take(r);
    assert(t.no_duplicates()) by {
        assert forall|i: int, j: int| 0 <= i < t.len() && 0 <= j < t.len() && i != j implies t[i] != t[j] by {
            assert(t[i] == names[i] && t[j] == names[j]);
        }
    }
    lemma_name_table_distinct(t);
}

proof fn lemma_fids_concat(a: Seq<(PathView, FactorId)>, b: Seq<(PathView, FactorId)>, x: PathView)
    ensures
        fids_of(a + b, x) == fids_of(a, x) + fids_of(b, x),
    decreases b.len(),
{
    if b.len() == 0 {
        assert(a + b =~= a);
        assert(fids_of(a, x) + fids_of(b, x) =~= fids_of(a, x));
    } else {
        lemma_fids_concat(a, b.drop_last(), x);
        assert((a + b).drop_last() =~= a + b.drop_last());
        assert((a + b).last() == b.last());
        if b.last().0 == x {
            assert(fids_of(a, x) + fids_of(b, x) =~= (fids_of(a, x) + fids_of(b.drop_last(), x)).push(b.last().1));
        } else {
            assert(fids_of(a, x) + fids_of(b, x) =~= fids_of(a, x) + fids_of(b.drop_last(), x));
        }
    }
}

proof fn lemma_fids_row(row: Seq<PathView>, f: FactorId, x: PathView)
    ensures
        forall|k: int| 0 <= k < fids_of(row_occurrences(row, f), x).len() ==> #[trigger] fids_of(row_occurrences(row, f), x)[k] == f,
        fids_of(row_occurrences(row, f), x).len() > 0 <==> row.contains(x),
    decreases row.len(),
{
    if row.len() > 0 {
        lemma_fids_row(row.drop_last(), f, x);
        assert(row_occurrences(row, f).drop_last() =~= row_occurrences(row.drop_last(), f));
        assert(row_occurrences(row, f).last() == (row.last(), f));
        if row.drop_last().contains(x) {
            let i = choose|i: int| 0 <= i < row.drop_last().len() && row.drop_last()[i] == x;
            assert(row[i] == x);
        }
        if row.contains(x) && row.last() != x {
            let i = choose|i: int| 0 <= i < row.len() && row[i] == x;
            assert(row.drop_last()[i] == x);
        }
        if row.last() == x {
            assert(row[row.len() - 1] == x);
        }
    }
}

/// With distinct names, the factors listed for a port are those whose rows hold it.
proof fn lemma_fids_rows(rows: Seq<Seq<PathView>>, names: Seq<Seq<char>>, x: PathView)
    requires
        names.no_duplicates(),
        names.len() < u32::MAX,
        rows.len() <= names.len(),
    ensures
        forall|f: FactorId| #[trigger] fids_of(occurrences(rows, names), x).contains(f) <==> (f.0 < rows.len()
            && rows[f.0 as int].contains(x)),
    decreases rows.len(),
{
    if rows.len() > 0 {
        let d = rows.drop_last();
        let r = rows.len() - 1;
        lemma_fids_rows(d, names, x);
        lemma_factor_id_at_distinct(names, r);
        let fr = factor_id_at(names, r);
        assert(fr.0 == r);
        let prev = occurrences(d, names);
        let tail = row_occurrences(rows.last(), fr);
        assert(occurrences(rows, names) =~= prev + tail);
        lemma_fids_concat(prev, tail, x);
        lemma_fids_row(rows.last(), fr, x);
        assert forall|f: FactorId| #[trigger] fids_of(occurrences(rows, names), x).contains(f) <==> (f.0 < rows.len()
            && rows[f.0 as int].contains(x)) by {
            let all = fids_of(occurrences(rows, names), x);
            let a = fids_of(prev, x);
            let b = fids_of(tail, x);
            assert(all == a + b);
            if all.contains(f) {
                let k = choose|k: int| 0 <= k < all.len() && all[k] == f;
                if k < a.len() {
                    assert(a[k] == f);
                    assert(a.contains(f));
                    assert(d[f.0 as int] == rows[f.0 as int]);
                } else {
                    assert(b[k - a.len()] == f);
                }
            }
            if f.0 < rows.len() && rows[f.0 as int].contains(x) {
                if f.0 < r {
                    assert(d[f.0 as int] == rows[f.0 as int]);
                    assert(fids_of(occurrences(d, names), x).contains(f));
                    let k = choose|k: int| 0 <= k < a.len() && a[k] == f;
                    assert(all[k] == f);
                } else {
                    assert(f == fr);
                    assert(b.len() > 0);
                    assert(all[a.len() as int] == b[0]);
                }
            }
        }
    }
}

proof fn lemma_external_members_has(
    occ: Seq<(PathView, FactorId)>,
    ext: Seq<Seq<char>>,
    table: Map<Seq<char>, FactorId>,
    r: int,
    k: int,
)
    requires
        0 <= k < ext.len(),
        net_ports(occ).len() + ext.len() <= u32::MAX,
    ensures
        external_members(occ, ext, table, r).contains(PortId((net_ports(occ).len() + k) as u32)) <==> table[ext[k]].0
            == r,
    decreases ext.len(),
{
    let prev = external_members(occ, ext.drop_last(), table, r);
    let cur = external_members(occ, ext, table, r);
    let target = PortId((net_ports(occ).len() + k) as u32);
    if k < ext.len() - 1 {
        lemma_external_members_has(occ, ext.drop_last(), table, r, k);
        assert(ext.drop_last()[k] == ext[k]);
        lemma_external_members_distinct(occ, ext.drop_last(), table, r);
        if cur.contains(target) {
            let i = choose|i: int| 0 <= i < cur.len() && cur[i] == target;
            if i < prev.len() {
                assert(cur[i] == prev[i]);
            }
        }
        if prev.contains(target) {
            let i = choose|i: int| 0 <= i < prev.len() && prev[i] == target;
            assert(cur[i] == prev[i]);
        }
    } else {
        lemma_external_members_distinct(occ, ext.drop_last(), table, r);
        if table[ext[k]].0 == r {
            assert(cur[cur.len() - 1] == target);
        }
        if cur.contains(target) {
            let i = choose|i: int| 0 <= i < cur.len() && cur[i] == target;
            if i < prev.len() {
                assert(cur[i] == prev[i]);
                assert((prev[i]).0 < net_ports(occ).len() + ext.drop_last().len());
            }
        }
    }
}


/// The graph that `new` builds from inputs with distinct factor names, in which
/// every port path is listed twice: it has one factor per net and component and
/// one port per distinct port path and per exported public net; and a port
/// lists a factor exactly when that factor lists the port.
pub proof fn lemma_built_incidence(
    g: CircuitGraph,
    nets: Seq<(String, Vec<PortPath>)>,
    comps: Seq<(ComponentPath, Vec<String>)>,
    public: Seq<Seq<char>>,
)
    requires
        buildable(nets, comps, public),
        public.no_duplicates(),
        factor_names_of(nets, comps).no_duplicates(),
        every_port_twice(occurrences(factor_rows_of(nets, comps), factor_names_of(nets, comps))),
        ({
            let names = factor_names_of(nets, comps);
            let rows = factor_rows_of(nets, comps);
            let occ = occurrences(rows, names);
            let table = name_table(names);
            let ext = exported(public, table);
            let np = net_ports(occ);
            &&& g.wf()
            &&& g.spec_port_paths() == all_ports(occ, ext)
            &&& g.spec_factor_ports().len() == names.len()
            &&& forall|r: int|
                0 <= r < names.len() ==> #[trigger] g.spec_factor_ports()[r] == row_ids(rows[r], np)
                    + external_members(occ, ext, table, r)
            &&& forall|i: int| 0 <= i < np.len() ==> #[trigger] g.spec_port_factors()[i] == two_factors(fids_of(occ, np[i]))
            &&& forall|k: int|
                0 <= k < ext.len() ==> #[trigger] g.spec_port_factors()[np.len() + k] == [table[ext[k]], table[ext[k]]]
        }),
    ensures
        g.spec_factor_ports().len() == nets.len() + comps.len(),
        g.spec_port_factors().len() == net_ports(
            occurrences(factor_rows_of(nets, comps), factor_names_of(nets, comps)),
        ).len() + exported(public, name_table(factor_names_of(nets, comps))).len(),
        forall|p: int, k: int|
            0 <= p < g.spec_port_factors().len() && 0 <= k < 2 ==> g.spec_factor_ports()[(
            #[trigger] g.spec_port_factors()[p][k]).0 as int].contains(PortId(p as u32)),
        forall|f: int, q: PortId|
            0 <= f < g.spec_factor_ports().len() && #[trigger] g.spec_factor_ports()[f].contains(q) ==> (
            g.spec_port_factors()[q.0 as int][0] == FactorId(f as u32) || g.spec_port_factors()[q.0 as int][1]
                == FactorId(f as u32)),
{
    let names = factor_names_of(nets, comps);
    let rows = factor_rows_of(nets, comps);
    let occ = occurrences(rows, names);
    let table = name_table(names);
    let ext = exported(public, table);
    let np = net_ports(occ);
    lemma_dedup(occ_ports(occ));
    lemma_exported_len(public, table);
    lemma_name_table_bounds(names);
    assert(rows.len() == names.len());
    g.lemma_port_tables_agree();
    assert(g.spec_port_factors().len() == np.len() + ext.len());
    assert forall|p: int, k: int|
        0 <= p < g.spec_port_factors().len() && 0 <= k < 2 implies g.spec_factor_ports()[(
        #[trigger] g.spec_port_factors()[p][k]).0 as int].contains(PortId(p as u32)) by {
        let f = g.spec_port_factors()[p][k];
        if p < np.len() {
            let x = np[p];
            assert(np.contains(x));
            assert(occ_ports(occ).contains(x));
            lemma_fids_of_member(occ, x);
            let fids = fids_of(occ, x);
            assert(f == fids[0] || f == fids[1]);
            assert(fids.contains(f));
            lemma_fids_rows(rows, names, x);
            let r = f.0 as int;
            assert(rows[r].contains(x));
            let j = choose|j: int| 0 <= j < rows[r].len() && rows[r][j] == x;
            lemma_index_of_unique(np, p);
            let ids = row_ids(rows[r], np);
            assert(ids[j] == PortId(p as u32));
            assert(g.spec_factor_ports()[r][j] == ids[j]);
        } else {
            let e = p - np.len();
            assert(table.contains_key(ext[e]));
            assert(g.spec_port_factors()[np.len() + e] == [table[ext[e]], table[ext[e]]]);
            assert(f == table[ext[e]]);
            let r = f.0 as int;
            lemma_external_members_has(occ, ext, table, r, e);
            let em = external_members(occ, ext, table, r);
            let i = choose|i: int| 0 <= i < em.len() && em[i] == PortId((np.len() + e) as u32);
            let ids = row_ids(rows[r], np);
            assert(g.spec_factor_ports()[r][ids.len() + i] == em[i]);
        }
    }
    assert forall|f: int, q: PortId|
        0 <= f < g.spec_factor_ports().len() && #[trigger] g.spec_factor_ports()[f].contains(q) implies (
        g.spec_port_factors()[q.0 as int][0] == FactorId(f as u32) || g.spec_port_factors()[q.0 as int][1]
            == FactorId(f as u32)) by {
        let row = g.spec_factor_ports()[f];
        let ids = row_ids(rows[f], np);
        let em = external_members(occ, ext, table, f);
        let j = choose|j: int| 0 <= j < row.len() && row[j] == q;
        if j < ids.len() {
            let x = rows[f][j];
            lemma_row_member_occurs(rows, names, f, j);
            assert(np.contains(x));
            lemma_index_of(np, x);
            let idx = index_of(np, x);
            assert(q == ids[j]);
            assert(q.0 == idx);
            lemma_fids_rows(rows, names, x);
            let ff = FactorId(f as u32);
            assert(rows[ff.0 as int].contains(x)) by {
                assert(rows[f][j] == x);
            }
            assert(fids_of(occ, x).contains(ff));
            assert(occ_ports(occ).contains(x));
            let fids = fids_of(occ, x);
            let m = choose|m: int| 0 <= m < fids.len() && fids[m] == ff;
            assert(g.spec_port_factors()[idx] == two_factors(fids));
        } else {
            lemma_external_members_distinct(occ, ext, table, f);
            assert(q == em[j - ids.len()]);
            let e = q.0 - np.len();
            lemma_external_members_has(occ, ext, table, f, e);
            assert(em.contains(PortId((np.len() + e) as u32)));
            assert(g.spec_port_factors()[np.len() + e] == [table[ext[e]], table[ext[e]]]);
        }
    }
}

} // verus!
