//! SPICE netlist text for the components of a schematic that carry a
//! simulation model.
use vstd::prelude::*;

use crate::text::{seq_lt, str_eq, str_less, strs};

verus! {

/// The simulation model attached to a component: the library text that
/// defines it, its name, its argument text and the nets bound to its pins.
pub struct SpiceModelAttrs {
    pub definition: String,
    pub name: String,
    pub args: String,
    pub nets: Vec<String>,
}

/// A schematic instance as the netlist reads it.
pub struct SimInstance {
    pub is_component: bool,
    pub reference_designator: Option<String>,
    pub model: Option<SpiceModelAttrs>,
}

/// A model as plain values: definition, name, arguments, nets.
pub type ModelView = (Seq<char>, Seq<char>, Seq<char>, Seq<Seq<char>>);

/// An instance as plain values: whether it is a component, its designator
/// (empty when it has none) and its model.
pub type SimView = (bool, Seq<char>, Option<ModelView>);

pub open spec fn model_view(m: SpiceModelAttrs) -> ModelView {
    (m.definition@, m.name@, m.args@, strs(m.nets@))
}

pub open spec fn sim_view(i: SimInstance) -> SimView {
    (
        i.is_component,
        match i.reference_designator {
            Some(d) => d@,
            None => Seq::empty(),
        },
        match i.model {
            Some(m) => Some(model_view(m)),
            None => None,
        },
    )
}

pub open spec fn sim_views(s: Seq<SimInstance>) -> Seq<SimView> {
    s.map_values(|i: SimInstance| sim_view(i))
}

/// The component instances, in order.
pub open spec fn components_of(s: Seq<SimView>) -> Seq<SimView>
    decreases s.len(),
{
    if s.len() == 0 {
        Seq::empty()
    } else if s.last().0 {
        components_of(s.drop_last()).push(s.last())
    } else {
        components_of(s.drop_last())
    }
}

/// `x` put into `s` after every element whose designator does not come after its own.
pub open spec fn insert_by_designator(s: Seq<SimView>, x: SimView) -> Seq<SimView>
    decreases s.len(),
{
    if s.len() == 0 {
        seq![x]
    } else if seq_lt(x.1, s.last().1) {
        insert_by_designator(s.drop_last(), x).push(s.last())
    } else {
        s.push(x)
    }
}

/// The instances ordered by designator; instances with equal designators keep
/// their order.
pub open spec fn sort_by_designator(s: Seq<SimView>) -> Seq<SimView>
    decreases s.len(),
{
    if s.len() == 0 {
        Seq::empty()
    } else {
        insert_by_designator(sort_by_designator(s.drop_last()), s.last())
    }
}

/// The strings joined by single spaces.
pub open spec fn join_space(s: Seq<Seq<char>>) -> Seq<char>
    decreases s.len(),
{
    if s.len() == 0 {
        Seq::empty()
    } else if s.len() == 1 {
        s[0]
    } else {
        join_space(s.drop_last()) + " "@ + s.last()
    }
}

/// The model definitions of the instances, in order, with repeats.
pub open spec fn definitions_of(s: Seq<SimView>) -> Seq<Seq<char>>
    decreases s.len(),
{
    if s.len() == 0 {
        Seq::empty()
    } else {
        match s.last().2 {
            Some(m) => definitions_of(s.drop_last()).push(m.0),
            None => definitions_of(s.drop_last()),
        }
    }
}

/// The instance line `X<designator> <nets> <model> <args>`.
pub open spec fn instance_line(d: Seq<char>, m: ModelView) -> Seq<char> {
    "X"@ + d + " "@ + join_space(m.3) + " "@ + m.1 + " "@ + m.2 + "\n"@
}

/// The text for an instance after the definitions `seen`: its model's
/// definition unless already seen, then its instance line; nothing without a
/// model.
pub open spec fn piece_text(seen: Seq<Seq<char>>, x: SimView) -> Seq<char> {
    match x.2 {
        Some(m) => (if seen.contains(m.0) {
            Seq::empty()
        } else {
            m.0
        }) + instance_line(x.1, m),
        None => Seq::empty(),
    }
}

/// The text for an instance that follows the instances `prior`.
pub open spec fn instance_text(prior: Seq<SimView>, x: SimView) -> Seq<char> {
    piece_text(definitions_of(prior), x)
}

/// The text for a sequence of instances in the order given.
pub open spec fn netlist_body(s: Seq<SimView>) -> Seq<char>
    decreases s.len(),
{
    if s.len() == 0 {
        Seq::empty()
    } else {
        netlist_body(s.drop_last()) + instance_text(s.drop_last(), s.last())
    }
}

/// The netlist: an empty line, then the component instances in designator
/// order, each model definition written once before its first use.
pub open spec fn netlist_text(s: Seq<SimView>) -> Seq<char> {
    "\n"@ + netlist_body(sort_by_designator(components_of(s)))
}

/// Every component instance has a designator.
pub open spec fn designated(s: Seq<SimInstance>) -> bool {
    forall|i: int| 0 <= i < s.len() && (#[trigger] s[i]).is_component ==> s[i].reference_designator is Some
}

proof fn lemma_insert_at(s: Seq<SimView>, x: SimView, j: int)
    requires
        0 <= j <= s.len(),
        forall|k: int| j <= k < s.len() ==> seq_lt(x.1, #[trigger] s[k].1),
        j > 0 ==> !seq_lt(x.1, s[j - 1].1),
    ensures
        insert_by_designator(s, x) == s.take(j).push(x) + s.skip(j),
    decreases s.len(),
{
    if s.len() == 0 {
        assert(s.take(j).push(x) + s.skip(j) =~= seq![x]);
    } else if j == s.len() {
        assert(s.take(j).push(x) + s.skip(j) =~= s.push(x));
    } else {
        assert(seq_lt(x.1, s.last().1));
        let t = s.drop_last();
        assert forall|k: int| j <= k < t.len() implies seq_lt(x.1, #[trigger] t[k].1) by {
            assert(t[k] == s[k]);
        }
        lemma_insert_at(t, x, j);
        assert(t.take(j).push(x) + t.skip(j) + seq![s.last()] =~= s.take(j).push(x) + s.skip(j));
    }
}

proof fn lemma_join_space_push(s: Seq<Seq<char>>, x: Seq<char>)
    ensures
        join_space(s.push(x)) == if s.len() == 0 {
            x
        } else {
            join_space(s) + " "@ + x
        },
{
    assert(s.push(x).drop_last() =~= s);
}

/// The nets joined by single spaces.
fn join_nets(v: &Vec<String>) -> (r: String)
    ensures
        r@ == join_space(strs(v@)),
{
    let ghost sv = strs(v@);
    let mut out = String::new();
    let mut i: usize = 0;
    proof {
        reveal_strlit(" ");
        assert(sv.take(0) =~= Seq::<Seq<char>>::empty());
    }
    while i < v.len()
        invariant
            sv == strs(v@),
            i <= v@.len(),
            out@ == join_space(sv.take(i as int)),
        decreases v@.len() - i,
    {
        proof {
            assert(sv.take(i + 1) =~= sv.take(i as int).push(v@[i as int]@));
            lemma_join_space_push(sv.take(i as int), v@[i as int]@);
        }
        if i > 0 {
            out.append(" ");
        }
        out.append(v[i].as_str());
        i = i + 1;
    }
    proof {
        assert(sv.take(v@.len() as int) =~= sv);
    }
    out
}

/// Whether `d` is among the strings.
fn contains_string(seen: &Vec<String>, d: &str) -> (r: bool)
    ensures
        r == strs(seen@).contains(d@),
{
    let mut i: usize = 0;
    while i < seen.len()
        invariant
            i <= seen@.len(),
            forall|k: int| 0 <= k < i ==> seen@[k]@ != d@,
        decreases seen@.len() - i,
    {
        if str_eq(seen[i].as_str(), d) {
            proof {
                assert(strs(seen@)[i as int] == d@);
            }
            return true;
        }
        i = i + 1;
    }
    proof {
        if strs(seen@).contains(d@) {
            let k = choose|k: int| 0 <= k < strs(seen@).len() && strs(seen@)[k] == d@;
            assert(seen@[k]@ == d@);
        }
    }
    false
}

/// The text for one instance after the definitions `seen`.
fn instance_piece(seen: &Vec<String>, inst: &SimInstance) -> (r: String)
    ensures
        r@ == piece_text(strs(seen@), sim_view(*inst)),
{
    let mut out = String::new();
    proof {
        reveal_strlit("\n");
        reveal_strlit("X");
        reveal_strlit(" ");
    }
    match &inst.model {
        Some(m) => {
            if !contains_string(seen, m.definition.as_str()) {
                out.append(m.definition.as_str());
            }
            out.append("X");
            match &inst.reference_designator {
                Some(d) => out.append(d.as_str()),
                None => {},
            }
            out.append(" ");
            let nets = join_nets(&m.nets);
            out.append(nets.as_str());
            out.append(" ");
            out.append(m.name.as_str());
            out.append(" ");
            out.append(m.args.as_str());
            out.append("\n");
            proof {
                assert(out@ =~= piece_text(strs(seen@), sim_view(*inst)));
            }
        },
        None => {},
    }
    out
}

/// The positions of the component instances, ordered by designator.
fn component_order(instances: &Vec<SimInstance>) -> (r: Vec<usize>)
    requires
        designated(instances@),
    ensures
        forall|k: int| 0 <= k < r@.len() ==> #[trigger] r@[k] < instances@.len(),
        r@.map_values(|i: usize| sim_views(instances@)[i as int]) == sort_by_designator(
            components_of(sim_views(instances@)),
        ),
{
    let ghost vs = sim_views(instances@);
    let mut order: Vec<usize> = Vec::new();
    let mut i: usize = 0;
    proof {
        assert(vs.take(0) =~= Seq::<SimView>::empty());
        assert(order@.map_values(|k: usize| vs[k as int]) =~= Seq::<SimView>::empty());
    }
    while i < instances.len()
        invariant
            vs == sim_views(instances@),
            designated(instances@),
            i <= instances@.len(),
            forall|k: int| 0 <= k < order@.len() ==> #[trigger] order@[k] < instances@.len(),
            order@.map_values(|k: usize| vs[k as int]) == sort_by_designator(
                components_of(vs.take(i as int)),
            ),
        decreases instances@.len() - i,
    {
        let ghost before = order@.map_values(|k: usize| vs[k as int]);
        proof {
            assert(vs.take(i + 1).drop_last() =~= vs.take(i as int));
            assert(vs.take(i + 1).last() == vs[i as int]);
        }
        proof {
            let p = vs.take(i + 1);
            assert(p.drop_last() =~= vs.take(i as int));
            if vs[i as int].0 {
                let c = components_of(vs.take(i as int));
                assert(components_of(p) == c.push(vs[i as int]));
                assert(c.push(vs[i as int]).drop_last() =~= c);
            }
        }
        if instances[i].is_component {
            let d = match &instances[i].reference_designator {
                Some(d) => d.as_str(),
                None => {
                    proof {
                        assert(instances@[i as int].is_component);
                        assert(false);
                    }
                    return order;
                },
            };
            proof {
                assert(vs[i as int].1 == d@);
            }
            let mut j: usize = order.len();
            let mut placed = false;
            while j > 0 && !placed
                invariant
                    vs == sim_views(instances@),
                    i < instances@.len(),
                    vs[i as int].1 == d@,
                    j <= order@.len(),
                    before == order@.map_values(|k: usize| vs[k as int]),
                    forall|k: int| 0 <= k < order@.len() ==> #[trigger] order@[k] < instances@.len(),
                    forall|k: int| j <= k < before.len() ==> seq_lt(d@, #[trigger] before[k].1),
                    placed ==> j > 0 && !seq_lt(d@, before[j - 1].1),
                decreases 2 * j + (if placed { 0int } else { 1int }),
            {
                let o = order[j - 1];
                let od = match &instances[o].reference_designator {
                    Some(x) => x.as_str(),
                    None => "",
                };
                proof {
                    reveal_strlit("");
                    assert(before[j - 1] == vs[o as int]);
                    assert(vs[o as int].1 == od@);
                }
                if str_less(d, od) {
                    j = j - 1;
                } else {
                    placed = true;
                }
            }
            proof {
                lemma_insert_at(before, vs[i as int], j as int);
            }
            order.insert(j, i);
            proof {
                assert(order@.map_values(|k: usize| vs[k as int]) =~= before.take(j as int).push(vs[i as int])
                    + before.skip(j as int));
            }
        }
        i = i + 1;
    }
    proof {
        assert(vs.take(instances@.len() as int) =~= vs);
    }
    order
}

/// The netlist text of a schematic's simulation models: an empty line, then
/// for each component instance in designator order that has a model, the
/// model's definition (only where no earlier instance used the same
/// definition) and the line `X<designator> <nets> <model> <args>`.
pub fn gen_sim(instances: &Vec<SimInstance>) -> (r: String)
    requires
        designated(instances@),
    ensures
        r@ == netlist_text(sim_views(instances@)),
{
    let ghost vs = sim_views(instances@);
    let order = component_order(instances);
    let ghost sorted = order@.map_values(|k: usize| vs[k as int]);
    let mut out = String::new();
    proof {
        reveal_strlit("\n");
    }
    out.append("\n");
    let mut seen: Vec<String> = Vec::new();
    let mut t: usize = 0;
    proof {
        assert(sorted.take(0) =~= Seq::<SimView>::empty());
    }
    while t < order.len()
        invariant
            vs == sim_views(instances@),
            sorted == order@.map_values(|k: usize| vs[k as int]),
            forall|k: int| 0 <= k < order@.len() ==> #[trigger] order@[k] < instances@.len(),
            t <= order@.len(),
            strs(seen@) == definitions_of(sorted.take(t as int)),
            out@ == "\n"@ + netlist_body(sorted.take(t as int)),
        decreases order@.len() - t,
    {
        let inst = &instances[order[t]];
        let ghost x = sorted[t as int];
        proof {
            assert(x == vs[order@[t as int] as int]);
            assert(sorted.take(t + 1).drop_last() =~= sorted.take(t as int));
            assert(sorted.take(t + 1).last() == x);
        }
        let piece = instance_piece(&seen, inst);
        out.append(piece.as_str());
        match &inst.model {
            Some(m) => {
                seen.push(m.definition.clone());
            },
            None => {},
        }
        proof {
            assert(strs(seen@) =~= definitions_of(sorted.take(t + 1)));
            assert(out@ =~= "\n"@ + netlist_body(sorted.take(t + 1)));
        }
        t = t + 1;
    }
    proof {
        assert(sorted.take(order@.len() as int) =~= sorted);
    }
    out
}


proof fn lemma_definitions_of_contains(prior: Seq<SimView>, d: Seq<char>)
    ensures
        definitions_of(prior).contains(d) <==> exists|j: int|
            0 <= j < prior.len() && (#[trigger] prior[j]).2 is Some && (prior[j].2->0).0 == d,
    decreases prior.len(),
{
    if prior.len() > 0 {
        let p = prior.drop_last();
        lemma_definitions_of_contains(p, d);
        let defs = definitions_of(prior);
        if exists|j: int| 0 <= j < p.len() && (#[trigger] p[j]).2 is Some && (p[j].2->0).0 == d {
            let j = choose|j: int| 0 <= j < p.len() && (#[trigger] p[j]).2 is Some && (p[j].2->0).0 == d;
            assert(prior[j] == p[j]);
        }
        if exists|j: int| 0 <= j < prior.len() && (#[trigger] prior[j]).2 is Some && (prior[j].2->0).0 == d {
            let j = choose|j: int| 0 <= j < prior.len() && (#[trigger] prior[j]).2 is Some && (prior[j].2->0).0 == d;
            if j < p.len() {
                assert(p[j] == prior[j]);
            } else {
                assert(defs.last() == d);
                assert(defs[defs.len() - 1] == d);
            }
        }
        if defs.contains(d) {
            let i = choose|i: int| 0 <= i < defs.len() && defs[i] == d;
            if prior.last().2 is Some && i == defs.len() - 1 {
                assert((prior[prior.len() - 1].2->0).0 == d);
            } else {
                assert(definitions_of(p)[i] == d);
            }
        }
        if definitions_of(p).contains(d) {
            let i = choose|i: int| 0 <= i < definitions_of(p).len() && definitions_of(p)[i] == d;
            assert(defs[i] == d);
        }
    }
}

/// Each model definition is written once, before the instance line of the
/// first component that uses it: the text for the `k`-th component is its
/// model's definition, unless an earlier component used the same definition,
/// followed by its instance line; a component without a model adds nothing.
pub proof fn lemma_definition_once(s: Seq<SimView>, k: int)
    requires
        0 <= k < s.len(),
    ensures
        netlist_body(s.take(k + 1)) == netlist_body(s.take(k)) + match s[k].2 {
            None => Seq::empty(),
            Some(m) => (if exists|j: int| 0 <= j < k && (#[trigger] s[j]).2 is Some && (s[j].2->0).0 == m.0 {
                Seq::<char>::empty()
            } else {
                m.0
            }) + instance_line(s[k].1, m),
        },
{
    let t = s.take(k + 1);
    assert(t.drop_last() =~= s.take(k));
    assert(t.last() == s[k]);
    let prior = s.take(k);
    match s[k].2 {
        None => {},
        Some(m) => {
            lemma_definitions_of_contains(prior, m.0);
            if exists|j: int| 0 <= j < k && (#[trigger] s[j]).2 is Some && (s[j].2->0).0 == m.0 {
                let j = choose|j: int| 0 <= j < k && (#[trigger] s[j]).2 is Some && (s[j].2->0).0 == m.0;
                assert(prior[j] == s[j]);
            }
            if exists|j: int| 0 <= j < prior.len() && (#[trigger] prior[j]).2 is Some && (prior[j].2->0).0 == m.0 {
                let j = choose|j: int| 0 <= j < prior.len() && (#[trigger] prior[j]).2 is Some && (prior[j].2->0).0 == m.0;
                assert(s[j] == prior[j]);
            }
        },
    }
}

} // verus!
