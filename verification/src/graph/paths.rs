//! Paths as designs see them: labels resolved to ports, a found path carried
//! with its ports, components and nets, and the checks run over a path.
use vstd::prelude::*;

use std::sync::Arc;

use super::checks::PathValidationOp;
use super::construct::{external_component, port_path_display, port_path_text, PathView};
use super::{CircuitGraph, ComponentPath, FactorId, FactorType, PortId, PortPath};
use crate::seqs::dedup;
use crate::strmap::StrMap;
use crate::text::{concat, decimal_text, digits_of};

verus! {

/// A label naming a port: a net's name (standing for the net's public port),
/// a tuple whose elements are given as their text when they are strings, or
/// any other value.
pub enum PortLabel {
    Net(String),
    Tuple(Vec<Option<String>>),
    Other,
}

/// The message for a net that has no public port.
pub open spec fn not_public_msg(net: Seq<char>) -> Seq<char> {
    "Net '"@ + net + "' is not a public (io) net - use a specific port tuple (component, pin) instead"@
}

/// The message for a port path that the graph does not hold.
pub open spec fn port_not_found_msg(p: PathView) -> Seq<char> {
    "Port '"@ + port_path_text(p) + "' not found"@
}

/// The port a label names in a graph with the given port paths, or the error.
pub open spec fn label_port(paths: Seq<PathView>, label: PortLabel) -> Result<PortId, Seq<char>> {
    match label {
        PortLabel::Net(n) => {
            let p = (external_component(), n@);
            if paths.contains(p) {
                Ok(PortId(crate::seqs::index_of(paths, p) as u32))
            } else {
                Err(not_public_msg(n@))
            }
        },
        PortLabel::Tuple(items) => {
            if items@.len() != 2 {
                Err("Port tuple must have exactly 2 elements: (component, pin)"@)
            } else if items@[0] is None {
                Err("Component path must be a string"@)
            } else if items@[1] is None {
                Err("Pin name must be a string"@)
            } else {
                let p = (items@[0]->0@, items@[1]->0@);
                if paths.contains(p) {
                    Ok(PortId(crate::seqs::index_of(paths, p) as u32))
                } else {
                    Err(port_not_found_msg(p))
                }
            }
        },
        PortLabel::Other => Err("Label must be a string (net name) or tuple (component, pin)"@),
    }
}

/// The component paths of the component factors among `fs`, in order.
pub open spec fn component_paths_of(types: Seq<FactorType>, fs: Seq<FactorId>) -> Seq<Seq<char>>
    decreases fs.len(),
{
    if fs.len() == 0 {
        Seq::empty()
    } else {
        let rest = component_paths_of(types, fs.drop_last());
        match types[fs.last().0 as int] {
            FactorType::Component(c) => rest.push(c@),
            FactorType::Net(_) => rest,
        }
    }
}

/// The names of the net factors among `fs`, in order.
pub open spec fn net_names_of(types: Seq<FactorType>, fs: Seq<FactorId>) -> Seq<Seq<char>>
    decreases fs.len(),
{
    if fs.len() == 0 {
        Seq::empty()
    } else {
        let rest = net_names_of(types, fs.drop_last());
        match types[fs.last().0 as int] {
            FactorType::Net(n) => rest.push(n@),
            FactorType::Component(_) => rest,
        }
    }
}

/// The message for a port id that names no port.
pub open spec fn port_id_missing_msg(id: PortId) -> Seq<char> {
    "Port PortId("@ + digits_of(id.0 as nat) + ") not found in graph"@
}

/// The message for a component the map of components lacks.
pub open spec fn component_missing_msg(c: Seq<char>) -> Seq<char> {
    "Component '"@ + c + "' not found"@
}


/// `ids[i]` is the first of `ids` that names no port of `n`.
pub open spec fn first_bad_port(n: nat, ids: Seq<PortId>, i: int) -> bool {
    &&& 0 <= i < ids.len()
    &&& ids[i].0 >= n
    &&& forall|j: int| 0 <= j < i ==> ids[j].0 < n
}

/// `cs[k]` is the first of `cs` that the map lacks.
pub open spec fn first_missing<W>(cs: Seq<Seq<char>>, m: Map<Seq<char>, W>, k: int) -> bool {
    &&& 0 <= k < cs.len()
    &&& !m.contains_key(cs[k])
    &&& forall|j: int| 0 <= j < k ==> m.contains_key(cs[j])
}

/// Whether `v` holds `s`.
fn holds_str(v: &Vec<String>, s: &str) -> (r: bool)
    ensures
        r == crate::text::strs(v@).contains(s@),
{
    let mut i: usize = 0;
    while i < v.len()
        invariant
            i <= v@.len(),
            forall|k: int| 0 <= k < i ==> v@[k]@ != s@,
        decreases v@.len() - i,
    {
        if crate::text::str_eq(v[i].as_str(), s) {
            proof {
                assert(crate::text::strs(v@)[i as int] == s@);
            }
            return true;
        }
        i = i + 1;
    }
    proof {
        if crate::text::strs(v@).contains(s@) {
            let k = choose|k: int| 0 <= k < v@.len() && crate::text::strs(v@)[k] == s@;
            assert(v@[k]@ == s@);
        }
    }
    false
}

proof fn lemma_component_paths_concat(types: Seq<FactorType>, a: Seq<FactorId>, b: Seq<FactorId>)
    ensures
        component_paths_of(types, a + b) == component_paths_of(types, a) + component_paths_of(types, b),
    decreases b.len(),
{
    if b.len() == 0 {
        assert(a + b =~= a);
        assert(component_paths_of(types, a) + component_paths_of(types, b) =~= component_paths_of(types, a));
    } else {
        assert((a + b).drop_last() =~= a + b.drop_last());
        lemma_component_paths_concat(types, a, b.drop_last());
        match types[b.last().0 as int] {
            FactorType::Component(c) => {
                assert(component_paths_of(types, a) + component_paths_of(types, b) =~= (component_paths_of(
                    types,
                    a,
                ) + component_paths_of(types, b.drop_last())).push(c@));
            },
            FactorType::Net(_) => {},
        }
    }
}

proof fn lemma_component_paths_prefix(types: Seq<FactorType>, fs: Seq<FactorId>, k: int)
    requires
        0 <= k <= fs.len(),
    ensures
        component_paths_of(types, fs.take(k)).len() <= component_paths_of(types, fs).len(),
        component_paths_of(types, fs).take(component_paths_of(types, fs.take(k)).len() as int)
            == component_paths_of(types, fs.take(k)),
{
    assert(fs =~= fs.take(k) + fs.skip(k));
    lemma_component_paths_concat(types, fs.take(k), fs.skip(k));
    let p = component_paths_of(types, fs.take(k));
    assert((p + component_paths_of(types, fs.skip(k))).take(p.len() as int) =~= p);
}

proof fn lemma_paths_step(types: Seq<FactorType>, fs: Seq<FactorId>, k: int)
    requires
        0 <= k < fs.len(),
    ensures
        fs.take(k + 1).drop_last() == fs.take(k),
        fs.take(k + 1).last() == fs[k],
        component_paths_of(types, fs.take(k + 1)) == match types[fs[k].0 as int] {
            FactorType::Component(c) => component_paths_of(types, fs.take(k)).push(c@),
            FactorType::Net(_) => component_paths_of(types, fs.take(k)),
        },
        net_names_of(types, fs.take(k + 1)) == match types[fs[k].0 as int] {
            FactorType::Net(n) => net_names_of(types, fs.take(k)).push(n@),
            FactorType::Component(_) => net_names_of(types, fs.take(k)),
        },
{
    assert(fs.take(k + 1).drop_last() =~= fs.take(k));
}

/// A path found in the graph: its ports as `(component, pin)`, the values of
/// the components it passes through (each once, in order), and its nets.
#[derive(Debug, Clone)]
pub struct PathValueGen<V> {
    pub ports: Vec<(String, String)>,
    pub components: Vec<V>,
    pub nets: Vec<String>,
}

/// The ports of a path as character sequences.
pub open spec fn port_pairs(ps: Seq<(String, String)>) -> Seq<PathView> {
    ps.map_values(|p: (String, String)| (p.0@, p.1@))
}

/// The values of a sequence, each by its view.
pub open spec fn views_of<V: View>(vs: Seq<V>) -> Seq<V::V> {
    vs.map_values(|v: V| v@)
}

/// How a character is written inside a quoted string.
pub open spec fn escaped_char(c: char) -> Seq<char> {
    if c == '"' {
        seq!['\\', '"']
    } else if c == '\\' {
        seq!['\\', '\\']
    } else if c == '\n' {
        seq!['\\', 'n']
    } else if c == '\r' {
        seq!['\\', 'r']
    } else if c == '\t' {
        seq!['\\', 't']
    } else {
        seq![c]
    }
}

/// A string with its quotes, backslashes, newlines, returns and tabs escaped.
pub open spec fn escaped(s: Seq<char>) -> Seq<char>
    decreases s.len(),
{
    if s.len() == 0 {
        Seq::empty()
    } else {
        escaped(s.drop_last()) + escaped_char(s.last())
    }
}

/// A string as a quoted literal.
pub open spec fn quoted(s: Seq<char>) -> Seq<char> {
    seq!['"'] + escaped(s) + seq!['"']
}

/// A port shown as the tuple that names it: `("R1", "A")`.
pub open spec fn port_tuple_text(p: PathView) -> Seq<char> {
    seq!['('] + quoted(p.0) + ", "@ + quoted(p.1) + seq![')']
}

/// The port tuples of a path, joined by `", "`.
pub open spec fn joined_ports(ps: Seq<PathView>) -> Seq<char>
    decreases ps.len(),
{
    if ps.len() == 0 {
        Seq::empty()
    } else if ps.len() == 1 {
        port_tuple_text(ps[0])
    } else {
        joined_ports(ps.drop_last()) + ", "@ + port_tuple_text(ps.last())
    }
}

/// A string as a quoted literal.
pub(crate) fn quote(s: &str) -> (r: String)
    ensures
        r@ == quoted(s@),
{
    let n = s.unicode_len();
    let mut out = String::new();
    proof {
        reveal_strlit("\"");
    }
    out.append("\"");
    let mut i: usize = 0;
    while i < n
        invariant
            n == s@.len(),
            i <= n,
            out@ == seq!['"'] + escaped(s@.take(i as int)),
        decreases n - i,
    {
        let c = s.get_char(i);
        proof {
            assert(s@.take(i + 1).drop_last() =~= s@.take(i as int));
            assert(s@.take(i + 1).last() == c);
        }
        let piece = if c == '"' {
            proof {
                reveal_strlit("\\\"");
            }
            "\\\""
        } else if c == '\\' {
            proof {
                reveal_strlit("\\\\");
            }
            "\\\\"
        } else if c == '\n' {
            proof {
                reveal_strlit("\\n");
            }
            "\\n"
        } else if c == '\r' {
            proof {
                reveal_strlit("\\r");
            }
            "\\r"
        } else if c == '\t' {
            proof {
                reveal_strlit("\\t");
            }
            "\\t"
        } else {
            s.substring_char(i, i + 1)
        };
        proof {
            assert(piece@ =~= escaped_char(c));
        }
        out.append(piece);
        proof {
            assert(out@ =~= seq!['"'] + escaped(s@.take(i + 1)));
        }
        i = i + 1;
    }
    out.append("\"");
    proof {
        assert(s@.take(n as int) =~= s@);
    }
    out
}

impl<V> PathValueGen<V> {
    /// `Path [..]` with the port tuples of the path.
    pub fn description(&self) -> (r: String)
        ensures
            r@ == "Path ["@ + joined_ports(port_pairs(self.ports@)) + "]"@,
    {
        let ghost ps = port_pairs(self.ports@);
        let mut body = String::new();
        let mut i: usize = 0;
        proof {
            assert(ps.take(0) =~= Seq::<PathView>::empty());
        }
        while i < self.ports.len()
            invariant
                ps == port_pairs(self.ports@),
                i <= self.ports@.len(),
                body@ == joined_ports(ps.take(i as int)),
            decreases self.ports@.len() - i,
        {
            let a = quote(self.ports[i].0.as_str());
            let b = quote(self.ports[i].1.as_str());
            let mut t = String::new();
            t.append("(");
            t.append(a.as_str());
            t.append(", ");
            t.append(b.as_str());
            t.append(")");
            proof {
                reveal_strlit(", ");
                reveal_strlit("(");
                reveal_strlit(")");
                assert(ps.take(i + 1).drop_last() =~= ps.take(i as int));
                assert(ps.take(i + 1).last() == ps[i as int]);
                assert(ps[i as int] == (self.ports@[i as int].0@, self.ports@[i as int].1@));
                assert(t@ =~= port_tuple_text(ps[i as int]));
            }
            if i > 0 {
                body.append(", ");
            }
            body.append(t.as_str());
            proof {
                if i == 0 {
                    assert(body@ =~= joined_ports(ps.take(1)));
                } else {
                    assert(body@ =~= joined_ports(ps.take(i + 1)));
                }
            }
            i = i + 1;
        }
        proof {
            assert(ps.take(self.ports@.len() as int) =~= ps);
            reveal_strlit("Path [");
            reveal_strlit("]");
        }
        let mut r = concat("Path [", body.as_str());
        r.append("]");
        r
    }
}

impl CircuitGraph {
    /// The port a label names: a net's public port, or the port of a
    /// `(component, pin)` tuple.
    pub fn resolve_label_to_port(&self, label: &PortLabel) -> (r: Result<PortId, String>)
        requires
            self.wf(),
        ensures
            match r {
                Ok(id) => label_port(self.spec_port_paths(), *label) == Ok::<PortId, Seq<char>>(id),
                Err(e) => label_port(self.spec_port_paths(), *label) == Err::<PortId, Seq<char>>(e@),
            },
            r matches Ok(id) ==> id.0 < self.spec_port_paths().len(),
    {
        match label {
            PortLabel::Net(net_name) => {
                proof {
                    reveal_strlit("<external>");
                }
                let external = PortPath::new(ComponentPath::new("<external>".to_owned()), net_name.clone());
                proof {
                    assert(external@ == (external_component(), net_name@));
                    crate::seqs::lemma_index_of(self.spec_port_paths(), external@);
                }
                match self.port_id(&external) {
                    Some(id) => Ok(id),
                    None => {
                        let mut msg = concat("Net '", net_name.as_str());
                        msg.append("' is not a public (io) net - use a specific port tuple (component, pin) instead");
                        Err(msg)
                    },
                }
            },
            PortLabel::Tuple(items) => {
                if items.len() != 2 {
                    return Err("Port tuple must have exactly 2 elements: (component, pin)".to_owned());
                }
                let component_str = match &items[0] {
                    Some(c) => c,
                    None => {
                        return Err("Component path must be a string".to_owned());
                    },
                };
                let pin_str = match &items[1] {
                    Some(p) => p,
                    None => {
                        return Err("Pin name must be a string".to_owned());
                    },
                };
                let port_path = PortPath::new(ComponentPath::new(component_str.clone()), pin_str.clone());
                proof {
                    crate::seqs::lemma_index_of(self.spec_port_paths(), port_path@);
                }
                match self.port_id(&port_path) {
                    Some(id) => Ok(id),
                    None => {
                        let shown = port_path_display(&port_path);
                        let mut msg = concat("Port '", shown.as_str());
                        msg.append("' not found");
                        Err(msg)
                    },
                }
            },
            PortLabel::Other => Err("Label must be a string (net name) or tuple (component, pin)".to_owned()),
        }
    }

    /// The path value of a found path: its ports, the values of the component
    /// factors it passes (each component once, in order of first passage), and
    /// the names of its net factors.
    pub fn create_path_value<V: Copy + View>(
        &self,
        port_path: &[PortId],
        factors: &[FactorId],
        components: &StrMap<V>,
    ) -> (r: Result<PathValueGen<V>, String>)
        requires
            self.wf(),
            components.wf(),
            forall|k: int| 0 <= k < factors@.len() ==> (#[trigger] factors@[k]).0 < self.spec_factor_types().len(),
        ensures
            ({
                let n = self.spec_port_paths().len();
                let cs = dedup(component_paths_of(self.spec_factor_types(), factors@));
                match r {
                    Ok(pv) => {
                        &&& forall|j: int| 0 <= j < port_path@.len() ==> (#[trigger] port_path@[j]).0 < n
                        &&& port_pairs(pv.ports@) == port_path@.map_values(
                            |id: PortId| self.spec_port_paths()[id.0 as int],
                        )
                        &&& forall|k: int| 0 <= k < cs.len() ==> components@.contains_key(#[trigger] cs[k])
                        &&& views_of(pv.components@) == cs.map_values(|c: Seq<char>| components@[c])
                        &&& crate::text::strs(pv.nets@) == net_names_of(self.spec_factor_types(), factors@)
                    },
                    Err(e) => {
                        ||| exists|i: int| first_bad_port(n, port_path@, i) && e@ == port_id_missing_msg(port_path@[i])
                        ||| (forall|j: int| 0 <= j < port_path@.len() ==> (#[trigger] port_path@[j]).0 < n)
                            && exists|k: int| first_missing(cs, components@, k) && e@ == component_missing_msg(cs[k])
                    },
                }
            }),
    {
        let ghost n = self.spec_port_paths().len();
        let ghost types = self.spec_factor_types();
        let mut ports: Vec<(String, String)> = Vec::new();
        let mut j: usize = 0;
        while j < port_path.len()
            invariant
                self.wf(),
                n == self.spec_port_paths().len(),
                j <= port_path@.len(),
                forall|q: int| 0 <= q < j ==> (#[trigger] port_path@[q]).0 < n,
                port_pairs(ports@) == port_path@.take(j as int).map_values(
                    |id: PortId| self.spec_port_paths()[id.0 as int],
                ),
            decreases port_path@.len() - j,
        {
            let id = port_path[j];
            match self.port_path(id) {
                Some(pp) => {
                    let ghost before = ports@;
                    ports.push((pp.component.0.clone(), pp.pin.clone()));
                    proof {
                        assert(ports@ == before.push(ports@.last()));
                        assert(port_path@.take(j + 1) =~= port_path@.take(j as int).push(id));
                        assert(port_pairs(ports@) =~= port_pairs(before).push(pp@));
                        assert(port_pairs(ports@) =~= port_path@.take(j + 1).map_values(
                            |id: PortId| self.spec_port_paths()[id.0 as int],
                        ));
                    }
                },
                None => {
                    let mut msg = concat("Port PortId(", decimal_text(id.0 as u128).as_str());
                    msg.append(") not found in graph");
                    proof {
                        assert(first_bad_port(n, port_path@, j as int));
                    }
                    return Err(msg);
                },
            }
            j = j + 1;
        }
        proof {
            assert(port_path@.take(port_path@.len() as int) =~= port_path@);
        }
        let ghost all_cs = component_paths_of(types, factors@);
        let ghost cs = dedup(all_cs);
        let mut seen: Vec<String> = Vec::new();
        let mut values: Vec<V> = Vec::new();
        let mut k: usize = 0;
        proof {
            assert(factors@.take(0) =~= Seq::<FactorId>::empty());
            assert(crate::text::strs(seen@) =~= Seq::<Seq<char>>::empty());
        }
        while k < factors.len()
            invariant
                self.wf(),
                components.wf(),
                types == self.spec_factor_types(),
                all_cs == component_paths_of(types, factors@),
                cs == dedup(all_cs),
                k <= factors@.len(),
                n == self.spec_port_paths().len(),
                forall|q: int| 0 <= q < port_path@.len() ==> (#[trigger] port_path@[q]).0 < n,
                forall|q: int| 0 <= q < factors@.len() ==> (#[trigger] factors@[q]).0 < types.len(),
                crate::text::strs(seen@) == dedup(component_paths_of(types, factors@.take(k as int))),
                forall|q: int| 0 <= q < seen@.len() ==> components@.contains_key(#[trigger] crate::text::strs(seen@)[q]),
                views_of(values@) == crate::text::strs(seen@).map_values(|c: Seq<char>| components@[c]),
            decreases factors@.len() - k,
        {
            proof {
                lemma_paths_step(types, factors@, k as int);
            }
            let fid = factors[k];
            match self.factor_type(fid) {
                FactorType::Component(cp) => {
                    proof {
                        crate::seqs::lemma_dedup_push(component_paths_of(types, factors@.take(k as int)), cp@);
                    }
                    if !holds_str(&seen, cp.as_str()) {
                        match components.get(cp.as_str()) {
                            Some(v) => {
                                let ghost seen_before = seen@;
                                let ghost values_before = values@;
                                values.push(*v);
                                seen.push(cp.clone());
                                proof {
                                    assert(values@ == values_before.push(*v));
                                    assert(views_of(values@) =~= views_of(values_before).push(v@));
                                    assert(seen@ == seen_before.push(seen@.last()));
                                    assert(crate::text::strs(seen@) =~= crate::text::strs(seen_before).push(cp@));
                                    assert(views_of(values@) =~= crate::text::strs(seen@).map_values(
                                        |c: Seq<char>| components@[c],
                                    ));
                                }
                            },
                            None => {
                                let mut msg = concat("Component '", cp.as_str());
                                msg.append("' not found");
                                proof {
                                    let pre = component_paths_of(types, factors@.take(k + 1));
                                    let d = dedup(pre);
                                    lemma_component_paths_prefix(types, factors@, k + 1);
                                    crate::seqs::lemma_dedup_prefix(all_cs, pre.len() as int);
                                    let m = crate::text::strs(seen@).len();
                                    assert(types[fid.0 as int] == FactorType::Component(*cp));
                                    assert(pre == component_paths_of(types, factors@.take(k as int)).push(cp@));
                                    assert(!crate::text::strs(seen@).contains(cp@));
                                    assert(d == crate::text::strs(seen@).push(cp@));
                                    assert(all_cs.take(pre.len() as int) == pre);
                                    assert(cs.take(d.len() as int) == d);
                                    assert(cs[m as int] == d[m as int]);
                                    assert forall|q: int| 0 <= q < m implies components@.contains_key(cs[q]) by {
                                        assert(cs[q] == d[q]);
                                        assert(d[q] == crate::text::strs(seen@)[q]);
                                    }
                                    assert(first_missing(cs, components@, m as int));
                                }
                                return Err(msg);
                            },
                        }
                    }
                },
                FactorType::Net(_) => {},
            }
            k = k + 1;
        }
        proof {
            assert(factors@.take(factors@.len() as int) =~= factors@);
        }
        let mut nets: Vec<String> = Vec::new();
        let mut q: usize = 0;
        proof {
            assert(crate::text::strs(nets@) =~= net_names_of(types, factors@.take(0)));
        }
        while q < factors.len()
            invariant
                self.wf(),
                types == self.spec_factor_types(),
                q <= factors@.len(),
                forall|t: int| 0 <= t < factors@.len() ==> (#[trigger] factors@[t]).0 < types.len(),
                crate::text::strs(nets@) == net_names_of(types, factors@.take(q as int)),
            decreases factors@.len() - q,
        {
            proof {
                lemma_paths_step(types, factors@, q as int);
            }
            match self.factor_type(factors[q]) {
                FactorType::Net(name) => {
                    nets.push(name.clone());
                    proof {
                        assert(crate::text::strs(nets@) =~= net_names_of(types, factors@.take(q + 1)));
                    }
                },
                FactorType::Component(_) => {},
            }
            q = q + 1;
        }
        proof {
            assert(factors@.take(factors@.len() as int) =~= factors@);
        }
        Ok(PathValueGen { ports, components: values, nets })
    }
}


/// Another handle on a shared graph (`Arc::clone`): the same graph.
#[verifier::external_body]
fn share_graph(g: &Arc<CircuitGraph>) -> (r: Arc<CircuitGraph>)
    ensures
        *r == **g,
{
    Arc::clone(g)
}

/// A module's value together with its circuit graph.
pub struct ModuleGraphValueGen<V> {
    pub module: V,
    pub graph: Arc<CircuitGraph>,
}

/// The `paths` method of a module graph.
pub struct PathsCallableGen<V> {
    pub module: V,
    pub graph: Arc<CircuitGraph>,
}

/// One of the checks `count`, `any`, `all`, `none` bound to a path.
pub struct PathValidationCallableGen<V> {
    pub path_value: V,
    pub operation: PathValidationOp,
}

/// The `matches` method bound to a path.
pub struct PathMatchesCallableGen<V> {
    pub path_value: V,
}

impl<V: Copy> ModuleGraphValueGen<V> {
    /// The attribute `paths`, the one a module graph has.
    pub fn get_attr(&self, attr: &str) -> (r: Option<PathsCallableGen<V>>)
        ensures
            match r {
                Some(c) => attr@ == "paths"@ && c.module == self.module && *c.graph == *self.graph,
                None => attr@ != "paths"@,
            },
    {
        if crate::text::str_eq(attr, "paths") {
            Some(PathsCallableGen { module: self.module, graph: share_graph(&self.graph) })
        } else {
            None
        }
    }
}

/// An attribute of a path: its lists, one of its checks, or `matches`.
#[derive(Clone, Copy, Debug, PartialEq, Eq, Structural)]
pub enum PathAttr {
    Ports,
    Components,
    Nets,
    Check(PathValidationOp),
    Matches,
}

/// The attribute of a path that a name selects.
pub open spec fn path_attr_named(a: Seq<char>) -> Option<PathAttr> {
    if a == "ports"@ {
        Some(PathAttr::Ports)
    } else if a == "components"@ {
        Some(PathAttr::Components)
    } else if a == "nets"@ {
        Some(PathAttr::Nets)
    } else if a == "count"@ {
        Some(PathAttr::Check(PathValidationOp::Count))
    } else if a == "any"@ {
        Some(PathAttr::Check(PathValidationOp::Any))
    } else if a == "all"@ {
        Some(PathAttr::Check(PathValidationOp::All))
    } else if a == "none"@ {
        Some(PathAttr::Check(PathValidationOp::NoneMatch))
    } else if a == "matches"@ {
        Some(PathAttr::Matches)
    } else {
        None
    }
}

impl<V> PathValueGen<V> {
    /// The attribute a name selects on a path.
    pub fn get_attr(&self, attr: &str) -> (r: Option<PathAttr>)
        ensures
            r == path_attr_named(attr@),
    {
        if crate::text::str_eq(attr, "ports") {
            Some(PathAttr::Ports)
        } else if crate::text::str_eq(attr, "components") {
            Some(PathAttr::Components)
        } else if crate::text::str_eq(attr, "nets") {
            Some(PathAttr::Nets)
        } else if crate::text::str_eq(attr, "count") {
            Some(PathAttr::Check(PathValidationOp::Count))
        } else if crate::text::str_eq(attr, "any") {
            Some(PathAttr::Check(PathValidationOp::Any))
        } else if crate::text::str_eq(attr, "all") {
            Some(PathAttr::Check(PathValidationOp::All))
        } else if crate::text::str_eq(attr, "none") {
            Some(PathAttr::Check(PathValidationOp::NoneMatch))
        } else if crate::text::str_eq(attr, "matches") {
            Some(PathAttr::Matches)
        } else {
            None
        }
    }

    /// `Path(<n> components)`.
    pub fn to_string(&self) -> (r: String)
        ensures
            r@ == "Path("@ + digits_of(self.components@.len() as nat) + " components)"@,
    {
        let mut r = concat("Path(", decimal_text(self.components.len() as u128).as_str());
        r.append(" components)");
        r
    }
}

impl PathValidationOp {
    /// The name of the check.
    pub fn name(&self) -> (r: &'static str)
        ensures
            r@ == match *self {
                PathValidationOp::Count => "count"@,
                PathValidationOp::Any => "any"@,
                PathValidationOp::All => "all"@,
                PathValidationOp::NoneMatch => "none"@,
                PathValidationOp::Matches => "matches"@,
            },
    {
        match self {
            PathValidationOp::Count => "count",
            PathValidationOp::Any => "any",
            PathValidationOp::All => "all",
            PathValidationOp::NoneMatch => "none",
            PathValidationOp::Matches => "matches",
        }
    }
}

/// What a path value holds, for the path `(ps, fs)` in a graph: its ports,
/// its components (each once, looked up in `m`) and its nets.
pub open spec fn path_value_of<W>(
    paths: Seq<PathView>,
    types: Seq<FactorType>,
    m: Map<Seq<char>, W>,
    ps: Seq<PortId>,
    fs: Seq<FactorId>,
) -> (Seq<PathView>, Seq<W>, Seq<Seq<char>>) {
    (
        ps.map_values(|id: PortId| paths[id.0 as int]),
        dedup(component_paths_of(types, fs)).map_values(|c: Seq<char>| m[c]),
        net_names_of(types, fs),
    )
}

/// A path value as plain values.
pub open spec fn path_value_view<V: View>(p: PathValueGen<V>) -> (Seq<PathView>, Seq<V::V>, Seq<Seq<char>>) {
    (port_pairs(p.ports@), views_of(p.components@), crate::text::strs(p.nets@))
}


/// The path values `vs` are those of the paths `found`, in order, and
/// `found` lists exactly the simple paths from `a` to `b`.
pub open spec fn path_values_match<V: View>(
    g: CircuitGraph,
    a: PortId,
    b: PortId,
    limit: Option<usize>,
    components: Map<Seq<char>, V::V>,
    vs: Seq<PathValueGen<V>>,
    found: Seq<(Seq<PortId>, Seq<FactorId>)>,
) -> bool {
    &&& vs.len() == found.len()
    &&& forall|k: int| 0 <= k < found.len() ==> #[trigger] g.is_simple_path(a, b, limit, found[k].0, found[k].1)
    &&& forall|k: int|
        0 <= k < found.len() ==> path_value_view(#[trigger] vs[k]) == path_value_of(
            g.spec_port_paths(),
            g.spec_factor_types(),
            components,
            found[k].0,
            found[k].1,
        )
    &&& forall|ps: Seq<PortId>, fs: Seq<FactorId>|
        #[trigger] g.is_simple_path(a, b, limit, ps, fs) ==> exists|k: int| 0 <= k < found.len() && found[k] == (ps, fs)
}

/// The path values `vs` are those of simple paths from `a` to `b`, and every
/// such path has its value among them.
pub open spec fn path_values_found<V: View>(
    g: CircuitGraph,
    a: PortId,
    b: PortId,
    limit: Option<usize>,
    components: Map<Seq<char>, V::V>,
    vs: Seq<PathValueGen<V>>,
) -> bool {
    exists|found: Seq<(Seq<PortId>, Seq<FactorId>)>| #[trigger] path_values_match(g, a, b, limit, components, vs, found)
}

/// Some simple path from `a` to `b` passes a component that `components`
/// lacks, the first such on that path being the one `msg` names.
pub open spec fn component_missing_on_path<W>(
    g: CircuitGraph,
    a: PortId,
    b: PortId,
    limit: Option<usize>,
    components: Map<Seq<char>, W>,
    msg: Seq<char>,
) -> bool {
    exists|ps: Seq<PortId>, fs: Seq<FactorId>, k: int|
        #[trigger] g.is_simple_path(a, b, limit, ps, fs) && #[trigger] first_missing(
            dedup(component_paths_of(g.spec_factor_types(), fs)),
            components,
            k,
        ) && msg == component_missing_msg(dedup(component_paths_of(g.spec_factor_types(), fs))[k])
}

/// What `paths(..)` gives for the arguments, by the outcome `r`.
pub open spec fn paths_outcome<V: View>(
    g: CircuitGraph,
    start: Option<&PortLabel>,
    end: Option<&PortLabel>,
    max_depth: Option<i32>,
    components: Map<Seq<char>, V::V>,
    r: Result<Vec<PathValueGen<V>>, String>,
) -> bool {
    let paths = g.spec_port_paths();
    let limit = match max_depth {
        Some(d) => Some(d as usize),
        None => None,
    };
    match start {
        None => r matches Err(x) && x@ == "paths() requires 'start' argument"@,
        Some(s) => match end {
            None => r matches Err(x) && x@ == "paths() requires 'end' argument"@,
            Some(e) => match label_port(paths, *s) {
                Err(m) => r matches Err(x) && x@ == m,
                Ok(a) => match label_port(paths, *e) {
                    Err(m) => r matches Err(x) && x@ == m,
                    Ok(b) => match r {
                        Ok(vs) => path_values_found(g, a, b, limit, components, vs@),
                        Err(x) => component_missing_on_path(g, a, b, limit, components, x@),
                    },
                },
            },
        },
    }
}

proof fn lemma_paths_outcome_missing<V: View>(
    g: CircuitGraph,
    s: &PortLabel,
    e: &PortLabel,
    max_depth: Option<i32>,
    components: Map<Seq<char>, V::V>,
    x: String,
    ps: Seq<PortId>,
    fs: Seq<FactorId>,
    k: int,
    a: PortId,
    b: PortId,
)
    requires
        label_port(g.spec_port_paths(), *s) == Ok::<PortId, Seq<char>>(a),
        label_port(g.spec_port_paths(), *e) == Ok::<PortId, Seq<char>>(b),
        g.is_simple_path(
            a,
            b,
            match max_depth {
                Some(d) => Some(d as usize),
                None => None,
            },
            ps,
            fs,
        ),
        first_missing(dedup(component_paths_of(g.spec_factor_types(), fs)), components, k),
        x@ == component_missing_msg(dedup(component_paths_of(g.spec_factor_types(), fs))[k]),
    ensures
        paths_outcome(g, Some(s), Some(e), max_depth, components, Err::<Vec<PathValueGen<V>>, String>(x)),
{
    let limit = match max_depth {
        Some(d) => Some(d as usize),
        None => None,
    };
    assert(component_missing_on_path(g, a, b, limit, components, x@));
}

proof fn lemma_paths_outcome_found<V: View>(
    g: CircuitGraph,
    s: &PortLabel,
    e: &PortLabel,
    max_depth: Option<i32>,
    components: Map<Seq<char>, V::V>,
    vs: Vec<PathValueGen<V>>,
    found: Seq<(Seq<PortId>, Seq<FactorId>)>,
    a: PortId,
    b: PortId,
)
    requires
        label_port(g.spec_port_paths(), *s) == Ok::<PortId, Seq<char>>(a),
        label_port(g.spec_port_paths(), *e) == Ok::<PortId, Seq<char>>(b),
        path_values_match(
            g,
            a,
            b,
            match max_depth {
                Some(d) => Some(d as usize),
                None => None,
            },
            components,
            vs@,
            found,
        ),
    ensures
        paths_outcome(g, Some(s), Some(e), max_depth, components, Ok::<Vec<PathValueGen<V>>, String>(vs)),
{
    let limit = match max_depth {
        Some(d) => Some(d as usize),
        None => None,
    };
    assert(path_values_match(g, a, b, limit, components, vs@, found));
    assert(path_values_found(g, a, b, limit, components, vs@));
}

impl<V: Copy + View> PathsCallableGen<V> {
    /// `paths(start=, end=, max_depth=)`: every simple path from `start` to
    /// `end`, of at most `max_depth` ports when given, as path values whose
    /// components are looked up in `components`.
    pub fn invoke(
        &self,
        start: Option<&PortLabel>,
        end: Option<&PortLabel>,
        max_depth: Option<i32>,
        components: &StrMap<V>,
    ) -> (r: Result<Vec<PathValueGen<V>>, String>)
        requires
            self.graph.wf(),
            components.wf(),
        ensures
            paths_outcome(*self.graph, start, end, max_depth, components@, r),
    {
        let g: &CircuitGraph = &self.graph;
        let s_label = match start {
            Some(s) => s,
            None => {
                return Err("paths() requires 'start' argument".to_owned());
            },
        };
        let e_label = match end {
            Some(e) => e,
            None => {
                return Err("paths() requires 'end' argument".to_owned());
            },
        };
        let start_port = g.resolve_label_to_port(s_label)?;
        let end_port = g.resolve_label_to_port(e_label)?;
        let limit = match max_depth {
            Some(d) => Some(d as usize),
            None => None,
        };
        let found = g.all_simple_paths_with_factors(start_port, end_port, limit);
        let mut out: Vec<PathValueGen<V>> = Vec::new();
        let mut i: usize = 0;
        while i < found.len()
            invariant
                g.wf(),
                *g == *self.graph,
                components.wf(),
                start == Some(s_label),
                end == Some(e_label),
                start_port.0 < g.spec_port_paths().len(),
                label_port(g.spec_port_paths(), *s_label) == Ok::<PortId, Seq<char>>(start_port),
                label_port(g.spec_port_paths(), *e_label) == Ok::<PortId, Seq<char>>(end_port),
                limit == match max_depth {
                    Some(d) => Some(d as usize),
                    None => None::<usize>,
                },
                i <= found@.len(),
                out@.len() == i,
                forall|k: int|
                    0 <= k < found@.len() ==> g.is_simple_path(
                        start_port,
                        end_port,
                        limit,
                        (#[trigger] super::search::pair_view(found@[k])).0,
                        super::search::pair_view(found@[k]).1,
                    ),
                forall|k: int|
                    0 <= k < i ==> path_value_view(#[trigger] out@[k]) == path_value_of(
                        g.spec_port_paths(),
                        g.spec_factor_types(),
                        components@,
                        found@[k].0@,
                        found@[k].1@,
                    ),
            decreases found@.len() - i,
        {
            let ghost ps = found@[i as int].0@;
            let ghost fs = found@[i as int].1@;
            proof {
                assert(super::search::pair_view(found@[i as int]) == (ps, fs));
                assert(g.is_simple_path(start_port, end_port, limit, ps, fs));
                lemma_path_ids_valid(g, start_port, end_port, limit, ps, fs);
            }
            let pv = g.create_path_value(found[i].0.as_slice(), found[i].1.as_slice(), components);
            match pv {
                Ok(v) => {
                    out.push(v);
                    proof {
                        assert(path_value_view(out@[i as int]) == path_value_of(
                            g.spec_port_paths(),
                            g.spec_factor_types(),
                            components@,
                            ps,
                            fs,
                        ));
                    }
                },
                Err(e) => {
                    proof {
                        let cs = dedup(component_paths_of(g.spec_factor_types(), fs));
                        if exists|j: int| first_bad_port(g.spec_port_paths().len(), ps, j) {
                            let j = choose|j: int| first_bad_port(g.spec_port_paths().len(), ps, j);
                            assert(ps[j].0 < g.spec_port_paths().len());
                        }
                        let k = choose|k: int| first_missing(cs, components@, k) && e@ == component_missing_msg(cs[k]);
                        assert(g.is_simple_path(start_port, end_port, limit, ps, fs) && first_missing(cs, components@, k));
                        lemma_paths_outcome_missing::<V>(*g, s_label, e_label, max_depth, components@, e, ps, fs, k, start_port, end_port);
                    }
                    return Err(e);
                },
            }
            i = i + 1;
        }
        proof {
            let fv = found@.map_values(|x: (Vec<PortId>, Vec<FactorId>)| super::search::pair_view(x));
            assert forall|k: int| 0 <= k < fv.len() implies #[trigger] g.is_simple_path(
                start_port,
                end_port,
                limit,
                fv[k].0,
                fv[k].1,
            ) by {
                assert(fv[k] == super::search::pair_view(found@[k]));
            }
            assert forall|k: int| 0 <= k < fv.len() implies path_value_view(#[trigger] out@[k]) == path_value_of(
                g.spec_port_paths(),
                g.spec_factor_types(),
                components@,
                fv[k].0,
                fv[k].1,
            ) by {
                assert(fv[k] == (found@[k].0@, found@[k].1@));
            }
            assert forall|qs: Seq<PortId>, gs: Seq<FactorId>|
                #[trigger] g.is_simple_path(start_port, end_port, limit, qs, gs) implies exists|k: int|
                0 <= k < fv.len() && fv[k] == (qs, gs) by {
                let k = choose|k: int|
                    0 <= k < found@.len() && #[trigger] super::search::pair_view(found@[k]) == (qs, gs);
                assert(fv[k] == (qs, gs));
            }
            assert(path_values_match(*g, start_port, end_port, limit, components@, out@, fv));
            lemma_paths_outcome_found::<V>(*g, s_label, e_label, max_depth, components@, out, fv, start_port, end_port);
        }
        Ok(out)
    }
}

/// The ports and factors of a simple path are ids the graph holds.
proof fn lemma_path_ids_valid(
    g: &CircuitGraph,
    start: PortId,
    goal: PortId,
    limit: Option<usize>,
    ps: Seq<PortId>,
    fs: Seq<FactorId>,
)
    requires
        g.wf(),
        start.0 < g.spec_port_paths().len(),
        g.is_simple_path(start, goal, limit, ps, fs),
    ensures
        forall|k: int| 0 <= k < ps.len() ==> (#[trigger] ps[k]).0 < g.spec_port_paths().len(),
        forall|k: int| 0 <= k < fs.len() ==> (#[trigger] fs[k]).0 < g.spec_factor_types().len(),
{
    assert forall|k: int| 0 <= k < ps.len() implies (#[trigger] ps[k]).0 < g.spec_port_paths().len() by {
        if k == 0 {
        } else if k < fs.len() {
            assert(g.is_step(ps[k], fs[k], ps[k + 1]));
        } else {
            let j = k - 1;
            assert(g.is_step(ps[j], fs[j], ps[j + 1]));
            let row = g.spec_factor_ports()[fs[j].0 as int];
            let j = choose|j: int| 0 <= j < row.len() && row[j] == ps[k];
        }
    }
    assert forall|k: int| 0 <= k < fs.len() implies (#[trigger] fs[k]).0 < g.spec_factor_types().len() by {
        assert(g.is_step(ps[k], fs[k], ps[k + 1]));
    }
}

} // verus!
