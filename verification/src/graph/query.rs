//! Lookups on a built circuit graph: ids by path or name, names by id, neighbors.
use vstd::prelude::*;

use super::bufs::{neighbor_buf_contains, neighbor_buf_items, neighbor_buf_new, neighbor_buf_push, NeighborBuf};
use super::construct::{entries_map, find_name, keys_unique, lemma_entries_lookup, port_path_eq, PathView};
use super::{CircuitGraph, FactorId, FactorType, PortId, PortPath};
use crate::seqs::{dedup, index_of, lemma_index_of};

verus! {

/// `s` with every occurrence of `p` left out.
pub open spec fn without(s: Seq<PortId>, p: PortId) -> Seq<PortId>
    decreases s.len(),
{
    if s.len() == 0 {
        Seq::empty()
    } else if s.last() == p {
        without(s.drop_last(), p)
    } else {
        without(s.drop_last(), p).push(s.last())
    }
}

/// The first name in the table that is given id `f`.
pub open spec fn name_for(t: Seq<(Seq<char>, FactorId)>, f: FactorId) -> Option<Seq<char>>
    decreases t.len(),
{
    if t.len() == 0 {
        None
    } else if t[0].1 == f {
        Some(t[0].0)
    } else {
        name_for(t.drop_first(), f)
    }
}

proof fn lemma_name_for_skip(t: Seq<(Seq<char>, FactorId)>, f: FactorId, i: int)
    requires
        0 <= i < t.len(),
        t[i].1 != f,
    ensures
        name_for(t.subrange(i, t.len() as int), f) == name_for(t.subrange(i + 1, t.len() as int), f),
{
    assert(t.subrange(i, t.len() as int).drop_first() =~= t.subrange(i + 1, t.len() as int));
}

proof fn lemma_without_push(s: Seq<PortId>, q: PortId, p: PortId)
    ensures
        without(s.push(q), p) == if q == p {
            without(s, p)
        } else {
            without(s, p).push(q)
        },
{
    assert(s.push(q).drop_last() =~= s);
}

proof fn lemma_dedup_push_port(s: Seq<PortId>, x: PortId)
    ensures
        dedup(s.push(x)) == if dedup(s).contains(x) {
            dedup(s)
        } else {
            dedup(s).push(x)
        },
{
    assert(s.push(x).drop_last() =~= s);
}

/// Append the ports of `row` other than `p` that were not seen yet.
fn add_neighbors(
    row: &[PortId],
    p: PortId,
    seen: &mut NeighborBuf,
    out: &mut Vec<PortId>,
    Ghost(before): Ghost<Seq<PortId>>,
)
    requires
        neighbor_buf_items(*old(seen)) == old(out)@,
        old(out)@ == dedup(without(before, p)),
    ensures
        neighbor_buf_items(*final(seen)) == final(out)@,
        final(out)@ == dedup(without(before + row@, p)),
{
    let mut k: usize = 0;
    while k < row.len()
        invariant
            k <= row@.len(),
            neighbor_buf_items(*seen) == out@,
            out@ == dedup(without(before + row@.take(k as int), p)),
        decreases row@.len() - k,
    {
        let q = row[k];
        proof {
            assert(before + row@.take(k + 1) =~= (before + row@.take(k as int)).push(q));
            lemma_without_push(before + row@.take(k as int), q, p);
            lemma_dedup_push_port(without(before + row@.take(k as int), p), q);
        }
        if q != p {
            if !neighbor_buf_contains(seen, q) {
                neighbor_buf_push(seen, q);
                out.push(q);
            }
        }
        k = k + 1;
    }
    proof {
        assert(row@.take(row@.len() as int) =~= row@);
    }
}

impl CircuitGraph {
    /// The ports that share a factor with `p`: the other ports of its first
    /// factor, then of its second, each listed once.
    pub open spec fn neighbor_candidates(&self, p: PortId) -> Seq<PortId> {
        let fs = self.spec_port_factors()[p.0 as int];
        without(self.spec_factor_ports()[fs[0].0 as int] + self.spec_factor_ports()[fs[1].0 as int], p)
    }

    /// The unique neighbor ports of `p` via either factor, in the order in which
    /// the factors' rows list them (a port that shares both factors with `p`
    /// appears once).
    pub fn for_each_neighbor(&self, p: PortId) -> (r: Vec<PortId>)
        requires
            self.wf(),
            p.0 < self.spec_port_factors().len(),
        ensures
            r@ == dedup(self.neighbor_candidates(p)),
    {
        let fs = self.port_factors(p);
        let row0 = self.factor_ports(fs[0]);
        let row1 = self.factor_ports(fs[1]);
        let mut seen = neighbor_buf_new();
        let mut out: Vec<PortId> = Vec::new();
        proof {
            assert(dedup(without(Seq::<PortId>::empty(), p)) =~= Seq::<PortId>::empty());
        }
        add_neighbors(row0, p, &mut seen, &mut out, Ghost(Seq::empty()));
        proof {
            assert(Seq::<PortId>::empty() + row0@ =~= row0@);
        }
        add_neighbors(row1, p, &mut seen, &mut out, Ghost(row0@));
        out
    }

    /// The id of a port path (its first occurrence among the ports).
    pub fn port_id(&self, path: &PortPath) -> (r: Option<PortId>)
        requires
            self.wf(),
        ensures
            match r {
                Some(id) => id.0 == index_of(self.spec_port_paths(), path@),
                None => !self.spec_port_paths().contains(path@),
            },
    {
        let ghost pv = self.spec_port_paths();
        proof {
            lemma_index_of(pv, path@);
        }
        let mut i: usize = 0;
        while i < self.port_paths.len()
            invariant
                pv == self.spec_port_paths(),
                self.wf(),
                i <= self.port_paths@.len(),
                forall|k: int| 0 <= k < i ==> pv[k] != path@,
            decreases self.port_paths@.len() - i,
        {
            if port_path_eq(&self.port_paths[i], path) {
                proof {
                    assert(pv[i as int] == path@);
                    assert(pv.contains(path@));
                    lemma_index_of(pv, path@);
                    if index_of(pv, path@) != i {
                        assert(pv[index_of(pv, path@)] == path@);
                    }
                }
                return Some(PortId(i as u32));
            }
            i = i + 1;
        }
        proof {
            if pv.contains(path@) {
                let k = choose|k: int| 0 <= k < pv.len() && pv[k] == path@;
            }
        }
        None
    }

    /// The id of the factor with the given net name or component path.
    pub fn factor_id(&self, name: &str) -> (r: Option<FactorId>)
        requires
            self.wf(),
        ensures
            match r {
                Some(f) => self.spec_factor_table().contains_key(name@) && self.spec_factor_table()[name@] == f,
                None => !self.spec_factor_table().contains_key(name@),
            },
    {
        let key = name.to_owned();
        proof {
            assert(keys_unique(self.factor_names@));
        }
        match find_name(&self.factor_names, &key) {
            Some(j) => {
                proof {
                    lemma_entries_lookup(self.factor_names@, j as int);
                }
                Some(self.factor_names[j].1)
            },
            None => {
                proof {
                    if entries_map(self.factor_names@).contains_key(name@) {
                        let c = choose|c: int|
                            0 <= c < self.factor_names@.len() && self.factor_names@[c].0@ == name@;
                    }
                }
                None
            },
        }
    }

    /// What the factor stands for.
    pub fn factor_type(&self, fid: FactorId) -> (r: &FactorType)
        requires
            self.wf(),
            fid.0 < self.spec_factor_types().len(),
        ensures
            *r == self.spec_factor_types()[fid.0 as int],
    {
        &self.factor_types[fid.0 as usize]
    }

    /// The path of a port, when the id names one.
    pub fn port_path(&self, pid: PortId) -> (r: Option<&PortPath>)
        requires
            self.wf(),
        ensures
            match r {
                Some(p) => pid.0 < self.spec_port_paths().len() && p@ == self.spec_port_paths()[pid.0 as int],
                None => pid.0 >= self.spec_port_paths().len(),
            },
    {
        if (pid.0 as usize) < self.port_paths.len() {
            Some(&self.port_paths[pid.0 as usize])
        } else {
            None
        }
    }

    /// A name recorded for the factor: the first entry of the name table with this id.
    pub fn factor_name(&self, fid: FactorId) -> (r: Option<&str>)
        requires
            self.wf(),
        ensures
            match r {
                Some(s) => name_for(self.spec_factor_names(), fid) == Some(s@),
                None => name_for(self.spec_factor_names(), fid) is None,
            },
    {
        let ghost t = self.spec_factor_names();
        let mut i: usize = 0;
        proof {
            assert(t.subrange(0, t.len() as int) =~= t);
        }
        while i < self.factor_names.len()
            invariant
                t == self.spec_factor_names(),
                t.len() == self.factor_names@.len(),
                i <= t.len(),
                name_for(t, fid) == name_for(t.subrange(i as int, t.len() as int), fid),
            decreases t.len() - i,
        {
            if self.factor_names[i].1 == fid {
                proof {
                    assert(t[i as int] == (self.factor_names@[i as int].0@, self.factor_names@[i as int].1));
                    assert(t.subrange(i as int, t.len() as int)[0] == t[i as int]);
                }
                return Some(self.factor_names[i].0.as_str());
            }
            proof {
                assert(t[i as int].1 == self.factor_names@[i as int].1);
                lemma_name_for_skip(t, fid, i as int);
            }
            i = i + 1;
        }
        proof {
            assert(t.subrange(t.len() as int, t.len() as int) =~= Seq::<(Seq<char>, FactorId)>::empty());
        }
        None
    }
}

} // verus!
