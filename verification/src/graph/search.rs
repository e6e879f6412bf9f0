//! Enumeration of factor-simple paths between two ports.
use fixedbitset::FixedBitSet;
use vstd::prelude::*;

use super::bufs::{
    bitset_clear_bit, bitset_contains, bitset_insert, bitset_len, bitset_members,
    bitset_with_capacity, factor_stack_items, factor_stack_new, factor_stack_pop,
    factor_stack_push, factor_stack_to_vec, port_stack_items, port_stack_len, port_stack_new,
    port_stack_pop, port_stack_push, port_stack_to_vec, FactorStack, PortStack,
};
use super::{CircuitGraph, FactorId, PortId};

verus! {

/// A found path: the ports visited and the factors traversed between them.
pub open spec fn pair_view(x: (Vec<PortId>, Vec<FactorId>)) -> (Seq<PortId>, Seq<FactorId>) {
    (x.0@, x.1@)
}

/// The numeric values of a sequence of ports, as a set.
pub open spec fn port_values(ps: Seq<PortId>) -> Set<usize> {
    Set::new(|u: usize| exists|k: int| 0 <= k < ps.len() && ps[k].0 == u)
}

/// The numeric values of a sequence of factors, as a set.
pub open spec fn factor_values(fs: Seq<FactorId>) -> Set<usize> {
    Set::new(|u: usize| exists|k: int| 0 <= k < fs.len() && fs[k].0 == u)
}

/// `(xs, ys)` starts with `(ps, fs)`.
pub open spec fn extends(xs: Seq<PortId>, ys: Seq<FactorId>, ps: Seq<PortId>, fs: Seq<FactorId>) -> bool {
    &&& ps.len() <= xs.len()
    &&& fs.len() <= ys.len()
    &&& xs.take(ps.len() as int) == ps
    &&& ys.take(fs.len() as int) == fs
}

fn copy_ports(v: &Vec<PortId>) -> (res: Vec<PortId>)
    ensures
        res@ == v@,
{
    let mut res: Vec<PortId> = Vec::new();
    let mut i: usize = 0;
    while i < v.len()
        invariant
            i <= v@.len(),
            res@ == v@.take(i as int),
        decreases v@.len() - i,
    {
        res.push(v[i]);
        i = i + 1;
        assert(res@ =~= v@.take(i as int));
    }
    assert(v@.take(v@.len() as int) =~= v@);
    res
}

/// A sequence of distinct ids all below `n` has at most `n` elements.
proof fn lemma_distinct_ports_bounded(ps: Seq<PortId>, n: nat)
    requires
        ps.no_duplicates(),
        forall|k: int| 0 <= k < ps.len() ==> (#[trigger] ps[k]).0 < n,
    ensures
        ps.len() <= n,
{
    let vals = ps.map_values(|p: PortId| p.0 as int);
    assert forall|i: int, j: int| 0 <= i < vals.len() && 0 <= j < vals.len() && i != j implies vals[i] != vals[j] by {
        assert(ps[i] != ps[j]);
    }
    assert(vals.no_duplicates());
    vals.unique_seq_to_set();
    let s = vals.to_set();
    let r = Set::new(|x: int| 0 <= x < n);
    assert(s.subset_of(r));
    vstd::set_lib::lemma_int_range(0, n as int);
    assert(r =~= vstd::set_lib::set_int_range(0, n as int));
    vstd::set_lib::lemma_len_subset(s, r);
}

/// The found paths from position `lo` on are pairwise distinct.
pub open spec fn pairs_distinct(out: Seq<(Vec<PortId>, Vec<FactorId>)>, lo: int) -> bool {
    forall|i: int, k: int|
        #![trigger out[i], out[k]]
        lo <= i < k < out.len() ==> pair_view(out[i]) != pair_view(out[k])
}

/// Paths found after one more step from a common prefix of `pl` ports and `fl`
/// factors: those before `out1` took another factor, those from `out1` to
/// `out2` another port of this factor (one of `row.take(j)`), those from `out2`
/// on port `q == row[j]`; each group is distinct in itself, so all are.
proof fn lemma_merge_distinct(
    out: Seq<(Vec<PortId>, Vec<FactorId>)>,
    out0: int,
    out1: int,
    out2: int,
    pl: int,
    fl: int,
    q: PortId,
    fid: FactorId,
    row: Seq<PortId>,
    j: int,
)
    requires
        0 <= out0 <= out1 <= out2 <= out.len(),
        0 <= j < row.len(),
        row.no_duplicates(),
        row[j] == q,
        0 <= pl,
        0 <= fl,
        forall|i: int, k: int|
            #![trigger out[i], out[k]]
            out0 <= i < k < out2 ==> pair_view(out[i]) != pair_view(out[k]),
        pairs_distinct(out, out2),
        forall|i: int|
            out0 <= i < out1 ==> (#[trigger] out[i]).1@.len() > fl && out[i].1@[fl] != fid,
        forall|i: int|
            out1 <= i < out2 ==> (#[trigger] out[i]).0@.len() > pl && row.take(j).contains(out[i].0@[pl]),
        forall|i: int|
            out2 <= i < out.len() ==> (#[trigger] out[i]).0@.len() > pl && out[i].1@.len() > fl && out[i].0@[pl]
                == q && out[i].1@[fl] == fid,
    ensures
        pairs_distinct(out, out0),
{
    assert forall|i: int, k: int| out0 <= i < k < out.len() implies pair_view(#[trigger] out[i]) != pair_view(
        #[trigger] out[k],
    ) by {
        if i < out2 && k >= out2 {
            if i < out1 {
                assert(pair_view(out[i]).1[fl] != pair_view(out[k]).1[fl]);
            } else {
                let m = choose|m: int| 0 <= m < row.take(j).len() && row.take(j)[m] == out[i].0@[pl];
                assert(row[m] == row.take(j)[m]);
                assert(m != j);
                assert(pair_view(out[i]).0[pl] != pair_view(out[k]).0[pl]);
            }
        }
    }
}

impl CircuitGraph {
    /// No factor holds a port twice.
    pub open spec fn rows_distinct(&self) -> bool {
        forall|f: int| 0 <= f < self.spec_factor_ports().len() ==> (#[trigger] self.spec_factor_ports()[f]).no_duplicates()
    }

    /// One step of a path: from port `a` through one of its factors `f` to another port `b` of `f`.
    pub open spec fn is_step(&self, a: PortId, f: FactorId, b: PortId) -> bool {
        &&& a.0 < self.spec_port_factors().len()
        &&& (f == self.spec_port_factors()[a.0 as int][0] || f == self.spec_port_factors()[a.0 as int][1])
        &&& f.0 < self.spec_factor_ports().len()
        &&& self.spec_factor_ports()[f.0 as int].contains(b)
        &&& b != a
    }

    /// A simple path from `start` to `goal`: no port and no factor occurs twice,
    /// and, under a limit, it holds at most `limit` ports.
    pub open spec fn is_simple_path(
        &self,
        start: PortId,
        goal: PortId,
        max_len: Option<usize>,
        ps: Seq<PortId>,
        fs: Seq<FactorId>,
    ) -> bool {
        &&& ps.len() >= 1
        &&& ps[0] == start
        &&& ps.last() == goal
        &&& fs.len() + 1 == ps.len()
        &&& ps.no_duplicates()
        &&& fs.no_duplicates()
        &&& forall|i: int| 0 <= i < fs.len() ==> #[trigger] self.is_step(ps[i], fs[i], ps[i + 1])
        &&& (max_len matches Some(limit) ==> ps.len() <= limit)
    }

    /// The ports of some simple path from `start` to `goal` of at most `max_len` ports.
    pub open spec fn is_simple_port_path(
        &self,
        start: PortId,
        goal: PortId,
        max_len: usize,
        ps: Seq<PortId>,
    ) -> bool {
        exists|fs: Seq<FactorId>| self.is_simple_path(start, goal, Some(max_len), ps, fs)
    }

    /// Find all simple paths from `start` to `goal` of at most `max_len` ports (no limit
    /// when `None`). No factor (net or component) is traversed twice on a path.
    /// Returns the ports of each path together with the factors traversed between them.
    pub fn all_simple_paths_with_factors(
        &self,
        start: PortId,
        goal: PortId,
        max_len: Option<usize>,
    ) -> (res: Vec<(Vec<PortId>, Vec<FactorId>)>)
        requires
            self.wf(),
            start.0 < self.spec_port_factors().len(),
        ensures
            forall|i: int|
                0 <= i < res@.len() ==> self.is_simple_path(
                    start,
                    goal,
                    max_len,
                    (#[trigger] pair_view(res@[i])).0,
                    pair_view(res@[i]).1,
                ),
            forall|ps: Seq<PortId>, fs: Seq<FactorId>|
                self.is_simple_path(start, goal, max_len, ps, fs) ==> exists|i: int|
                    0 <= i < res@.len() && #[trigger] pair_view(res@[i]) == (ps, fs),
            self.rows_distinct() ==> pairs_distinct(res@, 0),
    {
        self.search(start, goal, max_len)
    }

    /// Find all simple paths from `start` to `goal` of at most `max_len` ports.
    /// No factor (net or component) is traversed twice on a path.
    pub fn all_simple_paths(&self, start: PortId, goal: PortId, max_len: usize) -> (res: Vec<
        Vec<PortId>,
    >)
        requires
            self.wf(),
            start.0 < self.spec_port_factors().len(),
        ensures
            forall|i: int|
                0 <= i < res@.len() ==> self.is_simple_port_path(
                    start,
                    goal,
                    max_len,
                    #[trigger] res@[i]@,
                ),
            forall|ps: Seq<PortId>, fs: Seq<FactorId>|
                self.is_simple_path(start, goal, Some(max_len), ps, fs) ==> exists|i: int|
                    0 <= i < res@.len() && (#[trigger] res@[i])@ == ps,
            exists|fss: Seq<Seq<FactorId>>|
                #![trigger fss.len()]
                {
                    &&& fss.len() == res@.len()
                    &&& forall|i: int|
                        0 <= i < res@.len() ==> self.is_simple_path(
                            start,
                            goal,
                            Some(max_len),
                            res@[i]@,
                            #[trigger] fss[i],
                        )
                    &&& forall|ps: Seq<PortId>, fs: Seq<FactorId>|
                        self.is_simple_path(start, goal, Some(max_len), ps, fs) ==> exists|i: int|
                            0 <= i < res@.len() && (#[trigger] res@[i])@ == ps && fss[i] == fs
                    &&& self.rows_distinct() ==> forall|i: int, k: int|
                        #![trigger fss[i], fss[k]]
                        0 <= i < k < res@.len() ==> (res@[i]@, fss[i]) != (res@[k]@, fss[k])
                },
    {
        let found = self.search(start, goal, Some(max_len));
        let mut res: Vec<Vec<PortId>> = Vec::new();
        let n = found.len();
        let mut i: usize = 0;
        while i < n
            invariant
                n == found@.len(),
                i <= n,
                res@.len() == i,
                forall|k: int| 0 <= k < i ==> (#[trigger] res@[k])@ == found@[k].0@,
            decreases n - i,
        {
            res.push(copy_ports(&found[i].0));
            i = i + 1;
        }
        assert forall|k: int| 0 <= k < res@.len() implies self.is_simple_port_path(
            start,
            goal,
            max_len,
            #[trigger] res@[k]@,
        ) by {
            assert(pair_view(found@[k]).0 == res@[k]@);
            assert(self.is_simple_path(start, goal, Some(max_len), res@[k]@, pair_view(found@[k]).1));
        }
        assert forall|ps: Seq<PortId>, fs: Seq<FactorId>|
            self.is_simple_path(start, goal, Some(max_len), ps, fs) implies exists|i: int|
                0 <= i < res@.len() && (#[trigger] res@[i])@ == ps by {
            let k = choose|k: int| 0 <= k < found@.len() && #[trigger] pair_view(found@[k]) == (ps, fs);
            assert(res@[k]@ == ps);
        }
        let ghost fss = found@.map_values(|x: (Vec<PortId>, Vec<FactorId>)| x.1@);
        assert forall|i: int| 0 <= i < res@.len() implies self.is_simple_path(
            start,
            goal,
            Some(max_len),
            res@[i]@,
            #[trigger] fss[i],
        ) by {
            assert(pair_view(found@[i]) == (res@[i]@, fss[i]));
        }
        assert forall|ps: Seq<PortId>, fs: Seq<FactorId>|
            self.is_simple_path(start, goal, Some(max_len), ps, fs) implies exists|i: int|
                0 <= i < res@.len() && (#[trigger] res@[i])@ == ps && fss[i] == fs by {
            let k = choose|k: int| 0 <= k < found@.len() && #[trigger] pair_view(found@[k]) == (ps, fs);
            assert(res@[k]@ == ps && fss[k] == fs);
        }
        assert(self.rows_distinct() ==> forall|i: int, k: int|
            #![trigger fss[i], fss[k]]
            0 <= i < k < res@.len() ==> (res@[i]@, fss[i]) != (res@[k]@, fss[k])) by {
            if self.rows_distinct() {
            assert forall|i: int, k: int|
                #![trigger fss[i], fss[k]]
                0 <= i < k < res@.len() implies (res@[i]@, fss[i]) != (res@[k]@, fss[k]) by {
                assert(pair_view(found@[i]) == (res@[i]@, fss[i]));
                assert(pair_view(found@[k]) == (res@[k]@, fss[k]));
                assert(pair_view(found@[i]) != pair_view(found@[k]));
            }
            }
        }
        assert(fss.len() == res@.len());
        res
    }

    /// Depth-first search shared by both enumerations; a port whose two slots
    /// hold the same factor (an external port) explores that factor once.
    fn search(&self, start: PortId, goal: PortId, max_len: Option<usize>) -> (res: Vec<
        (Vec<PortId>, Vec<FactorId>),
    >)
        requires
            self.wf(),
            start.0 < self.spec_port_factors().len(),
        ensures
            forall|i: int|
                0 <= i < res@.len() ==> self.is_simple_path(
                    start,
                    goal,
                    max_len,
                    (#[trigger] pair_view(res@[i])).0,
                    pair_view(res@[i]).1,
                ),
            forall|ps: Seq<PortId>, fs: Seq<FactorId>|
                self.is_simple_path(start, goal, max_len, ps, fs) ==> exists|i: int|
                    0 <= i < res@.len() && #[trigger] pair_view(res@[i]) == (ps, fs),
            self.rows_distinct() ==> pairs_distinct(res@, 0),
    {
        let p_count = self.port_count();
        let f_count = self.factor_count();
        let mut vis_p = bitset_with_capacity(p_count);
        let mut vis_f = bitset_with_capacity(f_count);
        let mut path = port_stack_new();
        let mut factors = factor_stack_new();
        // Mark the starting port as visited, but not its factors: a factor is
        // marked only when it is traversed.
        bitset_insert(&mut vis_p, start.0 as usize);
        port_stack_push(&mut path, start);
        let mut out: Vec<(Vec<PortId>, Vec<FactorId>)> = Vec::new();
        proof {
            let ps = port_stack_items(path);
            assert(ps =~= seq![start]);
            assert(port_values(ps) =~= Set::<usize>::empty().insert(start.0 as usize)) by {
                assert forall|u: usize| port_values(ps).contains(u) <==> u == start.0 as usize by {
                    if u == start.0 as usize {
                        assert(ps[0].0 == u);
                    }
                }
            }
            assert(factor_values(factor_stack_items(factors)) =~= Set::<usize>::empty());
        }
        self.dfs(
            start,
            goal,
            max_len,
            &mut vis_p,
            &mut vis_f,
            &mut path,
            &mut factors,
            &mut out,
            Ghost(start),
        );
        proof {
            assert forall|ps: Seq<PortId>, fs: Seq<FactorId>|
                self.is_simple_path(start, goal, max_len, ps, fs) implies extends(
                ps,
                fs,
                seq![start],
                Seq::<FactorId>::empty(),
            ) by {
                assert(ps.take(1) =~= seq![start]);
                assert(fs.take(0) =~= Seq::<FactorId>::empty());
            }
        }
        out
    }

    #[verifier::rlimit(60)]
    fn dfs(
        &self,
        cur: PortId,
        goal: PortId,
        max_len: Option<usize>,
        vis_p: &mut FixedBitSet,
        vis_f: &mut FixedBitSet,
        path: &mut PortStack,
        factors: &mut FactorStack,
        out: &mut Vec<(Vec<PortId>, Vec<FactorId>)>,
        Ghost(start): Ghost<PortId>,
    )
        requires
            self.wf(),
            port_stack_items(*old(path)).len() >= 1,
            port_stack_items(*old(path))[0] == start,
            port_stack_items(*old(path)).last() == cur,
            factor_stack_items(*old(factors)).len() + 1 == port_stack_items(*old(path)).len(),
            port_stack_items(*old(path)).no_duplicates(),
            factor_stack_items(*old(factors)).no_duplicates(),
            forall|k: int|
                0 <= k < port_stack_items(*old(path)).len() ==> (#[trigger] port_stack_items(
                    *old(path),
                )[k]).0 < self.spec_port_factors().len(),
            forall|i: int|
                0 <= i < factor_stack_items(*old(factors)).len() ==> #[trigger] self.is_step(
                    port_stack_items(*old(path))[i],
                    factor_stack_items(*old(factors))[i],
                    port_stack_items(*old(path))[i + 1],
                ),
            forall|k: int|
                0 <= k < port_stack_items(*old(path)).len() - 1 ==> #[trigger] port_stack_items(
                    *old(path),
                )[k] != goal,
            bitset_len(*old(vis_p)) == self.spec_port_factors().len(),
            bitset_len(*old(vis_f)) == self.spec_factor_ports().len(),
            bitset_members(*old(vis_p)) == port_values(port_stack_items(*old(path))),
            bitset_members(*old(vis_f)) == factor_values(factor_stack_items(*old(factors))),
        ensures
            port_stack_items(*final(path)) == port_stack_items(*old(path)),
            factor_stack_items(*final(factors)) == factor_stack_items(*old(factors)),
            bitset_len(*final(vis_p)) == bitset_len(*old(vis_p)),
            bitset_len(*final(vis_f)) == bitset_len(*old(vis_f)),
            bitset_members(*final(vis_p)) == bitset_members(*old(vis_p)),
            bitset_members(*final(vis_f)) == bitset_members(*old(vis_f)),
            final(out)@.len() >= old(out)@.len(),
            forall|i: int| 0 <= i < old(out)@.len() ==> #[trigger] final(out)@[i] == old(out)@[i],
            forall|i: int|
                old(out)@.len() <= i < final(out)@.len() ==> self.is_simple_path(
                    start,
                    goal,
                    max_len,
                    (#[trigger] pair_view(final(out)@[i])).0,
                    pair_view(final(out)@[i]).1,
                ) && extends(
                    pair_view(final(out)@[i]).0,
                    pair_view(final(out)@[i]).1,
                    port_stack_items(*old(path)),
                    factor_stack_items(*old(factors)),
                ),
            forall|xs: Seq<PortId>, ys: Seq<FactorId>|
                self.is_simple_path(start, goal, max_len, xs, ys) && extends(
                    xs,
                    ys,
                    port_stack_items(*old(path)),
                    factor_stack_items(*old(factors)),
                ) ==> exists|i: int|
                    old(out)@.len() <= i < final(out)@.len() && #[trigger] pair_view(final(out)@[i])
                        == (xs, ys),
            self.rows_distinct() ==> pairs_distinct(final(out)@, old(out)@.len() as int),
        decreases self.spec_port_factors().len() - port_stack_items(*old(path)).len(),
    {
        let ghost ps = port_stack_items(*path);
        let ghost fs = factor_stack_items(*factors);
        let ghost out0 = out@;
        proof {
            lemma_distinct_ports_bounded(ps, self.spec_port_factors().len());
        }
        let plen = port_stack_len(path);
        if let Some(limit) = max_len {
            if plen > limit {
                return;
            }
        }
        if cur == goal {
            let pv = port_stack_to_vec(path);
            let fv = factor_stack_to_vec(factors);
            out.push((pv, fv));
            proof {
                assert(pair_view(out@[out0.len() as int]) == (ps, fs));
                assert(ps.take(ps.len() as int) =~= ps);
                assert(fs.take(fs.len() as int) =~= fs);
                assert forall|xs: Seq<PortId>, ys: Seq<FactorId>|
                    self.is_simple_path(start, goal, max_len, xs, ys) && extends(xs, ys, ps, fs)
                    implies xs == ps && ys == fs by {
                    if xs.len() > ps.len() {
                        assert(xs[ps.len() - 1] == ps[ps.len() - 1]);
                        assert(xs[ps.len() - 1] == xs[xs.len() - 1]);
                    }
                    assert(xs =~= ps);
                    assert(ys =~= fs);
                }
            }
            return;
        }
        let pfs = self.port_factors[cur.0 as usize];
        let f0 = pfs[0];
        let f1 = pfs[1];
        let nf: usize = if f0 == f1 {
            1
        } else {
            2
        };
        let mut fi: usize = 0;
        while fi < nf
            invariant
                self.wf(),
                1 <= nf <= 2,
                nf == 1 <==> f0 == f1,
                fi <= nf,
                cur.0 < self.spec_port_factors().len(),
                f0 == self.spec_port_factors()[cur.0 as int][0],
                f1 == self.spec_port_factors()[cur.0 as int][1],
                ps.len() >= 1,
                ps[0] == start,
                ps.last() == cur,
                cur != goal,
                fs.len() + 1 == ps.len(),
                ps.no_duplicates(),
                fs.no_duplicates(),
                ps.len() <= self.spec_port_factors().len(),
                forall|k: int| 0 <= k < ps.len() ==> (#[trigger] ps[k]).0 < self.spec_port_factors().len(),
                forall|i: int| 0 <= i < fs.len() ==> #[trigger] self.is_step(ps[i], fs[i], ps[i + 1]),
                forall|k: int| 0 <= k < ps.len() - 1 ==> #[trigger] ps[k] != goal,
                port_stack_items(*path) == ps,
                factor_stack_items(*factors) == fs,
                port_stack_items(*old(path)) == ps,
                bitset_len(*vis_p) == self.spec_port_factors().len(),
                bitset_len(*vis_f) == self.spec_factor_ports().len(),
                bitset_members(*vis_p) == port_values(ps),
                bitset_members(*vis_f) == factor_values(fs),
                out@.len() >= out0.len(),
                forall|i: int| 0 <= i < out0.len() ==> #[trigger] out@[i] == out0[i],
                forall|i: int|
                    out0.len() <= i < out@.len() ==> self.is_simple_path(
                        start,
                        goal,
                        max_len,
                        (#[trigger] pair_view(out@[i])).0,
                        pair_view(out@[i]).1,
                    ) && extends(pair_view(out@[i]).0, pair_view(out@[i]).1, ps, fs),
                forall|xs: Seq<PortId>, ys: Seq<FactorId>|
                    self.is_simple_path(start, goal, max_len, xs, ys) && extends(xs, ys, ps, fs)
                        && xs.len() > ps.len() && ((fi >= 1 && ys[fs.len() as int] == f0) || (fi
                        >= 2 && ys[fs.len() as int] == f1)) ==> exists|i: int|
                        out0.len() <= i < out@.len() && #[trigger] pair_view(out@[i]) == (xs, ys),
                forall|i: int|
                    out0.len() <= i < out@.len() ==> (#[trigger] out@[i]).1@.len() > fs.len() && ((fi >= 1
                        && out@[i].1@[fs.len() as int] == f0) || (fi >= 2 && out@[i].1@[fs.len() as int] == f1)),
                self.rows_distinct() ==> pairs_distinct(out@, out0.len() as int),
            decreases nf - fi,
        {
            let fid = if fi == 0 {
                f0
            } else {
                f1
            };
            if !bitset_contains(vis_f, fid.0 as usize) {
                let row = self.factor_ports.row_unchecked(fid.0 as usize);
                let ghost out1 = out@;
                proof {
                    assert forall|i: int| out0.len() <= i < out1.len() implies (#[trigger] out1[i]).1@.len()
                        > fs.len() && out1[i].1@[fs.len() as int] != fid by {
                        assert(out1[i] == out@[i]);
                    }
                }
                let mut j: usize = 0;
                while j < row.len()
                    invariant
                        self.wf(),
                        fid.0 < self.spec_factor_ports().len(),
                        fid == self.spec_port_factors()[cur.0 as int][0] || fid
                            == self.spec_port_factors()[cur.0 as int][1],
                        row@ == self.spec_factor_ports()[fid.0 as int],
                        !factor_values(fs).contains(fid.0 as usize),
                        j <= row@.len(),
                        cur.0 < self.spec_port_factors().len(),
                        ps.len() >= 1,
                        ps[0] == start,
                        ps.last() == cur,
                        cur != goal,
                        fs.len() + 1 == ps.len(),
                        ps.no_duplicates(),
                        fs.no_duplicates(),
                        forall|k: int|
                            0 <= k < ps.len() ==> (#[trigger] ps[k]).0 < self.spec_port_factors().len(),
                        forall|i: int|
                            0 <= i < fs.len() ==> #[trigger] self.is_step(ps[i], fs[i], ps[i + 1]),
                        forall|k: int| 0 <= k < ps.len() - 1 ==> #[trigger] ps[k] != goal,
                        port_stack_items(*path) == ps,
                        factor_stack_items(*factors) == fs,
                        port_stack_items(*old(path)) == ps,
                        bitset_len(*vis_p) == self.spec_port_factors().len(),
                        bitset_len(*vis_f) == self.spec_factor_ports().len(),
                        bitset_members(*vis_p) == port_values(ps),
                        bitset_members(*vis_f) == factor_values(fs),
                        out@.len() >= out1.len(),
                        out1.len() >= out0.len(),
                        forall|i: int| 0 <= i < out1.len() ==> #[trigger] out@[i] == out1[i],
                        forall|i: int|
                            out0.len() <= i < out@.len() ==> self.is_simple_path(
                                start,
                                goal,
                                max_len,
                                (#[trigger] pair_view(out@[i])).0,
                                pair_view(out@[i]).1,
                            ) && extends(pair_view(out@[i]).0, pair_view(out@[i]).1, ps, fs),
                        forall|xs: Seq<PortId>, ys: Seq<FactorId>|
                            self.is_simple_path(start, goal, max_len, xs, ys) && extends(
                                xs,
                                ys,
                                ps,
                                fs,
                            ) && xs.len() > ps.len() && ys[fs.len() as int] == fid
                                && row@.take(j as int).contains(xs[ps.len() as int]) ==> exists|i: int|
                                out1.len() <= i < out@.len() && #[trigger] pair_view(out@[i]) == (
                                    xs,
                                    ys,
                                ),
                        forall|i: int|
                            out0.len() <= i < out1.len() ==> (#[trigger] out1[i]).1@.len() > fs.len()
                                && out1[i].1@[fs.len() as int] != fid,
                        forall|i: int|
                            out1.len() <= i < out@.len() ==> (#[trigger] out@[i]).0@.len() > ps.len()
                                && out@[i].1@.len() > fs.len() && out@[i].1@[fs.len() as int] == fid
                                && row@.take(j as int).contains(out@[i].0@[ps.len() as int]),
                        self.rows_distinct() ==> pairs_distinct(out@, out0.len() as int),
                    decreases row@.len() - j,
                {
                    let q = row[j];
                    proof {
                        assert(self.spec_factor_ports()[fid.0 as int][j as int] == q);
                    }
                    if q != cur && !bitset_contains(vis_p, q.0 as usize) {
                        let ghost out2 = out@;
                        bitset_insert(vis_f, fid.0 as usize);
                        bitset_insert(vis_p, q.0 as usize);
                        port_stack_push(path, q);
                        factor_stack_push(factors, fid);
                        let ghost ps2 = ps.push(q);
                        let ghost fs2 = fs.push(fid);
                        proof {
                            assert(!ps.contains(q)) by {
                                if ps.contains(q) {
                                    let k = choose|k: int| 0 <= k < ps.len() && ps[k] == q;
                                    assert(port_values(ps).contains(q.0 as usize));
                                }
                            }
                            assert(!fs.contains(fid)) by {
                                if fs.contains(fid) {
                                    let k = choose|k: int| 0 <= k < fs.len() && fs[k] == fid;
                                    assert(factor_values(fs).contains(fid.0 as usize));
                                }
                            }
                            assert(self.spec_factor_ports()[fid.0 as int].contains(q));
                            assert(self.is_step(cur, fid, q));
                            assert(port_values(ps2) =~= port_values(ps).insert(q.0 as usize)) by {
                                assert forall|u: usize| port_values(ps2).contains(u) <==> port_values(
                                    ps,
                                ).insert(q.0 as usize).contains(u) by {
                                    if port_values(ps).contains(u) {
                                        let k = choose|k: int| 0 <= k < ps.len() && ps[k].0 == u;
                                        assert(ps2[k].0 == u);
                                    }
                                    if u == q.0 as usize {
                                        assert(ps2[ps.len() as int].0 == u);
                                    }
                                    if port_values(ps2).contains(u) {
                                        let k = choose|k: int| 0 <= k < ps2.len() && ps2[k].0 == u;
                                        if k < ps.len() {
                                            assert(ps[k].0 == u);
                                        }
                                    }
                                }
                            }
                            assert(factor_values(fs2) =~= factor_values(fs).insert(fid.0 as usize)) by {
                                assert forall|u: usize| factor_values(fs2).contains(u) <==> factor_values(
                                    fs,
                                ).insert(fid.0 as usize).contains(u) by {
                                    if factor_values(fs).contains(u) {
                                        let k = choose|k: int| 0 <= k < fs.len() && fs[k].0 == u;
                                        assert(fs2[k].0 == u);
                                    }
                                    if u == fid.0 as usize {
                                        assert(fs2[fs.len() as int].0 == u);
                                    }
                                    if factor_values(fs2).contains(u) {
                                        let k = choose|k: int| 0 <= k < fs2.len() && fs2[k].0 == u;
                                        if k < fs.len() {
                                            assert(fs[k].0 == u);
                                        }
                                    }
                                }
                            }
                            assert forall|i: int| 0 <= i < fs2.len() implies #[trigger] self.is_step(
                                ps2[i],
                                fs2[i],
                                ps2[i + 1],
                            ) by {
                                if i < fs.len() {
                                    assert(ps2[i] == ps[i]);
                                    assert(ps2[i + 1] == ps[i + 1]);
                                    assert(fs2[i] == fs[i]);
                                }
                            }
                            assert(port_stack_items(*path) =~= ps2);
                            assert(factor_stack_items(*factors) =~= fs2);
                            assert(self.spec_factor_ports()[fid.0 as int][j as int].0
                                < self.spec_port_factors().len());
                            assert(ps2.no_duplicates());
                            assert forall|k: int| 0 <= k < ps2.len() implies (#[trigger] ps2[k]).0
                                < self.spec_port_factors().len() by {
                                if k < ps.len() {
                                    assert(ps2[k] == ps[k]);
                                }
                            }
                            lemma_distinct_ports_bounded(ps2, self.spec_port_factors().len());
                        }
                        self.dfs(
                            q,
                            goal,
                            max_len,
                            vis_p,
                            vis_f,
                            path,
                            factors,
                            out,
                            Ghost(start),
                        );
                        let _ = factor_stack_pop(factors);
                        let _ = port_stack_pop(path);
                        bitset_clear_bit(vis_p, q.0 as usize);
                        bitset_clear_bit(vis_f, fid.0 as usize);
                        proof {
                            assert(port_stack_items(*path) =~= ps);
                            assert(factor_stack_items(*factors) =~= fs);
                            assert(bitset_members(*vis_p) =~= port_values(ps));
                            assert(bitset_members(*vis_f) =~= factor_values(fs));
                            assert forall|i: int|
                                out0.len() <= i < out@.len() implies self.is_simple_path(
                                start,
                                goal,
                                max_len,
                                (#[trigger] pair_view(out@[i])).0,
                                pair_view(out@[i]).1,
                            ) && extends(pair_view(out@[i]).0, pair_view(out@[i]).1, ps, fs) by {
                                if i >= out2.len() {
                                    let xs = pair_view(out@[i]).0;
                                    let ys = pair_view(out@[i]).1;
                                    assert(xs.take(ps.len() as int) =~= ps2.take(ps.len() as int));
                                    assert(ys.take(fs.len() as int) =~= fs2.take(fs.len() as int));
                                    assert(ps2.take(ps.len() as int) =~= ps);
                                    assert(fs2.take(fs.len() as int) =~= fs);
                                } else {
                                    assert(out@[i] == out2[i]);
                                }
                            }
                            assert forall|xs: Seq<PortId>, ys: Seq<FactorId>|
                                self.is_simple_path(start, goal, max_len, xs, ys) && extends(
                                    xs,
                                    ys,
                                    ps,
                                    fs,
                                ) && xs.len() > ps.len() && ys[fs.len() as int] == fid
                                    && row@.take(j + 1).contains(xs[ps.len() as int]) implies exists|i: int|
                                out1.len() <= i < out@.len() && #[trigger] pair_view(out@[i]) == (
                                    xs,
                                    ys,
                                ) by {
                                if xs[ps.len() as int] == q {
                                    assert(xs.take(ps2.len() as int) =~= ps2);
                                    assert(ys.take(fs2.len() as int) =~= fs2);
                                    assert(extends(xs, ys, ps2, fs2));
                                } else {
                                    let k = choose|k: int| 0 <= k < j + 1 && #[trigger] row@.take(j + 1)[k] == xs[ps.len() as int];
                                    assert(k < j);
                                    assert(row@.take(j as int)[k] == xs[ps.len() as int]);
                                    let i = choose|i: int| out1.len() <= i < out2.len() && #[trigger] pair_view(out2[i]) == (xs, ys);
                                    assert(out@[i] == out2[i]);
                                }
                            }
                            assert forall|i: int| out2.len() <= i < out@.len() implies (#[trigger] out@[i]).0@.len()
                                > ps.len() && out@[i].1@.len() > fs.len() && out@[i].0@[ps.len() as int] == q
                                && out@[i].1@[fs.len() as int] == fid by {
                                let xs = pair_view(out@[i]).0;
                                let ys = pair_view(out@[i]).1;
                                assert(extends(xs, ys, ps2, fs2));
                                assert(xs.take(ps2.len() as int)[ps.len() as int] == ps2[ps.len() as int]);
                                assert(ys.take(fs2.len() as int)[fs.len() as int] == fs2[fs.len() as int]);
                            }
                            assert forall|i: int| out1.len() <= i < out2.len() implies (#[trigger] out@[i]).0@.len()
                                > ps.len() && out@[i].1@.len() > fs.len() && out@[i].1@[fs.len() as int] == fid
                                && row@.take(j + 1).contains(out@[i].0@[ps.len() as int]) by {
                                assert(out@[i] == out2[i]);
                                let x = out@[i].0@[ps.len() as int];
                                let m = choose|m: int| 0 <= m < row@.take(j as int).len() && row@.take(j as int)[m] == x;
                                assert(row@.take(j + 1)[m] == x);
                            }
                            assert forall|i: int| out2.len() <= i < out@.len() implies (#[trigger] out@[i]).0@.len()
                                > ps.len() && out@[i].1@.len() > fs.len() && out@[i].1@[fs.len() as int] == fid
                                && row@.take(j + 1).contains(out@[i].0@[ps.len() as int]) by {
                                assert(row@.take(j + 1)[j as int] == q);
                            }
                            if self.rows_distinct() {
                                assert(row@.no_duplicates());
                                assert forall|i: int, k: int|
                                    #![trigger out@[i], out@[k]]
                                    out0.len() <= i < k < out2.len() implies pair_view(out@[i]) != pair_view(out@[k]) by {
                                    assert(out@[i] == out2[i]);
                                    assert(out@[k] == out2[k]);
                                }
                                assert forall|i: int| out0.len() <= i < out1.len() implies (#[trigger] out@[i]).1@.len()
                                    > fs.len() && out@[i].1@[fs.len() as int] != fid by {
                                    assert(out@[i] == out1[i]);
                                }
                                assert forall|i: int| out1.len() <= i < out2.len() implies (#[trigger] out@[i]).0@.len()
                                    > ps.len() && row@.take(j as int).contains(out@[i].0@[ps.len() as int]) by {
                                    assert(out@[i] == out2[i]);
                                }
                                lemma_merge_distinct(
                                    out@,
                                    out0.len() as int,
                                    out1.len() as int,
                                    out2.len() as int,
                                    ps.len() as int,
                                    fs.len() as int,
                                    q,
                                    fid,
                                    row@,
                                    j as int,
                                );
                            }
                        }
                    } else {
                        proof {
                            assert forall|xs: Seq<PortId>, ys: Seq<FactorId>|
                                self.is_simple_path(start, goal, max_len, xs, ys) && extends(
                                    xs,
                                    ys,
                                    ps,
                                    fs,
                                ) && xs.len() > ps.len() && ys[fs.len() as int] == fid
                                    && row@.take(j + 1).contains(xs[ps.len() as int]) implies exists|i: int|
                                out1.len() <= i < out@.len() && #[trigger] pair_view(out@[i]) == (
                                    xs,
                                    ys,
                                ) by {
                                let x = xs[ps.len() as int];
                                let k = choose|k: int| 0 <= k < j + 1 && #[trigger] row@.take(j + 1)[k] == x;
                                if k == j {
                                    assert(x == q);
                                    assert(xs[ps.len() - 1] == ps[ps.len() - 1]);
                                    assert(self.is_step(xs[fs.len() as int], ys[fs.len() as int], xs[fs.len() as int + 1]));
                                    if q != cur {
                                        assert(port_values(ps).contains(q.0 as usize));
                                        let m = choose|m: int| 0 <= m < ps.len() && ps[m].0 == q.0 as usize;
                                        assert(ps[m] == q);
                                        assert(xs[m] == ps[m]);
                                    }
                                } else {
                                    assert(row@.take(j as int)[k] == x);
                                }
                            }
                            assert forall|i: int| out1.len() <= i < out@.len() implies (#[trigger] out@[i]).0@.len()
                                > ps.len() && out@[i].1@.len() > fs.len() && out@[i].1@[fs.len() as int] == fid
                                && row@.take(j + 1).contains(out@[i].0@[ps.len() as int]) by {
                                let x = out@[i].0@[ps.len() as int];
                                let m = choose|m: int| 0 <= m < row@.take(j as int).len() && row@.take(j as int)[m] == x;
                                assert(row@.take(j + 1)[m] == x);
                            }
                        }
                    }
                    j = j + 1;
                }
                proof {
                    assert forall|xs: Seq<PortId>, ys: Seq<FactorId>|
                        self.is_simple_path(start, goal, max_len, xs, ys) && extends(xs, ys, ps, fs)
                            && xs.len() > ps.len() && ((fi + 1 >= 1 && ys[fs.len() as int] == f0) || (fi + 1
                            >= 2 && ys[fs.len() as int] == f1)) implies exists|i: int|
                            out0.len() <= i < out@.len() && #[trigger] pair_view(out@[i]) == (xs, ys) by {
                        if ys[fs.len() as int] == fid {
                            assert(xs[ps.len() - 1] == ps[ps.len() - 1]);
                            assert(self.is_step(xs[fs.len() as int], ys[fs.len() as int], xs[fs.len() as int + 1]));
                            assert(row@.take(row@.len() as int) =~= row@);
                            let i = choose|i: int| out1.len() <= i < out@.len() && #[trigger] pair_view(out@[i]) == (xs, ys);
                        } else {
                            let i = choose|i: int| out0.len() <= i < out1.len() && #[trigger] pair_view(out1[i]) == (xs, ys);
                            assert(out@[i] == out1[i]);
                        }
                    }
                    assert forall|i: int| out0.len() <= i < out@.len() implies (#[trigger] out@[i]).1@.len()
                        > fs.len() && ((fi + 1 >= 1 && out@[i].1@[fs.len() as int] == f0) || (fi + 1 >= 2
                        && out@[i].1@[fs.len() as int] == f1)) by {
                        if i < out1.len() {
                            assert(out@[i] == out1[i]);
                        }
                    }
                }
            } else {
                proof {
                    assert forall|xs: Seq<PortId>, ys: Seq<FactorId>|
                        self.is_simple_path(start, goal, max_len, xs, ys) && extends(xs, ys, ps, fs)
                            && xs.len() > ps.len() && ys[fs.len() as int] == fid implies false by {
                        assert(factor_values(fs).contains(fid.0 as usize));
                        let m = choose|m: int| 0 <= m < fs.len() && fs[m].0 == fid.0 as usize;
                        assert(fs[m] == fid);
                        assert(ys[m] == fs[m]);
                    }
                }
            }
            fi = fi + 1;
        }
        proof {
            assert forall|xs: Seq<PortId>, ys: Seq<FactorId>|
                self.is_simple_path(start, goal, max_len, xs, ys) && extends(xs, ys, ps, fs)
                implies exists|i: int|
                out0.len() <= i < out@.len() && #[trigger] pair_view(out@[i]) == (xs, ys) by {
                if xs.len() == ps.len() {
                    assert(xs =~= ps);
                    assert(false);
                }
                assert(xs[ps.len() - 1] == ps[ps.len() - 1]);
                assert(self.is_step(xs[fs.len() as int], ys[fs.len() as int], xs[fs.len() as int + 1]));
            }
        }
    }
}

} // verus!
