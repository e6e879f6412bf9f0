//! Sequence helpers shared by the specifications.
use vstd::prelude::*;

verus! {

/// The elements of `s` in order of first occurrence, each once.
pub open spec fn dedup<T>(s: Seq<T>) -> Seq<T>
    decreases s.len(),
{
    if s.len() == 0 {
        Seq::empty()
    } else {
        let r = dedup(s.drop_last());
        if r.contains(s.last()) {
            r
        } else {
            r.push(s.last())
        }
    }
}

/// `dedup` keeps exactly the elements of `s`, without repetition.
pub proof fn lemma_dedup<T>(s: Seq<T>)
    ensures
        dedup(s).no_duplicates(),
        forall|x: T| dedup(s).contains(x) <==> s.contains(x),
        dedup(s).len() <= s.len(),
    decreases s.len(),
{
    if s.len() > 0 {
        lemma_dedup(s.drop_last());
        let r = dedup(s.drop_last());
        assert forall|x: T| dedup(s).contains(x) <==> s.contains(x) by {
            if s.drop_last().contains(x) {
                let k = choose|k: int| 0 <= k < s.drop_last().len() && s.drop_last()[k] == x;
                assert(s[k] == x);
            }
            if s.contains(x) {
                let k = choose|k: int| 0 <= k < s.len() && s[k] == x;
                if k < s.len() - 1 {
                    assert(s.drop_last()[k] == x);
                }
            }
            if !r.contains(s.last()) {
                if dedup(s).contains(x) {
                    let k = choose|k: int| 0 <= k < r.push(s.last()).len() && r.push(s.last())[k] == x;
                    if k < r.len() {
                        assert(r[k] == x);
                    }
                }
                if x == s.last() {
                    assert(r.push(s.last())[r.len() as int] == x);
                }
                if r.contains(x) {
                    let k = choose|k: int| 0 <= k < r.len() && r[k] == x;
                    assert(r.push(s.last())[k] == x);
                }
            }
        }
    }
}

/// `dedup` of a sequence extended by one element.
pub proof fn lemma_dedup_push<T>(s: Seq<T>, x: T)
    ensures
        dedup(s.push(x)) == if dedup(s).contains(x) {
            dedup(s)
        } else {
            dedup(s).push(x)
        },
{
    assert(s.push(x).drop_last() =~= s);
}

/// `dedup` of a prefix is a prefix of `dedup` of the whole.
pub proof fn lemma_dedup_prefix<T>(s: Seq<T>, a: int)
    requires
        0 <= a <= s.len(),
    ensures
        dedup(s.take(a)).len() <= dedup(s).len(),
        dedup(s).take(dedup(s.take(a)).len() as int) == dedup(s.take(a)),
    decreases s.len() - a,
{
    if a == s.len() {
        assert(s.take(a) =~= s);
        assert(dedup(s).take(dedup(s).len() as int) =~= dedup(s));
    } else {
        lemma_dedup_prefix(s, a + 1);
        assert(s.take(a + 1) =~= s.take(a).push(s[a]));
        lemma_dedup_push(s.take(a), s[a]);
        let d = dedup(s);
        let d1 = dedup(s.take(a + 1));
        let d0 = dedup(s.take(a));
        assert(d.take(d0.len() as int) =~= d1.take(d0.len() as int));
        assert(d1.take(d0.len() as int) =~= d0);
    }
}

/// The index of the first occurrence of `x` in `s`, or `-1` when it does not occur.
pub open spec fn index_of<T>(s: Seq<T>, x: T) -> int
    decreases s.len(),
{
    if s.len() == 0 {
        -1
    } else if index_of(s.drop_last(), x) >= 0 {
        index_of(s.drop_last(), x)
    } else if s.last() == x {
        s.len() - 1
    } else {
        -1
    }
}

pub proof fn lemma_index_of<T>(s: Seq<T>, x: T)
    ensures
        s.contains(x) <==> index_of(s, x) >= 0,
        index_of(s, x) >= 0 ==> index_of(s, x) < s.len() && s[index_of(s, x)] == x,
        index_of(s, x) >= 0 ==> forall|k: int| 0 <= k < index_of(s, x) ==> s[k] != x,
    decreases s.len(),
{
    if s.len() > 0 {
        lemma_index_of(s.drop_last(), x);
        if s.contains(x) {
            let k = choose|k: int| 0 <= k < s.len() && s[k] == x;
            if k < s.len() - 1 {
                assert(s.drop_last()[k] == x);
            }
        }
        if s.drop_last().contains(x) {
            let k = choose|k: int| 0 <= k < s.drop_last().len() && s.drop_last()[k] == x;
            assert(s[k] == x);
        } else {
            assert forall|k: int| 0 <= k < s.len() - 1 implies s[k] != x by {
                assert(s[k] == s.drop_last()[k]);
            }
        }
        if index_of(s.drop_last(), x) >= 0 {
            assert forall|k: int| 0 <= k < index_of(s, x) implies s[k] != x by {
                assert(s[k] == s.drop_last()[k]);
            }
        }
    }
}

/// In a sequence without repetition, the index of an element is its position.
pub proof fn lemma_index_of_unique<T>(s: Seq<T>, k: int)
    requires
        s.no_duplicates(),
        0 <= k < s.len(),
    ensures
        index_of(s, s[k]) == k,
{
    lemma_index_of(s, s[k]);
    let i = index_of(s, s[k]);
    if i != k {
        assert(s[i] == s[k]);
    }
}

} // verus!
