//! A string-keyed map kept as a list of entries in insertion order.
use vstd::prelude::*;

verus! {

/// The map described by a list of (key, value) entries.
pub open spec fn assoc_map<V: View>(t: Seq<(String, V)>) -> Map<Seq<char>, V::V> {
    Map::new(
        |k: Seq<char>| exists|j: int| 0 <= j < t.len() && t[j].0@ == k,
        |k: Seq<char>| t[choose|j: int| 0 <= j < t.len() && t[j].0@ == k].1@,
    )
}

/// The position of the first entry with key `k`, if any.
pub open spec fn key_index<V>(es: Seq<(Seq<char>, V)>, k: Seq<char>) -> Option<int>
    decreases es.len(),
{
    if es.len() == 0 {
        None
    } else {
        match key_index(es.drop_last(), k) {
            Some(i) => Some(i),
            None => if es.last().0 == k {
                Some(es.len() - 1)
            } else {
                None
            },
        }
    }
}

/// Inserting into a list of entries: a present key keeps its place and takes the
/// new value; a new key goes last.
pub open spec fn assoc_insert<V>(es: Seq<(Seq<char>, V)>, k: Seq<char>, v: V) -> Seq<(Seq<char>, V)> {
    match key_index(es, k) {
        Some(i) => es.update(i, (k, v)),
        None => es.push((k, v)),
    }
}

pub proof fn lemma_key_index<V>(es: Seq<(Seq<char>, V)>, k: Seq<char>)
    ensures
        key_index(es, k) matches Some(i) ==> 0 <= i < es.len() && es[i].0 == k && forall|j: int|
            0 <= j < i ==> es[j].0 != k,
        key_index(es, k) is None ==> forall|j: int| 0 <= j < es.len() ==> es[j].0 != k,
    decreases es.len(),
{
    if es.len() > 0 {
        lemma_key_index(es.drop_last(), k);
        assert forall|j: int| 0 <= j < es.len() - 1 implies es[j] == es.drop_last()[j] by {}
    }
}

/// No key occurs twice among the entries.
pub open spec fn assoc_keys_unique<V>(t: Seq<(String, V)>) -> bool {
    forall|i: int, j: int| 0 <= i < j < t.len() ==> t[i].0@ != t[j].0@
}

pub proof fn lemma_assoc_lookup<V: View>(t: Seq<(String, V)>, j: int)
    requires
        assoc_keys_unique(t),
        0 <= j < t.len(),
    ensures
        assoc_map(t).contains_key(t[j].0@),
        assoc_map(t)[t[j].0@] == t[j].1@,
{
    let k = t[j].0@;
    assert(assoc_map(t).dom().contains(k));
    let c = choose|c: int| 0 <= c < t.len() && t[c].0@ == k;
    if c != j {
        if c < j {
            assert(t[c].0@ != t[j].0@);
        } else {
            assert(t[j].0@ != t[c].0@);
        }
    }
}

/// A map from strings to values; iteration follows insertion order.
#[derive(Debug)]
pub struct StrMap<V> {
    entries: Vec<(String, V)>,
}

impl<V: View> View for StrMap<V> {
    type V = Map<Seq<char>, V::V>;

    closed spec fn view(&self) -> Map<Seq<char>, V::V> {
        assoc_map(self.entries@)
    }
}

impl<V: View> StrMap<V> {
    /// Keys are unique.
    pub closed spec fn wf(&self) -> bool {
        assoc_keys_unique(self.entries@)
    }

    /// The entries in insertion order, as views.
    pub closed spec fn entries_view(&self) -> Seq<(Seq<char>, V::V)> {
        self.entries@.map_values(|e: (String, V)| (e.0@, e.1@))
    }

    /// The values, in insertion order.
    pub closed spec fn values(&self) -> Seq<V> {
        self.entries@.map_values(|e: (String, V)| e.1)
    }

    /// The keys in insertion order.
    pub closed spec fn key_order(&self) -> Seq<Seq<char>> {
        self.entries@.map_values(|e: (String, V)| e.0@)
    }

    pub fn new() -> (m: Self)
        ensures
            m.wf(),
            m@ == Map::<Seq<char>, V::V>::empty(),
            m.key_order() == Seq::<Seq<char>>::empty(),
            m.entries_view() == Seq::<(Seq<char>, V::V)>::empty(),
    {
        let m = StrMap { entries: Vec::new() };
        proof {
            assert(m@ =~= Map::<Seq<char>, V::V>::empty());
            assert(m.key_order() =~= Seq::<Seq<char>>::empty());
            assert(m.entries_view() =~= Seq::<(Seq<char>, V::V)>::empty());
        }
        m
    }

    fn find(&self, key: &String) -> (r: Option<usize>)
        ensures
            r matches Some(j) ==> j < self.entries@.len() && self.entries@[j as int].0@ == key@,
            r is None ==> forall|k: int| 0 <= k < self.entries@.len() ==> self.entries@[k].0@ != key@,
    {
        let mut j: usize = 0;
        while j < self.entries.len()
            invariant
                j <= self.entries@.len(),
                forall|k: int| 0 <= k < j ==> self.entries@[k].0@ != key@,
            decreases self.entries@.len() - j,
        {
            if self.entries[j].0 == *key {
                return Some(j);
            }
            j = j + 1;
        }
        None
    }

    /// Whether the key is present.
    pub fn contains_key(&self, key: &str) -> (b: bool)
        requires
            self.wf(),
        ensures
            b == self@.contains_key(key@),
    {
        let k = key.to_owned();
        match self.find(&k) {
            Some(j) => {
                proof {
                    lemma_assoc_lookup(self.entries@, j as int);
                }
                true
            },
            None => {
                proof {
                    if self@.contains_key(key@) {
                        let c = choose|c: int| 0 <= c < self.entries@.len() && self.entries@[c].0@ == key@;
                    }
                }
                false
            },
        }
    }

    /// The value under a key.
    pub fn get(&self, key: &str) -> (r: Option<&V>)
        requires
            self.wf(),
        ensures
            match r {
                Some(v) => self@.contains_key(key@) && v@ == self@[key@] && self.values().contains(*v),
                None => !self@.contains_key(key@),
            },
    {
        let k = key.to_owned();
        match self.find(&k) {
            Some(j) => {
                proof {
                    lemma_assoc_lookup(self.entries@, j as int);
                    assert(self.values()[j as int] == self.entries@[j as int].1);
                }
                Some(&self.entries[j].1)
            },
            None => {
                proof {
                    if self@.contains_key(key@) {
                        let c = choose|c: int| 0 <= c < self.entries@.len() && self.entries@[c].0@ == key@;
                    }
                }
                None
            },
        }
    }

    /// Number of entries.
    pub fn len(&self) -> (n: usize)
        requires
            self.wf(),
        ensures
            n == self.key_order().len(),
    {
        self.entries.len()
    }

    /// The entries in insertion order.
    pub fn entries(&self) -> (r: &[(String, V)])
        ensures
            r@.map_values(|e: (String, V)| e.0@) == self.key_order(),
            r@.map_values(|e: (String, V)| (e.0@, e.1@)) == self.entries_view(),
            forall|i: int| 0 <= i < r@.len() ==> #[trigger] self@.contains_key(r@[i].0@),
            self.wf() ==> forall|i: int| 0 <= i < r@.len() ==> #[trigger] self@[r@[i].0@] == r@[i].1@,
    {
        proof {
            assert forall|i: int| 0 <= i < self.entries@.len() implies #[trigger] self@.contains_key(
                self.entries@[i].0@,
            ) by {
                assert(assoc_map(self.entries@).dom().contains(self.entries@[i].0@));
            }
            if self.wf() {
                assert forall|i: int| 0 <= i < self.entries@.len() implies #[trigger] self@[self.entries@[i].0@]
                    == self.entries@[i].1@ by {
                    lemma_assoc_lookup(self.entries@, i);
                }
            }
        }
        self.entries.as_slice()
    }

    /// The keys in insertion order.
    pub fn keys(&self) -> (r: Vec<String>)
        ensures
            r@.map_values(|s: String| s@) == self.key_order(),
    {
        let mut out: Vec<String> = Vec::new();
        let mut i: usize = 0;
        while i < self.entries.len()
            invariant
                i <= self.entries@.len(),
                out@.len() == i,
                forall|k: int| 0 <= k < i ==> (#[trigger] out@[k])@ == self.entries@[k].0@,
            decreases self.entries@.len() - i,
        {
            out.push(self.entries[i].0.clone());
            i = i + 1;
        }
        proof {
            assert(out@.map_values(|s: String| s@) =~= self.key_order());
        }
        out
    }

    /// A key is present exactly when it is among the keys in order; keys are distinct.
    pub proof fn lemma_key_order_contains(&self, k: Seq<char>)
        ensures
            self@.contains_key(k) <==> self.key_order().contains(k),
    {
        if self@.contains_key(k) {
            let j = choose|j: int| 0 <= j < self.entries@.len() && self.entries@[j].0@ == k;
            assert(self.key_order()[j] == k);
        }
        if self.key_order().contains(k) {
            let j = choose|j: int| 0 <= j < self.key_order().len() && self.key_order()[j] == k;
            assert(self.entries@[j].0@ == k);
        }
    }

    /// The keys in order hold no repetition.
    /// A key's value is found at its place among the entries.
    pub proof fn lemma_view_key_index(&self, k: Seq<char>)
        requires
            self.wf(),
        ensures
            self@.contains_key(k) <==> key_index(self.entries_view(), k) is Some,
            key_index(self.entries_view(), k) matches Some(i) ==> self@[k] == self.entries_view()[i].1,
    {
        let ev = self.entries_view();
        lemma_key_index(ev, k);
        if self@.contains_key(k) {
            let j = choose|j: int| 0 <= j < self.entries@.len() && self.entries@[j].0@ == k;
            assert(ev[j].0 == k);
        }
        match key_index(ev, k) {
            Some(i) => {
                assert(self.entries@[i].0@ == k);
                lemma_assoc_lookup(self.entries@, i);
            },
            None => {},
        }
    }

    /// Two maps with the same entries are the same map.
    pub proof fn lemma_same_entries(&self, other: &Self)
        requires
            self.wf(),
            other.wf(),
            self.entries_view() == other.entries_view(),
        ensures
            self@ == other@,
    {
        let a = self.entries@;
        let b = other.entries@;
        assert(a.len() == self.entries_view().len());
        assert(b.len() == other.entries_view().len());
        assert forall|j: int| 0 <= j < a.len() implies a[j].0@ == b[j].0@ && a[j].1@ == b[j].1@ by {
            assert(self.entries_view()[j] == other.entries_view()[j]);
        }
        assert forall|k: Seq<char>| #[trigger] self@.contains_key(k) == other@.contains_key(k) by {
            if self@.contains_key(k) {
                let j = choose|j: int| 0 <= j < a.len() && a[j].0@ == k;
                assert(b[j].0@ == k);
            }
            if other@.contains_key(k) {
                let j = choose|j: int| 0 <= j < b.len() && b[j].0@ == k;
                assert(a[j].0@ == k);
            }
        }
        assert forall|k: Seq<char>| self@.contains_key(k) implies self@[k] == other@[k] by {
            let j = choose|j: int| 0 <= j < a.len() && a[j].0@ == k;
            lemma_assoc_lookup(a, j);
            assert(b[j].0@ == k);
            lemma_assoc_lookup(b, j);
        }
        assert(self@ =~= other@);
    }

    pub proof fn lemma_keys_distinct(&self)
        requires
            self.wf(),
        ensures
            self.key_order().no_duplicates(),
    {
        assert forall|a: int, b: int| 0 <= a < self.key_order().len() && 0 <= b < self.key_order().len() && a != b implies self.key_order()[a] != self.key_order()[b] by {
            if a < b {
                assert(self.entries@[a].0@ != self.entries@[b].0@);
            } else {
                assert(self.entries@[b].0@ != self.entries@[a].0@);
            }
        }
    }

    /// The keys in order are the first parts of the entries.
    pub proof fn lemma_entries_keys(&self)
        ensures
            self.key_order() == self.entries_view().map_values(|e: (Seq<char>, V::V)| e.0),
    {
        assert(self.key_order() =~= self.entries_view().map_values(|e: (Seq<char>, V::V)| e.0));
    }

    /// The value under the key of an entry is that entry's value.
    pub proof fn lemma_lookup_entry(&self, i: int)
        requires
            self.wf(),
            0 <= i < self.entries_view().len(),
        ensures
            self@.contains_key(self.entries_view()[i].0),
            self@[self.entries_view()[i].0] == self.entries_view()[i].1,
    {
        lemma_assoc_lookup(self.entries@, i);
    }

    /// Remove a key; the other entries keep their order.
    pub fn remove(&mut self, key: &str)
        requires
            old(self).wf(),
        ensures
            final(self).wf(),
            final(self)@ == old(self)@.remove(key@),
    {
        let ghost old_t = self.entries@;
        let mut kept: Vec<(String, V)> = Vec::new();
        let mut rest = Vec::new();
        std::mem::swap(&mut rest, &mut self.entries);
        let ghost all = rest@;
        let k = key.to_owned();
        let total = rest.len();
        let mut i: usize = 0;
        while rest.len() > 0
            invariant
                total == all.len(),
                all == old_t,
                assoc_keys_unique(all),
                i + rest@.len() == all.len(),
                rest@ == all.subrange(i as int, all.len() as int),
                assoc_keys_unique(kept@),
                forall|a: int| 0 <= a < kept@.len() ==> kept@[a].0@ != k@,
                forall|x: Seq<char>| #[trigger] assoc_map(kept@).contains_key(x) <==> (x != k@ && exists|j: int|
                    0 <= j < i && all[j].0@ == x),
                forall|a: int| 0 <= a < kept@.len() ==> exists|j: int| 0 <= j < i && #[trigger] all[j] == #[trigger] kept@[a],
            decreases rest@.len(),
        {
            let e = rest.remove(0);
            proof {
                assert(e == all[i as int]);
                assert(rest@ =~= all.subrange(i + 1, all.len() as int));
            }
            if e.0 == k {
            } else {
                let ghost before = kept@;
                kept.push(e);
                proof {
                    assert forall|a: int, b: int| 0 <= a < b < kept@.len() implies kept@[a].0@ != kept@[b].0@ by {
                        if b == before.len() {
                            let j = choose|j: int| 0 <= j < i && all[j] == before[a];
                            assert(all[j].0@ != all[i as int].0@);
                        }
                    }
                    assert forall|a: int| 0 <= a < kept@.len() implies exists|j: int| 0 <= j < i + 1 && #[trigger] all[j] == #[trigger] kept@[a] by {
                        if a == before.len() {
                            assert(all[i as int] == kept@[a]);
                        } else {
                            let j = choose|j: int| 0 <= j < i && all[j] == before[a];
                            assert(all[j] == kept@[a]);
                        }
                    }
                    assert forall|x: Seq<char>| #[trigger] assoc_map(kept@).contains_key(x) <==> (x != k@ && exists|j: int|
                        0 <= j < i + 1 && all[j].0@ == x) by {
                        if assoc_map(kept@).contains_key(x) {
                            let c = choose|c: int| 0 <= c < kept@.len() && kept@[c].0@ == x;
                            if c < before.len() {
                                assert(assoc_map(before).contains_key(x));
                            } else {
                                assert(all[i as int].0@ == x);
                            }
                        }
                        if x != k@ && exists|j: int| 0 <= j < i + 1 && all[j].0@ == x {
                            let j = choose|j: int| 0 <= j < i + 1 && all[j].0@ == x;
                            if j < i {
                                assert(assoc_map(before).contains_key(x));
                                let c = choose|c: int| 0 <= c < before.len() && before[c].0@ == x;
                                assert(kept@[c].0@ == x);
                            } else {
                                assert(kept@[before.len() as int].0@ == x);
                            }
                        }
                    }
                }
            }
            proof {
                if e.0@ == k@ {
                    assert forall|x: Seq<char>| #[trigger] assoc_map(kept@).contains_key(x) <==> (x != k@ && exists|j: int|
                        0 <= j < i + 1 && all[j].0@ == x) by {
                        if x != k@ && exists|j: int| 0 <= j < i + 1 && all[j].0@ == x {
                            let j = choose|j: int| 0 <= j < i + 1 && all[j].0@ == x;
                            assert(j < i);
                        }
                    }
                }
            }
            i = i + 1;
        }
        self.entries = kept;
        proof {
            let m = assoc_map(old_t);
            assert forall|x: Seq<char>| #[trigger] assoc_map(self.entries@).contains_key(x) <==> m.remove(k@).contains_key(x) by {
                if m.contains_key(x) {
                    let c = choose|c: int| 0 <= c < old_t.len() && old_t[c].0@ == x;
                }
            }
            assert forall|x: Seq<char>| #[trigger] assoc_map(self.entries@).contains_key(x) implies assoc_map(self.entries@)[x] == m.remove(k@)[x] by {
                let c = choose|c: int| 0 <= c < self.entries@.len() && self.entries@[c].0@ == x;
                lemma_assoc_lookup(self.entries@, c);
                let j = choose|j: int| 0 <= j < all.len() && #[trigger] all[j] == self.entries@[c];
                lemma_assoc_lookup(old_t, j);
            }
            assert(assoc_map(self.entries@) =~= m.remove(k@));
        }
    }

    /// The keys form a finite set no larger than the number of entries.
    /// The number of entries is the number of keys.
    pub proof fn lemma_dom_len(&self)
        requires
            self.wf(),
        ensures
            self@.dom().finite(),
            self@.dom().len() == self.key_order().len(),
    {
        self.lemma_dom_finite();
        self.lemma_keys_distinct();
        assert forall|k: Seq<char>| self@.dom().contains(k) <==> self.key_order().to_set().contains(k) by {
            self.lemma_key_order_contains(k);
        }
        assert(self@.dom() =~= self.key_order().to_set());
        self.key_order().unique_seq_to_set();
    }

    pub proof fn lemma_dom_finite(&self)
        ensures
            self@.dom().finite(),
            self@.dom().len() <= self.key_order().len(),
    {
        assert forall|k: Seq<char>| self@.dom().contains(k) <==> self.key_order().to_set().contains(k) by {
            self.lemma_key_order_contains(k);
        }
        assert(self@.dom() =~= self.key_order().to_set());
        vstd::seq_lib::seq_to_set_is_finite(self.key_order());
        self.key_order().lemma_cardinality_of_set();
    }

    /// Insert or replace; a new key goes last, a present key keeps its place.
    pub fn insert(&mut self, key: String, value: V)
        requires
            old(self).wf(),
        ensures
            final(self).wf(),
            final(self)@ == old(self)@.insert(key@, value@),
            old(self)@.contains_key(key@) ==> final(self).key_order() == old(self).key_order(),
            !old(self)@.contains_key(key@) ==> final(self).key_order() == old(self).key_order().push(key@),
            final(self).entries_view() == assoc_insert(old(self).entries_view(), key@, value@),
    {
        let ghost old_t = self.entries@;
        let ghost m = assoc_map(old_t);
        let ghost kv = key@;
        let ghost vv = value@;
        match self.find(&key) {
            Some(j) => {
                self.entries.set(j, (key, value));
                proof {
                    let t = self.entries@;
                    assert(m.contains_key(kv)) by {
                        assert(old_t[j as int].0@ == kv);
                    }
                    assert forall|a: int, b: int| 0 <= a < b < t.len() implies t[a].0@ != t[b].0@ by {
                        assert(old_t[a].0@ != old_t[b].0@);
                    }
                    assert forall|k: Seq<char>| #[trigger] assoc_map(t).contains_key(k) <==> m.insert(
                        kv,
                        vv,
                    ).contains_key(k) by {
                        if assoc_map(t).contains_key(k) {
                            let c = choose|c: int| 0 <= c < t.len() && t[c].0@ == k;
                            assert(old_t[c].0@ == k);
                        }
                        if m.contains_key(k) {
                            let c = choose|c: int| 0 <= c < old_t.len() && old_t[c].0@ == k;
                            assert(t[c].0@ == k);
                        }
                    }
                    assert forall|k: Seq<char>| #[trigger] assoc_map(t).contains_key(k) implies assoc_map(t)[k]
                        == m.insert(kv, vv)[k] by {
                        let c = choose|c: int| 0 <= c < t.len() && t[c].0@ == k;
                        lemma_assoc_lookup(t, c);
                        if c != j {
                            lemma_assoc_lookup(old_t, c);
                        }
                    }
                    assert(assoc_map(t) =~= m.insert(kv, vv));
                    assert(t.map_values(|e: (String, V)| e.0@) =~= old_t.map_values(|e: (String, V)| e.0@));
                    let ev = old_t.map_values(|e: (String, V)| (e.0@, e.1@));
                    lemma_key_index(ev, kv);
                    match key_index(ev, kv) {
                        Some(i) => {
                            if i != j {
                                if i < j {
                                    assert(old_t[i].0@ != old_t[j as int].0@);
                                } else {
                                    assert(old_t[j as int].0@ != old_t[i].0@);
                                }
                            }
                        },
                        None => {
                            assert(ev[j as int].0 == kv);
                        },
                    }
                    assert(t.map_values(|e: (String, V)| (e.0@, e.1@)) =~= assoc_insert(ev, kv, vv));
                }
            },
            None => {
                self.entries.push((key, value));
                proof {
                    let t = self.entries@;
                    assert(!m.contains_key(kv)) by {
                        if m.contains_key(kv) {
                            let c = choose|c: int| 0 <= c < old_t.len() && old_t[c].0@ == kv;
                        }
                    }
                    assert forall|a: int, b: int| 0 <= a < b < t.len() implies t[a].0@ != t[b].0@ by {
                        if b < old_t.len() {
                            assert(old_t[a].0@ != old_t[b].0@);
                        } else {
                            assert(t[a] == old_t[a]);
                        }
                    }
                    assert forall|k: Seq<char>| #[trigger] assoc_map(t).contains_key(k) <==> m.insert(
                        kv,
                        vv,
                    ).contains_key(k) by {
                        if assoc_map(t).contains_key(k) {
                            let c = choose|c: int| 0 <= c < t.len() && t[c].0@ == k;
                            if c < old_t.len() {
                                assert(old_t[c].0@ == k);
                            }
                        }
                        if m.contains_key(k) {
                            let c = choose|c: int| 0 <= c < old_t.len() && old_t[c].0@ == k;
                            assert(t[c].0@ == k);
                        }
                        if k == kv {
                            assert(t[old_t.len() as int].0@ == k);
                        }
                    }
                    assert forall|k: Seq<char>| #[trigger] assoc_map(t).contains_key(k) implies assoc_map(t)[k]
                        == m.insert(kv, vv)[k] by {
                        let c = choose|c: int| 0 <= c < t.len() && t[c].0@ == k;
                        lemma_assoc_lookup(t, c);
                        if c < old_t.len() {
                            assert(t[c] == old_t[c]);
                            lemma_assoc_lookup(old_t, c);
                        }
                    }
                    assert(assoc_map(t) =~= m.insert(kv, vv));
                    assert(t.map_values(|e: (String, V)| e.0@) =~= old_t.map_values(|e: (String, V)| e.0@).push(kv));
                    let ev = old_t.map_values(|e: (String, V)| (e.0@, e.1@));
                    lemma_key_index(ev, kv);
                    if key_index(ev, kv) is Some {
                        let i = key_index(ev, kv)->0;
                        assert(old_t[i].0@ == kv);
                    }
                    assert(t.map_values(|e: (String, V)| (e.0@, e.1@)) =~= assoc_insert(ev, kv, vv));
                }
            },
        }
    }
}

} // verus!
