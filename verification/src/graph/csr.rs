use vstd::prelude::*;

verus! {

/// Compressed-sparse-row list: row `i` is the slice `flat[offsets[i]..offsets[i + 1]]`.
#[derive(Clone, Debug)]
pub struct CsrList<T> {
    offsets: Vec<u32>,
    flat: Vec<T>,
}

/// Error returned by the checked row accessor.
#[derive(Debug, PartialEq, Eq)]
pub enum CsrError {
    RowOob,
}

/// The rows described by an offset table over a flat sequence.
pub open spec fn rows_of<T>(offsets: Seq<u32>, flat: Seq<T>) -> Seq<Seq<T>> {
    Seq::new(
        (offsets.len() - 1) as nat,
        |i: int| flat.subrange(offsets[i] as int, offsets[i + 1] as int),
    )
}

/// Total number of elements over a sequence of rows.
pub open spec fn total_len<T>(rows: Seq<Seq<T>>) -> nat
    decreases rows.len(),
{
    if rows.len() == 0 {
        0
    } else {
        total_len(rows.drop_last()) + rows.last().len()
    }
}

/// Concatenation of a sequence of rows.
pub open spec fn concat<T>(rows: Seq<Seq<T>>) -> Seq<T>
    decreases rows.len(),
{
    if rows.len() == 0 {
        Seq::empty()
    } else {
        concat(rows.drop_last()) + rows.last()
    }
}

/// The rows of each bucket, as sequences.
pub open spec fn bucket_views<T>(buckets: Seq<Vec<T>>) -> Seq<Seq<T>> {
    Seq::new(buckets.len(), |i: int| buckets[i]@)
}

proof fn lemma_concat_len<T>(rows: Seq<Seq<T>>)
    ensures
        concat(rows).len() == total_len(rows),
    decreases rows.len(),
{
    if rows.len() > 0 {
        lemma_concat_len(rows.drop_last());
    }
}

proof fn lemma_total_len_prefix<T>(rows: Seq<Seq<T>>, i: int)
    requires
        0 <= i <= rows.len(),
    ensures
        total_len(rows.take(i)) <= total_len(rows),
    decreases rows.len() - i,
{
    if i < rows.len() {
        lemma_total_len_prefix(rows, i + 1);
        assert(rows.take(i + 1).drop_last() =~= rows.take(i));
    } else {
        assert(rows.take(i) =~= rows);
    }
}

proof fn lemma_rows_total<T>(offsets: Seq<u32>, flat: Seq<T>, k: int)
    requires
        offsets.len() >= 1,
        0 <= k < offsets.len(),
        forall|i: int, j: int| 0 <= i <= j < offsets.len() ==> offsets[i] <= offsets[j],
        offsets.last() == flat.len(),
    ensures
        total_len(rows_of(offsets, flat).take(k)) == offsets[k] - offsets[0],
    decreases k,
{
    if k > 0 {
        lemma_rows_total(offsets, flat, k - 1);
        assert(rows_of(offsets, flat).take(k).drop_last() =~= rows_of(offsets, flat).take(k - 1));
        assert(offsets[k] <= offsets.last());
    } else {
        assert(rows_of(offsets, flat).take(0) =~= Seq::<Seq<T>>::empty());
    }
}

impl<T> CsrList<T> {
    /// Well-formedness: offsets start at 0, never decrease, and end at the flat length.
    pub closed spec fn wf(&self) -> bool {
        &&& self.offsets@.len() >= 1
        &&& self.offsets@[0] == 0
        &&& forall|i: int, j: int|
            0 <= i <= j < self.offsets@.len() ==> self.offsets@[i] <= self.offsets@[j]
        &&& self.offsets@.last() == self.flat@.len()
    }

    /// The list as a sequence of rows.
    pub closed spec fn view_rows(&self) -> Seq<Seq<T>> {
        rows_of(self.offsets@, self.flat@)
    }

    /// Build from buckets; preserves per-row order.
    pub fn from_buckets(buckets: Vec<Vec<T>>) -> (res: Self)
        requires
            total_len(bucket_views(buckets@)) <= u32::MAX,
        ensures
            res.wf(),
            res.view_rows() == bucket_views(buckets@),
    {
        let ghost rows = bucket_views(buckets@);
        let mut offsets: Vec<u32> = Vec::new();
        offsets.push(0);
        let mut total: u32 = 0;
        let mut flat: Vec<T> = Vec::new();
        let n = buckets.len();
        let mut remaining = buckets;
        let mut k: usize = 0;
        let mut rev2: Vec<Vec<T>> = Vec::new();
        proof {
            lemma_total_len_prefix(rows, 0);
            assert(rows.take(0) =~= Seq::<Seq<T>>::empty());
        }
        while remaining.len() > 0
            invariant
                remaining@ + rev2@.reverse() == buckets@,
            decreases remaining.len(),
        {
            let b = remaining.pop().unwrap();
            rev2.push(b);
            assert(remaining@ + rev2@.reverse() =~= buckets@);
        }
        assert(rev2@.reverse() =~= buckets@);
        assert forall|i: int| 0 <= i < n implies rev2@[i] == buckets@[n - 1 - i] by {
            assert(rev2@.reverse()[n - 1 - i] == rev2@[i]);
        }
        // rev2 holds the buckets in reverse order; pop yields them front to back.
        while k < n
            invariant
                n == buckets@.len(),
                rows == bucket_views(buckets@),
                k <= n,
                rev2@.len() == n - k,
                forall|i: int| 0 <= i < n - k ==> rev2@[i] == buckets@[n - 1 - i],
                offsets@.len() == k + 1,
                offsets@[0] == 0,
                forall|i: int, j: int| 0 <= i <= j < offsets@.len() ==> offsets@[i] <= offsets@[j],
                offsets@.last() == flat@.len(),
                total == flat@.len(),
                total == total_len(rows.take(k as int)),
                total_len(rows) <= u32::MAX,
                forall|i: int|
                    0 <= i < k ==> #[trigger] flat@.subrange(
                        offsets@[i] as int,
                        offsets@[i + 1] as int,
                    ) == rows[i],
            decreases n - k,
        {
            let mut b = rev2.pop().unwrap();
            assert(b@ == rows[k as int]);
            proof {
                assert(rows.take(k + 1).drop_last() =~= rows.take(k as int));
                lemma_total_len_prefix(rows, k + 1);
            }
            let ghost old_flat = flat@;
            let ghost old_offsets = offsets@;
            let blen = b.len();
            flat.append(&mut b);
            total = total + blen as u32;
            offsets.push(total);
            assert forall|i: int| 0 <= i < k + 1 implies #[trigger] flat@.subrange(
                offsets@[i] as int,
                offsets@[i + 1] as int,
            ) == rows[i] by {
                if i < k {
                    assert(offsets@[i] == old_offsets[i]);
                    assert(offsets@[i + 1] == old_offsets[i + 1]);
                    assert(old_offsets[i + 1] <= old_offsets.last());
                    assert(flat@.subrange(offsets@[i] as int, offsets@[i + 1] as int) =~= old_flat.subrange(
                        offsets@[i] as int,
                        offsets@[i + 1] as int,
                    ));
                } else {
                    assert(flat@.subrange(offsets@[i] as int, offsets@[i + 1] as int) =~= rows[i]);
                }
            }
            k = k + 1;
        }
        let res = CsrList { offsets, flat };
        assert(res.view_rows() =~= rows);
        res
    }

    /// Number of rows.
    pub fn rows(&self) -> (n: usize)
        requires
            self.wf(),
        ensures
            n == self.view_rows().len(),
    {
        self.offsets.len() - 1
    }

    /// Number of stored elements over all rows.
    pub fn nnz(&self) -> (n: usize)
        requires
            self.wf(),
        ensures
            n == total_len(self.view_rows()),
    {
        proof {
            lemma_rows_total(self.offsets@, self.flat@, self.offsets@.len() - 1);
            assert(self.view_rows().take(self.offsets@.len() - 1) =~= self.view_rows());
        }
        self.flat.len()
    }

    /// Checked row accessor.
    pub fn row(&self, i: usize) -> (res: Result<&[T], CsrError>)
        requires
            self.wf(),
        ensures
            i < self.view_rows().len() ==> (res matches Ok(s) && s@ == self.view_rows()[i as int]),
            i >= self.view_rows().len() ==> res == Err::<&[T], CsrError>(CsrError::RowOob),
    {
        if i >= self.offsets.len() - 1 {
            return Err(CsrError::RowOob);
        }
        let a = self.offsets[i] as usize;
        let b = self.offsets[i + 1] as usize;
        Ok(&self.flat.as_slice()[a..b])
    }

    /// Row accessor for an index known to be in range.
    pub fn row_unchecked(&self, i: usize) -> (s: &[T])
        requires
            self.wf(),
            i < self.view_rows().len(),
        ensures
            s@ == self.view_rows()[i as int],
    {
        let _n = self.offsets.len();
        let a = self.offsets[i] as usize;
        let b = self.offsets[i + 1] as usize;
        &self.flat.as_slice()[a..b]
    }
}

} // verus!
