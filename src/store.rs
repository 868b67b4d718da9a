//! The deduplicating store of text records: bulk insert that skips texts already present
//! (the first embedding wins) and rejects a batch with a malformed embedding whole.
//!
//! An embedding component is held as the bit pattern of its `f32` value.
use vstd::prelude::*;

verus! {

/// Why a bulk insert did not happen.
#[derive(PartialEq, Eq, Structural, Debug, Clone, Copy)]
pub enum StoreError {
    /// The durable store could not be reached.
    StoreUnavailable,
    /// Some embedding in the batch does not have the store's dimension.
    DimensionMismatch,
}

/// A text with its embedding, keyed by the text.
pub struct TextRecord {
    pub text: String,
    pub embedding: Vec<u32>,
}

/// A record as plain values: its text and the components of its embedding.
pub type Row = (Seq<char>, Seq<u32>);

impl TextRecord {
    pub open spec fn row(&self) -> Row {
        (self.text@, self.embedding@)
    }
}

/// The records of a vector, as rows.
pub open spec fn rows_of(v: Seq<TextRecord>) -> Seq<Row> {
    v.map_values(|r: TextRecord| r.row())
}

/// Whether some row has text `t`.
pub open spec fn has_text(rows: Seq<Row>, t: Seq<char>) -> bool {
    exists|i: int| 0 <= i < rows.len() && (#[trigger] rows[i]).0 == t
}

/// Whether every row of `batch` has an embedding of `dim` components.
pub open spec fn dims_match(batch: Seq<Row>, dim: nat) -> bool {
    forall|i: int| 0 <= i < batch.len() ==> (#[trigger] batch[i]).1.len() == dim
}

/// The rows after inserting `batch` in order, skipping each row whose text is already
/// there (from before or from earlier in the batch).
pub open spec fn insert_skipping(rows: Seq<Row>, batch: Seq<Row>) -> Seq<Row>
    decreases batch.len(),
{
    if batch.len() == 0 {
        rows
    } else {
        let before = insert_skipping(rows, batch.drop_last());
        if has_text(before, batch.last().0) {
            before
        } else {
            before.push(batch.last())
        }
    }
}

/// Whether no two rows share a text.
pub open spec fn texts_unique(rows: Seq<Row>) -> bool {
    forall|i: int, j: int| 0 <= i < j < rows.len() ==> (#[trigger] rows[i]).0 != (#[trigger] rows[j]).0
}

/// Inserting a text a second time, with the same or another embedding, is a no-op: the
/// second insert adds no row, and the text is held by exactly one row, with the first
/// embedding that was inserted for it.
pub proof fn lemma_insert_idempotent(rows: Seq<Row>, t: Seq<char>, e1: Seq<u32>, e2: Seq<u32>)
    requires
        texts_unique(rows),
    ensures
        ({
            let once = insert_skipping(rows, seq![(t, e1)]);
            &&& insert_skipping(once, seq![(t, e2)]) == once
            &&& has_text(once, t)
            &&& forall|i: int, j: int|
                0 <= i < once.len() && 0 <= j < once.len() && (#[trigger] once[i]).0 == t && (
                #[trigger] once[j]).0 == t ==> i == j
            &&& !has_text(rows, t) ==> once == rows.push((t, e1))
        }),
{
    let once = insert_skipping(rows, seq![(t, e1)]);
    assert(seq![(t, e1)].drop_last() =~= Seq::<Row>::empty());
    assert(seq![(t, e2)].drop_last() =~= Seq::<Row>::empty());
    assert(insert_skipping(rows, Seq::<Row>::empty()) == rows);
    assert(insert_skipping(once, Seq::<Row>::empty()) == once);
    assert(seq![(t, e1)].last() == (t, e1));
    assert(seq![(t, e2)].last() == (t, e2));
    if has_text(rows, t) {
        assert(once == rows);
    } else {
        assert(once == rows.push((t, e1)));
        assert(once[rows.len() as int].0 == t);
        assert(has_text(once, t));
        assert forall|i: int, j: int|
            0 <= i < once.len() && 0 <= j < once.len() && (#[trigger] once[i]).0 == t && (
            #[trigger] once[j]).0 == t implies i == j by {
            if i < rows.len() {
                assert(once[i] == rows[i]);
            }
            if j < rows.len() {
                assert(once[j] == rows[j]);
            }
        }
    }
}

/// Accepts a batch whose embeddings all have `dim` components, and rejects it otherwise.
pub fn check_dimensions(batch: &Vec<TextRecord>, dim: usize) -> (r: Result<(), StoreError>)
    ensures
        r is Ok <==> dims_match(rows_of(batch@), dim as nat),
        r is Err ==> r == Err::<(), StoreError>(StoreError::DimensionMismatch),
{
    let mut k: usize = 0;
    while k < batch.len()
        invariant
            k <= batch@.len(),
            forall|j: int| 0 <= j < k ==> (#[trigger] rows_of(batch@)[j]).1.len() == dim,
        decreases batch@.len() - k,
    {
        if batch[k].embedding.len() != dim {
            assert(rows_of(batch@)[k as int].1.len() != dim);
            return Err(StoreError::DimensionMismatch);
        }
        k = k + 1;
    }
    Ok(())
}

/// Records keyed by their text, in order of insertion, every embedding of one dimension.
pub struct TextStore {
    dim: usize,
    records: Vec<TextRecord>,
}

impl TextStore {
    /// The stored records, in order of insertion.
    pub closed spec fn rows(&self) -> Seq<Row> {
        rows_of(self.records@)
    }

    /// The number of components every stored embedding has.
    pub closed spec fn dim(&self) -> nat {
        self.dim as nat
    }

    pub closed spec fn wf(&self) -> bool {
        &&& texts_unique(self.rows())
        &&& dims_match(self.rows(), self.dim as nat)
    }

    pub fn new(dim: usize) -> (r: TextStore)
        ensures
            r.wf(),
            r.dim() == dim,
            r.rows() == Seq::<Row>::empty(),
    {
        let r = TextStore { dim, records: Vec::new() };
        assert(r.rows() =~= Seq::<Row>::empty());
        r
    }

    pub fn len(&self) -> (n: usize)
        ensures
            n == self.rows().len(),
    {
        self.records.len()
    }

    /// Whether a record with text `text` is stored.
    pub fn contains(&self, text: &String) -> (r: bool)
        ensures
            r == has_text(self.rows(), text@),
    {
        let mut i: usize = 0;
        while i < self.records.len()
            invariant
                i <= self.records@.len(),
                forall|j: int| 0 <= j < i ==> (#[trigger] self.rows()[j]).0 != text@,
            decreases self.records@.len() - i,
        {
            if self.records[i].text == *text {
                assert(self.rows()[i as int].0 == text@);
                return true;
            }
            i = i + 1;
        }
        false
    }

    /// The stored records, in order of insertion.
    pub fn records(&self) -> (r: &Vec<TextRecord>)
        ensures
            rows_of(r@) == self.rows(),
    {
        &self.records
    }

    /// Inserts `batch` as one operation. A record whose text is already stored, or
    /// appeared earlier in the batch, is skipped and changes nothing. If any embedding
    /// has the wrong dimension, nothing is inserted. Returns how many were inserted.
    pub fn insert_batch(&mut self, batch: &Vec<TextRecord>) -> (r: Result<usize, StoreError>)
        requires
            old(self).wf(),
        ensures
            final(self).wf(),
            final(self).dim() == old(self).dim(),
            dims_match(rows_of(batch@), old(self).dim()) ==> r is Ok,
            match r {
                Ok(n) => {
                    &&& final(self).rows() == insert_skipping(old(self).rows(), rows_of(batch@))
                    &&& n == final(self).rows().len() - old(self).rows().len()
                },
                Err(e) => {
                    &&& e == StoreError::DimensionMismatch
                    &&& !dims_match(rows_of(batch@), old(self).dim())
                    &&& final(self).rows() == old(self).rows()
                },
            },
    {
        if check_dimensions(batch, self.dim).is_err() {
            return Err(StoreError::DimensionMismatch);
        }
        let ghost start = self.rows();
        let ghost bv = rows_of(batch@);
        let mut inserted: usize = 0;
        let mut k: usize = 0;
        while k < batch.len()
            invariant
                self.wf(),
                self.dim == old(self).dim,
                start == old(self).rows(),
                bv == rows_of(batch@),
                dims_match(bv, self.dim as nat),
                k <= batch@.len(),
                inserted <= k,
                self.rows() == insert_skipping(start, bv.subrange(0, k as int)),
                self.rows().len() == start.len() + inserted,
            decreases batch@.len() - k,
        {
            let rec = &batch[k];
            let present = self.contains(&rec.text);
            assert(bv.subrange(0, k + 1).drop_last() =~= bv.subrange(0, k as int));
            if !present {
                let text = rec.text.clone();
                let embedding = rec.embedding.clone();
                assert(embedding@ =~= rec.embedding@);
                let ghost before = self.rows();
                self.records.push(TextRecord { text, embedding });
                assert(self.rows() =~= before.push(bv[k as int]));
                assert forall|i: int, j: int| 0 <= i < j < self.rows().len() implies
                    (#[trigger] self.rows()[i]).0 != (#[trigger] self.rows()[j]).0 by {
                    if j == before.len() {
                        assert(before[i] == self.rows()[i]);
                    } else {
                        assert(before[i] == self.rows()[i]);
                        assert(before[j] == self.rows()[j]);
                    }
                }
                inserted = inserted + 1;
            }
            k = k + 1;
        }
        assert(bv.subrange(0, batch@.len() as int) =~= bv);
        Ok(inserted)
    }
}

} // verus!
