//! Size-bounded accumulation of fetched documents into numbered batches.
use vstd::prelude::*;
use vstd::arithmetic::div_mod::{lemma_fundamental_div_mod, lemma_fundamental_div_mod_converse};
use vstd::arithmetic::mul::lemma_mul_inequality;

verus! {

/// The text contents of a vector of strings.
pub open spec fn texts_of(v: Seq<String>) -> Seq<Seq<char>> {
    v.map_values(|s: String| s@)
}

/// A group of documents handed to the send path, numbered at flush time.
pub struct Batch {
    pub number: usize,
    pub texts: Vec<String>,
}

impl Batch {
    pub open spec fn contents(&self) -> Seq<Seq<char>> {
        texts_of(self.texts@)
    }
}

/// Buffer of pending documents plus the number the next batch will get.
///
/// The only way to touch the buffer is `append_and_maybe_flush` and `drain`, so the
/// length check and the clear always happen in one step.
pub struct BatchAccumulator {
    batch_size: usize,
    pending: Vec<String>,
    next_batch_number: usize,
}

impl BatchAccumulator {
    /// Documents appended since the last flush, in order of appending.
    pub closed spec fn pending(&self) -> Seq<Seq<char>> {
        texts_of(self.pending@)
    }

    /// Number the next emitted batch will carry.
    pub closed spec fn next_number(&self) -> nat {
        self.next_batch_number as nat
    }

    /// Number of documents at which a batch is flushed.
    pub closed spec fn batch_size(&self) -> nat {
        self.batch_size as nat
    }

    pub closed spec fn wf(&self) -> bool {
        &&& self.batch_size > 0
        &&& self.pending@.len() < self.batch_size
        &&& self.next_batch_number >= 1
    }

    pub fn new(batch_size: usize) -> (r: BatchAccumulator)
        requires
            batch_size > 0,
        ensures
            r.wf(),
            r.pending() == Seq::<Seq<char>>::empty(),
            r.next_number() == 1,
            r.batch_size() == batch_size,
    {
        let r = BatchAccumulator { batch_size, pending: Vec::new(), next_batch_number: 1 };
        assert(r.pending() =~= Seq::<Seq<char>>::empty());
        r
    }

    /// Hands out the whole buffer as the next batch and empties it.
    fn take_batch(&mut self) -> (b: Batch)
        requires
            old(self).next_batch_number < usize::MAX,
        ensures
            b.number == old(self).next_batch_number,
            b.texts@ == old(self).pending@,
            final(self).pending@ == Seq::<String>::empty(),
            final(self).next_batch_number == old(self).next_batch_number + 1,
            final(self).batch_size == old(self).batch_size,
    {
        let mut texts: Vec<String> = Vec::new();
        std::mem::swap(&mut texts, &mut self.pending);
        let number = self.next_batch_number;
        self.next_batch_number = number + 1;
        Batch { number, texts }
    }

    /// Appends `doc`; when the buffer reaches the batch size, the buffer leaves as the
    /// next numbered batch and the buffer starts over empty.
    pub fn append_and_maybe_flush(&mut self, doc: String) -> (r: Option<Batch>)
        requires
            old(self).wf(),
            old(self).next_number() < usize::MAX,
        ensures
            final(self).wf(),
            final(self).batch_size() == old(self).batch_size(),
            ({
                let full = old(self).pending().push(doc@);
                if full.len() >= old(self).batch_size() {
                    &&& r is Some
                    &&& r->0.number == old(self).next_number()
                    &&& r->0.contents() == full
                    &&& final(self).pending() == Seq::<Seq<char>>::empty()
                    &&& final(self).next_number() == old(self).next_number() + 1
                } else {
                    &&& r is None
                    &&& final(self).pending() == full
                    &&& final(self).next_number() == old(self).next_number()
                }
            }),
    {
        self.pending.push(doc);
        proof {
            assert(texts_of(self.pending@) =~= texts_of(old(self).pending@).push(doc@));
        }
        if self.pending.len() >= self.batch_size {
            let b = self.take_batch();
            assert(self.pending() =~= Seq::<Seq<char>>::empty());
            Some(b)
        } else {
            None
        }
    }

    /// Hands out what remains as a last batch, if anything remains.
    pub fn drain(&mut self) -> (r: Option<Batch>)
        requires
            old(self).wf(),
            old(self).pending().len() > 0 ==> old(self).next_number() < usize::MAX,
        ensures
            final(self).wf(),
            final(self).batch_size() == old(self).batch_size(),
            final(self).pending() == Seq::<Seq<char>>::empty(),
            if old(self).pending().len() == 0 {
                &&& r is None
                &&& final(self).next_number() == old(self).next_number()
            } else {
                &&& r is Some
                &&& r->0.number == old(self).next_number()
                &&& r->0.contents() == old(self).pending()
                &&& final(self).next_number() == old(self).next_number() + 1
            },
    {
        if self.pending.len() == 0 {
            assert(self.pending() =~= Seq::<Seq<char>>::empty());
            None
        } else {
            let b = self.take_batch();
            assert(self.pending() =~= Seq::<Seq<char>>::empty());
            Some(b)
        }
    }
}

/// How many batches a run over `n` documents with batch size `b` emits: `ceil(n / b)`.
pub open spec fn batch_count(n: nat, b: nat) -> nat
    recommends
        b > 0,
{
    ((n + b - 1) / (b as int)) as nat
}

/// The `i`-th batch of a run: `b` consecutive documents starting at `i * b`, cut short
/// at the end of `docs`.
pub open spec fn chunk(docs: Seq<Seq<char>>, b: nat, i: int) -> Seq<Seq<char>> {
    let start = i * b;
    let end = if start + b <= docs.len() { start + b } else { docs.len() as int };
    docs.subrange(start, end)
}

/// All batches of a run, in emission order.
pub open spec fn chunks(docs: Seq<Seq<char>>, b: nat) -> Seq<Seq<Seq<char>>> {
    Seq::new(batch_count(docs.len(), b), |i: int| chunk(docs, b, i))
}

proof fn lemma_batch_count_bounds(n: nat, b: nat)
    requires
        b > 0,
    ensures
        n <= batch_count(n, b) * b,
        batch_count(n, b) > 0 ==> (batch_count(n, b) - 1) * b < n,
        n == 0 ==> batch_count(n, b) == 0,
{
    let q = n as int / b as int;
    let r = n as int % b as int;
    lemma_fundamental_div_mod(n as int, b as int);
    if r == 0 {
        lemma_fundamental_div_mod_converse(n + b - 1, b as int, q, b - 1);
    } else {
        assert((q + 1) * b == q * b + b) by (nonlinear_arith);
        lemma_fundamental_div_mod_converse(n + b - 1, b as int, q + 1, r - 1);
    }
    let c = batch_count(n, b) as int;
    assert((c - 1) * b == c * b - b) by (nonlinear_arith);
    if n == 0 {
        lemma_fundamental_div_mod_converse(0, b as int, 0, 0);
    }
    assert(q >= 0) by (nonlinear_arith)
        requires n as int == q * b + r, 0 <= r < b, b > 0, n >= 0;
}

proof fn lemma_chunks_prefix(docs: Seq<Seq<char>>, b: nat, k: nat)
    requires
        b > 0,
        k <= batch_count(docs.len(), b),
    ensures
        Seq::new(k, |i: int| chunk(docs, b, i)).flatten() == docs.subrange(
            0,
            if k * b <= docs.len() { (k * b) as int } else { docs.len() as int },
        ),
    decreases k,
{
    let n = docs.len();
    if k == 0 {
        assert(Seq::new(k, |i: int| chunk(docs, b, i)) =~= Seq::<Seq<Seq<char>>>::empty());
        assert(docs.subrange(0, 0) =~= Seq::<Seq<char>>::empty());
    } else {
        let j = (k - 1) as nat;
        lemma_chunks_prefix(docs, b, j);
        lemma_batch_count_bounds(n, b);
        lemma_mul_inequality(j as int, batch_count(n, b) - 1, b as int);
        assert(k * b == j * b + b) by (nonlinear_arith)
            requires k == j + 1;
        let prev = Seq::new(j, |i: int| chunk(docs, b, i));
        assert(Seq::new(k, |i: int| chunk(docs, b, i)) =~= prev.push(chunk(docs, b, j as int)));
        prev.lemma_flatten_push(chunk(docs, b, j as int));
        assert(j * b >= 0) by (nonlinear_arith)
            requires b > 0;
        assert(docs.subrange(0, (j * b) as int) + chunk(docs, b, j as int) =~= docs.subrange(
            0,
            if k * b <= n { (k * b) as int } else { n as int },
        ));
    }
}

/// A run emits `ceil(n / b)` batches; concatenated in order they give back exactly the
/// documents appended, so each document is in exactly one batch; every batch holds
/// between 1 and `b` documents, and all but the last hold exactly `b`.
pub proof fn lemma_exactly_once_flush(docs: Seq<Seq<char>>, b: nat)
    requires
        b > 0,
    ensures
        chunks(docs, b).len() == batch_count(docs.len(), b),
        chunks(docs, b).flatten() == docs,
        forall|i: int|
            0 <= i < chunks(docs, b).len() ==> 0 < #[trigger] chunks(docs, b)[i].len() <= b,
        forall|i: int| 0 <= i < chunks(docs, b).len() - 1 ==> #[trigger] chunks(docs, b)[i].len() == b,
{
    let n = docs.len();
    let c = batch_count(n, b);
    lemma_chunks_prefix(docs, b, c);
    lemma_batch_count_bounds(n, b);
    assert(docs.subrange(0, n as int) =~= docs);
    assert forall|i: int| 0 <= i < c implies 0 < #[trigger] chunks(docs, b)[i].len() <= b
        && (i < c - 1 ==> chunks(docs, b)[i].len() == b) by {
        lemma_mul_inequality(i, c - 1, b as int);
        assert(i * b >= 0) by (nonlinear_arith)
            requires i >= 0, b > 0;
        if i < c - 1 {
            lemma_mul_inequality(i + 1, c - 1, b as int);
            assert((i + 1) * b == i * b + b) by (nonlinear_arith);
        }
    }
}

/// Appends `docs` in order to a fresh accumulator with the given batch size, then drains
/// it: the batches that a run over these documents emits, numbered from 1.
pub fn batch_all(docs: &Vec<String>, batch_size: usize) -> (r: Vec<Batch>)
    requires
        batch_size > 0,
        docs.len() < usize::MAX,
    ensures
        r@.len() == batch_count(docs@.len(), batch_size as nat),
        forall|i: int| 0 <= i < r@.len() ==> #[trigger] r@[i].number == i + 1,
        forall|i: int|
            0 <= i < r@.len() ==> #[trigger] r@[i].contents() == chunks(
                texts_of(docs@),
                batch_size as nat,
            )[i],
{
    let ghost dv = texts_of(docs@);
    let ghost b = batch_size as nat;
    let mut acc = BatchAccumulator::new(batch_size);
    let mut r: Vec<Batch> = Vec::new();
    let mut k: usize = 0;
    while k < docs.len()
        invariant
            acc.wf(),
            acc.batch_size() == b,
            b > 0,
            dv == texts_of(docs@),
            docs.len() < usize::MAX,
            k <= docs.len(),
            r@.len() <= k,
            acc.next_number() == r@.len() + 1,
            k == r@.len() * b + acc.pending().len(),
            acc.pending() == dv.subrange((r@.len() * b) as int, k as int),
            forall|i: int| 0 <= i < r@.len() ==> #[trigger] r@[i].number == i + 1,
            forall|i: int|
                0 <= i < r@.len() ==> #[trigger] r@[i].contents() == dv.subrange(
                    i * b,
                    i * b + b,
                ),
        decreases docs.len() - k,
    {
        let doc = docs[k].clone();
        let ghost before = acc.pending();
        let ghost nb = r@.len();
        let ghost old_r = r@;
        let out = acc.append_and_maybe_flush(doc);
        assert(before.push(dv[k as int]) =~= dv.subrange((nb * b) as int, k + 1));
        match out {
            Some(batch) => {
                r.push(batch);
                assert(r@.len() * b == nb * b + b) by (nonlinear_arith)
                    requires r@.len() == nb + 1;
                assert(r@[nb as int].contents() == dv.subrange((nb * b) as int, (nb * b + b) as int));
                assert forall|i: int| 0 <= i < r@.len() implies #[trigger] r@[i].number == i + 1 by {
                    if i < nb {
                        assert(r@[i] == old_r[i]);
                    }
                }
                assert forall|i: int| 0 <= i < r@.len() implies #[trigger] r@[i].contents()
                    == dv.subrange(i * b, i * b + b) by {
                    if i < nb {
                        assert(r@[i] == old_r[i]);
                    }
                }
                assert(dv.subrange((r@.len() * b) as int, k + 1) =~= Seq::<Seq<char>>::empty());
            },
            None => {
                assert(r@ == old_r);
            },
        }
        k = k + 1;
    }
    let ghost nb = r@.len();
    let ghost old_r = r@;
    assert(nb <= nb * b) by (nonlinear_arith)
        requires b >= 1;
    let last = acc.drain();
    proof {
        lemma_batch_count_bounds(dv.len(), b);
        assert(nb * b >= 0) by (nonlinear_arith)
            requires b > 0;
        let p = docs@.len() - nb * b;
        if p == 0 {
            lemma_fundamental_div_mod_converse(docs@.len() + b - 1, b as int, nb as int, b - 1);
        } else {
            assert((nb + 1) * b == nb * b + b) by (nonlinear_arith);
            lemma_fundamental_div_mod_converse(docs@.len() + b - 1, b as int, nb + 1 as int, p - 1);
        }
    }
    match last {
        Some(batch) => {
            r.push(batch);
            assert forall|i: int| 0 <= i < nb implies r@[i] == old_r[i] by {}
        },
        None => {},
    }
    proof {
        assert forall|i: int| 0 <= i < r@.len() implies r@[i].number == i + 1
            && #[trigger] r@[i].contents() == chunks(dv, b)[i] by {
            assert(r@[i].number == i + 1);
            assert(i * b >= 0) by (nonlinear_arith)
                requires i >= 0, b > 0;
            if i < nb {
                lemma_mul_inequality(i + 1, nb as int, b as int);
                assert((i + 1) * b == i * b + b) by (nonlinear_arith);
                assert(chunks(dv, b)[i] == dv.subrange(i * b, i * b + b));
            } else {
                assert(i == nb);
                assert(chunks(dv, b)[i] == dv.subrange(i * b, dv.len() as int));
            }
        }
        assert(dv == texts_of(docs@));
    }
    r
}

} // verus!
