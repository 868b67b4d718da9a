//! Decisions of a bounded-concurrency fetch run: when a fetch may start, what a finished
//! fetch does to the accumulated batches, and when the run drains and ends.
//!
//! The caller performs the fetches, the pacing delay and the sends, and reports each
//! finished fetch back; this state machine decides everything else.
use vstd::prelude::*;
use crate::batch::{Batch, BatchAccumulator};

verus! {

/// What became of one fetch attempt.
pub enum FetchOutcome {
    Fetched(String),
    Failed,
}

/// What the driver of a run should do next.
#[derive(PartialEq, Eq, Structural, Debug, Clone, Copy)]
pub enum RunAction {
    /// A concurrency slot is free and documents are left to fetch: start one.
    Launch,
    /// Every slot is taken, or every fetch has started: wait for one to finish.
    Wait,
    /// Every fetch has finished: drain the accumulator once.
    Drain,
    /// The run is over.
    Finished,
}

/// One run of `total_size` fetches, at most `max_concurrency` at a time, feeding a
/// batch accumulator.
pub struct FetchRun {
    total_size: usize,
    max_concurrency: usize,
    launched: usize,
    in_flight: usize,
    completed: usize,
    failed: usize,
    drained: bool,
    acc: BatchAccumulator,
    accepted: Ghost<Seq<Seq<char>>>,
    emitted: Ghost<Seq<Seq<Seq<char>>>>,
}

impl FetchRun {
    pub closed spec fn total_size(&self) -> nat {
        self.total_size as nat
    }

    pub closed spec fn max_concurrency(&self) -> nat {
        self.max_concurrency as nat
    }

    /// Fetches started so far.
    pub closed spec fn launched(&self) -> nat {
        self.launched as nat
    }

    /// Fetches started and not yet reported back.
    pub closed spec fn in_flight(&self) -> nat {
        self.in_flight as nat
    }

    /// Fetches reported back, successful or not.
    pub closed spec fn completed(&self) -> nat {
        self.completed as nat
    }

    /// Fetches reported back as failed.
    pub closed spec fn failed(&self) -> nat {
        self.failed as nat
    }

    pub closed spec fn drained(&self) -> bool {
        self.drained
    }

    /// Fetched documents, in the order they were handed to the accumulator.
    pub closed spec fn accepted(&self) -> Seq<Seq<char>> {
        self.accepted@
    }

    /// Contents of the batches handed out so far, in order.
    pub closed spec fn emitted(&self) -> Seq<Seq<Seq<char>>> {
        self.emitted@
    }

    /// Documents waiting in the accumulator.
    pub closed spec fn pending(&self) -> Seq<Seq<char>> {
        self.acc.pending()
    }

    pub closed spec fn batch_size(&self) -> nat {
        self.acc.batch_size()
    }

    pub closed spec fn wf(&self) -> bool {
        &&& self.acc.wf()
        &&& self.max_concurrency > 0
        &&& self.total_size < usize::MAX
        &&& self.in_flight <= self.max_concurrency
        &&& self.launched <= self.total_size
        &&& self.completed + self.in_flight == self.launched
        &&& self.failed <= self.completed
        &&& self.accepted@.len() + self.failed == self.completed
        &&& self.emitted@.flatten() + self.acc.pending() == self.accepted@
        &&& self.acc.next_number() == self.emitted@.len() + 1
        &&& self.emitted@.len() + (if self.acc.pending().len() > 0 { 1nat } else { 0nat })
            <= self.accepted@.len()
        &&& self.drained ==> self.acc.pending().len() == 0 && self.completed == self.total_size
    }

    /// In every state of a run, at most `max_concurrency` fetches are in flight, and a
    /// fetch is started at most once per document.
    pub proof fn lemma_concurrency_bound(&self)
        requires
            self.wf(),
        ensures
            self.in_flight() <= self.max_concurrency(),
            self.launched() <= self.total_size(),
            self.completed() + self.in_flight() == self.launched(),
    {
    }

    /// Once a run has drained, the batches it handed out hold, in order, every document
    /// that was fetched, each exactly once: failed fetches are missing and nothing else.
    pub proof fn lemma_drained_run_batched_all(&self)
        requires
            self.wf(),
            self.drained(),
        ensures
            self.emitted().flatten() == self.accepted(),
            self.accepted().len() == self.total_size() - self.failed(),
    {
        assert(self.emitted@.flatten() + self.acc.pending() =~= self.emitted@.flatten());
    }

    pub fn new(total_size: usize, batch_size: usize, max_concurrency: usize) -> (r: FetchRun)
        requires
            batch_size > 0,
            max_concurrency > 0,
            total_size < usize::MAX,
        ensures
            r.wf(),
            r.total_size() == total_size,
            r.batch_size() == batch_size,
            r.max_concurrency() == max_concurrency,
            r.launched() == 0,
            r.in_flight() == 0,
            r.completed() == 0,
            r.failed() == 0,
            !r.drained(),
            r.accepted() == Seq::<Seq<char>>::empty(),
            r.emitted() == Seq::<Seq<Seq<char>>>::empty(),
    {
        let acc = BatchAccumulator::new(batch_size);
        let r = FetchRun {
            total_size,
            max_concurrency,
            launched: 0,
            in_flight: 0,
            completed: 0,
            failed: 0,
            drained: false,
            acc,
            accepted: Ghost(Seq::empty()),
            emitted: Ghost(Seq::empty()),
        };
        assert(r.emitted@.flatten() + r.acc.pending() =~= r.accepted@);
        r
    }

    pub fn next_action(&self) -> (a: RunAction)
        requires
            self.wf(),
        ensures
            a == (if self.launched() < self.total_size() && self.in_flight()
                < self.max_concurrency() {
                RunAction::Launch
            } else if self.completed() < self.total_size() {
                RunAction::Wait
            } else if !self.drained() {
                RunAction::Drain
            } else {
                RunAction::Finished
            }),
            a == RunAction::Wait ==> self.in_flight() > 0,
    {
        if self.launched < self.total_size && self.in_flight < self.max_concurrency {
            RunAction::Launch
        } else if self.completed < self.total_size {
            RunAction::Wait
        } else if !self.drained {
            RunAction::Drain
        } else {
            RunAction::Finished
        }
    }

    /// The admission gate: takes a concurrency slot for one more fetch when a slot is free
    /// and documents are left to fetch, and says whether it did.
    pub fn try_start_fetch(&mut self) -> (r: bool)
        requires
            old(self).wf(),
        ensures
            final(self).wf(),
            r == (old(self).launched() < old(self).total_size() && old(self).in_flight()
                < old(self).max_concurrency()),
            final(self).launched() == old(self).launched() + (if r { 1nat } else { 0nat }),
            final(self).in_flight() == old(self).in_flight() + (if r { 1nat } else { 0nat }),
            final(self).in_flight() <= final(self).max_concurrency(),
            final(self).total_size() == old(self).total_size(),
            final(self).max_concurrency() == old(self).max_concurrency(),
            final(self).batch_size() == old(self).batch_size(),
            final(self).completed() == old(self).completed(),
            final(self).failed() == old(self).failed(),
            final(self).drained() == old(self).drained(),
            final(self).accepted() == old(self).accepted(),
            final(self).emitted() == old(self).emitted(),
            final(self).pending() == old(self).pending(),
    {
        if self.launched < self.total_size && self.in_flight < self.max_concurrency {
            self.launched = self.launched + 1;
            self.in_flight = self.in_flight + 1;
            true
        } else {
            false
        }
    }

    /// Reports one fetch as finished (after its pacing delay) and frees its slot. A fetched
    /// document goes to the accumulator, and a batch comes back when that fills it; a
    /// failed fetch only counts as finished and touches nothing else.
    pub fn complete(&mut self, outcome: FetchOutcome) -> (r: Option<Batch>)
        requires
            old(self).wf(),
            old(self).in_flight() > 0,
        ensures
            final(self).wf(),
            final(self).in_flight() == old(self).in_flight() - 1,
            final(self).completed() == old(self).completed() + 1,
            final(self).launched() == old(self).launched(),
            final(self).total_size() == old(self).total_size(),
            final(self).max_concurrency() == old(self).max_concurrency(),
            final(self).batch_size() == old(self).batch_size(),
            final(self).drained() == old(self).drained(),
            match outcome {
                FetchOutcome::Failed => {
                    &&& r is None
                    &&& final(self).failed() == old(self).failed() + 1
                    &&& final(self).accepted() == old(self).accepted()
                    &&& final(self).emitted() == old(self).emitted()
                    &&& final(self).pending() == old(self).pending()
                },
                FetchOutcome::Fetched(doc) => {
                    let full = old(self).pending().push(doc@);
                    &&& final(self).failed() == old(self).failed()
                    &&& final(self).accepted() == old(self).accepted().push(doc@)
                    &&& if full.len() >= old(self).batch_size() {
                        &&& r is Some
                        &&& r->0.number == old(self).emitted().len() + 1
                        &&& r->0.contents() == full
                        &&& final(self).emitted() == old(self).emitted().push(full)
                        &&& final(self).pending() == Seq::<Seq<char>>::empty()
                    } else {
                        &&& r is None
                        &&& final(self).emitted() == old(self).emitted()
                        &&& final(self).pending() == full
                    }
                },
            },
    {
        self.in_flight = self.in_flight - 1;
        self.completed = self.completed + 1;
        match outcome {
            FetchOutcome::Failed => {
                self.failed = self.failed + 1;
                None
            },
            FetchOutcome::Fetched(doc) => {
                let ghost full = self.acc.pending().push(doc@);
                let ghost prev = self.emitted@;
                self.accepted = Ghost(self.accepted@.push(doc@));
                let r = self.acc.append_and_maybe_flush(doc);
                proof {
                    if full.len() >= self.acc.batch_size() {
                        self.emitted@ = prev.push(full);
                        prev.lemma_flatten_push(full);
                        assert(self.emitted@.flatten() + self.acc.pending() =~= prev.flatten()
                            + full);
                    } else {
                        assert(prev.flatten() + full =~= (prev.flatten() + old(
                            self,
                        ).acc.pending()).push(doc@));
                    }
                }
                r
            },
        }
    }

    /// Ends a run whose fetches have all finished: the documents still waiting leave as a
    /// last batch, if any. After it, the batches handed out hold every fetched document
    /// exactly once, in order.
    pub fn finish(&mut self) -> (r: Option<Batch>)
        requires
            old(self).wf(),
            old(self).completed() == old(self).total_size(),
            !old(self).drained(),
        ensures
            final(self).wf(),
            final(self).drained(),
            final(self).pending() == Seq::<Seq<char>>::empty(),
            final(self).total_size() == old(self).total_size(),
            final(self).launched() == old(self).launched(),
            final(self).completed() == old(self).completed(),
            final(self).failed() == old(self).failed(),
            final(self).accepted() == old(self).accepted(),
            final(self).emitted().flatten() == final(self).accepted(),
            final(self).accepted().len() == final(self).total_size() - final(self).failed(),
            if old(self).pending().len() == 0 {
                &&& r is None
                &&& final(self).emitted() == old(self).emitted()
            } else {
                &&& r is Some
                &&& r->0.number == old(self).emitted().len() + 1
                &&& r->0.contents() == old(self).pending()
                &&& final(self).emitted() == old(self).emitted().push(old(self).pending())
            },
    {
        let ghost rest = self.acc.pending();
        let ghost prev = self.emitted@;
        let r = self.acc.drain();
        proof {
            if rest.len() > 0 {
                self.emitted@ = prev.push(rest);
                prev.lemma_flatten_push(rest);
            }
            assert(self.emitted@.flatten() + self.acc.pending() =~= self.emitted@.flatten());
        }
        self.drained = true;
        r
    }
}

} // verus!
