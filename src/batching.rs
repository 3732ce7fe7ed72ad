//! Splitting records into contiguous batches, and the decisions of the
//! paced, failure-tolerant embedding producer that walks through them.
use vstd::prelude::*;
use vstd::arithmetic::div_mod::{lemma_fundamental_div_mod, lemma_fundamental_div_mod_converse};

verus! {

/// How many batches of at most `b` records cover `n` records.
pub open spec fn num_batches(n: nat, b: nat) -> nat
    recommends
        b > 0,
{
    if n % b == 0 {
        n / b
    } else {
        n / b + 1
    }
}

/// Where batch `i` begins (or `n`, past the last batch).
pub open spec fn batch_start(n: nat, b: nat, i: nat) -> nat {
    if i * b < n {
        i * b
    } else {
        n
    }
}

/// Where batch `i` ends, exclusive.
pub open spec fn batch_end(n: nat, b: nat, i: nat) -> nat {
    batch_start(n, b, i + 1)
}

/// The records of the first `c` batches, in order.
pub open spec fn batched_positions(n: nat, b: nat, c: nat) -> Seq<nat>
    decreases c,
{
    if c == 0 {
        Seq::empty()
    } else {
        let i = (c - 1) as nat;
        batched_positions(n, b, i) + Seq::new(
            (batch_end(n, b, i) - batch_start(n, b, i)) as nat,
            |j: int| (batch_start(n, b, i) + j) as nat,
        )
    }
}

/// The (record position, embedding) pairs that one batch contributes: one pair per
/// record when its call succeeded, none when it failed.
pub open spec fn batch_pairs<E>(n: nat, b: nat, i: nat, outcome: Option<Seq<E>>) -> Seq<(usize, E)> {
    match outcome {
        Some(v) => Seq::new(v.len(), |j: int| ((batch_start(n, b, i) + j) as usize, v[j])),
        None => Seq::empty(),
    }
}

/// The concatenation, in batch order, of what the batches with the given outcomes contribute.
pub open spec fn collected<E>(n: nat, b: nat, outcomes: Seq<Option<Seq<E>>>) -> Seq<(usize, E)>
    decreases outcomes.len(),
{
    if outcomes.len() == 0 {
        Seq::empty()
    } else {
        let i = (outcomes.len() - 1) as nat;
        collected(n, b, outcomes.drop_last()) + batch_pairs(n, b, i, outcomes.last())
    }
}

/// The indices of the batches whose call failed, in order.
pub open spec fn failed_batches<E>(outcomes: Seq<Option<Seq<E>>>) -> Seq<usize>
    decreases outcomes.len(),
{
    if outcomes.len() == 0 {
        Seq::empty()
    } else {
        failed_batches(outcomes.drop_last()) + if outcomes.last() is None {
            seq![(outcomes.len() - 1) as usize]
        } else {
            Seq::empty()
        }
    }
}

/// Every successful outcome holds one embedding per record of its batch.
pub open spec fn outcomes_fit<E>(n: nat, b: nat, outcomes: Seq<Option<Seq<E>>>) -> bool {
    forall|i: int|
        0 <= i < outcomes.len() ==> (#[trigger] outcomes[i] matches Some(v) ==> v.len() == batch_end(
            n,
            b,
            i as nat,
        ) - batch_start(n, b, i as nat))
}

proof fn lemma_num_batches(n: nat, b: nat)
    requires
        b > 0,
    ensures
        num_batches(n, b) == (n + b - 1) / (b as int),
        forall|i: nat| #[trigger] (i * b) < n <==> i < num_batches(n, b),
{
    let q = n / b;
    let r = n % b;
    lemma_fundamental_div_mod(n as int, b as int);
    assert(n == q * b + r) by (nonlinear_arith)
        requires
            n == b * (n / b) + n % b,
            q == n / b,
            r == n % b,
    ;
    if r == 0 {
        lemma_fundamental_div_mod_converse((n + b - 1) as int, b as int, q as int, (b - 1) as int);
    } else {
        assert((n + b - 1) == (q + 1) * b + (r - 1)) by (nonlinear_arith)
            requires
                n == q * b + r,
        ;
        lemma_fundamental_div_mod_converse((n + b - 1) as int, b as int, (q + 1) as int, (r - 1) as int);
    }
    assert forall|i: nat| #[trigger] (i * b) < n <==> i < num_batches(n, b) by {
        if i < q {
            assert(i * b < q * b) by (nonlinear_arith)
                requires
                    i < q,
                    b > 0,
            ;
        } else if i == q {
        } else {
            assert(i * b >= (q + 1) * b) by (nonlinear_arith)
                requires
                    i >= q + 1,
                    b > 0,
            ;
            assert((q + 1) * b == q * b + b) by (nonlinear_arith);
        }
    }
}

proof fn lemma_batch_bounds(n: nat, b: nat, i: nat)
    requires
        b > 0,
        i < num_batches(n, b),
    ensures
        batch_start(n, b, i) == i * b,
        batch_start(n, b, i) < batch_end(n, b, i) <= n,
        batch_end(n, b, i) - batch_start(n, b, i) <= b,
        i < n,
{
    lemma_num_batches(n, b);
    assert(i <= i * b) by (nonlinear_arith)
        requires
            b > 0,
    ;
    assert((i + 1) * b == i * b + b) by (nonlinear_arith);
}

proof fn lemma_positions_prefix(n: nat, b: nat, c: nat)
    requires
        b > 0,
        c <= num_batches(n, b),
    ensures
        batched_positions(n, b, c) == Seq::new(batch_start(n, b, c), |j: int| j as nat),
    decreases c,
{
    if c > 0 {
        let i = (c - 1) as nat;
        lemma_positions_prefix(n, b, i);
        lemma_batch_bounds(n, b, i);
        assert(batched_positions(n, b, c) =~= Seq::new(batch_start(n, b, c), |j: int| j as nat));
    } else {
        assert(batched_positions(n, b, 0) =~= Seq::new(batch_start(n, b, 0), |j: int| j as nat));
    }
}

proof fn lemma_collected_order<E>(n: nat, b: nat, outcomes: Seq<Option<Seq<E>>>)
    requires
        b > 0,
        n <= usize::MAX,
        outcomes.len() <= num_batches(n, b),
        outcomes_fit(n, b, outcomes),
    ensures
        forall|x: int|
            0 <= x < collected(n, b, outcomes).len() ==> (#[trigger] collected(n, b, outcomes)[x].0 as nat)
                < batch_start(n, b, outcomes.len()),
        forall|x: int, y: int|
            0 <= x < y < collected(n, b, outcomes).len() ==> #[trigger] collected(n, b, outcomes)[x].0
                < #[trigger] collected(n, b, outcomes)[y].0,
    decreases outcomes.len(),
{
    if outcomes.len() > 0 {
        let i = (outcomes.len() - 1) as nat;
        let prev = outcomes.drop_last();
        assert(outcomes_fit(n, b, prev)) by {
            assert forall|j: int| 0 <= j < prev.len() implies (#[trigger] prev[j] matches Some(v) ==> v.len()
                == batch_end(n, b, j as nat) - batch_start(n, b, j as nat)) by {
                assert(outcomes[j] matches Some(v) ==> v.len() == batch_end(n, b, j as nat) - batch_start(n, b, j as nat));
                assert(prev[j] == outcomes[j]);
            }
        }
        lemma_collected_order(n, b, prev);
        lemma_batch_bounds(n, b, i);
        let c = collected(n, b, outcomes);
        let cp = collected(n, b, prev);
        let bp = batch_pairs(n, b, i, outcomes.last());
        assert(c == cp + bp);
        assert(outcomes[i as int] == outcomes.last());
        assert forall|x: int| cp.len() <= x < c.len() implies (c[x].0 as nat) >= batch_start(n, b, i) && (
        c[x].0 as nat) < batch_start(n, b, outcomes.len()) by {
            assert(c[x] == bp[x - cp.len()]);
        }
        assert forall|x: int| 0 <= x < cp.len() implies c[x] == cp[x] by {}
        assert forall|x: int|
            0 <= x < c.len() implies (#[trigger] c[x].0 as nat) < batch_start(n, b, outcomes.len()) by {
            if x < cp.len() {
                assert(c[x] == cp[x]);
            }
        }
        assert forall|x: int, y: int| 0 <= x < y < c.len() implies #[trigger] c[x].0 < #[trigger] c[y].0 by {
            if y < cp.len() {
                assert(c[x] == cp[x]);
                assert(c[y] == cp[y]);
            } else if x < cp.len() {
                assert(c[x] == cp[x]);
            } else {
                assert(c[x] == bp[x - cp.len()]);
                assert(c[y] == bp[y - cp.len()]);
            }
        }
    }
}

/// Chunking: `n` records in batches of `b` make `ceil(n / b)` batches, each non-empty
/// and of at most `b` records, which taken in order are exactly the records in the
/// order given; and whichever batches fail, the collected pairs keep the records'
/// order, within and across batches.
pub proof fn chunking_invariant<E>(n: nat, b: nat, outcomes: Seq<Option<Seq<E>>>)
    requires
        b > 0,
        n <= usize::MAX,
        outcomes.len() <= num_batches(n, b),
        outcomes_fit(n, b, outcomes),
    ensures
        num_batches(n, b) == (n + b - 1) / (b as int),
        forall|i: nat|
            i < num_batches(n, b) ==> 0 < #[trigger] batch_end(n, b, i) - batch_start(n, b, i) <= b,
        batched_positions(n, b, num_batches(n, b)) == Seq::new(n, |j: int| j as nat),
        forall|x: int, y: int|
            0 <= x < y < collected(n, b, outcomes).len() ==> #[trigger] collected(n, b, outcomes)[x].0
                < #[trigger] collected(n, b, outcomes)[y].0,
{
    lemma_num_batches(n, b);
    assert forall|i: nat| i < num_batches(n, b) implies 0 < #[trigger] batch_end(n, b, i) - batch_start(n, b, i) <= b by {
        lemma_batch_bounds(n, b, i);
    }
    lemma_positions_prefix(n, b, num_batches(n, b));
    lemma_collected_order(n, b, outcomes);
}

/// Failure isolation: when a batch fails, its records are dropped, what earlier batches
/// gave is kept, and once the pause is over the producer attempts the next batch
/// whenever one is left.
pub proof fn failure_isolation<E>(before: EmbeddingProducer<E>, after: EmbeddingProducer<E>)
    requires
        before.wf(),
        after.wf(),
        before.awaiting_result(),
        after.total() == before.total(),
        after.batch_size() == before.batch_size(),
        after.outcomes() == before.outcomes().push(None),
        !after.pausing(),
    ensures
        collected(after.total(), after.batch_size(), after.outcomes()) == collected(
            before.total(),
            before.batch_size(),
            before.outcomes(),
        ),
        after.attempted() == before.attempted() + 1,
        after.attempted() < num_batches(after.total(), after.batch_size()) ==> after.awaiting_result(),
{
    assert(after.outcomes().drop_last() =~= before.outcomes());
    assert(collected(after.total(), after.batch_size(), after.outcomes()) =~= collected(
        before.total(),
        before.batch_size(),
        before.outcomes(),
    ));
}

/// What the producer asks its driver to do next.
#[derive(Clone, Copy, Debug, PartialEq, Eq, Structural)]
pub enum ProducerAction {
    /// Call the embedding service on records `start .. end` (batch number `batch`).
    Embed { batch: usize, start: usize, end: usize },
    /// Wait the fixed inter-batch delay before going on.
    Pause,
    /// Every batch has been attempted.
    Finished,
}

/// The state of the batch embedding producer over `total` records in batches of
/// `batch_size`, carrying embeddings of type `E`.
///
/// The driver asks `next_action`, performs it, and reports back with
/// `record_success`, `record_failure` or `record_pause`.
pub struct EmbeddingProducer<E> {
    total: usize,
    batch_size: usize,
    done: usize,
    start: usize,
    pausing: bool,
    pairs: Vec<(usize, E)>,
    dropped: Vec<usize>,
    outcomes: Ghost<Seq<Option<Seq<E>>>>,
}

impl<E> EmbeddingProducer<E> {
    pub closed spec fn total(&self) -> nat {
        self.total as nat
    }

    pub closed spec fn batch_size(&self) -> nat {
        self.batch_size as nat
    }

    /// The outcome of every batch attempted so far: its embeddings, or `None` where it failed.
    pub closed spec fn outcomes(&self) -> Seq<Option<Seq<E>>> {
        self.outcomes@
    }

    /// Whether the producer waits for the inter-batch delay to elapse.
    pub closed spec fn pausing(&self) -> bool {
        self.pausing
    }

    /// The batch that the producer would attempt next.
    pub open spec fn attempted(&self) -> nat {
        self.outcomes().len()
    }

    pub open spec fn awaiting_result(&self) -> bool {
        !self.pausing() && self.attempted() < num_batches(self.total(), self.batch_size())
    }

    pub closed spec fn wf(&self) -> bool {
        &&& self.batch_size > 0
        &&& self.done as nat == self.outcomes@.len()
        &&& self.done as nat <= num_batches(self.total as nat, self.batch_size as nat)
        &&& self.start as nat == batch_start(self.total as nat, self.batch_size as nat, self.done as nat)
        &&& self.pausing ==> self.done > 0
        &&& outcomes_fit(self.total as nat, self.batch_size as nat, self.outcomes@)
        &&& self.pairs@ == collected(self.total as nat, self.batch_size as nat, self.outcomes@)
        &&& self.dropped@ == failed_batches(self.outcomes@)
    }

    /// A producer for `total` records in batches of at most `batch_size`, with nothing attempted.
    pub fn new(total: usize, batch_size: usize) -> (r: Self)
        requires
            batch_size > 0,
        ensures
            r.wf(),
            r.total() == total,
            r.batch_size() == batch_size,
            r.outcomes() == Seq::<Option<Seq<E>>>::empty(),
            !r.pausing(),
    {
        EmbeddingProducer {
            total,
            batch_size,
            done: 0,
            start: 0,
            pausing: false,
            pairs: Vec::new(),
            dropped: Vec::new(),
            outcomes: Ghost(Seq::empty()),
        }
    }

    /// What to do next: pause after each attempted batch, then attempt the next batch
    /// while one is left, then finish.
    pub fn next_action(&self) -> (r: ProducerAction)
        requires
            self.wf(),
        ensures
            self.pausing() ==> r == ProducerAction::Pause,
            !self.pausing() && self.attempted() < num_batches(self.total(), self.batch_size()) ==> r
                == (ProducerAction::Embed {
                    batch: self.attempted() as usize,
                    start: batch_start(self.total(), self.batch_size(), self.attempted()) as usize,
                    end: batch_end(self.total(), self.batch_size(), self.attempted()) as usize,
                }),
            !self.pausing() && self.attempted() >= num_batches(self.total(), self.batch_size()) ==> r
                == ProducerAction::Finished,
    {
        proof {
            lemma_num_batches(self.total as nat, self.batch_size as nat);
        }
        if self.pausing {
            ProducerAction::Pause
        } else if self.start < self.total {
            proof {
                lemma_batch_bounds(self.total as nat, self.batch_size as nat, self.done as nat);
            }
            let end = self.batch_end();
            ProducerAction::Embed { batch: self.done, start: self.start, end }
        } else {
            ProducerAction::Finished
        }
    }

    fn batch_end(&self) -> (r: usize)
        requires
            self.wf(),
            (self.done as nat) < num_batches(self.total as nat, self.batch_size as nat),
        ensures
            r == batch_end(self.total as nat, self.batch_size as nat, self.done as nat),
            self.start < r <= self.total,
            (self.done as nat) < (self.total as nat),
    {
        proof {
            lemma_batch_bounds(self.total as nat, self.batch_size as nat, self.done as nat);
            assert((self.done + 1) * self.batch_size == self.done * self.batch_size + self.batch_size)
                by (nonlinear_arith);
        }
        if self.total - self.start > self.batch_size {
            self.start + self.batch_size
        } else {
            self.total
        }
    }

    proof fn lemma_advance(&self, outcome: Option<Seq<E>>)
        requires
            self.wf(),
            self.awaiting_result(),
        ensures
            batch_start(self.total as nat, self.batch_size as nat, (self.done + 1) as nat) == batch_end(
                self.total as nat,
                self.batch_size as nat,
                self.done as nat,
            ),
            collected(self.total as nat, self.batch_size as nat, self.outcomes@.push(outcome))
                == collected(self.total as nat, self.batch_size as nat, self.outcomes@)
                + batch_pairs(self.total as nat, self.batch_size as nat, self.done as nat, outcome),
            failed_batches(self.outcomes@.push(outcome)) == failed_batches(self.outcomes@) + if outcome is None {
                seq![self.done]
            } else {
                Seq::empty()
            },
    {
        assert(self.outcomes@.push(outcome).drop_last() =~= self.outcomes@);
    }

    /// Records that the current batch's call returned `embeddings`. When it holds one
    /// embedding per record of the batch, each record is paired with its embedding;
    /// otherwise the reply is inconsistent and the batch is dropped as failed.
    pub fn record_success(&mut self, embeddings: Vec<E>)
        requires
            old(self).wf(),
            old(self).awaiting_result(),
        ensures
            final(self).wf(),
            final(self).total() == old(self).total(),
            final(self).batch_size() == old(self).batch_size(),
            final(self).pausing(),
            embeddings@.len() == batch_end(old(self).total(), old(self).batch_size(), old(self).attempted())
                - batch_start(old(self).total(), old(self).batch_size(), old(self).attempted())
                ==> final(self).outcomes() == old(self).outcomes().push(Some(embeddings@)),
            embeddings@.len() != batch_end(old(self).total(), old(self).batch_size(), old(self).attempted())
                - batch_start(old(self).total(), old(self).batch_size(), old(self).attempted())
                ==> final(self).outcomes() == old(self).outcomes().push(None),
    {
        let end = self.batch_end();
        if embeddings.len() != end - self.start {
            self.record_failure();
            return;
        }
        proof {
            self.lemma_advance(Some(embeddings@));
            lemma_batch_bounds(self.total as nat, self.batch_size as nat, self.done as nat);
        }
        let ghost n = self.total as nat;
        let ghost b = self.batch_size as nat;
        let ghost i = self.done as nat;
        let ghost before = self.pairs@;
        let ghost emb = embeddings@;
        let mut embeddings = embeddings;
        let mut rest: Vec<(usize, E)> = Vec::new();
        while embeddings.len() > 0
            invariant
                self.start == batch_start(n, b, i),
                self.start + emb.len() <= usize::MAX,
                embeddings@.len() + rest@.len() == emb.len(),
                rest@ =~= Seq::new(rest@.len(), |j: int| ((self.start + emb.len() - 1 - j) as usize, emb[emb.len() - 1 - j])),
                embeddings@ =~= emb.subrange(0, embeddings@.len() as int),
            decreases embeddings@.len(),
        {
            let k = embeddings.len() - 1;
            let e = embeddings.pop().unwrap();
            rest.push((self.start + k, e));
        }
        while rest.len() > 0
            invariant
                self.start == batch_start(n, b, i),
                self.total == old(self).total,
                self.batch_size == old(self).batch_size,
                self.done == old(self).done,
                self.start == old(self).start,
                self.pausing == old(self).pausing,
                self.outcomes@ == old(self).outcomes@,
                self.dropped@ == old(self).dropped@,
                rest@.len() <= emb.len(),
                self.pairs@ =~= before + Seq::new((emb.len() - rest@.len()) as nat, |j: int| ((self.start + j) as usize, emb[j])),
                rest@ =~= Seq::new(rest@.len(), |j: int| ((self.start + emb.len() - 1 - j) as usize, emb[emb.len() - 1 - j])),
            decreases rest@.len(),
        {
            let p = rest.pop().unwrap();
            self.pairs.push(p);
        }
        self.outcomes = Ghost(self.outcomes@.push(Some(emb)));
        self.done = self.done + 1;
        self.start = end;
        self.pausing = true;
        assert(self.pairs@ =~= collected(n, b, self.outcomes@));
        assert(outcomes_fit(n, b, self.outcomes@)) by {
            assert forall|j: int| 0 <= j < self.outcomes@.len() implies (#[trigger] self.outcomes@[j] matches Some(v) ==> v.len()
                == batch_end(n, b, j as nat) - batch_start(n, b, j as nat)) by {
                if j < i {
                    assert(self.outcomes@[j] == old(self).outcomes@[j]);
                }
            }
        }
    }

    /// Records that the current batch's call failed: its records are dropped and the
    /// producer goes on with the remaining batches after the pause.
    pub fn record_failure(&mut self)
        requires
            old(self).wf(),
            old(self).awaiting_result(),
        ensures
            final(self).wf(),
            final(self).total() == old(self).total(),
            final(self).batch_size() == old(self).batch_size(),
            final(self).pausing(),
            final(self).outcomes() == old(self).outcomes().push(None),
    {
        let end = self.batch_end();
        proof {
            self.lemma_advance(None);
        }
        let ghost i = self.done as nat;
        self.dropped.push(self.done);
        self.outcomes = Ghost(self.outcomes@.push(None));
        self.done = self.done + 1;
        self.start = end;
        self.pausing = true;
        assert(self.dropped@ =~= failed_batches(self.outcomes@));
        assert(self.pairs@ =~= collected(self.total as nat, self.batch_size as nat, self.outcomes@));
        assert(outcomes_fit(self.total as nat, self.batch_size as nat, self.outcomes@)) by {
            assert forall|j: int| 0 <= j < self.outcomes@.len() implies (#[trigger] self.outcomes@[j] matches Some(v) ==> v.len()
                == batch_end(self.total as nat, self.batch_size as nat, j as nat) - batch_start(self.total as nat, self.batch_size as nat, j as nat)) by {
                if j < i {
                    assert(self.outcomes@[j] == old(self).outcomes@[j]);
                }
            }
        }
    }

    /// Records that the inter-batch delay has elapsed.
    pub fn record_pause(&mut self)
        requires
            old(self).wf(),
            old(self).pausing(),
        ensures
            final(self).wf(),
            final(self).total() == old(self).total(),
            final(self).batch_size() == old(self).batch_size(),
            final(self).outcomes() == old(self).outcomes(),
            !final(self).pausing(),
    {
        self.pausing = false;
    }

    /// The (record position, embedding) pairs of every successful batch so far, in batch order.
    pub fn pairs(&self) -> (r: &Vec<(usize, E)>)
        requires
            self.wf(),
        ensures
            r@ == collected(self.total(), self.batch_size(), self.outcomes()),
    {
        &self.pairs
    }

    /// The numbers of the batches whose call failed, in order.
    pub fn dropped_batches(&self) -> (r: &Vec<usize>)
        requires
            self.wf(),
        ensures
            r@ == failed_batches(self.outcomes()),
    {
        &self.dropped
    }

    /// Hands out the collected pairs.
    pub fn into_pairs(self) -> (r: Vec<(usize, E)>)
        requires
            self.wf(),
        ensures
            r@ == collected(self.total(), self.batch_size(), self.outcomes()),
    {
        self.pairs
    }
}


/// A run finishes only once every batch has been attempted: when the producer has
/// nothing left to attempt, exactly `ceil(n / b)` embedding calls have been recorded,
/// one per batch, whichever of them failed.
pub proof fn finished_after_every_batch<E>(p: EmbeddingProducer<E>)
    requires
        p.wf(),
        p.attempted() >= num_batches(p.total(), p.batch_size()),
    ensures
        p.attempted() == num_batches(p.total(), p.batch_size()),
        p.attempted() == (p.total() + p.batch_size() - 1) / (p.batch_size() as int),
{
    lemma_num_batches(p.total(), p.batch_size());
}

} // verus!
