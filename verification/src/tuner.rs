use rand::rngs::ThreadRng;
use rand::seq::SliceRandom;
use vstd::prelude::*;

use crate::position::{Feature, Position};

verus! {

/// The number of positions in a batch; the last batch of an epoch may hold fewer.
pub const BATCH_SIZE: usize = 10000;

/// The number of epochs after which the learning rate is divided by ten.
pub const DECAY_PERIOD: usize = 100;

/// The random number generator of the current thread, as `rand` provides it.
#[verifier::external_type_specification]
#[verifier::external_body]
pub struct ExThreadRng(ThreadRng);

/// `rand::thread_rng` hands out the generator of the current thread, seeded
/// by the system. Nothing is claimed of it. It panics where the system gives
/// no seed.
#[verifier::external_body]
fn thread_rng() -> ThreadRng {
    rand::thread_rng()
}

/// `SliceRandom::shuffle` reorders a slice in place by swapping its elements
/// with one another. Which order comes out is left open: the positions after
/// the call are those before it, each as often as before. It panics where
/// the generator cannot be reseeded because the system gives no seed.
#[verifier::external_body]
fn shuffle(positions: &mut Vec<Position>, rng: &mut ThreadRng)
    ensures
        final(positions)@.to_multiset() == old(positions)@.to_multiset(),
{
    positions.shuffle(rng);
}

/// The number of batches that `n` positions are dealt into.
pub open spec fn batch_count(n: int) -> int {
    (n + BATCH_SIZE - 1) / (BATCH_SIZE as int)
}

/// Where batch `k` begins among `n` positions.
pub open spec fn batch_start(k: int) -> int {
    k * BATCH_SIZE
}

/// Where batch `k` ends among `n` positions: one past its last position.
pub open spec fn batch_end(n: int, k: int) -> int {
    if (k + 1) * BATCH_SIZE < n {
        (k + 1) * BATCH_SIZE
    } else {
        n
    }
}

/// How often the learning rate has been divided by ten once epoch `epoch` has begun.
pub open spec fn decays_by(epoch: int) -> int {
    epoch / (DECAY_PERIOD as int)
}

/// What the caller of the tuner has to do next.
#[derive(Debug, Clone, Copy, PartialEq, Eq, Structural)]
pub enum Step {
    /// An epoch has begun and the positions have been shuffled: report the
    /// error over all positions. The learning rate of the epoch is the initial
    /// rate divided by ten `decays` times.
    Epoch { epoch: usize, decays: usize },
    /// Compute the gradient over the positions from `start` up to, not
    /// including, `end`, and move the weights along it.
    Batch { start: usize, end: usize },
    /// All epochs are done.
    Finished,
}

/// The schedule of a tuning run: `epochs` epochs, numbered from 1 to
/// `epochs`, each a shuffle of the positions followed by their batches in
/// order.
pub struct Tuner {
    /// The number of epochs of the run, which is the number of the last one.
    pub epochs: usize,
    /// The number of the epoch that has begun, 0 before the first.
    pub epoch: usize,
    /// The number of batches of that epoch that have been handed out.
    pub batch: usize,
    /// The source of the shuffles.
    pub rng: ThreadRng,
}

impl Tuner {
    /// Whether the epoch that has begun, if any, has a batch left among `n` positions.
    pub open spec fn has_batch(self, n: int) -> bool {
        self.epoch >= 1 && self.batch < batch_count(n)
    }

    /// Whether another epoch is to begin once the current one has no batch left.
    pub open spec fn has_epoch(self) -> bool {
        self.epoch < self.epochs
    }

    /// The number of epochs that have not begun.
    pub open spec fn epochs_left(self) -> int {
        if self.epoch < self.epochs {
            self.epochs - self.epoch
        } else {
            0
        }
    }

    /// The number of steps that the schedule has left over `n` positions
    /// before it is finished: the batches left in the current epoch, and for
    /// each epoch that has not begun its shuffle and all its batches.
    pub open spec fn steps_left(self, n: int) -> int {
        (if self.has_batch(n) {
            batch_count(n) - self.batch
        } else {
            0
        }) + self.epochs_left() * (batch_count(n) + 1)
    }

    /// Returns the schedule of a run of `epochs` epochs, with no epoch begun.
    pub fn new(epochs: usize) -> (t: Tuner)
        ensures
            t.epochs == epochs,
            t.epoch == 0,
            t.batch == 0,
    {
        Tuner { epochs, epoch: 0, batch: 0, rng: thread_rng() }
    }

    /// Moves the schedule on by one step and returns what is to be done.
    ///
    /// While the current epoch has a batch left, that batch is handed out and
    /// the positions stay as they are. Else the next epoch begins, if there is
    /// one: the positions are shuffled, and the step names the epoch and how
    /// often the learning rate has been divided by ten. Else the run is
    /// finished and nothing changes.
    pub fn next(&mut self, positions: &mut Vec<Position>) -> (step: Step)
        ensures
            final(self).epochs == old(self).epochs,
            final(positions)@.to_multiset() == old(positions)@.to_multiset(),
            final(positions)@.len() == old(positions)@.len(),
            step == Step::Finished ==> old(self).steps_left(old(positions)@.len() as int) == 0,
            step != Step::Finished ==> final(self).steps_left(old(positions)@.len() as int) == old(
                self,
            ).steps_left(old(positions)@.len() as int) - 1,
            match step {
                Step::Batch { start, end } => {
                    &&& old(self).has_batch(old(positions)@.len() as int)
                    &&& start == batch_start(old(self).batch as int)
                    &&& end == batch_end(old(positions)@.len() as int, old(self).batch as int)
                    &&& start < end <= old(positions)@.len()
                    &&& final(self).epoch == old(self).epoch
                    &&& final(self).batch == old(self).batch + 1
                    &&& final(positions)@ == old(positions)@
                },
                Step::Epoch { epoch, decays } => {
                    &&& !old(self).has_batch(old(positions)@.len() as int)
                    &&& old(self).has_epoch()
                    &&& epoch == old(self).epoch + 1
                    &&& decays == decays_by(epoch as int)
                    &&& final(self).epoch == epoch
                    &&& final(self).batch == 0
                },
                Step::Finished => {
                    &&& !old(self).has_batch(old(positions)@.len() as int)
                    &&& !old(self).has_epoch()
                    &&& final(self).epoch == old(self).epoch
                    &&& final(self).batch == old(self).batch
                    &&& final(positions)@ == old(positions)@
                },
            },
    {
        let n = positions.len();
        if self.epoch >= 1 && self.batch <= n / BATCH_SIZE {
            let start = self.batch * BATCH_SIZE;
            if start < n {
                let end = if n - start > BATCH_SIZE {
                    start + BATCH_SIZE
                } else {
                    n
                };
                self.batch += 1;
                return Step::Batch { start, end };
            }
        }
        if self.epoch >= self.epochs {
            return Step::Finished;
        }
        self.epoch += 1;
        self.batch = 0;
        shuffle(positions, &mut self.rng);
        proof {
            old(positions)@.to_multiset_ensures();
            positions@.to_multiset_ensures();
            let per = batch_count(n as int) + 1;
            let before = old(self).epochs_left();
            let after = self.epochs_left();
            assert(before * per == after * per + per) by (nonlinear_arith)
                requires
                    before == after + 1,
            ;
        }
        Step::Epoch { epoch: self.epoch, decays: self.epoch / DECAY_PERIOD }
    }
}

/// The batches of `n` positions follow one another from the first position to
/// the last: each begins where the one before it ended, none is empty, all but
/// the last hold `BATCH_SIZE` positions and the last holds what is left.
pub proof fn lemma_batches_partition(n: int, k: int)
    requires
        0 <= n,
        0 <= k < batch_count(n),
    ensures
        batch_start(0) == 0,
        batch_start(k) < batch_end(n, k) <= n,
        batch_end(n, k) - batch_start(k) <= BATCH_SIZE,
        k + 1 < batch_count(n) ==> batch_end(n, k) == batch_start(k + 1) && batch_end(n, k)
            - batch_start(k) == BATCH_SIZE,
        k + 1 == batch_count(n) ==> batch_end(n, k) == n,
{
}

/// The learning rate is divided by ten once at each epoch whose number is a
/// multiple of `DECAY_PERIOD`, and at no other.
pub proof fn lemma_decay_steps(epoch: int)
    requires
        1 <= epoch,
    ensures
        decays_by(epoch) == decays_by(epoch - 1) + if epoch % (DECAY_PERIOD as int) == 0 {
            1int
        } else {
            0int
        },
        decays_by(0) == 0,
{
}

/// How many of the features have the index `index`.
pub open spec fn feature_touches(features: Seq<Feature>, index: int) -> nat
    decreases features.len(),
{
    if features.len() == 0 {
        0
    } else {
        feature_touches(features.drop_last(), index) + if features.last().index == index {
            1nat
        } else {
            0nat
        }
    }
}

/// How many features of the positions have the index `index`: how often a
/// pass over the positions touches that weight.
pub open spec fn touches(positions: Seq<Position>, index: int) -> nat
    decreases positions.len(),
{
    if positions.len() == 0 {
        0
    } else {
        touches(positions.drop_last(), index) + feature_touches(positions.last().features@, index)
    }
}

/// No index is touched more often than there are features.
proof fn lemma_feature_touches_bound(features: Seq<Feature>, index: int)
    ensures
        feature_touches(features, index) <= features.len(),
    decreases features.len(),
{
    if features.len() > 0 {
        lemma_feature_touches_bound(features.drop_last(), index);
    }
}

/// Counts, for each weight, how often the batch of positions from `start` up
/// to, not including, `end` touches it. A weight that the batch leaves
/// untouched has the count 0: its gradient is not averaged and stays zero.
///
/// The counts are wide enough for any batch that a machine can hold.
pub fn touch_counts(positions: &Vec<Position>, start: usize, end: usize, size: usize) -> (counts:
    Vec<u128>)
    requires
        start <= end <= positions@.len(),
        forall|i: int| start <= i < end ==> (#[trigger] positions@[i]).fits(size as int),
    ensures
        counts@.len() == size,
        forall|index: int|
            0 <= index < size ==> #[trigger] counts@[index] == touches(
                positions@.subrange(start as int, end as int),
                index,
            ),
{
    let mut counts: Vec<u128> = Vec::new();
    let mut k: usize = 0;
    while k < size
        invariant
            k <= size,
            counts@.len() == k,
            forall|index: int| 0 <= index < k ==> #[trigger] counts@[index] == 0,
        decreases size - k,
    {
        counts.push(0);
        k += 1;
    }
    proof {
        assert(positions@.subrange(start as int, start as int) =~= Seq::<Position>::empty());
    }
    let mut p: usize = start;
    while p < end
        invariant
            start <= p <= end <= positions@.len(),
            counts@.len() == size,
            forall|i: int| start <= i < end ==> (#[trigger] positions@[i]).fits(size as int),
            forall|index: int|
                0 <= index < size ==> #[trigger] counts@[index] == touches(
                    positions@.subrange(start as int, p as int),
                    index,
                ),
            forall|index: int|
                0 <= index < size ==> #[trigger] counts@[index] <= (p - start) * usize::MAX,
        decreases end - p,
    {
        let position = &positions[p];
        let ghost done = positions@.subrange(start as int, p as int);
        let ghost features = position.features@;
        let ghost base = counts@;
        proof {
            assert(features.take(0) =~= Seq::<Feature>::empty());
            assert(position.fits(size as int));
        }
        let mut f: usize = 0;
        while f < position.features.len()
            invariant
                f <= features.len(),
                features == position.features@,
                position.fits(size as int),
                counts@.len() == size,
                base.len() == size,
                forall|index: int|
                    0 <= index < size ==> #[trigger] counts@[index] == base[index] + feature_touches(
                        features.take(f as int),
                        index,
                    ),
                forall|index: int|
                    0 <= index < size ==> #[trigger] base[index] <= (p - start) * usize::MAX,
                p < end <= usize::MAX,
                start <= p,
            decreases features.len() - f,
        {
            let index = position.features[f].index;
            proof {
                lemma_feature_touches_bound(features.take(f as int), index as int);
                assert((p - start) * usize::MAX + usize::MAX <= usize::MAX * usize::MAX)
                    by (nonlinear_arith)
                    requires
                        0 <= p - start < usize::MAX,
                ;
                assert(features.take(f + 1).drop_last() =~= features.take(f as int));
            }
            let count: u128 = counts[index];
            proof {
                assert(count == base[index as int] + feature_touches(
                    features.take(f as int),
                    index as int,
                ));
                assert(usize::MAX * usize::MAX < u128::MAX) by (nonlinear_arith)
                    requires
                        usize::MAX <= 0xffff_ffff_ffff_ffff,
                        u128::MAX == 0xffff_ffff_ffff_ffff_ffff_ffff_ffff_ffff,
                ;
            }
            counts[index] = count + 1;
            f += 1;
        }
        proof {
            assert(features.take(f as int) =~= features);
            let next = positions@.subrange(start as int, p + 1);
            assert(next.drop_last() =~= done);
            assert(next.last() == positions@[p as int]);
            assert forall|index: int| 0 <= index < size implies #[trigger] counts@[index] <= (p + 1
                - start) * usize::MAX by {
                lemma_feature_touches_bound(features, index);
                assert((p - start) * usize::MAX + usize::MAX == (p + 1 - start) * usize::MAX)
                    by (nonlinear_arith);
            }
        }
        p += 1;
    }
    counts
}

/// The number of values of the scaling constant that the search tries: 0.0,
/// 0.1 and so on up to 19.9.
pub const K_CANDIDATES: u32 = 200;

/// The search for the scaling constant that fits predictions to outcomes
/// best. The candidates are tried in ascending order, and the search stops at
/// the first whose error is no improvement on the best so far: the error is
/// taken to fall and then rise, which it need not.
#[derive(Debug, Clone, Copy, PartialEq, Eq, Structural)]
pub struct KSearch {
    /// The number of candidates that improved on all before them.
    pub accepted: u32,
    /// Whether a candidate failed to improve.
    pub stopped: bool,
}

impl KSearch {
    /// The state of a search is well formed while no more candidates were
    /// accepted than there are.
    pub open spec fn wf(self) -> bool {
        self.accepted <= K_CANDIDATES
    }

    /// The candidate to try next, in tenths, if the search goes on.
    pub open spec fn pending(self) -> Option<u32> {
        if self.stopped || self.accepted >= K_CANDIDATES {
            None
        } else {
            Some(self.accepted)
        }
    }

    /// The best candidate so far, in tenths: the last that was accepted, or
    /// 0.0 where none was.
    pub open spec fn best_tenths(self) -> int {
        if self.accepted == 0 {
            0
        } else {
            self.accepted - 1
        }
    }

    /// Returns a search that has tried no candidate.
    pub fn new() -> (s: KSearch)
        ensures
            s.wf(),
            s.accepted == 0,
            !s.stopped,
            s.pending() == Some(0u32),
    {
        KSearch { accepted: 0, stopped: false }
    }

    /// Returns the candidate whose error is to be measured next, in tenths,
    /// or `None` once the search has ended.
    pub fn candidate(&self) -> (c: Option<u32>)
        ensures
            c == self.pending(),
    {
        if self.stopped || self.accepted >= K_CANDIDATES {
            None
        } else {
            Some(self.accepted)
        }
    }

    /// Records whether the error of the pending candidate improved on the
    /// best so far. An improvement makes the candidate the best and the next
    /// one pending; anything else ends the search.
    pub fn record(&mut self, improved: bool)
        requires
            old(self).wf(),
            old(self).pending() is Some,
        ensures
            final(self).wf(),
            improved ==> final(self).accepted == old(self).accepted + 1 && !final(self).stopped
                && final(self).best_tenths() == old(self).pending()->0,
            !improved ==> final(self).accepted == old(self).accepted && final(self).stopped
                && final(self).best_tenths() == old(self).best_tenths() && final(self).pending()
                is None,
    {
        if improved {
            self.accepted += 1;
        } else {
            self.stopped = true;
        }
    }

    /// Returns the best candidate so far, in tenths.
    pub fn best(&self) -> (k: u32)
        ensures
            k == self.best_tenths(),
    {
        if self.accepted == 0 {
            0
        } else {
            self.accepted - 1
        }
    }
}

/// The state of a search after the observations `improved`, one for each
/// candidate in turn; observations made after the search has ended are not
/// taken.
pub open spec fn search_after(improved: Seq<bool>) -> KSearch
    decreases improved.len(),
{
    if improved.len() == 0 {
        KSearch { accepted: 0, stopped: false }
    } else {
        let before = search_after(improved.drop_last());
        if before.pending() is None {
            before
        } else if improved.last() {
            KSearch { accepted: (before.accepted + 1) as u32, stopped: false }
        } else {
            KSearch { accepted: before.accepted, stopped: true }
        }
    }
}

/// A search accepts the candidates up to the first that fails to improve, and
/// at most all 200 of them: every accepted candidate improved, a search that
/// stopped did so at a candidate that did not, and one that did not stop has
/// accepted every candidate it was given. So the best candidate is the last
/// before the first failure, and 0.0 where the first candidate already fails.
pub proof fn lemma_search_result(improved: Seq<bool>)
    ensures
        search_after(improved).wf(),
        search_after(improved).accepted <= improved.len(),
        forall|i: int| 0 <= i < search_after(improved).accepted ==> #[trigger] improved[i],
        search_after(improved).stopped ==> search_after(improved).accepted < improved.len()
            && !improved[search_after(improved).accepted as int],
        !search_after(improved).stopped ==> search_after(improved).accepted == if improved.len()
            < K_CANDIDATES {
            improved.len()
        } else {
            K_CANDIDATES as nat
        },
    decreases improved.len(),
{
    if improved.len() > 0 {
        let head = improved.drop_last();
        lemma_search_result(head);
        assert forall|i: int| 0 <= i < search_after(improved).accepted implies #[trigger] improved[i] by {
            if i < head.len() {
                assert(improved[i] == head[i]);
            }
        }
        if search_after(head).stopped {
            assert(improved[search_after(head).accepted as int] == head[search_after(
                head,
            ).accepted as int]);
        }
    }
}

} // verus!
