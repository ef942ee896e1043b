//! The caller-side completion protocol for one round of tasks.
//!
//! The pool has no join primitive, so the caller tracks one round of
//! `n` submitted tasks with two counters. Each task, when it starts
//! running, claims the next dispatch index to learn which partition of
//! the input it owns; each task, after adding its partial result to the
//! shared accumulator, records its completion. The round is complete
//! exactly when the completion counter has reached `n`, which is when
//! the caller's poll loop may stop and the accumulator may be read.

use vstd::prelude::*;
use vstd::seq_lib::commutative_foldr;
use vstd::seq_lib::lemma_fold_right_permutation;
use crate::partition::part_hi;
use crate::partition::part_lo;
use crate::partition::partial_sums;
use crate::partition::lemma_sum_of_partials;
use crate::partition::sum_over;

verus! {

/// The abstract state of a round: how many tasks it was opened for, how
/// many dispatch indices have been claimed, and how many tasks have
/// recorded completion.
pub struct RoundView {
    pub tasks: nat,
    pub claimed: nat,
    pub completed: nat,
}

/// One round of `n` tasks awaited together. The dispatch-index counter
/// hands each task invocation a distinct index in `0 .. n`, and the
/// completion counter counts the tasks that have finished, never past
/// the number of indices handed out.
pub struct Round {
    num_tasks: u32,
    next_index: u32,
    completed: u32,
}

impl View for Round {
    type V = RoundView;

    closed spec fn view(&self) -> RoundView {
        RoundView {
            tasks: self.num_tasks as nat,
            claimed: self.next_index as nat,
            completed: self.completed as nat,
        }
    }
}

impl Round {
    /// Completions never outrun claims, and claims never outrun the
    /// round's size.
    pub open spec fn wf(&self) -> bool {
        self@.completed <= self@.claimed <= self@.tasks
    }

    /// The round is complete: every one of its tasks has recorded
    /// completion.
    pub open spec fn complete(&self) -> bool {
        self@.completed == self@.tasks
    }

    /// Opens a round of `num_tasks` tasks with both counters at zero.
    pub fn new(num_tasks: u32) -> (r: Round)
        ensures
            r.wf(),
            r@.tasks == num_tasks,
            r@.claimed == 0,
            r@.completed == 0,
    {
        Round { num_tasks, next_index: 0, completed: 0 }
    }

    /// A task's atomic fetch-and-increment on the dispatch-index
    /// counter: it learns the next unclaimed index and advances the
    /// counter, so no two invocations in a round ever see the same
    /// index. Only the round's own `n` tasks claim, so the counter
    /// never passes `n`.
    pub fn claim_index(&mut self) -> (i: u32)
        requires
            old(self).wf(),
            old(self)@.claimed < old(self)@.tasks,
        ensures
            final(self).wf(),
            i == old(self)@.claimed,
            final(self)@.tasks == old(self)@.tasks,
            final(self)@.claimed == old(self)@.claimed + 1,
            final(self)@.completed == old(self)@.completed,
    {
        let i = self.next_index;
        self.next_index = self.next_index + 1;
        i
    }

    /// A task's atomic increment of the completion counter, after its
    /// partial result has been added to the accumulator. A completion
    /// always follows a claim, so the counter never passes the number
    /// of indices handed out.
    pub fn record_completion(&mut self)
        requires
            old(self).wf(),
            old(self)@.completed < old(self)@.claimed,
        ensures
            final(self).wf(),
            final(self)@.tasks == old(self)@.tasks,
            final(self)@.claimed == old(self)@.claimed,
            final(self)@.completed == old(self)@.completed + 1,
    {
        self.completed = self.completed + 1;
    }

    /// One poll of the completion counter: true exactly when every task
    /// of the round has recorded completion.
    pub fn is_complete(&self) -> (b: bool)
        ensures
            b == self.complete(),
    {
        self.completed == self.num_tasks
    }

    /// How many tasks the round was opened for.
    pub fn task_count(&self) -> (n: u32)
        ensures
            n == self@.tasks,
    {
        self.num_tasks
    }

    /// One poll of the completion counter's raw value.
    pub fn completed_count(&self) -> (n: u32)
        ensures
            n == self@.completed,
    {
        self.completed
    }
}

/// Exactly `n` completion increments make a round: a well-formed round
/// is complete precisely when its completion counter, which each
/// finished task advanced by one, has reached the round's task count —
/// and then every dispatch index was claimed as well. Since each poll
/// reports completion exactly under that condition, the caller's poll
/// loop stops as soon as the `n`-th task has recorded completion, and
/// not before.
pub proof fn lemma_round_completion(r: Round)
    requires
        r.wf(),
    ensures
        r@.completed <= r@.tasks,
        r.complete() <==> r@.completed == r@.tasks,
        r.complete() ==> r@.claimed == r@.tasks,
{
}

/// The sum of a sequence of integers.
pub open spec fn seq_sum(s: Seq<int>) -> int
    decreases s.len(),
{
    if s.len() == 0 {
        0
    } else {
        seq_sum(s.drop_last()) + s.last()
    }
}

spec fn plus() -> spec_fn(int, int) -> int {
    |x: int, v: int| x + v
}

proof fn lemma_seq_sum_as_fold(s: Seq<int>, b: int)
    ensures
        s.fold_right(plus(), b) == seq_sum(s) + b,
    decreases s.len(),
{
    if s.len() > 0 {
        lemma_seq_sum_as_fold(s.drop_last(), plus()(s.last(), b));
    }
}

/// Addition is order-free: two sequences holding the same integers the
/// same number of times, in any two orders, have the same sum.
pub proof fn lemma_sum_order_free(s1: Seq<int>, s2: Seq<int>)
    requires
        s1.to_multiset() == s2.to_multiset(),
    ensures
        seq_sum(s1) == seq_sum(s2),
{
    let f = plus();
    assert(commutative_foldr(f)) by {
        assert forall|x: int, y: int, v: int| #[trigger] f(x, f(y, v)) == f(y, f(x, v)) by {}
    }
    lemma_fold_right_permutation(s1, s2, f, 0);
    lemma_seq_sum_as_fold(s1, 0);
    lemma_seq_sum_as_fold(s2, 0);
}

/// The abstract state of an accumulator: its current value and every
/// partial result added so far, in the order the additions happened.
pub struct AccumulatorView {
    pub value: int,
    pub partials: Seq<int>,
}

/// The shared accumulator of the caller protocol: a single cell that
/// every task, under the accumulator's lock, adds its locally computed
/// partial result to. Its invariant is the reduction's correctness
/// condition: the value always equals the sum of the partial results
/// added so far, whatever order the tasks finished in.
pub struct Accumulator {
    value: i64,
    partials: Ghost<Seq<int>>,
}

impl View for Accumulator {
    type V = AccumulatorView;

    closed spec fn view(&self) -> AccumulatorView {
        AccumulatorView { value: self.value as int, partials: self.partials@ }
    }
}

impl Accumulator {
    /// The value is the sum of the recorded partial results.
    pub open spec fn wf(&self) -> bool {
        self@.value == seq_sum(self@.partials)
    }

    /// Starts the round at the reduction's identity element, zero.
    pub fn new() -> (acc: Accumulator)
        ensures
            acc.wf(),
            acc@.value == 0,
            acc@.partials == Seq::<int>::empty(),
    {
        Accumulator { value: 0, partials: Ghost(Seq::empty()) }
    }

    /// One task's locked addition of its partial result. The bound on
    /// the new value only keeps the cell inside its machine word.
    pub fn add(&mut self, partial: i64)
        requires
            old(self).wf(),
            i64::MIN <= old(self)@.value + partial <= i64::MAX,
        ensures
            final(self).wf(),
            final(self)@.value == old(self)@.value + partial,
            final(self)@.partials == old(self)@.partials.push(partial as int),
    {
        self.partials = Ghost(self.partials@.push(partial as int));
        self.value = self.value + partial;
        proof {
            assert(self@.partials.drop_last() =~= old(self)@.partials);
        }
    }

    /// Reads the accumulated value, once the round is complete.
    pub fn total(&self) -> (t: i64)
        ensures
            t == self@.value,
    {
        self.value
    }
}

/// The partial results of one round's `n` tasks in dispatch-index
/// order: entry `i` is the sum of `f` over the sub-range task `i` owns.
pub open spec fn task_partials(n: int, w: int, f: spec_fn(int) -> int) -> Seq<int> {
    Seq::new(n as nat, |i: int| sum_over(part_lo(i, n, w), part_hi(i, n, w), f))
}

proof fn lemma_task_partials_sum(k: int, n: int, w: int, f: spec_fn(int) -> int)
    requires
        0 <= k <= n,
    ensures
        seq_sum(task_partials(n, w, f).take(k)) == partial_sums(k, n, w, f),
    decreases k,
{
    if k > 0 {
        lemma_task_partials_sum(k - 1, n, w, f);
        assert(task_partials(n, w, f).take(k).drop_last() =~= task_partials(n, w, f).take(
            k - 1,
        ));
    }
}

/// The round's correctness law: whatever order the tasks finished in,
/// an accumulator whose recorded partials are exactly the `n` tasks'
/// partial sums of `f` holds the whole reduction of `f` over `[1, w]`.
pub proof fn lemma_accumulated_total(
    acc: Accumulator,
    n: int,
    w: int,
    f: spec_fn(int) -> int,
)
    requires
        acc.wf(),
        0 < n,
        0 <= w,
        acc@.partials.to_multiset() == task_partials(n, w, f).to_multiset(),
    ensures
        acc@.value == sum_over(1, w, f),
{
    lemma_sum_order_free(acc@.partials, task_partials(n, w, f));
    assert(task_partials(n, w, f).take(n) =~= task_partials(n, w, f));
    lemma_task_partials_sum(n, n, w, f);
    lemma_sum_of_partials(n, w, f);
}

} // verus!
