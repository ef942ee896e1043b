//! A model of the worker pool's queue discipline.
//!
//! The pool pairs a submission side with a single shared receiving end
//! that any number of workers contend for. The model keeps the queue
//! itself and, as ghost state, the full history of what was submitted
//! and what has been handed out, so that the exactly-once delivery
//! guarantee is an invariant of the type: everything submitted is either
//! already delivered to one worker or still queued, in submission order,
//! with nothing duplicated and nothing lost.

use vstd::prelude::*;

verus! {

/// What one worker's pull on the shared receiving end can find: a task
/// (removed from the queue and handed to that worker alone), nothing yet
/// (the queue is empty but the submission side is still open, so a
/// worker would block and try again), or disconnection (the queue is
/// empty and the submission side is closed, so the worker exits).
pub enum RecvStatus<T> {
    Received(T),
    Empty,
    Disconnected,
}

/// The abstract state of a pool: how many workers it was built with,
/// whether the submission side is still open, every task submitted so
/// far in order, the prefix of those already delivered to a worker, and
/// the suffix still queued.
pub struct PoolView<T> {
    pub workers: nat,
    pub open: bool,
    pub submitted: Seq<T>,
    pub delivered: Seq<T>,
    pub pending: Seq<T>,
}

/// A fixed-size worker pool, modelled at the level of its queue: tasks
/// go in at one end and each comes out exactly once, in submission
/// order, at whichever worker pulls next. The worker count is fixed at
/// construction and never changes.
pub struct ThreadPool<T> {
    num_workers: u8,
    open: bool,
    pending: Vec<T>,
    submitted: Ghost<Seq<T>>,
    delivered: Ghost<Seq<T>>,
}

impl<T> View for ThreadPool<T> {
    type V = PoolView<T>;

    closed spec fn view(&self) -> PoolView<T> {
        PoolView {
            workers: self.num_workers as nat,
            open: self.open,
            submitted: self.submitted@,
            delivered: self.delivered@,
            pending: self.pending@,
        }
    }
}

impl<T> ThreadPool<T> {
    /// No task is lost and none is duplicated: what was submitted is
    /// exactly what has been delivered followed by what is still queued.
    pub open spec fn wf(&self) -> bool {
        self@.submitted == self@.delivered + self@.pending
    }

    /// Builds a pool with the given number of workers, its submission
    /// side open and its queue empty. Any count is accepted, zero
    /// included: a pool with no workers never executes anything, which
    /// is the caller's responsibility to avoid.
    pub fn new(num_threads: u8) -> (pool: Self)
        ensures
            pool.wf(),
            pool@.workers == num_threads,
            pool@.open,
            pool@.submitted == Seq::<T>::empty(),
            pool@.delivered == Seq::<T>::empty(),
            pool@.pending == Seq::<T>::empty(),
    {
        let pool = ThreadPool {
            num_workers: num_threads,
            open: true,
            pending: Vec::new(),
            submitted: Ghost(Seq::empty()),
            delivered: Ghost(Seq::empty()),
        };
        proof {
            assert(pool@.submitted =~= pool@.delivered + pool@.pending);
        }
        pool
    }

    /// Submits one task: it joins the back of the queue and will be
    /// delivered to exactly one worker. The submission side must still
    /// be open; submitting after shutdown is the hard failure that
    /// `try_execute` surfaces.
    pub fn execute(&mut self, work: T)
        requires
            old(self).wf(),
            old(self)@.open,
        ensures
            final(self).wf(),
            final(self)@.workers == old(self)@.workers,
            final(self)@.open,
            final(self)@.submitted == old(self)@.submitted.push(work),
            final(self)@.pending == old(self)@.pending.push(work),
            final(self)@.delivered == old(self)@.delivered,
    {
        self.submitted = Ghost(self.submitted@.push(work));
        self.pending.push(work);
        proof {
            assert(self@.submitted =~= self@.delivered + self@.pending);
        }
    }

    /// Submits one task unless the pool has been shut down. Submission
    /// after shutdown is a hard failure, never a silent drop: the task
    /// comes back unchanged in the error and the pool is untouched.
    pub fn try_execute(&mut self, work: T) -> (r: Result<(), T>)
        requires
            old(self).wf(),
        ensures
            final(self).wf(),
            final(self)@.workers == old(self)@.workers,
            final(self)@.open == old(self)@.open,
            old(self)@.open ==> {
                &&& r == Ok::<(), T>(())
                &&& final(self)@.submitted == old(self)@.submitted.push(work)
                &&& final(self)@.pending == old(self)@.pending.push(work)
                &&& final(self)@.delivered == old(self)@.delivered
            },
            !old(self)@.open ==> r == Err::<(), T>(work) && final(self)@ == old(self)@,
    {
        if self.open {
            self.execute(work);
            Ok(())
        } else {
            Err(work)
        }
    }

    /// Shuts the submission side down, as dropping the pool's sender
    /// does. Tasks already queued stay queued; workers drain them and
    /// only then observe the disconnection.
    pub fn close(&mut self)
        requires
            old(self).wf(),
        ensures
            final(self).wf(),
            !final(self)@.open,
            final(self)@.workers == old(self)@.workers,
            final(self)@.submitted == old(self)@.submitted,
            final(self)@.delivered == old(self)@.delivered,
            final(self)@.pending == old(self)@.pending,
    {
        self.open = false;
    }

    /// One worker's pull on the shared receiving end. When the queue is
    /// non-empty, the oldest task is removed and handed to this worker
    /// alone; an empty queue reports either that a worker would block
    /// (submission side still open) or that the pool is disconnected.
    pub fn recv(&mut self) -> (r: RecvStatus<T>)
        requires
            old(self).wf(),
        ensures
            final(self).wf(),
            final(self)@.workers == old(self)@.workers,
            final(self)@.open == old(self)@.open,
            final(self)@.submitted == old(self)@.submitted,
            old(self)@.pending.len() > 0 ==> {
                &&& r == RecvStatus::Received(old(self)@.pending[0])
                &&& final(self)@.pending == old(self)@.pending.subrange(
                    1,
                    old(self)@.pending.len() as int,
                )
                &&& final(self)@.delivered == old(self)@.delivered.push(old(self)@.pending[0])
            },
            old(self)@.pending.len() == 0 && old(self)@.open ==> r == RecvStatus::<T>::Empty
                && final(self)@ == old(self)@,
            old(self)@.pending.len() == 0 && !old(self)@.open
                ==> r == RecvStatus::<T>::Disconnected && final(self)@ == old(self)@,
    {
        if self.pending.len() > 0 {
            proof {
                self.delivered@ = self.delivered@.push(self.pending@[0]);
            }
            let t = self.pending.remove(0);
            proof {
                assert(self@.pending =~= old(self)@.pending.subrange(
                    1,
                    old(self)@.pending.len() as int,
                ));
                assert(self@.submitted =~= self@.delivered + self@.pending);
            }
            RecvStatus::Received(t)
        } else if self.open {
            RecvStatus::Empty
        } else {
            RecvStatus::Disconnected
        }
    }

    /// The workers' collective shutdown drain: once the submission side
    /// is closed, repeated pulls hand out every still-queued task, in
    /// submission order, and end in the disconnection that makes each
    /// worker exit. Returns the tasks in the order they were handed out.
    pub fn drain(&mut self) -> (tasks: Vec<T>)
        requires
            old(self).wf(),
            !old(self)@.open,
        ensures
            final(self).wf(),
            final(self)@.workers == old(self)@.workers,
            !final(self)@.open,
            final(self)@.submitted == old(self)@.submitted,
            final(self)@.pending.len() == 0,
            tasks@ == old(self)@.pending,
            final(self)@.delivered == old(self)@.delivered + old(self)@.pending,
    {
        let ghost orig = *self;
        let mut tasks: Vec<T> = Vec::new();
        proof {
            assert(orig@.pending =~= tasks@ + self@.pending);
        }
        loop
            invariant
                self.wf(),
                !self@.open,
                self@.workers == orig@.workers,
                self@.submitted == orig@.submitted,
                self@.delivered == orig@.delivered + tasks@,
                orig@.pending == tasks@ + self@.pending,
            ensures
                self@.pending.len() == 0,
            decreases self@.pending.len(),
        {
            match self.recv() {
                RecvStatus::Received(t) => {
                    tasks.push(t);
                    proof {
                        assert(self@.delivered =~= orig@.delivered + tasks@);
                        assert(orig@.pending =~= tasks@ + self@.pending);
                    }
                },
                RecvStatus::Empty => {
                    proof {
                        assert(false);
                    }
                    break ;
                },
                RecvStatus::Disconnected => {
                    break ;
                },
            }
        }
        proof {
            assert(tasks@ =~= orig@.pending);
            assert(self@.delivered =~= orig@.delivered + orig@.pending);
        }
        tasks
    }

    /// How many workers the pool was built with; fixed for its lifetime.
    pub fn num_workers(&self) -> (n: u8)
        ensures
            n == self@.workers,
    {
        self.num_workers
    }

    /// Whether the submission side is still open.
    pub fn is_open(&self) -> (b: bool)
        ensures
            b == self@.open,
    {
        self.open
    }

    /// How many submitted tasks no worker has pulled yet.
    pub fn pending_len(&self) -> (n: usize)
        ensures
            n == self@.pending.len(),
    {
        self.pending.len()
    }
}

/// Exactly-once delivery: for a well-formed pool, every submitted task
/// is accounted for exactly once, either as already delivered to a
/// single worker or as still queued, and once the pool is closed and its
/// queue drained, the delivered history is precisely the submission
/// history.
pub proof fn lemma_delivery_exactly_once<T>(pool: ThreadPool<T>)
    requires
        pool.wf(),
    ensures
        pool@.submitted == pool@.delivered + pool@.pending,
        pool@.submitted.len() == pool@.delivered.len() + pool@.pending.len(),
        !pool@.open && pool@.pending.len() == 0 ==> pool@.delivered == pool@.submitted,
{
    if pool@.pending.len() == 0 {
        assert(pool@.delivered + pool@.pending =~= pool@.delivered);
    }
}

} // verus!
