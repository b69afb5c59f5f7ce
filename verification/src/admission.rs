//! Admission control: a pool of permits that bounds how many analysis jobs
//! run at once. Jobs that find no free permit wait in order of arrival.

use vstd::prelude::*;
use crate::ids::{find, lemma_without, remove_id, without};

verus! {

/// How many jobs may run at once unless the pool is made with another
/// capacity.
pub const DEFAULT_CAPACITY: usize = 2;

/// What a job is told when it asks for a permit.
#[derive(Clone, Copy, Debug, PartialEq, Eq, Structural)]
pub enum Admission {
    /// The job holds a permit under this ticket.
    Granted(usize),
    /// No permit is free; the job waits under this ticket.
    Queued(usize),
}

/// What the pool keeps true: no more permits are out than the capacity, no
/// job waits while a permit is free, every ticket was handed out, and no
/// ticket is listed twice.
pub open spec fn pool_ok(
    capacity: usize,
    next_ticket: usize,
    holders: Seq<usize>,
    waiting: Seq<usize>,
) -> bool {
    &&& holders.len() <= capacity
    &&& waiting.len() > 0 ==> holders.len() == capacity
    &&& holders.no_duplicates()
    &&& waiting.no_duplicates()
    &&& forall|i: int| 0 <= i < holders.len() ==> #[trigger] holders[i] < next_ticket
    &&& forall|i: int| 0 <= i < waiting.len() ==> #[trigger] waiting[i] < next_ticket
    &&& forall|i: int, j: int|
        0 <= i < holders.len() && 0 <= j < waiting.len() ==> #[trigger] holders[i]
            != #[trigger] waiting[j]
}

/// A pool of permits with the jobs that hold one and the jobs that wait.
pub struct AdmissionController {
    capacity: usize,
    next_ticket: usize,
    holders: Vec<usize>,
    waiting: Vec<usize>,
}

impl AdmissionController {
    /// The number of permits.
    pub closed spec fn capacity(&self) -> usize {
        self.capacity
    }

    /// The ticket that the next job gets.
    pub closed spec fn next_ticket(&self) -> usize {
        self.next_ticket
    }

    /// The tickets that hold a permit, in the order in which they got it.
    pub closed spec fn holders(&self) -> Seq<usize> {
        self.holders@
    }

    /// The tickets that wait for a permit, first come first.
    pub closed spec fn waiting(&self) -> Seq<usize> {
        self.waiting@
    }

    /// The invariant of the type.
    #[verifier::type_invariant]
    pub closed spec fn wf(&self) -> bool {
        pool_ok(self.capacity, self.next_ticket, self.holders@, self.waiting@)
    }

    /// What the invariant says.
    pub proof fn lemma_wf(&self)
        requires
            self.wf(),
        ensures
            pool_ok(self.capacity(), self.next_ticket(), self.holders(), self.waiting()),
    {
    }

    /// How `acquire` changes a pool: the next ticket is handed out and gets a
    /// permit at once exactly when one is free; else it goes to the end of
    /// the queue. With the tickets used up nothing changes.
    pub open spec fn after_acquire(&self, after: &AdmissionController, got: Option<Admission>) -> bool {
        &&& after.capacity() == self.capacity()
        &&& match got {
            Some(Admission::Granted(ticket)) => {
                &&& self.holders().len() < self.capacity()
                &&& ticket == self.next_ticket()
                &&& after.next_ticket() == ticket + 1
                &&& after.holders() == self.holders().push(ticket)
                &&& after.waiting() == self.waiting()
            },
            Some(Admission::Queued(ticket)) => {
                &&& self.holders().len() == self.capacity()
                &&& ticket == self.next_ticket()
                &&& after.next_ticket() == ticket + 1
                &&& after.holders() == self.holders()
                &&& after.waiting() == self.waiting().push(ticket)
            },
            None => {
                &&& self.next_ticket() == usize::MAX
                &&& after.next_ticket() == self.next_ticket()
                &&& after.holders() == self.holders()
                &&& after.waiting() == self.waiting()
            },
        }
    }

    /// How `release` changes a pool: the permit of a holder goes to the job
    /// that waited longest, if any waits, and is free otherwise. For a ticket
    /// that holds no permit nothing changes.
    pub open spec fn after_release(
        &self,
        after: &AdmissionController,
        ticket: usize,
        next: Option<usize>,
    ) -> bool {
        &&& after.capacity() == self.capacity()
        &&& after.next_ticket() == self.next_ticket()
        &&& if !self.holders().contains(ticket) {
            &&& next is None
            &&& after.holders() == self.holders()
            &&& after.waiting() == self.waiting()
        } else if self.waiting().len() == 0 {
            &&& next is None
            &&& after.holders() == without(self.holders(), ticket)
            &&& after.waiting() == self.waiting()
        } else {
            &&& next == Some(self.waiting()[0])
            &&& after.holders() == without(self.holders(), ticket).push(self.waiting()[0])
            &&& after.waiting() == self.waiting().drop_first()
        }
    }

    /// How `cancel` changes a pool: a waiting job leaves the queue. Holders
    /// keep their permits.
    pub open spec fn after_cancel(&self, after: &AdmissionController, ticket: usize) -> bool {
        &&& after.capacity() == self.capacity()
        &&& after.next_ticket() == self.next_ticket()
        &&& after.holders() == self.holders()
        &&& after.waiting() == without(self.waiting(), ticket)
    }

    /// A pool of `capacity` permits, all free.
    pub fn new(capacity: usize) -> (pool: AdmissionController)
        ensures
            pool.capacity() == capacity,
            pool.next_ticket() == 0,
            pool.holders() == Seq::<usize>::empty(),
            pool.waiting() == Seq::<usize>::empty(),
    {
        AdmissionController { capacity, next_ticket: 0, holders: Vec::new(), waiting: Vec::new() }
    }

    /// Asks for a permit for a new job.
    pub fn acquire(&mut self) -> (got: Option<Admission>)
        ensures
            old(self).after_acquire(final(self), got),
    {
        proof {
            use_type_invariant(&*self);
        }
        if self.next_ticket == usize::MAX {
            return None;
        }
        let ticket = self.next_ticket;
        if self.holders.len() < self.capacity {
            let mut holders: Vec<usize> = Vec::new();
            std::mem::swap(&mut self.holders, &mut holders);
            holders.push(ticket);
            self.next_ticket = ticket + 1;
            self.holders = holders;
            Some(Admission::Granted(ticket))
        } else {
            let mut waiting: Vec<usize> = Vec::new();
            std::mem::swap(&mut self.waiting, &mut waiting);
            waiting.push(ticket);
            self.next_ticket = ticket + 1;
            self.waiting = waiting;
            Some(Admission::Queued(ticket))
        }
    }

    /// Gives back the permit of `ticket`. Returns the ticket that gets the
    /// permit next, if a job waited.
    pub fn release(&mut self, ticket: usize) -> (next: Option<usize>)
        ensures
            old(self).after_release(final(self), ticket, next),
    {
        proof {
            use_type_invariant(&*self);
            lemma_without(self.holders@, ticket);
        }
        let mut holders: Vec<usize> = Vec::new();
        let mut waiting: Vec<usize> = Vec::new();
        std::mem::swap(&mut self.waiting, &mut waiting);
        std::mem::swap(&mut self.holders, &mut holders);
        let ghost held = holders@;
        let ghost queued = waiting@;
        let mut next: Option<usize> = None;
        if remove_id(&mut holders, ticket) {
            if waiting.len() > 0 {
                let head = waiting.remove(0);
                holders.push(head);
                next = Some(head);
                proof {
                    assert(waiting@ =~= queued.drop_first());
                    let kept = without(held, ticket);
                    assert(!kept.contains(head)) by {
                        if kept.contains(head) {
                            assert(held.contains(head));
                            let i = choose|i: int| 0 <= i < held.len() && held[i] == head;
                            assert(held[i] != queued[0]);
                        }
                    }
                    assert forall|i: int, j: int|
                        0 <= i < holders@.len() && 0 <= j < holders@.len() && i != j implies holders@[i]
                        != holders@[j] by {
                        if i < kept.len() {
                            assert(kept.contains(kept[i]));
                        }
                        if j < kept.len() {
                            assert(kept.contains(kept[j]));
                        }
                    }
                    assert forall|i: int| 0 <= i < holders@.len() implies #[trigger] holders@[i]
                        < self.next_ticket by {
                        if i < kept.len() {
                            assert(kept.contains(kept[i]));
                            assert(held.contains(kept[i]));
                        } else {
                            assert(queued[0] < self.next_ticket);
                        }
                    }
                    assert forall|i: int, j: int|
                        0 <= i < holders@.len() && 0 <= j < waiting@.len() implies #[trigger] holders@[i]
                        != #[trigger] waiting@[j] by {
                        assert(waiting@[j] == queued[j + 1]);
                        if i < kept.len() {
                            assert(kept.contains(kept[i]));
                            assert(held.contains(kept[i]));
                            let k = choose|k: int| 0 <= k < held.len() && held[k] == kept[i];
                            assert(held[k] != queued[j + 1]);
                        } else {
                            assert(queued[0] != queued[j + 1]);
                        }
                    }
                    assert forall|i: int, j: int|
                        0 <= i < waiting@.len() && 0 <= j < waiting@.len() && i != j implies waiting@[i]
                        != waiting@[j] by {
                        assert(queued[i + 1] != queued[j + 1]);
                    }
                }
            } else {
                proof {
                    let kept = without(held, ticket);
                    assert forall|i: int| 0 <= i < kept.len() implies #[trigger] kept[i]
                        < self.next_ticket by {
                        assert(kept.contains(kept[i]));
                        assert(held.contains(kept[i]));
                    }
                }
            }
        }
        self.holders = holders;
        self.waiting = waiting;
        next
    }

    /// Takes a waiting job out of the queue. Returns whether it waited.
    pub fn cancel(&mut self, ticket: usize) -> (cancelled: bool)
        ensures
            cancelled == old(self).waiting().contains(ticket),
            old(self).after_cancel(final(self), ticket),
    {
        proof {
            use_type_invariant(&*self);
            lemma_without(self.waiting@, ticket);
        }
        let mut waiting: Vec<usize> = Vec::new();
        std::mem::swap(&mut self.waiting, &mut waiting);
        let ghost queued = waiting@;
        let cancelled = remove_id(&mut waiting, ticket);
        proof {
            let kept = without(queued, ticket);
            assert forall|i: int| 0 <= i < kept.len() implies #[trigger] kept[i]
                < self.next_ticket by {
                assert(kept.contains(kept[i]));
                assert(queued.contains(kept[i]));
            }
            assert forall|i: int, j: int|
                0 <= i < self.holders@.len() && 0 <= j < kept.len() implies #[trigger] self.holders@[i]
                != #[trigger] kept[j] by {
                assert(kept.contains(kept[j]));
                assert(queued.contains(kept[j]));
                let k = choose|k: int| 0 <= k < queued.len() && queued[k] == kept[j];
                assert(self.holders@[i] != queued[k]);
            }
            if kept.len() > 0 {
                assert(queued.len() > 0);
            }
        }
        self.waiting = waiting;
        cancelled
    }

    /// How many permits are out. Never more than the capacity.
    pub fn outstanding(&self) -> (n: usize)
        ensures
            n == self.holders().len(),
            n <= self.capacity(),
    {
        proof {
            use_type_invariant(self);
        }
        self.holders.len()
    }

    /// How many permits are free.
    pub fn available(&self) -> (n: usize)
        ensures
            n == self.capacity() - self.holders().len(),
    {
        proof {
            use_type_invariant(self);
        }
        self.capacity - self.holders.len()
    }

    /// Whether `ticket` holds a permit.
    pub fn is_holding(&self, ticket: usize) -> (holding: bool)
        ensures
            holding == self.holders().contains(ticket),
    {
        find(&self.holders, ticket).is_some()
    }

    /// Whether `ticket` waits for a permit.
    pub fn is_waiting(&self, ticket: usize) -> (waits: bool)
        ensures
            waits == self.waiting().contains(ticket),
    {
        find(&self.waiting, ticket).is_some()
    }
}

impl Default for AdmissionController {
    /// A pool of the default capacity.
    fn default() -> (pool: AdmissionController)
        ensures
            pool.capacity() == DEFAULT_CAPACITY,
            pool.holders() == Seq::<usize>::empty(),
            pool.waiting() == Seq::<usize>::empty(),
    {
        AdmissionController::new(DEFAULT_CAPACITY)
    }
}

/// Whether `after` follows from `before` by one operation of the pool:
/// an `acquire` answered with `got`, a `release` of `ticket` that hands the
/// permit to `next`, or a `cancel` of `ticket`.
pub open spec fn pool_step(
    before: &AdmissionController,
    after: &AdmissionController,
    got: Option<Admission>,
    ticket: usize,
    next: Option<usize>,
) -> bool {
    ||| before.after_acquire(after, got)
    ||| before.after_release(after, ticket, next)
    ||| before.after_cancel(after, ticket)
}

/// Whatever the pool does, it stays in order: never more permits are out
/// than its capacity, and nobody waits while a permit is free.
pub proof fn lemma_step_keeps_pool(
    before: AdmissionController,
    after: AdmissionController,
    got: Option<Admission>,
    ticket: usize,
    next: Option<usize>,
)
    requires
        before.wf(),
        pool_step(&before, &after, got, ticket, next),
    ensures
        pool_ok(after.capacity(), after.next_ticket(), after.holders(), after.waiting()),
        after.holders().len() <= after.capacity(),
{
    before.lemma_wf();
    let h = before.holders();
    let w = before.waiting();
    lemma_without(h, ticket);
    lemma_without(w, ticket);
    if before.after_acquire(&after, got) {
        match got {
            Some(Admission::Granted(t)) => {
                let h2 = h.push(t);
                assert forall|i: int, j: int|
                    0 <= i < h2.len() && 0 <= j < h2.len() && i != j implies h2[i] != h2[j] by {
                    if i < h.len() {
                        assert(h[i] < t);
                    }
                    if j < h.len() {
                        assert(h[j] < t);
                    }
                }
            },
            Some(Admission::Queued(t)) => {
                let w2 = w.push(t);
                assert forall|i: int, j: int|
                    0 <= i < w2.len() && 0 <= j < w2.len() && i != j implies w2[i] != w2[j] by {
                    if i < w.len() {
                        assert(w[i] < t);
                    }
                    if j < w.len() {
                        assert(w[j] < t);
                    }
                }
                assert forall|i: int, j: int|
                    0 <= i < h.len() && 0 <= j < w2.len() implies #[trigger] h[i]
                    != #[trigger] w2[j] by {
                    if j < w.len() {
                        assert(h[i] != w[j]);
                    } else {
                        assert(h[i] < t);
                    }
                }
            },
            None => {},
        }
    } else if before.after_release(&after, ticket, next) {
        if h.contains(ticket) {
            let kept = without(h, ticket);
            assert forall|i: int| 0 <= i < kept.len() implies #[trigger] kept[i]
                < before.next_ticket() by {
                assert(kept.contains(kept[i]));
                assert(h.contains(kept[i]));
            }
            if w.len() > 0 {
                let head = w[0];
                let h2 = kept.push(head);
                let w2 = w.drop_first();
                assert(!kept.contains(head)) by {
                    if kept.contains(head) {
                        assert(h.contains(head));
                        let i = choose|i: int| 0 <= i < h.len() && h[i] == head;
                        assert(h[i] != w[0]);
                    }
                }
                assert forall|i: int, j: int|
                    0 <= i < h2.len() && 0 <= j < h2.len() && i != j implies h2[i] != h2[j] by {
                    if i < kept.len() {
                        assert(kept.contains(kept[i]));
                    }
                    if j < kept.len() {
                        assert(kept.contains(kept[j]));
                    }
                }
                assert forall|i: int| 0 <= i < h2.len() implies #[trigger] h2[i]
                    < before.next_ticket() by {
                    if i == kept.len() {
                        assert(w[0] < before.next_ticket());
                    }
                }
                assert forall|i: int| 0 <= i < w2.len() implies #[trigger] w2[i]
                    < before.next_ticket() by {
                    assert(w2[i] == w[i + 1]);
                }
                assert forall|i: int, j: int|
                    0 <= i < w2.len() && 0 <= j < w2.len() && i != j implies w2[i] != w2[j] by {
                    assert(w[i + 1] != w[j + 1]);
                }
                assert forall|i: int, j: int|
                    0 <= i < h2.len() && 0 <= j < w2.len() implies #[trigger] h2[i]
                    != #[trigger] w2[j] by {
                    assert(w2[j] == w[j + 1]);
                    if i < kept.len() {
                        assert(kept.contains(kept[i]));
                        assert(h.contains(kept[i]));
                        let k = choose|k: int| 0 <= k < h.len() && h[k] == kept[i];
                        assert(h[k] != w[j + 1]);
                    } else {
                        assert(w[0] != w[j + 1]);
                    }
                }
            }
        }
    } else {
        let kept = without(w, ticket);
        assert forall|i: int| 0 <= i < kept.len() implies #[trigger] kept[i]
            < before.next_ticket() by {
            assert(kept.contains(kept[i]));
            assert(w.contains(kept[i]));
        }
        assert forall|i: int, j: int|
            0 <= i < h.len() && 0 <= j < kept.len() implies #[trigger] h[i] != #[trigger] kept[j] by {
            assert(kept.contains(kept[j]));
            assert(w.contains(kept[j]));
            let k = choose|k: int| 0 <= k < w.len() && w[k] == kept[j];
            assert(h[i] != w[k]);
        }
    }
}

/// A job that waits gets its permit only when a permit comes back: if a
/// ticket waits before an operation and holds a permit after it, then the
/// operation was the release of a permit that another ticket held, all
/// permits were out before it, and the ticket was the first in the queue.
pub proof fn lemma_grant_follows_release(
    before: AdmissionController,
    after: AdmissionController,
    got: Option<Admission>,
    ticket: usize,
    next: Option<usize>,
    waiter: usize,
)
    requires
        before.wf(),
        pool_step(&before, &after, got, ticket, next),
        before.waiting().contains(waiter),
        after.holders().contains(waiter),
    ensures
        before.after_release(&after, ticket, next),
        before.holders().contains(ticket),
        ticket != waiter,
        before.holders().len() == before.capacity(),
        next == Some(waiter),
        waiter == before.waiting()[0],
{
    before.lemma_wf();
    let h = before.holders();
    let w = before.waiting();
    lemma_without(h, ticket);
    let k = choose|k: int| 0 <= k < w.len() && w[k] == waiter;
    assert(!h.contains(waiter)) by {
        if h.contains(waiter) {
            let i = choose|i: int| 0 <= i < h.len() && h[i] == waiter;
            assert(h[i] != w[k]);
        }
    }
    assert(waiter < before.next_ticket()) by {
        assert(w[k] < before.next_ticket());
    }
    if before.after_acquire(&after, got) {
        match got {
            Some(Admission::Granted(t)) => {
                let h2 = h.push(t);
                let i = choose|i: int| 0 <= i < h2.len() && h2[i] == waiter;
                if i < h.len() {
                    assert(h[i] == waiter);
                }
            },
            _ => {},
        }
        assert(false);
    } else if before.after_cancel(&after, ticket) && !before.after_release(&after, ticket, next) {
        assert(false);
    } else {
        assert(before.after_release(&after, ticket, next));
        if h.contains(ticket) && w.len() > 0 {
            let kept = without(h, ticket);
            let h2 = kept.push(w[0]);
            let i = choose|i: int| 0 <= i < h2.len() && h2[i] == waiter;
            if i < kept.len() {
                assert(kept.contains(waiter));
            }
        }
    }
}

} // verus!
