//! The evaluator slot pool and the admission gate.
//!
//! A fixed set of evaluator instances is shared by giving each a small index
//! and keeping the free indices in a lock-free bounded queue.  A caller that
//! pops an index holds that slot exclusively until it pushes the index back.
//! The admission gate bounds how many requests may compute at once; holding
//! a permit before taking a slot, with no more permits than slots, keeps a
//! permit holder from ever finding the pool empty.

use vstd::prelude::*;
use vstd::multiset::Multiset;
use vstd::set_lib::set_int_range;
use vstd::set_lib::lemma_int_range;
use crate::error::AppError;

verus! {

/// The index queue of a slot pool, from the outside crate that provides the
/// lock-free bounded queue.
#[verifier::external_type_specification]
#[verifier::external_body]
#[verifier::reject_recursive_types(T)]
pub struct ExArrayQueue<T>(crossbeam::queue::ArrayQueue<T>);

/// What the index queue holds, as a multiset: the queue keeps no order that
/// the pool relies on.
pub uninterp spec fn queue_contents(q: crossbeam::queue::ArrayQueue<usize>) -> Multiset<int>;

/// The capacity the index queue was created with.
pub uninterp spec fn queue_capacity(q: crossbeam::queue::ArrayQueue<usize>) -> int;

/// Relies on crossbeam's `ArrayQueue::new`: a fresh queue of the given
/// capacity holds nothing.  `new` panics on a zero capacity, and on one so
/// large that the stamp arithmetic overflows; both stay excluded here.
#[verifier::external_body]
fn queue_new(cap: usize) -> (q: crossbeam::queue::ArrayQueue<usize>)
    requires
        0 < cap < 0x10000000,
    ensures
        queue_contents(q) == Multiset::<int>::empty(),
        queue_capacity(q) == cap as int,
{
    crossbeam::queue::ArrayQueue::new(cap)
}

/// Relies on crossbeam's `ArrayQueue::push`: the value enters the queue
/// unless the queue is full, in which case the queue is unchanged.
#[verifier::external_body]
fn queue_push(q: &mut crossbeam::queue::ArrayQueue<usize>, v: usize) -> (r: bool)
    ensures
        queue_capacity(*final(q)) == queue_capacity(*old(q)),
        r == (queue_contents(*old(q)).len() < queue_capacity(*old(q))),
        r ==> queue_contents(*final(q)) == queue_contents(*old(q)).insert(v as int),
        !r ==> queue_contents(*final(q)) == queue_contents(*old(q)),
{
    q.push(v).is_ok()
}

/// Relies on crossbeam's `ArrayQueue::pop`: some queued value leaves the
/// queue, or `None` comes back from an empty queue, which it leaves as it was.
#[verifier::external_body]
fn queue_pop(q: &mut crossbeam::queue::ArrayQueue<usize>) -> (r: Option<usize>)
    ensures
        queue_capacity(*final(q)) == queue_capacity(*old(q)),
        match r {
            Some(v) => queue_contents(*old(q)).count(v as int) > 0 && queue_contents(*final(q))
                == queue_contents(*old(q)).remove(v as int),
            None => queue_contents(*old(q)).len() == 0 && queue_contents(*final(q))
                == queue_contents(*old(q)),
        },
{
    q.pop()
}

/// A pool of `pool_size` evaluator slots.  The queue holds the free slot
/// indices; the ghost set tracks the indices handed out and not yet returned.
pub struct SlotPool {
    available: crossbeam::queue::ArrayQueue<usize>,
    pool_size: usize,
    held: Ghost<Set<int>>,
}

impl SlotPool {
    /// How many slots the pool was created with.
    pub closed spec fn size(&self) -> int {
        self.pool_size as int
    }

    /// The slot indices currently held by callers.
    pub closed spec fn held_slots(&self) -> Set<int> {
        self.held@
    }

    /// What the free queue of the pool holds.
    pub closed spec fn free_contents(&self) -> Multiset<int> {
        queue_contents(self.available)
    }

    /// Each slot index stands in exactly one place: in the free queue or with
    /// the caller that acquired it — never both, never neither.
    pub closed spec fn wf(&self) -> bool {
        &&& queue_capacity(self.available) == self.size()
        &&& self.held@.finite()
        &&& forall|v: int| self.held@.contains(v) ==> 0 <= v < self.size()
        &&& forall|v: int|
            0 <= v < self.size() ==> #[trigger] queue_contents(self.available).count(v) + (
            if self.held@.contains(v) {
                1int
            } else {
                0int
            }) == 1
        &&& forall|v: int|
            !(0 <= v < self.size()) ==> #[trigger] queue_contents(self.available).count(v) == 0
        &&& queue_contents(self.available).len() + self.held@.len() == self.size()
    }

    /// Build a pool whose free queue holds every index `0..pool_size`.
    pub fn new(pool_size: usize) -> (pool: SlotPool)
        requires
            0 < pool_size < 0x10000000,
        ensures
            pool.wf(),
            pool.size() == pool_size as int,
            pool.held_slots() == Set::<int>::empty(),
    {
        broadcast use vstd::multiset::group_multiset_axioms;

        let mut available = queue_new(pool_size);
        let mut i: usize = 0;
        while i < pool_size
            invariant
                i <= pool_size,
                queue_capacity(available) == pool_size as int,
                forall|v: int|
                    0 <= v < i as int ==> #[trigger] queue_contents(available).count(v) == 1,
                forall|v: int|
                    !(0 <= v < i as int) ==> #[trigger] queue_contents(available).count(v) == 0,
                queue_contents(available).len() == i as int,
            decreases pool_size - i,
        {
            let pushed = queue_push(&mut available, i);
            assert(pushed);
            i = i + 1;
        }
        let pool = SlotPool { available, pool_size, held: Ghost(Set::empty()) };
        pool
    }

    /// Take a free slot for exclusive use.  Fails fast, without waiting, with
    /// a resource error exactly when every slot is already held.
    pub fn acquire_session(&mut self) -> (r: Result<usize, AppError>)
        requires
            old(self).wf(),
        ensures
            final(self).wf(),
            final(self).size() == old(self).size(),
            match r {
                Ok(i) => (i as int) < old(self).size() && !old(self).held_slots().contains(i as int)
                    && final(self).held_slots() == old(self).held_slots().insert(i as int),
                Err(e) => {
                    &&& final(self).held_slots() == old(self).held_slots()
                    &&& old(self).held_slots().len() == old(self).size()
                    &&& e matches AppError::ResourceError(m) && m@ == "No available sessions in pool"@
                },
            },
    {
        broadcast use vstd::multiset::group_multiset_axioms;

        match queue_pop(&mut self.available) {
            Some(i) => {
                proof {
                    assert(queue_contents(old(self).available).count(i as int) > 0);
                    assert(0 <= (i as int) && (i as int) < self.size());
                    assert(!self.held@.contains(i as int));
                }
                self.held = Ghost(self.held@.insert(i as int));
                Ok(i)
            },
            None => {
                proof {
                    let size = self.size();
                    let range = set_int_range(0, size);
                    lemma_int_range(0, size);
                    assert forall|v: int| range.contains(v) implies self.held@.contains(v) by {
                        assert(queue_contents(self.available).count(v)
                            <= queue_contents(self.available).len());
                    }
                    assert(self.held@ =~= range);
                }
                Err(AppError::ResourceError(String::from_str("No available sessions in pool")))
            },
        }
    }

    /// Return a held slot to the free queue.  Only a slot that was acquired
    /// and not yet released can come back, so the push always finds room.
    pub fn release_session(&mut self, index: usize)
        requires
            old(self).wf(),
            old(self).held_slots().contains(index as int),
        ensures
            final(self).wf(),
            final(self).size() == old(self).size(),
            final(self).held_slots() == old(self).held_slots().remove(index as int),
    {
        broadcast use vstd::multiset::group_multiset_axioms;
        broadcast use vstd::set::group_set_axioms;

        proof {
            assert(queue_contents(self.available).count(index as int) == 0);
            assert(old(self).held@.len() >= 1) by {
                assert(old(self).held@.remove(index as int).len() == old(self).held@.len() - 1);
            }
        }
        let pushed = queue_push(&mut self.available, index);
        assert(pushed);
        self.held = Ghost(self.held@.remove(index as int));
    }
}

/// Slot conservation: once every slot has been released — each acquired index
/// returned exactly once — the free queue holds exactly the indices
/// `0..pool_size`, each once.
pub proof fn lemma_slot_conservation(pool: SlotPool)
    requires
        pool.wf(),
        pool.held_slots() == Set::<int>::empty(),
    ensures
        forall|v: int|
            #[trigger] pool.free_contents().count(v) == if 0 <= v < pool.size() {
                1nat
            } else {
                0nat
            },
        pool.free_contents().len() == pool.size(),
{
}

/// The admission gate: a counting semaphore of `permits` permits.  `in_flight`
/// counts the requests that hold one.
pub struct AdmissionGate {
    permits: usize,
    in_flight: usize,
}

impl AdmissionGate {
    /// How many permits exist in all.
    pub closed spec fn permits(&self) -> int {
        self.permits as int
    }

    /// How many requests hold a permit now.
    pub closed spec fn in_flight(&self) -> int {
        self.in_flight as int
    }

    /// No oversubscription: never more concurrent holders than permits.
    pub closed spec fn wf(&self) -> bool {
        self.in_flight <= self.permits
    }

    /// A gate with all permits free.
    pub fn new(permits: usize) -> (gate: AdmissionGate)
        ensures
            gate.wf(),
            gate.permits() == permits as int,
            gate.in_flight() == 0,
    {
        AdmissionGate { permits, in_flight: 0 }
    }

    /// Hand out a permit if one is free: succeeds exactly when the holders
    /// are fewer than the permits.
    pub fn try_acquire(&mut self) -> (r: bool)
        requires
            old(self).wf(),
        ensures
            final(self).wf(),
            final(self).permits() == old(self).permits(),
            r == (old(self).in_flight() < old(self).permits()),
            r ==> final(self).in_flight() == old(self).in_flight() + 1,
            !r ==> final(self).in_flight() == old(self).in_flight(),
    {
        if self.in_flight < self.permits {
            self.in_flight = self.in_flight + 1;
            true
        } else {
            false
        }
    }

    /// Give a permit back.
    pub fn release(&mut self)
        requires
            old(self).wf(),
            old(self).in_flight() > 0,
        ensures
            final(self).wf(),
            final(self).permits() == old(self).permits(),
            final(self).in_flight() == old(self).in_flight() - 1,
    {
        self.in_flight = self.in_flight - 1;
    }
}

/// No oversubscription: at any reachable state, the requests holding a
/// permit never outnumber the permits.
pub proof fn lemma_no_oversubscription(gate: AdmissionGate)
    requires
        gate.wf(),
    ensures
        gate.in_flight() <= gate.permits(),
{
}

/// The dispatch order of one request: an admission permit first, then a
/// slot from the pool, both released in reverse when the compute is done.
pub struct DispatchCore {
    pub gate: AdmissionGate,
    pub pool: SlotPool,
}

impl DispatchCore {
    /// Admission never lets in more requests than the pool has slots, and
    /// the slots handed out all belong to admitted requests.
    pub open spec fn wf(&self) -> bool {
        &&& self.gate.wf()
        &&& self.pool.wf()
        &&& self.gate.permits() <= self.pool.size()
        &&& self.pool.held_slots().len() <= self.gate.in_flight()
    }

    /// A gate of `permits` permits in front of a pool of `pool_size` slots.
    pub fn new(permits: usize, pool_size: usize) -> (core: DispatchCore)
        requires
            0 < pool_size < 0x10000000,
            permits <= pool_size,
        ensures
            core.wf(),
            core.gate.permits() == permits as int,
            core.gate.in_flight() == 0,
            core.pool.size() == pool_size as int,
            core.pool.held_slots() == Set::<int>::empty(),
    {
        DispatchCore { gate: AdmissionGate::new(permits), pool: SlotPool::new(pool_size) }
    }

    /// Admit one request and hand it a slot: permit before slot.  Because the
    /// permits never outnumber the slots, an admitted request always finds a
    /// free slot at once — the slot acquisition cannot fail under a permit.
    pub fn admit_and_acquire(&mut self) -> (r: Result<usize, AppError>)
        requires
            old(self).wf(),
        ensures
            final(self).wf(),
            final(self).gate.permits() == old(self).gate.permits(),
            final(self).pool.size() == old(self).pool.size(),
            r is Ok <==> old(self).gate.in_flight() < old(self).gate.permits(),
            match r {
                Ok(i) => {
                    &&& (i as int) < old(self).pool.size()
                    &&& !old(self).pool.held_slots().contains(i as int)
                    &&& final(self).pool.held_slots() == old(self).pool.held_slots().insert(
                        i as int,
                    )
                    &&& final(self).gate.in_flight() == old(self).gate.in_flight() + 1
                },
                Err(e) => {
                    &&& final(self).pool.held_slots() == old(self).pool.held_slots()
                    &&& final(self).gate.in_flight() == old(self).gate.in_flight()
                    &&& e matches AppError::ResourceError(m) && m@
                        == "Service temporarily overloaded, please retry"@
                },
            },
    {
        broadcast use vstd::set::group_set_axioms;

        if !self.gate.try_acquire() {
            return Err(
                AppError::ResourceError(
                    String::from_str("Service temporarily overloaded, please retry"),
                ),
            );
        }
        proof {
            assert(self.pool.held_slots().len() < self.pool.size());
        }
        match self.pool.acquire_session() {
            Ok(i) => {
                proof {
                    assert(old(self).pool.held_slots().insert(i as int).len() == old(
                        self,
                    ).pool.held_slots().len() + 1);
                }
                Ok(i)
            },
            Err(_) => {
                // Unreachable while a permit is held: the pool cannot be
                // exhausted.
                proof {
                    assert(false);
                }
                Err(
                    AppError::ResourceError(
                        String::from_str("Service temporarily overloaded, please retry"),
                    ),
                )
            },
        }
    }

    /// Finish one request: the slot goes back first, then the permit.
    pub fn release_and_depart(&mut self, index: usize)
        requires
            old(self).wf(),
            old(self).pool.held_slots().contains(index as int),
            old(self).gate.in_flight() > 0,
        ensures
            final(self).wf(),
            final(self).gate.permits() == old(self).gate.permits(),
            final(self).pool.size() == old(self).pool.size(),
            final(self).pool.held_slots() == old(self).pool.held_slots().remove(index as int),
            final(self).gate.in_flight() == old(self).gate.in_flight() - 1,
    {
        broadcast use vstd::set::group_set_axioms;

        proof {
            assert(old(self).pool.held_slots().remove(index as int).len() == old(
                self,
            ).pool.held_slots().len() - 1);
        }
        self.pool.release_session(index);
        self.gate.release();
    }
}

/// Deadlock freedom: while the permits do not outnumber the slots, a request
/// that holds a permit finds a free slot without waiting.
pub proof fn lemma_permit_holder_finds_slot(core: DispatchCore)
    requires
        core.wf(),
    ensures
        core.pool.held_slots().len() < core.pool.size() || core.gate.in_flight()
            >= core.gate.permits(),
        core.pool.free_contents().len() > 0 || core.gate.in_flight() >= core.gate.permits(),
{
}

} // verus!
