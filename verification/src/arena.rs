//! The allocator contract shared by the two pool policies, the owning
//! wrapper around a raw handle, and a ghost accounting model that ties
//! reference counts to the handle units a pool has issued and taken back.

use vstd::prelude::*;

verus! {

/// An object stored in an arena. Its finalize hook runs exactly once,
/// while the slot is still counted as referenced, when the last handle
/// to the slot is released.
pub trait ArenaObject: Sized {
    /// Relates the stored value before finalization to the value after.
    spec fn finalized(pre: Self, post: Self) -> bool;

    /// Cleanup run on the last release of a slot.
    fn finalize(&mut self)
        ensures
            Self::finalized(*old(self), *final(self)),
    ;
}

/// The predicate handed to a find-or-allocate scan is callable on each
/// of the pool's stored values; a pool may probe any slot with it, free
/// or referenced.
pub open spec fn pred_callable_on<T, C: Fn(&T) -> bool>(c: C, datas: Seq<T>) -> bool {
    forall|i: int| 0 <= i < datas.len() ==> c.requires((&#[trigger] datas[i],))
}

/// A homogeneous fixed-capacity allocator equipped with reference counts.
///
/// The contract here states what every policy guarantees: a successful
/// operation touches exactly one reference count, a failed one touches
/// nothing, and a pool that refuses an allocation is fully occupied.
/// Each implementation additionally pins down, on its own methods, which
/// slot its policy picks.
pub trait Arena: Sized {
    /// The value type of the allocator.
    type Data: ArenaObject;

    /// The object handle type of the allocator.
    type Handle;

    /// Well-formedness of the pool's internal structure.
    spec fn wf(&self) -> bool;

    /// The reference count of each slot.
    spec fn rcs(&self) -> Seq<nat>;

    /// The stored value of each slot.
    spec fn datas(&self) -> Seq<Self::Data>;

    /// The slot a handle refers to.
    spec fn slot_of(h: &Self::Handle) -> int;

    /// Finds a slot matching `c` or initializes a free one with `n`;
    /// returns its handle, or `None` when the pool has no slot to give.
    fn find_or_alloc_handle<C: Fn(&Self::Data) -> bool, N: FnOnce() -> Self::Data>(
        &mut self,
        c: C,
        n: N,
    ) -> (r: Option<Self::Handle>)
        requires
            old(self).wf(),
            pred_callable_on::<Self::Data, C>(c, old(self).datas()),
            n.requires(()),
            forall|i: int|
                0 <= i < old(self).rcs().len() ==> #[trigger] old(self).rcs()[i] < usize::MAX,
        ensures
            final(self).wf(),
            final(self).rcs().len() == old(self).rcs().len(),
            final(self).datas().len() == old(self).datas().len(),
            match r {
                Some(h) => {
                    let s = Self::slot_of(&h);
                    &&& 0 <= s < old(self).rcs().len()
                    &&& final(self).rcs() == old(self).rcs().update(
                        s,
                        (old(self).rcs()[s] + 1) as nat,
                    )
                    &&& forall|j: int|
                        0 <= j < old(self).datas().len() && j != s
                            ==> final(self).datas()[j] == old(self).datas()[j]
                    &&& (old(self).rcs()[s] > 0 ==> final(self).datas()[s] == old(
                        self,
                    ).datas()[s])
                    &&& (final(self).datas()[s] == old(self).datas()[s] || n.ensures(
                        (),
                        final(self).datas()[s],
                    ))
                },
                None => {
                    &&& final(self).rcs() == old(self).rcs()
                    &&& final(self).datas() == old(self).datas()
                    &&& forall|j: int|
                        0 <= j < old(self).rcs().len() ==> #[trigger] old(self).rcs()[j] > 0
                },
            },
    ;

    /// Initializes a free slot with `n` and returns its handle, or `None`
    /// when every slot is referenced.
    fn alloc_handle<N: FnOnce() -> Self::Data>(&mut self, n: N) -> (r: Option<Self::Handle>)
        requires
            old(self).wf(),
            n.requires(()),
        ensures
            final(self).wf(),
            final(self).rcs().len() == old(self).rcs().len(),
            final(self).datas().len() == old(self).datas().len(),
            match r {
                Some(h) => {
                    let s = Self::slot_of(&h);
                    &&& 0 <= s < old(self).rcs().len()
                    &&& old(self).rcs()[s] == 0
                    &&& final(self).rcs() == old(self).rcs().update(s, 1nat)
                    &&& forall|j: int|
                        0 <= j < old(self).datas().len() && j != s
                            ==> final(self).datas()[j] == old(self).datas()[j]
                    &&& n.ensures((), final(self).datas()[s])
                },
                None => {
                    &&& final(self).rcs() == old(self).rcs()
                    &&& final(self).datas() == old(self).datas()
                    &&& forall|j: int|
                        0 <= j < old(self).rcs().len() ==> #[trigger] old(self).rcs()[j] > 0
                },
            },
    ;

    /// Duplicates a handle issued by this pool, adding one unit to the
    /// reference count of its slot.
    fn dup(&mut self, handle: &Self::Handle) -> (r: Self::Handle)
        requires
            old(self).wf(),
            0 <= Self::slot_of(handle) < old(self).rcs().len(),
            old(self).rcs()[Self::slot_of(handle)] >= 1,
            old(self).rcs()[Self::slot_of(handle)] < usize::MAX,
        ensures
            final(self).wf(),
            Self::slot_of(&r) == Self::slot_of(handle),
            final(self).rcs() == old(self).rcs().update(
                Self::slot_of(handle),
                (old(self).rcs()[Self::slot_of(handle)] + 1) as nat,
            ),
            final(self).datas() == old(self).datas(),
    ;

    /// Consumes a handle issued by this pool, removing one unit from the
    /// reference count of its slot; on the last release the stored
    /// object's finalize hook runs first.
    fn dealloc(&mut self, handle: Self::Handle)
        requires
            old(self).wf(),
            0 <= Self::slot_of(&handle) < old(self).rcs().len(),
            old(self).rcs()[Self::slot_of(&handle)] >= 1,
        ensures
            final(self).wf(),
            final(self).rcs().len() == old(self).rcs().len(),
            final(self).datas().len() == old(self).datas().len(),
            final(self).rcs() == old(self).rcs().update(
                Self::slot_of(&handle),
                (old(self).rcs()[Self::slot_of(&handle)] - 1) as nat,
            ),
            forall|j: int|
                0 <= j < old(self).datas().len() && j != Self::slot_of(&handle)
                    ==> final(self).datas()[j] == old(self).datas()[j],
            old(self).rcs()[Self::slot_of(&handle)] == 1 ==> Self::Data::finalized(
                old(self).datas()[Self::slot_of(&handle)],
                final(self).datas()[Self::slot_of(&handle)],
            ),
            old(self).rcs()[Self::slot_of(&handle)] > 1 ==> final(self).datas() == old(
                self,
            ).datas(),
    ;

    /// Runs `f` with the pool lock released, then reacquires it. The
    /// pools here serialize all operations through exclusive access, so
    /// the pool itself is untouched; the hatch exists for finalize hooks
    /// that must block without holding the pool.
    fn reacquire_after<R, F: FnOnce() -> R>(&mut self, f: F) -> (r: R)
        requires
            old(self).wf(),
            f.requires(()),
        ensures
            *final(self) == *old(self),
            f.ensures((), r),
    ;
}

/// The owning wrapper: pairs a raw handle with nothing more, and is the
/// only value ordinary callers hold. It is obtained from a pool's
/// `find_or_alloc` or `alloc`, shared through the pool's `dup`, and
/// given back through the pool's `dealloc`, so one wrapper always stands
/// for exactly one unit of a slot's reference count.
pub struct Rc<A: Arena> {
    inner: A::Handle,
}

impl<A: Arena> Rc<A> {
    /// The slot this wrapper's handle refers to.
    pub closed spec fn slot(&self) -> int {
        A::slot_of(&self.inner)
    }

    /// Wraps a raw handle. The caller is obliged to pass a handle issued
    /// by the pool the wrapper will be released to.
    pub fn from_unchecked(inner: A::Handle) -> (r: Self)
        ensures
            r.slot() == A::slot_of(&inner),
    {
        Rc { inner }
    }

    /// Borrows the raw handle.
    pub fn handle(&self) -> (h: &A::Handle)
        ensures
            A::slot_of(h) == self.slot(),
    {
        &self.inner
    }

    /// Unwraps the raw handle, to hand it to the pool's `dealloc`.
    pub fn into_handle(self) -> (h: A::Handle)
        ensures
            A::slot_of(&h) == self.slot(),
    {
        self.inner
    }
}

/// The slot of a wrapped handle, or `None` where no wrapper came back.
pub open spec fn opt_rc_slot<A: Arena>(r: Option<Rc<A>>) -> Option<int> {
    match r {
        Some(rc) => Some(rc.slot()),
        None => None,
    }
}

/// One unit of handle accounting: a pool issues a unit whenever an
/// operation returns a handle, and takes one back on each `dealloc`.
/// `lemma_issue_step` and `lemma_release_step` tie the pool contracts to
/// this model; the balance lemmas below then account for whole runs.
pub enum HandleEvent {
    Issue { slot: int },
    Release { slot: int },
}

/// An event is admissible for a refcount table when its slot exists and,
/// for a release, the slot is still referenced.
pub open spec fn event_ok(rcs: Seq<nat>, e: HandleEvent) -> bool {
    match e {
        HandleEvent::Issue { slot } => 0 <= slot < rcs.len(),
        HandleEvent::Release { slot } => 0 <= slot < rcs.len() && rcs[slot] > 0,
    }
}

/// The refcount table after one event.
pub open spec fn apply_event(rcs: Seq<nat>, e: HandleEvent) -> Seq<nat> {
    match e {
        HandleEvent::Issue { slot } => rcs.update(slot, (rcs[slot] + 1) as nat),
        HandleEvent::Release { slot } => rcs.update(slot, (rcs[slot] - 1) as nat),
    }
}

/// Admissibility of a whole event trace, applied left to right.
pub open spec fn events_ok(rcs: Seq<nat>, es: Seq<HandleEvent>) -> bool
    decreases es.len(),
{
    es.len() == 0 || (event_ok(rcs, es[0]) && events_ok(apply_event(rcs, es[0]), es.drop_first()))
}

/// The refcount table after a whole event trace.
pub open spec fn apply_events(rcs: Seq<nat>, es: Seq<HandleEvent>) -> Seq<nat>
    decreases es.len(),
{
    if es.len() == 0 {
        rcs
    } else {
        apply_events(apply_event(rcs, es[0]), es.drop_first())
    }
}

/// How many handle units a trace issues for one slot.
pub open spec fn issued_to(es: Seq<HandleEvent>, slot: int) -> nat
    decreases es.len(),
{
    if es.len() == 0 {
        0
    } else {
        (match es[0] {
            HandleEvent::Issue { slot: s } => if s == slot {
                1nat
            } else {
                0nat
            },
            HandleEvent::Release { .. } => 0nat,
        }) + issued_to(es.drop_first(), slot)
    }
}

/// How many handle units a trace releases from one slot.
pub open spec fn released_from(es: Seq<HandleEvent>, slot: int) -> nat
    decreases es.len(),
{
    if es.len() == 0 {
        0
    } else {
        (match es[0] {
            HandleEvent::Release { slot: s } => if s == slot {
                1nat
            } else {
                0nat
            },
            HandleEvent::Issue { .. } => 0nat,
        }) + released_from(es.drop_first(), slot)
    }
}

/// How many handle units a trace issues in all.
pub open spec fn issued_total(es: Seq<HandleEvent>) -> nat
    decreases es.len(),
{
    if es.len() == 0 {
        0
    } else {
        (match es[0] {
            HandleEvent::Issue { .. } => 1nat,
            HandleEvent::Release { .. } => 0nat,
        }) + issued_total(es.drop_first())
    }
}

/// How many handle units a trace releases in all.
pub open spec fn released_total(es: Seq<HandleEvent>) -> nat
    decreases es.len(),
{
    if es.len() == 0 {
        0
    } else {
        (match es[0] {
            HandleEvent::Release { .. } => 1nat,
            HandleEvent::Issue { .. } => 0nat,
        }) + released_total(es.drop_first())
    }
}

/// The sum of all reference counts in a table.
pub open spec fn rc_sum(rcs: Seq<nat>) -> nat
    decreases rcs.len(),
{
    if rcs.len() == 0 {
        0
    } else {
        rcs[0] + rc_sum(rcs.drop_first())
    }
}

proof fn lemma_rc_sum_update(rcs: Seq<nat>, i: int, v: nat)
    requires
        0 <= i < rcs.len(),
    ensures
        rc_sum(rcs.update(i, v)) + rcs[i] == rc_sum(rcs) + v,
    decreases rcs.len(),
{
    if i == 0 {
        assert(rcs.update(0, v).drop_first() =~= rcs.drop_first());
    } else {
        assert(rcs.update(i, v).drop_first() =~= rcs.drop_first().update(i - 1, v));
        lemma_rc_sum_update(rcs.drop_first(), i - 1, v);
    }
}

/// A successful find-or-allocate, allocate or duplicate moves the
/// refcount table exactly as one issued handle unit for the slot whose
/// handle came back: this is the table change the pool contracts state.
pub proof fn lemma_issue_step(rcs: Seq<nat>, slot: int)
    requires
        0 <= slot < rcs.len(),
    ensures
        event_ok(rcs, HandleEvent::Issue { slot }),
        apply_event(rcs, HandleEvent::Issue { slot }) == rcs.update(slot, (rcs[slot] + 1) as nat),
{
}

/// A deallocation moves the refcount table exactly as one handle unit
/// released from the slot of the handle given back.
pub proof fn lemma_release_step(rcs: Seq<nat>, slot: int)
    requires
        0 <= slot < rcs.len(),
        rcs[slot] > 0,
    ensures
        event_ok(rcs, HandleEvent::Release { slot }),
        apply_event(rcs, HandleEvent::Release { slot }) == rcs.update(slot, (rcs[slot] - 1) as nat),
{
}

/// Per-slot handle balance: after any admissible event trace, a slot's
/// reference count plus the units released from it equals its starting
/// count plus the units issued for it. With a pool that starts
/// unreferenced, the count is exactly the slot's outstanding handle
/// units.
pub proof fn lemma_refcount_balance(rcs: Seq<nat>, es: Seq<HandleEvent>, slot: int)
    requires
        events_ok(rcs, es),
        0 <= slot < rcs.len(),
    ensures
        apply_events(rcs, es).len() == rcs.len(),
        apply_events(rcs, es)[slot] + released_from(es, slot) == rcs[slot] + issued_to(es, slot),
    decreases es.len(),
{
    if es.len() > 0 {
        lemma_refcount_balance(apply_event(rcs, es[0]), es.drop_first(), slot);
    }
}

/// A slot's reference count is zero exactly when no handle unit for it
/// is outstanding: starting from an unreferenced pool, every unit issued
/// for the slot has been released again.
pub proof fn lemma_refcount_zero_iff_no_handles(rcs: Seq<nat>, es: Seq<HandleEvent>, slot: int)
    requires
        events_ok(rcs, es),
        0 <= slot < rcs.len(),
        rcs[slot] == 0,
    ensures
        apply_events(rcs, es)[slot] == 0 <==> issued_to(es, slot) == released_from(es, slot),
{
    lemma_refcount_balance(rcs, es, slot);
}

/// Pool-wide handle balance: after any admissible event trace starting
/// from a fully unreferenced pool, the sum of the per-slot reference
/// counts equals the handle units issued minus the units released.
pub proof fn lemma_refcount_sum_balance(rcs: Seq<nat>, es: Seq<HandleEvent>)
    requires
        events_ok(rcs, es),
        forall|i: int| 0 <= i < rcs.len() ==> #[trigger] rcs[i] == 0,
    ensures
        rc_sum(apply_events(rcs, es)) + released_total(es) == issued_total(es),
    decreases es.len(),
{
    lemma_rc_sum_zero(rcs);
    lemma_refcount_sum_balance_general(rcs, es);
}

proof fn lemma_rc_sum_zero(rcs: Seq<nat>)
    requires
        forall|i: int| 0 <= i < rcs.len() ==> #[trigger] rcs[i] == 0,
    ensures
        rc_sum(rcs) == 0,
    decreases rcs.len(),
{
    if rcs.len() > 0 {
        lemma_rc_sum_zero(rcs.drop_first());
    }
}

proof fn lemma_refcount_sum_balance_general(rcs: Seq<nat>, es: Seq<HandleEvent>)
    requires
        events_ok(rcs, es),
    ensures
        rc_sum(apply_events(rcs, es)) + released_total(es) == rc_sum(rcs) + issued_total(es),
    decreases es.len(),
{
    if es.len() > 0 {
        match es[0] {
            HandleEvent::Issue { slot } => {
                lemma_rc_sum_update(rcs, slot, (rcs[slot] + 1) as nat);
            },
            HandleEvent::Release { slot } => {
                lemma_rc_sum_update(rcs, slot, (rcs[slot] - 1) as nat);
            },
        }
        lemma_refcount_sum_balance_general(apply_event(rcs, es[0]), es.drop_first());
    }
}

} // verus!
