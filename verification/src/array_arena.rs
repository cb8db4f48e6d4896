//! The flat-array pool: a fixed array of reference-counted slots,
//! scanned in index order. A referenced slot matching the predicate wins
//! over any free slot, and ties go to the lowest index.

use crate::arena::{opt_rc_slot, pred_callable_on, Arena, ArenaObject, Rc};
use vstd::prelude::*;

verus! {

/// One slot: a reference count and the stored value.
pub struct ArrayEntry<T> {
    refcnt: usize,
    data: T,
}

/// A homogeneous memory allocator equipped with reference counts.
/// Capacity is fixed at construction and never changes.
pub struct ArrayArena<T> {
    entries: Vec<ArrayEntry<T>>,
}

/// A handle to one slot of an `ArrayArena`, valid only for the pool that
/// issued it. It stands for one unit of the slot's reference count, is
/// not copiable, and must be given back through the pool's `dealloc`.
#[derive(PartialEq, Eq, Structural)]
pub struct ArrayPtr {
    idx: usize,
}

impl ArrayPtr {
    /// The slot this handle refers to.
    pub closed spec fn slot(&self) -> int {
        self.idx as int
    }

    /// The slot index, for callers that key other state by slot.
    pub fn index(&self) -> (i: usize)
        ensures
            i as int == self.slot(),
    {
        self.idx
    }
}

/// The slot of a handle, or `None` where no handle came back.
pub open spec fn opt_slot(r: Option<ArrayPtr>) -> Option<int> {
    match r {
        Some(h) => Some(h.slot()),
        None => None,
    }
}

impl<T> ArrayEntry<T> {
    /// The slot's reference count.
    pub closed spec fn refcount(&self) -> nat {
        self.refcnt as nat
    }

    /// The slot's stored value.
    pub closed spec fn value(&self) -> T {
        self.data
    }

    /// An unreferenced slot holding `data`.
    pub fn new(data: T) -> (e: Self)
        ensures
            e.refcount() == 0,
            e.value() == data,
    {
        ArrayEntry { refcnt: 0, data }
    }
}

impl<T: ArenaObject> ArrayArena<T> {
    /// A pool over the given slots; their reference counts are taken as
    /// they stand, so a table of fresh entries starts fully free.
    pub fn new(entries: Vec<ArrayEntry<T>>) -> (a: Self)
        ensures
            a.rcs().len() == entries@.len(),
            a.datas().len() == entries@.len(),
            forall|i: int|
                0 <= i < entries@.len() ==> #[trigger] a.rcs()[i] == entries@[i].refcount(),
            forall|i: int|
                0 <= i < entries@.len() ==> #[trigger] a.datas()[i] == entries@[i].value(),
    {
        ArrayArena { entries }
    }
}

/// What `find_or_alloc_handle` did to an array pool: either the lowest
/// referenced slot whose value satisfied the predicate gained one count,
/// or, with no such slot, the lowest free slot was initialized at count
/// one, or, with the pool fully referenced and unmatched, nothing moved.
pub open spec fn array_find_or_alloc_post<T: ArenaObject, C: Fn(&T) -> bool, N: FnOnce() -> T>(
    pre: ArrayArena<T>,
    post: ArrayArena<T>,
    c: C,
    n: N,
    r: Option<int>,
) -> bool {
    &&& post.rcs().len() == pre.rcs().len()
    &&& post.datas().len() == pre.datas().len()
    &&& match r {
        Some(s) => {
            &&& 0 <= s < pre.rcs().len()
            &&& if pre.rcs()[s] > 0 {
                // a referenced slot matched; the lowest matching index wins
                &&& c.ensures((&pre.datas()[s],), true)
                &&& forall|j: int|
                    0 <= j < s && #[trigger] pre.rcs()[j] > 0 ==> c.ensures(
                        (&pre.datas()[j],),
                        false,
                    )
                &&& post.rcs() == pre.rcs().update(s, (pre.rcs()[s] + 1) as nat)
                &&& post.datas() == pre.datas()
            } else {
                // no referenced slot matched; the lowest free slot is initialized
                &&& forall|j: int|
                    0 <= j < pre.rcs().len() && #[trigger] pre.rcs()[j] > 0 ==> c.ensures(
                        (&pre.datas()[j],),
                        false,
                    )
                &&& forall|j: int| 0 <= j < s ==> #[trigger] pre.rcs()[j] > 0
                &&& post.rcs() == pre.rcs().update(s, 1nat)
                &&& post.datas() == pre.datas().update(s, post.datas()[s])
                &&& n.ensures((), post.datas()[s])
            }
        },
        None => {
            &&& post.rcs() == pre.rcs()
            &&& post.datas() == pre.datas()
            &&& forall|j: int| 0 <= j < pre.rcs().len() ==> #[trigger] pre.rcs()[j] > 0
            &&& forall|j: int|
                0 <= j < pre.rcs().len() ==> c.ensures((&#[trigger] pre.datas()[j],), false)
        },
    }
}

/// What `alloc_handle` did to an array pool: the lowest free slot was
/// initialized at count one, or the pool was fully referenced and
/// nothing moved.
pub open spec fn array_alloc_post<T: ArenaObject, N: FnOnce() -> T>(
    pre: ArrayArena<T>,
    post: ArrayArena<T>,
    n: N,
    r: Option<int>,
) -> bool {
    &&& post.rcs().len() == pre.rcs().len()
    &&& post.datas().len() == pre.datas().len()
    &&& match r {
        Some(s) => {
            &&& 0 <= s < pre.rcs().len()
            &&& pre.rcs()[s] == 0
            &&& forall|j: int| 0 <= j < s ==> #[trigger] pre.rcs()[j] > 0
            &&& post.rcs() == pre.rcs().update(s, 1nat)
            &&& post.datas() == pre.datas().update(s, post.datas()[s])
            &&& n.ensures((), post.datas()[s])
        },
        None => {
            &&& post.rcs() == pre.rcs()
            &&& post.datas() == pre.datas()
            &&& forall|j: int| 0 <= j < pre.rcs().len() ==> #[trigger] pre.rcs()[j] > 0
        },
    }
}

impl<T: ArenaObject> ArrayArena<T> {
    /// The number of slots.
    pub fn capacity(&self) -> (n: usize)
        ensures
            n == self.rcs().len(),
    {
        self.entries.len()
    }

    /// The stored value of the slot a live handle refers to.
    pub fn get(&self, handle: &ArrayPtr) -> (t: &T)
        requires
            0 <= handle.slot() < self.rcs().len(),
            self.rcs()[handle.slot()] >= 1,
        ensures
            *t == self.datas()[handle.slot()],
    {
        &self.entries[handle.index()].data
    }

    /// The reference count of one slot.
    pub fn refcount(&self, i: usize) -> (rc: usize)
        requires
            i < self.rcs().len(),
        ensures
            rc == self.rcs()[i as int],
    {
        self.entries[i].refcnt
    }

    /// Scans the slots in index order. A referenced slot satisfying `c`
    /// wins immediately; otherwise the lowest free slot is remembered,
    /// and used for a fresh allocation once the scan ends unmatched.
    pub fn find_or_alloc_handle<C: Fn(&T) -> bool, N: FnOnce() -> T>(
        &mut self,
        c: C,
        n: N,
    ) -> (r: Option<ArrayPtr>)
        requires
            pred_callable_on::<T, C>(c, old(self).datas()),
            n.requires(()),
            forall|i: int|
                0 <= i < old(self).rcs().len() ==> #[trigger] old(self).rcs()[i] < usize::MAX,
        ensures
            array_find_or_alloc_post(*old(self), *final(self), c, n, opt_slot(r)),
    {
        proof {
            assert forall|j: int|
                0 <= j < self.entries@.len() implies self.entries@[j].refcnt
                < usize::MAX by {
                assert(old(self).rcs()[j] < usize::MAX);
            }
        }
        let cap = self.entries.len();
        let mut i: usize = 0;
        let mut empty: usize = cap;
        while i < cap
            invariant
                self.entries@ == old(self).entries@,
                cap == self.entries@.len(),
                i <= cap,
                empty <= cap,
                pred_callable_on::<T, C>(c, old(self).datas()),
                n.requires(()),
                forall|j: int|
                    0 <= j < cap ==> #[trigger] self.entries@[j].refcnt < usize::MAX,
                empty < cap ==> self.entries@[empty as int].refcnt == 0,
                forall|j: int|
                    0 <= j < i && j < empty ==> #[trigger] self.entries@[j].refcnt > 0,
                empty < i || empty == cap,
                forall|j: int|
                    0 <= j < i && #[trigger] self.entries@[j].refcnt > 0 ==> c.ensures(
                        (&self.entries@[j].data,),
                        false,
                    ),
            decreases cap - i,
        {
            if self.entries[i].refcnt != 0 {
                proof {
                    assert(self.datas()[i as int] == self.entries@[i as int].data);
                }
                if c(&self.entries[i].data) {
                    let e = &mut self.entries[i];
                    e.refcnt = e.refcnt + 1;
                    proof {
                        let s = i as int;
                        assert(old(self).rcs()[s] == old(self).entries@[s].refcnt as nat);
                        assert(old(self).datas()[s] == old(self).entries@[s].data);
                        assert(c.ensures((&old(self).datas()[s],), true));
                        assert forall|j: int|
                            0 <= j < s && old(self).rcs()[j] > 0 implies c.ensures(
                            (&old(self).datas()[j],),
                            false,
                        ) by {
                            assert(old(self).entries@[j].refcnt > 0);
                            assert(c.ensures((&old(self).entries@[j].data,), false));
                            assert(old(self).datas()[j] == old(self).entries@[j].data);
                        }
                        assert(self.rcs() =~= old(self).rcs().update(
                            s,
                            (old(self).rcs()[s] + 1) as nat,
                        ));
                        assert(self.datas() =~= old(self).datas());
                    }
                    return Some(ArrayPtr { idx: i });
                }
            } else if empty == cap {
                empty = i;
            }
            i = i + 1;
        }
        if empty < cap {
            let d = n();
            let e = &mut self.entries[empty];
            e.refcnt = 1;
            e.data = d;
            proof {
                let s = empty as int;
                assert(old(self).rcs()[s] == old(self).entries@[s].refcnt as nat);
                assert forall|j: int|
                    0 <= j < old(self).rcs().len() && old(self).rcs()[j] > 0 implies c.ensures(
                    (&old(self).datas()[j],),
                    false,
                ) by {
                    assert(old(self).entries@[j].refcnt > 0);
                    assert(c.ensures((&old(self).entries@[j].data,), false));
                    assert(old(self).datas()[j] == old(self).entries@[j].data);
                }
                assert forall|j: int| 0 <= j < s implies old(self).rcs()[j] > 0 by {
                    assert(old(self).entries@[j].refcnt > 0);
                }
                assert(self.rcs() =~= old(self).rcs().update(s, 1nat));
                assert(self.datas() =~= old(self).datas().update(s, self.datas()[s]));
                assert(self.datas()[s] == d);
            }
            return Some(ArrayPtr { idx: empty });
        }
        proof {
            assert forall|j: int| 0 <= j < old(self).rcs().len() implies old(self).rcs()[j]
                > 0 by {
                assert(old(self).entries@[j].refcnt > 0);
            }
            assert forall|j: int| 0 <= j < old(self).rcs().len() implies c.ensures(
                (&old(self).datas()[j],),
                false,
            ) by {
                assert(old(self).entries@[j].refcnt > 0);
                assert(c.ensures((&old(self).entries@[j].data,), false));
                assert(old(self).datas()[j] == old(self).entries@[j].data);
            }
            assert(self.rcs() =~= old(self).rcs());
            assert(self.datas() =~= old(self).datas());
        }
        None
    }

    /// Returns the first free slot in index order, initialized at count
    /// one, or `None` when every slot is referenced.
    pub fn alloc_handle<N: FnOnce() -> T>(&mut self, n: N) -> (r: Option<ArrayPtr>)
        requires
            n.requires(()),
        ensures
            array_alloc_post(*old(self), *final(self), n, opt_slot(r)),
    {
        let cap = self.entries.len();
        let mut i: usize = 0;
        while i < cap
            invariant
                self.entries@ == old(self).entries@,
                cap == self.entries@.len(),
                i <= cap,
                n.requires(()),
                forall|j: int| 0 <= j < i ==> #[trigger] self.entries@[j].refcnt > 0,
            decreases cap - i,
        {
            if self.entries[i].refcnt == 0 {
                let d = n();
                let e = &mut self.entries[i];
                e.refcnt = 1;
                e.data = d;
                proof {
                    let s = i as int;
                    assert(old(self).rcs()[s] == old(self).entries@[s].refcnt as nat);
                    assert forall|j: int| 0 <= j < s implies old(self).rcs()[j] > 0 by {
                        assert(old(self).entries@[j].refcnt > 0);
                    }
                    assert(self.rcs() =~= old(self).rcs().update(s, 1nat));
                    assert(self.datas() =~= old(self).datas().update(s, self.datas()[s]));
                    assert(self.datas()[s] == d);
                }
                return Some(ArrayPtr { idx: i });
            }
            i = i + 1;
        }
        proof {
            assert forall|j: int| 0 <= j < old(self).rcs().len() implies old(self).rcs()[j]
                > 0 by {
                assert(old(self).entries@[j].refcnt > 0);
            }
            assert(self.rcs() =~= old(self).rcs());
            assert(self.datas() =~= old(self).datas());
        }
        None
    }

    /// Adds one unit to the reference count of the slot a live handle
    /// refers to, and returns an equal handle aliasing the same slot.
    pub fn dup_handle(&mut self, handle: &ArrayPtr) -> (r: ArrayPtr)
        requires
            0 <= handle.slot() < old(self).rcs().len(),
            old(self).rcs()[handle.slot()] >= 1,
            old(self).rcs()[handle.slot()] < usize::MAX,
        ensures
            r.slot() == handle.slot(),
            final(self).rcs() == old(self).rcs().update(
                handle.slot(),
                (old(self).rcs()[handle.slot()] + 1) as nat,
            ),
            final(self).datas() == old(self).datas(),
    {
        let i = handle.index();
        let e = &mut self.entries[i];
        e.refcnt = e.refcnt + 1;
        proof {
            assert(self.rcs() =~= old(self).rcs().update(
                i as int,
                (old(self).rcs()[i as int] + 1) as nat,
            ));
            assert(self.datas() =~= old(self).datas());
        }
        ArrayPtr { idx: i }
    }

    /// Takes one unit from the reference count of the slot a live handle
    /// refers to, consuming the handle. On the last unit the stored
    /// object's finalize hook runs first, while the slot is still
    /// counted as referenced.
    pub fn dealloc_handle(&mut self, handle: ArrayPtr)
        requires
            0 <= handle.slot() < old(self).rcs().len(),
            old(self).rcs()[handle.slot()] >= 1,
        ensures
            final(self).rcs() == old(self).rcs().update(
                handle.slot(),
                (old(self).rcs()[handle.slot()] - 1) as nat,
            ),
            final(self).datas().len() == old(self).datas().len(),
            forall|j: int|
                0 <= j < old(self).datas().len() && j != handle.slot() ==> final(self).datas()[j]
                    == old(self).datas()[j],
            old(self).rcs()[handle.slot()] == 1 ==> T::finalized(
                old(self).datas()[handle.slot()],
                final(self).datas()[handle.slot()],
            ),
            old(self).rcs()[handle.slot()] > 1 ==> final(self).datas() == old(self).datas(),
    {
        let i = handle.index();
        if self.entries[i].refcnt == 1 {
            let e = &mut self.entries[i];
            e.data.finalize();
        }
        let e = &mut self.entries[i];
        e.refcnt = e.refcnt - 1;
        proof {
            assert(self.rcs() =~= old(self).rcs().update(
                i as int,
                (old(self).rcs()[i as int] - 1) as nat,
            ));
            if old(self).rcs()[i as int] > 1 {
                assert(self.datas() =~= old(self).datas());
            }
        }
    }

    /// Finds or allocates as `find_or_alloc_handle` does, and returns
    /// the handle wrapped for safe release.
    pub fn find_or_alloc<C: Fn(&T) -> bool, N: FnOnce() -> T>(
        &mut self,
        c: C,
        n: N,
    ) -> (r: Option<Rc<Self>>)
        requires
            pred_callable_on::<T, C>(c, old(self).datas()),
            n.requires(()),
            forall|i: int|
                0 <= i < old(self).rcs().len() ==> #[trigger] old(self).rcs()[i] < usize::MAX,
        ensures
            array_find_or_alloc_post(*old(self), *final(self), c, n, opt_rc_slot(r)),
    {
        match ArrayArena::find_or_alloc_handle(self, c, n) {
            Some(h) => Some(Rc::from_unchecked(h)),
            None => None,
        }
    }


    /// Duplicates an owning wrapper, as copying one does in a setting
    /// with destructors: the slot gains one unit and an equal wrapper
    /// aliasing it comes back.
    pub fn dup_rc(&mut self, rc: &Rc<Self>) -> (r: Rc<Self>)
        requires
            0 <= rc.slot() < old(self).rcs().len(),
            old(self).rcs()[rc.slot()] >= 1,
            old(self).rcs()[rc.slot()] < usize::MAX,
        ensures
            final(self).wf(),
            r.slot() == rc.slot(),
            final(self).rcs() == old(self).rcs().update(
                rc.slot(),
                (old(self).rcs()[rc.slot()] + 1) as nat,
            ),
            final(self).datas() == old(self).datas(),
    {
        Rc::from_unchecked(self.dup_handle(rc.handle()))
    }

    /// Allocates as `alloc_handle` does, and returns the handle wrapped
    /// for safe release.
    pub fn allocate<N: FnOnce() -> T>(&mut self, n: N) -> (r: Option<Rc<Self>>)
        requires
            n.requires(()),
        ensures
            array_alloc_post(*old(self), *final(self), n, opt_rc_slot(r)),
    {
        match ArrayArena::alloc_handle(self, n) {
            Some(h) => Some(Rc::from_unchecked(h)),
            None => None,
        }
    }
}

impl<T: ArenaObject> Arena for ArrayArena<T> {
    type Data = T;

    type Handle = ArrayPtr;

    closed spec fn wf(&self) -> bool {
        true
    }

    closed spec fn rcs(&self) -> Seq<nat> {
        Seq::new(self.entries@.len(), |i: int| self.entries@[i].refcnt as nat)
    }

    closed spec fn datas(&self) -> Seq<T> {
        Seq::new(self.entries@.len(), |i: int| self.entries@[i].data)
    }

    closed spec fn slot_of(h: &ArrayPtr) -> int {
        h.slot()
    }

    fn find_or_alloc_handle<C: Fn(&T) -> bool, N: FnOnce() -> T>(
        &mut self,
        c: C,
        n: N,
    ) -> (r: Option<ArrayPtr>) {
        ArrayArena::find_or_alloc_handle(self, c, n)
    }

    fn alloc_handle<N: FnOnce() -> T>(&mut self, n: N) -> (r: Option<ArrayPtr>) {
        ArrayArena::alloc_handle(self, n)
    }

    fn dup(&mut self, handle: &ArrayPtr) -> (r: ArrayPtr) {
        self.dup_handle(handle)
    }

    fn dealloc(&mut self, handle: ArrayPtr) {
        self.dealloc_handle(handle)
    }

    fn reacquire_after<R, F: FnOnce() -> R>(&mut self, f: F) -> (r: R) {
        f()
    }
}

/// Finding twice changes nothing the second time: two find-or-allocate
/// calls in a row whose predicates match every stored value return
/// handles for the same slot, with no second allocation. The first call
/// settles on the lowest available slot; the second finds it referenced
/// and matching, and merely adds a count.
pub proof fn lemma_find_or_alloc_match_stable<
    T: ArenaObject,
    C1: Fn(&T) -> bool,
    N1: FnOnce() -> T,
    C2: Fn(&T) -> bool,
    N2: FnOnce() -> T,
>(
    s0: ArrayArena<T>,
    s1: ArrayArena<T>,
    s2: ArrayArena<T>,
    c1: C1,
    n1: N1,
    r1: Option<int>,
    c2: C2,
    n2: N2,
    r2: Option<int>,
)
    requires
        array_find_or_alloc_post(s0, s1, c1, n1, r1),
        array_find_or_alloc_post(s1, s2, c2, n2, r2),
        forall|t: T, b: bool| c1.ensures((&t,), b) ==> b,
        forall|t: T, b: bool| c2.ensures((&t,), b) ==> b,
        s0.rcs().len() > 0,
    ensures
        r1 is Some,
        r2 is Some,
        r1->Some_0 == r2->Some_0,
{
    if r1 is None {
        assert(c1.ensures((&s0.datas()[0],), false));
        assert(false);
    }
    let p = r1->Some_0;
    assert(s1.rcs()[p] > 0);
    if r2 is None {
        assert(c2.ensures((&s1.datas()[0],), false));
        assert(false);
    }
    let q = r2->Some_0;
    // the second call cannot have allocated afresh: slot `p` is
    // referenced and matches, so a free slot cannot have been chosen
    if s1.rcs()[q] == 0 {
        assert(c2.ensures((&s1.datas()[p],), false));
        assert(false);
    }
    // nor can it have matched a referenced slot below `p`: in the first
    // call such a slot either failed the always-true predicate or did
    // not exist
    if q < p {
        assert(s1.rcs()[q] == s0.rcs()[q]);
        if s0.rcs()[p] > 0 {
            assert(c1.ensures((&s0.datas()[q],), false));
        } else {
            assert(s0.rcs()[q] > 0);
            assert(c1.ensures((&s0.datas()[q],), false));
        }
        assert(false);
    }
    // and a referenced, hence matching, slot `p` stops the second scan
    // from going past it
    if q > p {
        assert(c2.ensures((&s1.datas()[p],), false));
        assert(false);
    }
}

/// A full pool refuses a plain allocation: with every slot referenced,
/// `alloc_handle` returns `None`.
pub proof fn lemma_alloc_full_fails<T: ArenaObject, N: FnOnce() -> T>(
    pre: ArrayArena<T>,
    post: ArrayArena<T>,
    n: N,
    r: Option<int>,
)
    requires
        array_alloc_post(pre, post, n, r),
        forall|i: int| 0 <= i < pre.rcs().len() ==> #[trigger] pre.rcs()[i] > 0,
    ensures
        r is None,
{
}

/// A pool with a free slot never refuses a plain allocation.
pub proof fn lemma_alloc_free_succeeds<T: ArenaObject, N: FnOnce() -> T>(
    pre: ArrayArena<T>,
    post: ArrayArena<T>,
    n: N,
    r: Option<int>,
    free: int,
)
    requires
        array_alloc_post(pre, post, n, r),
        0 <= free < pre.rcs().len(),
        pre.rcs()[free] == 0,
    ensures
        r is Some,
{
}

} // verus!
