//! The recency-ordered pool: slots are threaded into a circular doubly
//! linked list, kept as index links inside the fixed slot table and
//! anchored by a sentinel. List position encodes recency: the head end
//! holds the most recently released slots. A find-or-allocate scan walks
//! head to tail and may revive a free slot whose stale value still
//! matches; a plain allocation walks tail to head and takes the coldest
//! free slot; a release to count zero relinks the slot at the head.

use crate::arena::{opt_rc_slot, pred_callable_on, Arena, ArenaObject, Rc};
use vstd::prelude::*;

verus! {

/// One slot: a reference count, the stored value, and its two list
/// links. A link holds a slot index, or the capacity to mean the
/// sentinel.
pub struct MruEntry<T> {
    refcnt: usize,
    data: T,
    prev: usize,
    next: usize,
}

/// A homogeneous memory allocator equipped with reference counts and a
/// recency list. Capacity is fixed at construction and never changes.
pub struct MruArena<T> {
    entries: Vec<MruEntry<T>>,
    /// The sentinel's backward link: the tail of the recency list.
    head_prev: usize,
    /// The sentinel's forward link: the head of the recency list.
    head_next: usize,
    /// The recency order the links encode, head first.
    order: Ghost<Seq<int>>,
}

/// A handle to one slot of an `MruArena`, valid only for the pool that
/// issued it. It stands for one unit of the slot's reference count, is
/// not copiable, and must be given back through the pool's `dealloc`.
#[derive(PartialEq, Eq, Structural)]
pub struct MruPtr {
    idx: usize,
}

impl MruPtr {
    /// The slot this handle refers to.
    pub closed spec fn slot(&self) -> int {
        self.idx as int
    }

    /// The slot index, for callers that key other state by slot.
    pub fn index(&self) -> (i: usize)
        ensures
            i as int == self.slot(),
    {
        self.idx
    }
}

/// The slot of a handle, or `None` where no handle came back.
pub open spec fn mru_opt_slot(r: Option<MruPtr>) -> Option<int> {
    match r {
        Some(h) => Some(h.slot()),
        None => None,
    }
}

/// The sequence holds the given slot somewhere.
pub open spec fn contains_slot(order: Seq<int>, s: int) -> bool {
    exists|k: int| 0 <= k < order.len() && order[k] == s
}

impl<T> MruEntry<T> {
    /// The slot's reference count.
    pub closed spec fn refcount(&self) -> nat {
        self.refcnt as nat
    }

    /// The slot's stored value.
    pub closed spec fn value(&self) -> T {
        self.data
    }

    /// An unreferenced, unlinked slot holding `data`; the pool links it
    /// when it takes ownership of the table.
    pub fn new(data: T) -> (e: Self)
        ensures
            e.refcount() == 0,
            e.value() == data,
    {
        MruEntry { refcnt: 0, data, prev: 0, next: 0 }
    }
}

impl<T: ArenaObject> MruArena<T> {
    /// The recency order of the slots, head (most recently released)
    /// first.
    pub closed spec fn recency(&self) -> Seq<int> {
        self.order@
    }
}

/// The position of a slot in a pool's recency order.
pub open spec fn mru_pos<T: ArenaObject>(a: MruArena<T>, slot: int) -> int {
    choose|k: int| 0 <= k < a.recency().len() && a.recency()[k] == slot
}

/// In a well-formed pool every slot has exactly one recency position.
pub proof fn lemma_mru_pos<T: ArenaObject>(a: MruArena<T>, slot: int)
    requires
        a.wf(),
        0 <= slot < a.recency().len(),
    ensures
        0 <= mru_pos(a, slot) < a.recency().len(),
        a.recency()[mru_pos(a, slot)] == slot,
        forall|k: int| 0 <= k < a.recency().len() && a.recency()[k] == slot ==> k == mru_pos(a, slot),
{
    assert(contains_slot(a.recency(), slot));
}

/// What `find_or_alloc_handle` did to a recency pool: either the slot
/// nearest the head whose value satisfied the predicate gained one count
/// (a free slot may be revived this way, with no initialization), or,
/// with no value matching anywhere, the free slot nearest the tail was
/// initialized at count one, or, with the pool fully referenced and
/// unmatched, nothing moved. The recency order is untouched.
pub open spec fn mru_find_or_alloc_post<T: ArenaObject, C: Fn(&T) -> bool, N: FnOnce() -> T>(
    pre: MruArena<T>,
    post: MruArena<T>,
    c: C,
    n: N,
    r: Option<int>,
) -> bool {
    &&& post.rcs().len() == pre.rcs().len()
    &&& post.datas().len() == pre.datas().len()
    &&& post.recency() == pre.recency()
    &&& match r {
        Some(s) => {
            &&& 0 <= s < pre.rcs().len()
            &&& ({
                // the slot nearest the head whose value satisfies `c`
                &&& c.ensures((&pre.datas()[s],), true)
                &&& forall|k: int|
                    0 <= k < mru_pos(pre, s) ==> c.ensures(
                        (&pre.datas()[#[trigger] pre.recency()[k]],),
                        false,
                    )
                &&& post.rcs() == pre.rcs().update(s, (pre.rcs()[s] + 1) as nat)
                &&& post.datas() == pre.datas()
            } || {
                // nothing matched: the free slot nearest the tail is initialized
                &&& pre.rcs()[s] == 0
                &&& forall|j: int|
                    0 <= j < pre.datas().len() ==> c.ensures((&#[trigger] pre.datas()[j],), false)
                &&& forall|j: int|
                    0 <= j < pre.rcs().len() && #[trigger] pre.rcs()[j] == 0 ==> mru_pos(pre, j)
                        <= mru_pos(pre, s)
                &&& post.rcs() == pre.rcs().update(s, 1nat)
                &&& post.datas() == pre.datas().update(s, post.datas()[s])
                &&& n.ensures((), post.datas()[s])
            })
        },
        None => {
            &&& post.rcs() == pre.rcs()
            &&& post.datas() == pre.datas()
            &&& forall|j: int| 0 <= j < pre.rcs().len() ==> #[trigger] pre.rcs()[j] > 0
            &&& forall|j: int|
                0 <= j < pre.datas().len() ==> c.ensures((&#[trigger] pre.datas()[j],), false)
        },
    }
}

/// What `alloc_handle` did to a recency pool: the free slot nearest the
/// tail (the coldest) was initialized at count one, or the pool was
/// fully referenced and nothing moved. The recency order is untouched.
pub open spec fn mru_alloc_post<T: ArenaObject, N: FnOnce() -> T>(
    pre: MruArena<T>,
    post: MruArena<T>,
    n: N,
    r: Option<int>,
) -> bool {
    &&& post.rcs().len() == pre.rcs().len()
    &&& post.datas().len() == pre.datas().len()
    &&& post.recency() == pre.recency()
    &&& match r {
        Some(s) => {
            &&& 0 <= s < pre.rcs().len()
            &&& pre.rcs()[s] == 0
            &&& forall|k: int|
                mru_pos(pre, s) < k < pre.recency().len() ==> pre.rcs()[#[trigger] pre.recency()[k]]
                    > 0
            &&& post.rcs() == pre.rcs().update(s, 1nat)
            &&& post.datas() == pre.datas().update(s, post.datas()[s])
            &&& n.ensures((), post.datas()[s])
        },
        None => {
            &&& post.rcs() == pre.rcs()
            &&& post.datas() == pre.datas()
            &&& forall|j: int| 0 <= j < pre.rcs().len() ==> #[trigger] pre.rcs()[j] > 0
        },
    }
}

/// What `dealloc_handle` did to a recency pool: the slot lost one count;
/// on the last release its value was finalized and the slot moved to the
/// head of the recency order, and otherwise nothing else changed.
pub open spec fn mru_dealloc_post<T: ArenaObject>(
    pre: MruArena<T>,
    post: MruArena<T>,
    s: int,
) -> bool {
    &&& post.rcs().len() == pre.rcs().len()
    &&& post.datas().len() == pre.datas().len()
    &&& post.rcs() == pre.rcs().update(s, (pre.rcs()[s] - 1) as nat)
    &&& forall|j: int|
        0 <= j < pre.datas().len() && j != s ==> #[trigger] post.datas()[j] == pre.datas()[j]
    &&& if pre.rcs()[s] == 1 {
        &&& T::finalized(pre.datas()[s], post.datas()[s])
        &&& post.recency() == seq![s] + pre.recency().subrange(0, mru_pos(pre, s))
            + pre.recency().subrange(mru_pos(pre, s) + 1, pre.recency().len() as int)
    } else {
        &&& post.datas() == pre.datas()
        &&& post.recency() == pre.recency()
    }
}

proof fn lemma_wf_links_preserved<T: ArenaObject>(pre: MruArena<T>, post: MruArena<T>)
    requires
        pre.wf(),
        post.entries@.len() == pre.entries@.len(),
        post.order@ == pre.order@,
        post.head_prev == pre.head_prev,
        post.head_next == pre.head_next,
        forall|j: int|
            0 <= j < pre.entries@.len() ==> #[trigger] post.entries@[j].next
                == pre.entries@[j].next,
        forall|j: int|
            0 <= j < pre.entries@.len() ==> #[trigger] post.entries@[j].prev
                == pre.entries@[j].prev,
    ensures
        post.wf(),
{
    let n = pre.entries@.len() as int;
    assert forall|k: int| 0 <= k < n implies #[trigger] post.entries@[post.order@[k]].next as int
        == (if k == n - 1 {
        n
    } else {
        post.order@[k + 1]
    }) by {
        assert(0 <= pre.order@[k] < n);
    }
    assert forall|k: int| 0 <= k < n implies #[trigger] post.entries@[post.order@[k]].prev as int
        == (if k == 0 {
        n
    } else {
        post.order@[k - 1]
    }) by {
        assert(0 <= pre.order@[k] < n);
    }
}

impl<T: ArenaObject> MruArena<T> {
    /// A pool over the given slots, all threaded into the recency list.
    /// Each slot is linked in front of its predecessors, so the initial
    /// order runs from the highest index at the head down to index zero
    /// at the tail.
    pub fn new(entries: Vec<MruEntry<T>>) -> (a: Self)
        requires
            entries@.len() < usize::MAX,
        ensures
            a.wf(),
            a.rcs().len() == entries@.len(),
            a.datas().len() == entries@.len(),
            forall|i: int|
                0 <= i < entries@.len() ==> #[trigger] a.rcs()[i] == entries@[i].refcount(),
            forall|i: int|
                0 <= i < entries@.len() ==> #[trigger] a.datas()[i] == entries@[i].value(),
            a.recency() == Seq::new(entries@.len(), |k: int| entries@.len() - 1 - k),
    {
        let cap = entries.len();
        let ghost orig = entries@;
        let mut a = MruArena {
            entries,
            head_prev: 0,
            head_next: if cap == 0 {
                0
            } else {
                cap - 1
            },
            order: Ghost(Seq::new(cap as nat, |k: int| cap - 1 - k)),
        };
        let mut i: usize = 0;
        while i < cap
            invariant
                cap == a.entries@.len(),
                cap < usize::MAX,
                i <= cap,
                orig.len() == cap,
                a.order@ == Seq::new(cap as nat, |k: int| cap - 1 - k),
                a.head_prev == 0usize,
                a.head_next == (if cap == 0 {
                    0usize
                } else {
                    (cap - 1) as usize
                }),
                forall|j: int|
                    0 <= j < cap ==> #[trigger] a.entries@[j].refcnt == orig[j].refcnt,
                forall|j: int| 0 <= j < cap ==> #[trigger] a.entries@[j].data == orig[j].data,
                forall|j: int|
                    0 <= j < i ==> #[trigger] a.entries@[j].next as int == (if j == 0 {
                        cap as int
                    } else {
                        j - 1
                    }),
                forall|j: int|
                    0 <= j < i ==> #[trigger] a.entries@[j].prev as int == (if j == cap - 1 {
                        cap as int
                    } else {
                        j + 1
                    }),
            decreases cap - i,
        {
            let nxt: usize = if i == 0 {
                cap
            } else {
                i - 1
            };
            let prv: usize = if i == cap - 1 {
                cap
            } else {
                i + 1
            };
            let e = &mut a.entries[i];
            e.next = nxt;
            e.prev = prv;
            i = i + 1;
        }
        proof {
            let n = cap as int;
            assert forall|k: int| 0 <= k < n implies #[trigger] a.entries@[a.order@[k]].next as int
                == (if k == n - 1 {
                n
            } else {
                a.order@[k + 1]
            }) by {
                assert(a.order@[k] == n - 1 - k);
                if k < n - 1 {
                    assert(a.order@[k + 1] == n - 1 - (k + 1));
                }
            }
            assert forall|k: int| 0 <= k < n implies #[trigger] a.entries@[a.order@[k]].prev as int
                == (if k == 0 {
                n
            } else {
                a.order@[k - 1]
            }) by {
                assert(a.order@[k] == n - 1 - k);
                if k > 0 {
                    assert(a.order@[k - 1] == n - 1 - (k - 1));
                }
            }
            assert forall|s: int| 0 <= s < n implies contains_slot(a.order@, s) by {
                assert(a.order@[n - 1 - s] == s);
            }
            assert(a.wf());
            assert forall|j: int| 0 <= j < n implies #[trigger] a.rcs()[j] == orig[j].refcount()
                by {}
            assert forall|j: int| 0 <= j < n implies #[trigger] a.datas()[j] == orig[j].value()
                by {}
        }
        a
    }

    /// The number of slots.
    pub fn capacity(&self) -> (n: usize)
        ensures
            n == self.rcs().len(),
    {
        self.entries.len()
    }

    /// The stored value of the slot a live handle refers to.
    pub fn get(&self, handle: &MruPtr) -> (t: &T)
        requires
            0 <= handle.slot() < self.rcs().len(),
            self.rcs()[handle.slot()] >= 1,
        ensures
            *t == self.datas()[handle.slot()],
    {
        &self.entries[handle.index()].data
    }

    /// The reference count of one slot.
    pub fn refcount(&self, i: usize) -> (rc: usize)
        requires
            i < self.rcs().len(),
        ensures
            rc == self.rcs()[i as int],
    {
        self.entries[i].refcnt
    }

    /// Walks the recency list from the head. The first slot whose value
    /// satisfies `c` wins, referenced or not; a free slot seen on the
    /// way overwrites the recorded fallback, which is initialized once
    /// the scan ends unmatched.
    pub fn find_or_alloc_handle<C: Fn(&T) -> bool, N: FnOnce() -> T>(
        &mut self,
        c: C,
        n: N,
    ) -> (r: Option<MruPtr>)
        requires
            old(self).wf(),
            pred_callable_on::<T, C>(c, old(self).datas()),
            n.requires(()),
            forall|i: int|
                0 <= i < old(self).rcs().len() ==> #[trigger] old(self).rcs()[i] < usize::MAX,
        ensures
            final(self).wf(),
            mru_find_or_alloc_post(*old(self), *final(self), c, n, mru_opt_slot(r)),
    {
        proof {
            assert forall|j: int|
                0 <= j < self.entries@.len() implies self.entries@[j].refcnt < usize::MAX by {
                assert(old(self).rcs()[j] < usize::MAX);
            }
        }
        let cap = self.entries.len();
        let mut cur: usize = self.head_next;
        let mut empty: usize = cap;
        let ghost mut k: int = 0;
        let ghost mut ke: int = 0;
        while cur != cap
            invariant
                *self == *old(self),
                old(self).wf(),
                cap == self.entries@.len(),
                pred_callable_on::<T, C>(c, old(self).datas()),
                n.requires(()),
                forall|j: int|
                    0 <= j < cap ==> #[trigger] self.entries@[j].refcnt < usize::MAX,
                0 <= k <= cap as int,
                cur as int == (if k < cap as int {
                    self.order@[k]
                } else {
                    cap as int
                }),
                empty as int == cap as int || 0 <= (empty as int) < cap as int,
                empty < cap ==> 0 <= ke < k && self.order@[ke] == empty as int
                    && self.entries@[empty as int].refcnt == 0 && (forall|k2: int|
                    ke < k2 < k ==> self.entries@[#[trigger] self.order@[k2]].refcnt > 0),
                empty == cap ==> forall|k2: int|
                    0 <= k2 < k ==> self.entries@[#[trigger] self.order@[k2]].refcnt > 0,
                forall|k2: int|
                    0 <= k2 < k ==> c.ensures(
                        (&self.entries@[#[trigger] self.order@[k2]].data,),
                        false,
                    ),
            decreases cap as int - k,
        {
            proof {
                assert(k < cap as int);
                assert(0 <= self.order@[k] < cap as int);
                assert(self.datas()[cur as int] == self.entries@[cur as int].data);
            }
            if c(&self.entries[cur].data) {
                let e = &mut self.entries[cur];
                e.refcnt = e.refcnt + 1;
                proof {
                    let pre = *old(self);
                    let s = cur as int;
                    assert(pre.recency()[k] == s);
                    lemma_mru_pos(pre, s);
                    assert(mru_pos(pre, s) == k);
                    assert(c.ensures((&pre.datas()[s],), true));
                    assert forall|k2: int| 0 <= k2 < mru_pos(pre, s) implies c.ensures(
                        (&pre.datas()[#[trigger] pre.recency()[k2]],),
                        false,
                    ) by {
                        assert(0 <= pre.recency()[k2] < cap as int);
                        assert(pre.datas()[pre.recency()[k2]]
                            == pre.entries@[pre.recency()[k2]].data);
                    }
                    assert(self.rcs() =~= pre.rcs().update(s, (pre.rcs()[s] + 1) as nat));
                    assert(self.datas() =~= pre.datas());
                    lemma_wf_links_preserved(pre, *self);
                }
                return Some(MruPtr { idx: cur });
            } else if self.entries[cur].refcnt == 0 {
                empty = cur;
                proof {
                    ke = k;
                }
            }
            let nxt = self.entries[cur].next;
            proof {
                k = k + 1;
            }
            cur = nxt;
        }
        proof {
            assert(k == cap as int);
        }
        if empty < cap {
            let d = n();
            let e = &mut self.entries[empty];
            e.refcnt = 1;
            e.data = d;
            proof {
                let pre = *old(self);
                let s = empty as int;
                lemma_mru_pos(pre, s);
                assert(mru_pos(pre, s) == ke);
                assert forall|j: int| 0 <= j < cap as int implies c.ensures(
                    (&pre.datas()[j],),
                    false,
                ) by {
                    assert(contains_slot(pre.recency(), j));
                    let k2 = choose|k2: int|
                        0 <= k2 < pre.recency().len() && pre.recency()[k2] == j;
                    assert(c.ensures((&pre.entries@[pre.recency()[k2]].data,), false));
                    assert(pre.datas()[j] == pre.entries@[j].data);
                }
                assert forall|j: int|
                    0 <= j < cap as int && pre.rcs()[j] == 0 implies mru_pos(pre, j) <= mru_pos(
                    pre,
                    s,
                ) by {
                    lemma_mru_pos(pre, j);
                    let kj = mru_pos(pre, j);
                    if kj > ke {
                        assert(pre.entries@[pre.recency()[kj]].refcnt > 0);
                        assert(pre.rcs()[j] > 0);
                    }
                }
                assert(self.rcs() =~= pre.rcs().update(s, 1nat));
                assert(self.datas() =~= pre.datas().update(s, self.datas()[s]));
                assert(self.datas()[s] == d);
                lemma_wf_links_preserved(pre, *self);
            }
            return Some(MruPtr { idx: empty });
        }
        proof {
            let pre = *old(self);
            assert forall|j: int| 0 <= j < cap as int implies pre.rcs()[j] > 0 by {
                assert(contains_slot(pre.recency(), j));
                let k2 = choose|k2: int| 0 <= k2 < pre.recency().len() && pre.recency()[k2] == j;
                assert(pre.entries@[pre.recency()[k2]].refcnt > 0);
            }
            assert forall|j: int| 0 <= j < cap as int implies c.ensures(
                (&pre.datas()[j],),
                false,
            ) by {
                assert(contains_slot(pre.recency(), j));
                let k2 = choose|k2: int| 0 <= k2 < pre.recency().len() && pre.recency()[k2] == j;
                assert(c.ensures((&pre.entries@[pre.recency()[k2]].data,), false));
                assert(pre.datas()[j] == pre.entries@[j].data);
            }
            assert(self.rcs() =~= pre.rcs());
            assert(self.datas() =~= pre.datas());
        }
        None
    }

    /// Walks the recency list from the tail and initializes the first
    /// free slot found: new allocations take the coldest free slot.
    pub fn alloc_handle<N: FnOnce() -> T>(&mut self, n: N) -> (r: Option<MruPtr>)
        requires
            old(self).wf(),
            n.requires(()),
        ensures
            final(self).wf(),
            mru_alloc_post(*old(self), *final(self), n, mru_opt_slot(r)),
    {
        let cap = self.entries.len();
        let mut cur: usize = self.head_prev;
        let ghost mut k: int = cap as int - 1;
        while cur != cap
            invariant
                *self == *old(self),
                old(self).wf(),
                cap == self.entries@.len(),
                n.requires(()),
                -1 <= k < cap as int,
                cur as int == (if k >= 0 {
                    self.order@[k]
                } else {
                    cap as int
                }),
                forall|k2: int|
                    k < k2 < cap as int ==> self.entries@[#[trigger] self.order@[k2]].refcnt > 0,
            decreases k + 1,
        {
            proof {
                assert(k >= 0);
                assert(0 <= self.order@[k] < cap as int);
            }
            if self.entries[cur].refcnt == 0 {
                let d = n();
                let e = &mut self.entries[cur];
                e.refcnt = 1;
                e.data = d;
                proof {
                    let pre = *old(self);
                    let s = cur as int;
                    assert(pre.recency()[k] == s);
                    lemma_mru_pos(pre, s);
                    assert(mru_pos(pre, s) == k);
                    assert forall|k2: int|
                        mru_pos(pre, s) < k2 < pre.recency().len() implies pre.rcs()[#[trigger] pre.recency()[k2]]
                        > 0 by {
                        assert(0 <= pre.recency()[k2] < cap as int);
                        assert(pre.entries@[pre.recency()[k2]].refcnt > 0);
                    }
                    assert(self.rcs() =~= pre.rcs().update(s, 1nat));
                    assert(self.datas() =~= pre.datas().update(s, self.datas()[s]));
                    assert(self.datas()[s] == d);
                    lemma_wf_links_preserved(pre, *self);
                }
                return Some(MruPtr { idx: cur });
            }
            let prv = self.entries[cur].prev;
            proof {
                k = k - 1;
            }
            cur = prv;
        }
        proof {
            let pre = *old(self);
            assert(k == -1);
            assert forall|j: int| 0 <= j < cap as int implies pre.rcs()[j] > 0 by {
                assert(contains_slot(pre.recency(), j));
                let k2 = choose|k2: int| 0 <= k2 < pre.recency().len() && pre.recency()[k2] == j;
                assert(pre.entries@[pre.recency()[k2]].refcnt > 0);
            }
            assert(self.rcs() =~= pre.rcs());
            assert(self.datas() =~= pre.datas());
        }
        None
    }

    /// Adds one unit to the reference count of the slot a live handle
    /// refers to, and returns an equal handle aliasing the same slot.
    /// The recency order is untouched.
    pub fn dup_handle(&mut self, handle: &MruPtr) -> (r: MruPtr)
        requires
            old(self).wf(),
            0 <= handle.slot() < old(self).rcs().len(),
            old(self).rcs()[handle.slot()] >= 1,
            old(self).rcs()[handle.slot()] < usize::MAX,
        ensures
            final(self).wf(),
            r.slot() == handle.slot(),
            final(self).rcs() == old(self).rcs().update(
                handle.slot(),
                (old(self).rcs()[handle.slot()] + 1) as nat,
            ),
            final(self).datas() == old(self).datas(),
            final(self).recency() == old(self).recency(),
    {
        let i = handle.index();
        proof {
            assert(old(self).rcs()[i as int] == old(self).entries@[i as int].refcnt as nat);
        }
        let e = &mut self.entries[i];
        e.refcnt = e.refcnt + 1;
        proof {
            assert(self.rcs() =~= old(self).rcs().update(
                i as int,
                (old(self).rcs()[i as int] + 1) as nat,
            ));
            assert(self.datas() =~= old(self).datas());
            lemma_wf_links_preserved(*old(self), *self);
        }
        MruPtr { idx: i }
    }

    /// Takes one unit from the reference count of the slot a live handle
    /// refers to, consuming the handle. On the last unit the stored
    /// object's finalize hook runs first, and the slot is then unlinked
    /// from its place and relinked at the head of the recency list, warm
    /// for reuse.
    #[verifier::rlimit(100)]
    pub fn dealloc_handle(&mut self, handle: MruPtr)
        requires
            old(self).wf(),
            0 <= handle.slot() < old(self).rcs().len(),
            old(self).rcs()[handle.slot()] >= 1,
        ensures
            final(self).wf(),
            mru_dealloc_post(*old(self), *final(self), handle.slot()),
    {
        let cap = self.entries.len();
        let i = handle.index();
        proof {
            assert(old(self).rcs()[i as int] == old(self).entries@[i as int].refcnt as nat);
        }
        if self.entries[i].refcnt == 1 {
            {
                let e = &mut self.entries[i];
                e.data.finalize();
                e.refcnt = 0;
            }
            let ghost pre = *old(self);
            let ghost kq = mru_pos(pre, i as int);
            proof {
                lemma_mru_pos(pre, i as int);
                assert(self.rcs() =~= pre.rcs().update(i as int, 0nat));
            }
            let p = self.entries[i].prev;
            let nx = self.entries[i].next;
            proof {
                assert(p as int == (if kq == 0 {
                    cap as int
                } else {
                    pre.recency()[kq - 1]
                }));
                assert(nx as int == (if kq == cap as int - 1 {
                    cap as int
                } else {
                    pre.recency()[kq + 1]
                }));
            }
            if p == cap {
                self.head_next = nx;
            } else {
                let e = &mut self.entries[p];
                e.next = nx;
            }
            if nx == cap {
                self.head_prev = p;
            } else {
                let e = &mut self.entries[nx];
                e.prev = p;
            }
            let f = self.head_next;
            {
                let e = &mut self.entries[i];
                e.next = f;
                e.prev = cap;
            }
            if f == cap {
                self.head_prev = i;
            } else {
                let e = &mut self.entries[f];
                e.prev = i;
            }
            self.head_next = i;
            proof {
                let n = cap as int;
                let newo = seq![i as int] + pre.recency().subrange(0, kq) + pre.recency().subrange(
                    kq + 1,
                    n,
                );
                self.order = Ghost(newo);
                assert(newo.len() == n);
                assert(newo[0] == i as int);
                assert forall|m: int| 1 <= m <= kq implies #[trigger] newo[m] == pre.recency()[m
                    - 1] by {}
                assert forall|m: int| kq < m < n implies #[trigger] newo[m] == pre.recency()[m]
                    by {}
                assert forall|k1: int, k2: int|
                    0 <= k1 < n && 0 <= k2 < n && newo[k1] == newo[k2] implies k1 == k2 by {}
                assert forall|s: int| 0 <= s < n implies contains_slot(newo, s) by {
                    lemma_mru_pos(pre, s);
                    let ks = mru_pos(pre, s);
                    if s == i as int {
                        assert(newo[0] == s);
                    } else if ks < kq {
                        assert(newo[ks + 1] == s);
                    } else {
                        assert(newo[ks] == s);
                    }
                }
                assert(self.wf());
                assert(self.rcs() =~= pre.rcs().update(i as int, 0nat));
                assert((pre.rcs()[i as int] - 1) as nat == 0nat);
                assert(self.recency() == newo);
                assert(self.datas().len() == pre.datas().len());
                assert forall|j: int| 0 <= j < n && j != i as int implies #[trigger] self.datas()[j]
                    == pre.datas()[j] by {}
                assert(T::finalized(pre.datas()[i as int], self.datas()[i as int]));
            }
        } else {
            let e = &mut self.entries[i];
            e.refcnt = e.refcnt - 1;
            proof {
                assert(self.rcs() =~= old(self).rcs().update(
                    i as int,
                    (old(self).rcs()[i as int] - 1) as nat,
                ));
                assert(self.datas() =~= old(self).datas());
                lemma_wf_links_preserved(*old(self), *self);
            }
        }
    }

    /// Finds or allocates as `find_or_alloc_handle` does, and returns
    /// the handle wrapped for safe release.
    pub fn find_or_alloc<C: Fn(&T) -> bool, N: FnOnce() -> T>(
        &mut self,
        c: C,
        n: N,
    ) -> (r: Option<Rc<Self>>)
        requires
            old(self).wf(),
            pred_callable_on::<T, C>(c, old(self).datas()),
            n.requires(()),
            forall|i: int|
                0 <= i < old(self).rcs().len() ==> #[trigger] old(self).rcs()[i] < usize::MAX,
        ensures
            final(self).wf(),
            mru_find_or_alloc_post(*old(self), *final(self), c, n, opt_rc_slot(r)),
    {
        match MruArena::find_or_alloc_handle(self, c, n) {
            Some(h) => Some(Rc::from_unchecked(h)),
            None => None,
        }
    }


    /// Duplicates an owning wrapper, as copying one does in a setting
    /// with destructors: the slot gains one unit and an equal wrapper
    /// aliasing it comes back.
    pub fn dup_rc(&mut self, rc: &Rc<Self>) -> (r: Rc<Self>)
        requires
            old(self).wf(),
            0 <= rc.slot() < old(self).rcs().len(),
            old(self).rcs()[rc.slot()] >= 1,
            old(self).rcs()[rc.slot()] < usize::MAX,
        ensures
            final(self).wf(),
            r.slot() == rc.slot(),
            final(self).rcs() == old(self).rcs().update(
                rc.slot(),
                (old(self).rcs()[rc.slot()] + 1) as nat,
            ),
            final(self).datas() == old(self).datas(),
            final(self).recency() == old(self).recency(),
    {
        Rc::from_unchecked(self.dup_handle(rc.handle()))
    }

    /// Allocates as `alloc_handle` does, and returns the handle wrapped
    /// for safe release.
    pub fn allocate<N: FnOnce() -> T>(&mut self, n: N) -> (r: Option<Rc<Self>>)
        requires
            old(self).wf(),
            n.requires(()),
        ensures
            final(self).wf(),
            mru_alloc_post(*old(self), *final(self), n, opt_rc_slot(r)),
    {
        match MruArena::alloc_handle(self, n) {
            Some(h) => Some(Rc::from_unchecked(h)),
            None => None,
        }
    }
}

impl<T: ArenaObject> Arena for MruArena<T> {
    type Data = T;

    type Handle = MruPtr;

    closed spec fn wf(&self) -> bool {
        let n = self.entries@.len() as int;
        &&& self.order@.len() == n
        &&& n < usize::MAX
        &&& forall|k: int| 0 <= k < n ==> 0 <= #[trigger] self.order@[k] < n
        &&& forall|k1: int, k2: int|
            0 <= k1 < n && 0 <= k2 < n && self.order@[k1] == self.order@[k2] ==> k1 == k2
        &&& forall|s: int| 0 <= s < n ==> #[trigger] contains_slot(self.order@, s)
        &&& self.head_next as int == (if n == 0 {
            n
        } else {
            self.order@[0]
        })
        &&& self.head_prev as int == (if n == 0 {
            n
        } else {
            self.order@[n - 1]
        })
        &&& forall|k: int|
            0 <= k < n ==> #[trigger] self.entries@[self.order@[k]].next as int == (if k == n - 1 {
                n
            } else {
                self.order@[k + 1]
            })
        &&& forall|k: int|
            0 <= k < n ==> #[trigger] self.entries@[self.order@[k]].prev as int == (if k == 0 {
                n
            } else {
                self.order@[k - 1]
            })
    }

    closed spec fn rcs(&self) -> Seq<nat> {
        Seq::new(self.entries@.len(), |i: int| self.entries@[i].refcnt as nat)
    }

    closed spec fn datas(&self) -> Seq<T> {
        Seq::new(self.entries@.len(), |i: int| self.entries@[i].data)
    }

    closed spec fn slot_of(h: &MruPtr) -> int {
        h.slot()
    }

    fn find_or_alloc_handle<C: Fn(&T) -> bool, N: FnOnce() -> T>(
        &mut self,
        c: C,
        n: N,
    ) -> (r: Option<MruPtr>) {
        MruArena::find_or_alloc_handle(self, c, n)
    }

    fn alloc_handle<N: FnOnce() -> T>(&mut self, n: N) -> (r: Option<MruPtr>) {
        MruArena::alloc_handle(self, n)
    }

    fn dup(&mut self, handle: &MruPtr) -> (r: MruPtr) {
        self.dup_handle(handle)
    }

    fn dealloc(&mut self, handle: MruPtr) {
        self.dealloc_handle(handle)
    }

    fn reacquire_after<R, F: FnOnce() -> R>(&mut self, f: F) -> (r: R) {
        f()
    }
}

/// Warm reuse: a slot released to count zero keeps its value, and a
/// find-or-allocate whose predicate accepts exactly that stored value
/// returns that slot again, revived at count one, rather than
/// initializing a fresh one.
pub proof fn lemma_find_or_alloc_warm_reuse<T: ArenaObject, C: Fn(&T) -> bool, N: FnOnce() -> T>(
    pre: MruArena<T>,
    post: MruArena<T>,
    c: C,
    n: N,
    r: Option<int>,
    e: int,
)
    requires
        mru_find_or_alloc_post(pre, post, c, n, r),
        0 <= e < pre.rcs().len(),
        pre.rcs()[e] == 0,
        forall|t: T, b: bool| c.ensures((&t,), b) ==> (b <==> t == pre.datas()[e]),
        forall|j: int|
            0 <= j < pre.datas().len() && j != e ==> pre.datas()[j] != pre.datas()[e],
    ensures
        r == Some(e),
        post.rcs() == pre.rcs().update(e, 1nat),
        post.datas() == pre.datas(),
{
    if r is None {
        assert(c.ensures((&pre.datas()[e],), false));
        assert(false);
    }
    let s = r->Some_0;
    if pre.rcs()[s] == 0 && (forall|j: int|
        0 <= j < pre.datas().len() ==> c.ensures((&#[trigger] pre.datas()[j],), false)) {
        assert(c.ensures((&pre.datas()[e],), false));
        assert(false);
    }
    assert(c.ensures((&pre.datas()[s],), true));
    assert(pre.datas()[s] == pre.datas()[e]);
    assert(s == e);
    assert(post.rcs() == pre.rcs().update(e, (pre.rcs()[e] + 1) as nat));
    assert((pre.rcs()[e] + 1) as nat == 1nat);
}

/// Finding twice changes nothing the second time: two find-or-allocate
/// calls in a row whose predicates match every stored value return
/// handles for the same slot, the one at the head of the recency order,
/// with no second allocation.
pub proof fn lemma_mru_find_or_alloc_match_stable<
    T: ArenaObject,
    C1: Fn(&T) -> bool,
    N1: FnOnce() -> T,
    C2: Fn(&T) -> bool,
    N2: FnOnce() -> T,
>(
    s0: MruArena<T>,
    s1: MruArena<T>,
    s2: MruArena<T>,
    c1: C1,
    n1: N1,
    r1: Option<int>,
    c2: C2,
    n2: N2,
    r2: Option<int>,
)
    requires
        s0.wf(),
        s1.wf(),
        mru_find_or_alloc_post(s0, s1, c1, n1, r1),
        mru_find_or_alloc_post(s1, s2, c2, n2, r2),
        forall|t: T, b: bool| c1.ensures((&t,), b) ==> b,
        forall|t: T, b: bool| c2.ensures((&t,), b) ==> b,
        s0.rcs().len() > 0,
    ensures
        r1 is Some,
        r2 is Some,
        r1->Some_0 == r2->Some_0,
{
    if r1 is None {
        assert(c1.ensures((&s0.datas()[0],), false));
        assert(false);
    }
    let p = r1->Some_0;
    if s0.rcs()[p] == 0 && (forall|j: int|
        0 <= j < s0.datas().len() ==> c1.ensures((&#[trigger] s0.datas()[j],), false)) {
        assert(c1.ensures((&s0.datas()[0],), false));
        assert(false);
    }
    lemma_mru_pos(s0, p);
    if mru_pos(s0, p) > 0 {
        assert(c1.ensures((&s0.datas()[#[trigger] s0.recency()[0]],), false));
        assert(false);
    }
    assert(s0.recency()[0] == p);
    if r2 is None {
        assert(c2.ensures((&s1.datas()[0],), false));
        assert(false);
    }
    let q = r2->Some_0;
    if s1.rcs()[q] == 0 && (forall|j: int|
        0 <= j < s1.datas().len() ==> c2.ensures((&#[trigger] s1.datas()[j],), false)) {
        assert(c2.ensures((&s1.datas()[0],), false));
        assert(false);
    }
    lemma_mru_pos(s1, q);
    if mru_pos(s1, q) > 0 {
        assert(c2.ensures((&s1.datas()[#[trigger] s1.recency()[0]],), false));
        assert(false);
    }
    assert(s1.recency()[0] == q);
    assert(s1.recency() == s0.recency());
}

/// A fully referenced recency pool refuses a plain allocation.
pub proof fn lemma_mru_alloc_full_fails<T: ArenaObject, N: FnOnce() -> T>(
    pre: MruArena<T>,
    post: MruArena<T>,
    n: N,
    r: Option<int>,
)
    requires
        mru_alloc_post(pre, post, n, r),
        forall|i: int| 0 <= i < pre.rcs().len() ==> #[trigger] pre.rcs()[i] > 0,
    ensures
        r is None,
{
}

/// A plain allocation takes the coldest free slot: with two free slots,
/// it never returns the one nearer the head of the recency order.
pub proof fn lemma_alloc_takes_coldest<T: ArenaObject, N: FnOnce() -> T>(
    pre: MruArena<T>,
    post: MruArena<T>,
    n: N,
    r: Option<int>,
    a: int,
    b: int,
)
    requires
        mru_alloc_post(pre, post, n, r),
        pre.wf(),
        0 <= a < pre.rcs().len(),
        0 <= b < pre.rcs().len(),
        a != b,
        pre.rcs()[a] == 0,
        pre.rcs()[b] == 0,
        mru_pos(pre, a) > mru_pos(pre, b),
    ensures
        r is Some,
        r->Some_0 != b,
{
    assert(pre.rcs().len() == pre.recency().len());
    lemma_mru_pos(pre, a);
    lemma_mru_pos(pre, b);
    if r is None {
        assert(pre.rcs()[a] > 0);
        assert(false);
    }
    let s = r->Some_0;
    if s == b {
        lemma_mru_pos(pre, s);
        assert(mru_pos(pre, s) == mru_pos(pre, b));
        assert(mru_pos(pre, s) < mru_pos(pre, a) < pre.recency().len());
        assert(pre.rcs()[pre.recency()[mru_pos(pre, a)]] > 0);
        assert(pre.recency()[mru_pos(pre, a)] == a);
        assert(false);
    }
}

/// Releasing a slot to count zero moves it to the head of the recency
/// order; every other slot keeps its relative order, shifted one step
/// toward the tail when it stood in front of the released slot.
pub proof fn lemma_dealloc_relink_order<T: ArenaObject>(
    pre: MruArena<T>,
    post: MruArena<T>,
    s: int,
    x: int,
)
    requires
        mru_dealloc_post(pre, post, s),
        pre.wf(),
        post.wf(),
        pre.rcs()[s] == 1,
        0 <= s < pre.rcs().len(),
        0 <= x < pre.rcs().len(),
        x != s,
    ensures
        mru_pos(post, s) == 0,
        mru_pos(post, x) == (if mru_pos(pre, x) < mru_pos(pre, s) {
            mru_pos(pre, x) + 1
        } else {
            mru_pos(pre, x)
        }),
{
    assert(pre.rcs().len() == pre.recency().len());
    assert(post.recency().len() == pre.recency().len());
    lemma_mru_pos(pre, s);
    lemma_mru_pos(pre, x);
    lemma_mru_pos(post, s);
    lemma_mru_pos(post, x);
    let kq = mru_pos(pre, s);
    let kx = mru_pos(pre, x);
    assert(post.recency()[0] == s);
    assert(mru_pos(post, s) == 0);
    if kx < kq {
        assert(post.recency()[kx + 1] == pre.recency()[kx]);
        assert(mru_pos(post, x) == kx + 1);
    } else {
        assert(post.recency()[kx] == pre.recency()[kx]);
        assert(mru_pos(post, x) == kx);
    }
}

/// Eviction order: release slot `a` fully, then slot `b`; `b` is now the
/// more recently released of the two, so a following plain allocation
/// does not take `b` while the colder `a` is free.
pub proof fn lemma_mru_eviction_order<T: ArenaObject, N: FnOnce() -> T>(
    s0: MruArena<T>,
    s1: MruArena<T>,
    s2: MruArena<T>,
    s3: MruArena<T>,
    a: int,
    b: int,
    n: N,
    r: Option<int>,
)
    requires
        s0.wf(),
        s1.wf(),
        s2.wf(),
        mru_dealloc_post(s0, s1, a),
        mru_dealloc_post(s1, s2, b),
        mru_alloc_post(s2, s3, n, r),
        0 <= a < s0.rcs().len(),
        0 <= b < s0.rcs().len(),
        a != b,
        s0.rcs()[a] == 1,
        s1.rcs()[b] == 1,
    ensures
        r is Some,
        r->Some_0 != b,
{
    assert(s0.rcs().len() == s0.recency().len());
    lemma_mru_pos(s1, a);
    lemma_mru_pos(s1, b);
    lemma_dealloc_relink_order(s0, s1, a, b);
    assert(mru_pos(s1, a) == 0);
    assert(s1.recency()[mru_pos(s1, b)] == b);
    assert(mru_pos(s1, b) > 0);
    lemma_dealloc_relink_order(s1, s2, b, a);
    assert(mru_pos(s2, b) == 0);
    assert(mru_pos(s2, a) == 1);
    assert(s1.rcs()[a] == 0);
    assert(s2.rcs()[a] == 0);
    assert(s2.rcs()[b] == 0);
    lemma_alloc_takes_coldest(s2, s3, n, r, a, b);
}

} // verus!
