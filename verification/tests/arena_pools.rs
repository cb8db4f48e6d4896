use rc_arena::arena::Arena;
use rc_arena::array_arena::{ArrayArena, ArrayEntry};
use rc_arena::file::{File, FileType};
use rc_arena::mru_arena::{MruArena, MruEntry};

fn file(ip: usize) -> File {
    File::new(FileType::Inode { ip, off: 0 }, true, false)
}

fn array_pool(cap: usize) -> ArrayArena<File> {
    let mut entries = Vec::new();
    for _ in 0..cap {
        entries.push(ArrayEntry::new(File::new(FileType::NoFile, false, false)));
    }
    ArrayArena::new(entries)
}

fn mru_pool(cap: usize) -> MruArena<File> {
    let mut entries = Vec::new();
    for _ in 0..cap {
        entries.push(MruEntry::new(File::new(FileType::NoFile, false, false)));
    }
    MruArena::new(entries)
}

#[test]
fn array_alloc_fills_lowest_index_first() {
    let mut pool = array_pool(3);
    let h1 = pool.alloc_handle(|| file(1)).expect("slot free");
    let h2 = pool.alloc_handle(|| file(2)).expect("slot free");
    assert_eq!(h1.index(), 0);
    assert_eq!(h2.index(), 1);
    assert_eq!(pool.refcount(0), 1);
    assert_eq!(pool.refcount(1), 1);
    assert_eq!(pool.refcount(2), 0);
    assert_eq!(*pool.get(&h1), file(1));
    assert_eq!(*pool.get(&h2), file(2));
    pool.dealloc_handle(h1);
    pool.dealloc_handle(h2);
}

#[test]
fn array_alloc_full_pool_fails() {
    let mut pool = array_pool(2);
    let h1 = pool.alloc_handle(|| file(1)).expect("slot free");
    let h2 = pool.alloc_handle(|| file(2)).expect("slot free");
    assert!(pool.alloc_handle(|| file(3)).is_none());
    pool.dealloc_handle(h1);
    pool.dealloc_handle(h2);
}

#[test]
fn array_scenario_reuse_after_release() {
    // capacity 2: two allocations fill the pool, a third fails; after
    // the first handle is released, the freed slot is reused
    let mut pool = array_pool(2);
    let h1 = pool.alloc_handle(|| file(1)).expect("slot free");
    let h2 = pool.alloc_handle(|| file(2)).expect("slot free");
    assert!(pool.alloc_handle(|| file(3)).is_none());
    let freed = h1.index();
    pool.dealloc_handle(h1);
    assert_eq!(pool.refcount(freed), 0);
    let h3 = pool.alloc_handle(|| file(3)).expect("freed slot available");
    assert_eq!(h3.index(), freed);
    assert_eq!(*pool.get(&h3), file(3));
    assert_eq!(pool.refcount(0), 1);
    assert_eq!(pool.refcount(1), 1);
    pool.dealloc_handle(h2);
    pool.dealloc_handle(h3);
}

#[test]
fn array_find_or_alloc_match_is_stable() {
    // with an always-matching predicate, a second call settles on the
    // same slot instead of allocating again
    let mut pool = array_pool(2);
    let h1 = pool
        .find_or_alloc_handle(|_f: &File| true, || file(1))
        .expect("pool has room");
    let h2 = pool
        .find_or_alloc_handle(|_f: &File| true, || file(9))
        .expect("match exists");
    assert_eq!(h1.index(), h2.index());
    assert_eq!(pool.refcount(h1.index()), 2);
    assert_eq!(*pool.get(&h2), file(1));
    assert_eq!(pool.refcount(1), 0);
    pool.dealloc_handle(h1);
    pool.dealloc_handle(h2);
}

#[test]
fn array_find_or_alloc_match_beats_earlier_free_slot() {
    // slot 0 is free, slot 1 holds a matching value: the match wins
    // even though the free slot comes first in scan order
    let mut pool = array_pool(2);
    let h1 = pool.alloc_handle(|| file(1)).expect("slot free");
    let h2 = pool.alloc_handle(|| file(7)).expect("slot free");
    pool.dealloc_handle(h1);
    let h3 = pool
        .find_or_alloc_handle(
            |f: &File| matches!(f.typ, FileType::Inode { ip: 7, .. }),
            || file(7),
        )
        .expect("match exists");
    assert_eq!(h3.index(), 1);
    assert_eq!(pool.refcount(1), 2);
    assert_eq!(pool.refcount(0), 0);
    pool.dealloc_handle(h2);
    pool.dealloc_handle(h3);
}

#[test]
fn array_find_or_alloc_no_match_takes_first_free() {
    let mut pool = array_pool(3);
    let h1 = pool.alloc_handle(|| file(1)).expect("slot free");
    let h2 = pool
        .find_or_alloc_handle(
            |f: &File| matches!(f.typ, FileType::Inode { ip: 42, .. }),
            || file(42),
        )
        .expect("free slot available");
    assert_eq!(h2.index(), 1);
    assert_eq!(*pool.get(&h2), file(42));
    pool.dealloc_handle(h1);
    pool.dealloc_handle(h2);
}

#[test]
fn array_find_or_alloc_full_unmatched_fails() {
    let mut pool = array_pool(2);
    let h1 = pool.alloc_handle(|| file(1)).expect("slot free");
    let h2 = pool.alloc_handle(|| file(2)).expect("slot free");
    let r = pool.find_or_alloc_handle(|_f: &File| false, || file(3));
    assert!(r.is_none());
    pool.dealloc_handle(h1);
    pool.dealloc_handle(h2);
}

#[test]
fn array_dup_and_dealloc_track_handle_units() {
    // the refcount equals the outstanding handle units at every step
    let mut pool = array_pool(1);
    let h1 = pool.alloc_handle(|| file(5)).expect("slot free");
    assert_eq!(pool.refcount(0), 1);
    let h2 = pool.dup_handle(&h1);
    assert_eq!(h2.index(), h1.index());
    assert_eq!(pool.refcount(0), 2);
    pool.dealloc_handle(h1);
    assert_eq!(pool.refcount(0), 1);
    pool.dealloc_handle(h2);
    assert_eq!(pool.refcount(0), 0);
}

#[test]
fn array_rc_wrapper_round_trip() {
    let mut pool = array_pool(2);
    let rc = pool.allocate(|| file(3)).expect("slot free");
    let i = rc.handle().index();
    assert_eq!(pool.refcount(i), 1);
    pool.dealloc_handle(rc.into_handle());
    assert_eq!(pool.refcount(i), 0);
    let rc2 = pool
        .find_or_alloc(|_f: &File| false, || file(4))
        .expect("free slot available");
    assert_eq!(*pool.get(rc2.handle()), file(4));
    pool.dealloc_handle(rc2.into_handle());
}

#[test]
fn rc_wrapper_share_on_copy() {
    // duplicating a wrapper adds one handle unit to its slot
    let mut pool = array_pool(1);
    let rc1 = pool.allocate(|| file(6)).expect("slot free");
    let rc2 = pool.dup_rc(&rc1);
    assert_eq!(rc2.handle().index(), rc1.handle().index());
    assert_eq!(pool.refcount(0), 2);
    pool.dealloc_handle(rc1.into_handle());
    pool.dealloc_handle(rc2.into_handle());
    assert_eq!(pool.refcount(0), 0);
    let mut mpool = mru_pool(1);
    let rc3 = mpool.allocate(|| file(6)).expect("slot free");
    let rc4 = mpool.dup_rc(&rc3);
    assert_eq!(mpool.refcount(0), 2);
    mpool.dealloc_handle(rc3.into_handle());
    mpool.dealloc_handle(rc4.into_handle());
}

#[test]
fn array_capacity_zero_always_fails() {
    let mut pool = array_pool(0);
    assert_eq!(pool.capacity(), 0);
    assert!(pool.alloc_handle(|| file(1)).is_none());
    assert!(pool.find_or_alloc_handle(|_f: &File| true, || file(1)).is_none());
}

#[test]
fn array_reacquire_after_runs_the_closure() {
    let mut pool = array_pool(1);
    let v = Arena::reacquire_after(&mut pool, || 40 + 2);
    assert_eq!(v, 42);
}

#[test]
fn mru_alloc_takes_tail_slot_first() {
    // the initial recency order runs from the highest index at the head
    // to index zero at the tail, so a fresh pool hands out slot 0 first
    let mut pool = mru_pool(3);
    let h1 = pool.alloc_handle(|| file(1)).expect("slot free");
    let h2 = pool.alloc_handle(|| file(2)).expect("slot free");
    assert_eq!(h1.index(), 0);
    assert_eq!(h2.index(), 1);
    assert_eq!(*pool.get(&h1), file(1));
    assert_eq!(*pool.get(&h2), file(2));
    pool.dealloc_handle(h1);
    pool.dealloc_handle(h2);
}

#[test]
fn mru_alloc_full_pool_fails() {
    let mut pool = mru_pool(2);
    let h1 = pool.alloc_handle(|| file(1)).expect("slot free");
    let h2 = pool.alloc_handle(|| file(2)).expect("slot free");
    assert!(pool.alloc_handle(|| file(3)).is_none());
    pool.dealloc_handle(h1);
    pool.dealloc_handle(h2);
}

#[test]
fn mru_warm_reuse_revives_released_slot() {
    // allocate a slot, release it fully, then find-or-allocate with a
    // predicate matching its stored value: the same slot comes back,
    // value intact, with no fresh initialization
    let mut pool = mru_pool(3);
    let h1 = pool.alloc_handle(|| file(42)).expect("slot free");
    let e = h1.index();
    pool.dealloc_handle(h1);
    assert_eq!(pool.refcount(e), 0);
    let h2 = pool
        .find_or_alloc_handle(
            |f: &File| matches!(f.typ, FileType::Inode { ip: 42, .. }),
            || file(99),
        )
        .expect("warm slot matches");
    assert_eq!(h2.index(), e);
    assert_eq!(*pool.get(&h2), file(42));
    assert_eq!(pool.refcount(e), 1);
    pool.dealloc_handle(h2);
}

#[test]
fn mru_eviction_prefers_earlier_release() {
    // release A, then B: B is the more recently released, so the next
    // plain allocation takes A
    let mut pool = mru_pool(2);
    let ha = pool.alloc_handle(|| file(1)).expect("slot free");
    let hb = pool.alloc_handle(|| file(2)).expect("slot free");
    let a = ha.index();
    let b = hb.index();
    pool.dealloc_handle(ha);
    pool.dealloc_handle(hb);
    let h = pool.alloc_handle(|| file(3)).expect("slots free");
    assert_eq!(h.index(), a);
    assert_ne!(h.index(), b);
    pool.dealloc_handle(h);
}

#[test]
fn mru_find_or_alloc_fallback_is_last_free_seen() {
    // with nothing matching, the fallback is the free slot nearest the
    // tail: slot 0 in a fresh pool
    let mut pool = mru_pool(3);
    let h = pool
        .find_or_alloc_handle(|_f: &File| false, || file(8))
        .expect("free slot available");
    assert_eq!(h.index(), 0);
    assert_eq!(*pool.get(&h), file(8));
    pool.dealloc_handle(h);
}

#[test]
fn mru_find_or_alloc_match_is_stable() {
    let mut pool = mru_pool(2);
    let h1 = pool
        .find_or_alloc_handle(|_f: &File| true, || file(1))
        .expect("pool has room");
    let h2 = pool
        .find_or_alloc_handle(|_f: &File| true, || file(9))
        .expect("match exists");
    assert_eq!(h1.index(), h2.index());
    assert_eq!(pool.refcount(h1.index()), 2);
    pool.dealloc_handle(h1);
    pool.dealloc_handle(h2);
}

#[test]
fn mru_dup_and_dealloc_track_handle_units() {
    let mut pool = mru_pool(2);
    let h1 = pool.alloc_handle(|| file(5)).expect("slot free");
    let h2 = pool.dup_handle(&h1);
    assert_eq!(h2.index(), h1.index());
    assert_eq!(pool.refcount(h1.index()), 2);
    pool.dealloc_handle(h1);
    assert_eq!(pool.refcount(h2.index()), 1);
    pool.dealloc_handle(h2);
}

#[test]
fn mru_rc_wrapper_round_trip() {
    let mut pool = mru_pool(2);
    let rc = pool.allocate(|| file(3)).expect("slot free");
    let i = rc.handle().index();
    assert_eq!(pool.refcount(i), 1);
    pool.dealloc_handle(rc.into_handle());
    assert_eq!(pool.refcount(i), 0);
    let rc2 = pool
        .find_or_alloc(|_f: &File| false, || file(4))
        .expect("free slot available");
    assert_eq!(*pool.get(rc2.handle()), file(4));
    pool.dealloc_handle(rc2.into_handle());
}

#[test]
fn mru_full_unmatched_find_fails() {
    let mut pool = mru_pool(2);
    let h1 = pool.alloc_handle(|| file(1)).expect("slot free");
    let h2 = pool.alloc_handle(|| file(2)).expect("slot free");
    let r = pool.find_or_alloc_handle(|_f: &File| false, || file(3));
    assert!(r.is_none());
    pool.dealloc_handle(h1);
    pool.dealloc_handle(h2);
}

#[test]
fn mru_capacity_zero_always_fails() {
    let mut pool = mru_pool(0);
    assert_eq!(pool.capacity(), 0);
    assert!(pool.alloc_handle(|| file(1)).is_none());
    assert!(pool.find_or_alloc_handle(|_f: &File| true, || file(1)).is_none());
}

#[test]
fn refcount_sum_tracks_outstanding_handles() {
    // across a mixed run of operations, the sum of all refcounts always
    // equals the handles issued minus the handles released
    let mut pool = array_pool(3);
    let sum = |pool: &mut rc_arena::array_arena::ArrayArena<rc_arena::file::File>| {
        let mut s = 0;
        for i in 0..3 {
            s += pool.refcount(i);
        }
        s
    };
    assert_eq!(sum(&mut pool), 0);
    let h1 = pool.alloc_handle(|| file(1)).expect("slot free"); // issued 1
    assert_eq!(sum(&mut pool), 1);
    let h2 = pool
        .find_or_alloc_handle(|_f: &File| false, || file(2))
        .expect("slot free"); // issued 2
    assert_eq!(sum(&mut pool), 2);
    let h3 = pool.dup_handle(&h1); // issued 3
    assert_eq!(sum(&mut pool), 3);
    pool.dealloc_handle(h2); // released 1
    assert_eq!(sum(&mut pool), 2);
    let h4 = pool
        .find_or_alloc_handle(|_f: &File| true, || file(4))
        .expect("match exists"); // issued 4
    assert_eq!(sum(&mut pool), 3);
    pool.dealloc_handle(h1); // released 2
    pool.dealloc_handle(h3); // released 3
    pool.dealloc_handle(h4); // released 4
    assert_eq!(sum(&mut pool), 0);
}

#[test]
fn file_new_keeps_its_fields() {
    let f = File::new(FileType::Device { ip: 3, major: 7 }, true, true);
    assert_eq!(f.typ, FileType::Device { ip: 3, major: 7 });
    assert!(f.readable);
    assert!(f.writable);
    let g = File::new(FileType::Pipe { pipe: 11 }, false, true);
    assert_eq!(g.typ, FileType::Pipe { pipe: 11 });
    assert!(!g.readable);
}
