use rc_arena::sleeplock::{Sleeplock, SleeplockWIP};

#[test]
fn sleeplock_zeroed_is_free() {
    let l = Sleeplock::zeroed();
    assert_eq!(l.locked, 0);
    assert_eq!(l.pid, 0);
    assert!(!l.holding(0));
}

#[test]
fn sleeplock_initlock_resets() {
    let mut l = Sleeplock::new("disk");
    assert!(l.try_acquire(4));
    l.initlock("inode");
    assert_eq!(l.locked, 0);
    assert_eq!(l.pid, 0);
    assert_eq!(l.name, "inode");
}

#[test]
fn sleeplock_acquire_release_holding() {
    let mut l = Sleeplock::new("log");
    assert!(!l.holding(7));
    assert!(l.try_acquire(7));
    assert!(l.holding(7));
    assert!(!l.holding(8));
    // a second attempt while held fails and changes nothing
    assert!(!l.try_acquire(8));
    assert!(l.holding(7));
    l.release();
    assert!(!l.holding(7));
    assert!(l.try_acquire(8));
    assert!(l.holding(8));
}

#[test]
fn sleeplock_wip_lock_protects_value() {
    let mut l = SleeplockWIP::new("buffer", 10u32);
    assert!(l.try_lock(3));
    assert_eq!(l.holder, 3);
    assert!(!l.try_lock(5));
    assert_eq!(l.holder, 3);
    *l.get_mut() = 11;
    l.unlock();
    assert_eq!(l.holder, -1);
    assert!(l.try_lock(5));
    assert_eq!(*l.get_mut(), 11);
    l.unlock();
}

#[test]
fn sleeplock_wip_into_inner_returns_value() {
    let l = SleeplockWIP::new("pipe", vec![1, 2, 3]);
    assert_eq!(l.into_inner(), vec![1, 2, 3]);
}
