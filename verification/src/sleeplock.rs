//! Long-term locks for processes. The blocking parts — spinning on the
//! protecting lock, sleeping on a wait channel, waking sleepers — belong
//! to the surrounding kernel; what is kept here is the lock state and
//! the decisions taken on it: whether an acquire attempt succeeds, what
//! a release publishes, and who counts as holding the lock. A caller
//! that fails to acquire sleeps and retries; that loop stays with the
//! caller.

use vstd::prelude::*;

verus! {

/// A long-term lock protecting a value, recording the process that
/// holds it (`-1` when free).
pub struct SleeplockWIP<T> {
    pub holder: i32,
    pub name: &'static str,
    pub data: T,
}

impl<T> SleeplockWIP<T> {
    /// A free lock around `data`.
    pub fn new(name: &'static str, data: T) -> (l: Self)
        ensures
            l.holder == -1i32,
            l.name == name,
            l.data == data,
    {
        SleeplockWIP { holder: -1, name, data }
    }

    /// Unwraps the protected value.
    pub fn into_inner(self) -> (t: T)
        ensures
            t == self.data,
    {
        self.data
    }

    /// One acquire attempt by process `pid`: takes the lock when it is
    /// free, and otherwise leaves everything unchanged (the caller then
    /// sleeps and retries).
    pub fn try_lock(&mut self, pid: i32) -> (acquired: bool)
        requires
            pid >= 0,
        ensures
            acquired == (old(self).holder == -1i32),
            acquired ==> *final(self) == (SleeplockWIP { holder: pid, ..*old(self) }),
            !acquired ==> *final(self) == *old(self),
    {
        if self.holder == -1 {
            self.holder = pid;
            true
        } else {
            false
        }
    }

    /// Releases the lock; the wakeup of sleepers is the caller's work.
    pub fn unlock(&mut self)
        ensures
            *final(self) == (SleeplockWIP { holder: -1i32, ..*old(self) }),
    {
        self.holder = -1;
    }

    /// Borrows the protected value; safe whenever the caller has
    /// exclusive access to the lock itself.
    pub fn get_mut(&mut self) -> (t: &mut T)
        ensures
            *t == old(self).data,
            final(self).holder == old(self).holder,
            final(self).name == old(self).name,
            final(self).data == *final(t),
    {
        &mut self.data
    }
}

/// A long-term lock without a protected value, recording whether it is
/// held and by which process.
pub struct Sleeplock {
    /// Is the lock held?
    pub locked: u32,
    /// Name of lock.
    pub name: &'static str,
    /// Process holding lock.
    pub pid: i32,
}

impl Sleeplock {
    /// An unheld, unnamed lock.
    pub fn zeroed() -> (l: Self)
        ensures
            l.locked == 0u32,
            l.pid == 0i32,
    {
        Sleeplock { locked: 0, name: "", pid: 0 }
    }

    /// An unheld lock with the given name.
    pub fn new(name: &'static str) -> (l: Self)
        ensures
            l.locked == 0u32,
            l.name == name,
            l.pid == 0i32,
    {
        let mut l = Sleeplock::zeroed();
        l.name = name;
        l.locked = 0;
        l.pid = 0;
        l
    }

    /// Resets the lock to unheld under the given name.
    pub fn initlock(&mut self, name: &'static str)
        ensures
            final(self).locked == 0u32,
            final(self).name == name,
            final(self).pid == 0i32,
    {
        self.name = name;
        self.locked = 0;
        self.pid = 0;
    }

    /// One acquire attempt by process `pid`: takes the lock when it is
    /// free, and otherwise leaves everything unchanged (the caller then
    /// sleeps and retries).
    pub fn try_acquire(&mut self, pid: i32) -> (acquired: bool)
        ensures
            acquired == (old(self).locked == 0u32),
            acquired ==> *final(self) == (Sleeplock { locked: 1u32, pid, ..*old(self) }),
            !acquired ==> *final(self) == *old(self),
    {
        if self.locked == 0 {
            self.locked = 1;
            self.pid = pid;
            true
        } else {
            false
        }
    }

    /// Releases the lock; the wakeup of sleepers is the caller's work.
    pub fn release(&mut self)
        ensures
            final(self).locked == 0u32,
            final(self).pid == 0i32,
            final(self).name == old(self).name,
    {
        self.locked = 0;
        self.pid = 0;
    }

    /// Whether process `pid` holds the lock.
    pub fn holding(&self, pid: i32) -> (r: bool)
        ensures
            r == (self.locked != 0u32 && self.pid == pid),
    {
        self.locked != 0 && self.pid == pid
    }
}

} // verus!
