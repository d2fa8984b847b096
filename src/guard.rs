//! A value that only its owning thread may reach. Threads are named by plain
//! numeric ids.
use vstd::prelude::*;

verus! {

/// Holds a value together with the id of the thread that may access it.
pub struct ThreadGuard<T> {
    thread: u64,
    val: T,
}

impl<T> ThreadGuard<T> {
    /// The owning thread.
    pub closed spec fn owner(&self) -> u64 {
        self.thread
    }

    /// The guarded value.
    pub closed spec fn value(&self) -> T {
        self.val
    }

    /// Guards `val` for thread `thread`.
    pub fn new(val: T, thread: u64) -> (r: ThreadGuard<T>)
        ensures
            r.owner() == thread,
            r.value() == val,
    {
        ThreadGuard { thread, val }
    }

    /// The value, from its owning thread.
    pub fn get(&self, current: u64) -> (r: &T)
        requires
            current == self.owner(),
        ensures
            *r == self.value(),
    {
        &self.val
    }

    /// The value, mutably, from its owning thread.
    pub fn get_mut(&mut self, current: u64) -> (r: &mut T)
        requires
            current == old(self).owner(),
        ensures
            *r == old(self).value(),
            final(self).owner() == old(self).owner(),
            final(self).value() == *final(r),
    {
        &mut self.val
    }

    /// The value where `current` is the owning thread, `None` elsewhere.
    pub fn try_get(&self, current: u64) -> (r: Option<&T>)
        ensures
            r is Some <==> current == self.owner(),
            r matches Some(v) ==> *v == self.value(),
    {
        if self.thread == current {
            Some(&self.val)
        } else {
            None
        }
    }

    /// The value, mutably, where `current` is the owning thread, `None` elsewhere.
    pub fn try_get_mut(&mut self, current: u64) -> (r: Option<&mut T>)
        ensures
            r is Some <==> current == old(self).owner(),
            final(self).owner() == old(self).owner(),
            match r {
                Some(v) => *v == old(self).value() && final(self).value() == *final(v),
                None => final(self).value() == old(self).value(),
            },
    {
        if self.thread == current {
            Some(&mut self.val)
        } else {
            None
        }
    }
}

} // verus!
