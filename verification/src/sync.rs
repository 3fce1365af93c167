//! Synchronisation primitives, as state machines owned by one party: a
//! counting semaphore, a barrier, a write-once cell, a run-once guard and a
//! manual-reset event. An operation that would wait for another party to
//! change the state is given only the states in which it does not wait;
//! an operation with a timeout returns `Timeout` in the others.
use vstd::prelude::*;
use std::time::Duration;

verus! {

/// Errors of the synchronisation primitives.
#[derive(Debug, Clone, PartialEq, Eq, Structural)]
pub enum SyncError {
    Timeout,
    Poisoned,
    Closed,
    InvalidState,
}

/// A counting semaphore.
pub struct Semaphore {
    permits: usize,
}

impl Semaphore {
    /// The number of permits available.
    pub closed spec fn permits(&self) -> usize {
        self.permits
    }

    pub fn new(permits: usize) -> (r: Semaphore)
        ensures
            r.permits() == permits,
    {
        Semaphore { permits }
    }

    /// Takes a permit; there must be one, as no other party can return one.
    pub fn acquire(&mut self) -> (r: Result<(), SyncError>)
        requires
            old(self).permits() > 0,
        ensures
            r is Ok,
            final(self).permits() == old(self).permits() - 1,
    {
        self.permits = self.permits - 1;
        Ok(())
    }

    /// Takes a permit if one is available, else fails with `Timeout`.
    pub fn try_acquire(&mut self) -> (r: Result<(), SyncError>)
        ensures
            old(self).permits() > 0 ==> r is Ok && final(self).permits() == old(self).permits() - 1,
            old(self).permits() == 0 ==> r == Err::<(), SyncError>(SyncError::Timeout)
                && final(self).permits() == 0,
    {
        if self.permits > 0 {
            self.permits = self.permits - 1;
            Ok(())
        } else {
            Err(SyncError::Timeout)
        }
    }

    /// Takes a permit if one is available; else, as no other party can
    /// return one before the timeout, fails with `Timeout`.
    pub fn acquire_timeout(&mut self, timeout: Duration) -> (r: Result<(), SyncError>)
        ensures
            old(self).permits() > 0 ==> r is Ok && final(self).permits() == old(self).permits() - 1,
            old(self).permits() == 0 ==> r == Err::<(), SyncError>(SyncError::Timeout)
                && final(self).permits() == 0,
    {
        self.try_acquire()
    }

    /// Returns a permit; the count wraps at `usize::MAX` as an atomic
    /// addition does.
    pub fn release(&mut self)
        ensures
            final(self).permits() == old(self).permits().wrapping_add(1),
    {
        self.permits = self.permits.wrapping_add(1);
    }

    pub fn available_permits(&self) -> (r: usize)
        ensures
            r == self.permits(),
    {
        self.permits
    }
}

/// Acquiring then releasing a permit gives the semaphore back its count.
pub proof fn lemma_acquire_release(before: usize)
    requires
        before > 0,
    ensures
        ((before - 1) as usize).wrapping_add(1) == before,
{
}

/// A barrier for a number of parties.
pub struct Barrier {
    count: usize,
    generation: usize,
}

impl Barrier {
    /// Parties still to arrive.
    pub closed spec fn count(&self) -> usize {
        self.count
    }

    /// Number of times the barrier has opened.
    pub closed spec fn generation(&self) -> usize {
        self.generation
    }

    pub fn new(n: usize) -> (r: Barrier)
        ensures
            r.count() == n,
            r.generation() == 0,
    {
        Barrier { count: n, generation: 0 }
    }

    /// Arrives as the last party: the barrier opens, its generation advances
    /// and one party is counted again.
    pub fn wait(&mut self) -> (r: Result<(), SyncError>)
        requires
            old(self).count() == 1,
        ensures
            r is Ok,
            final(self).count() == 1,
            final(self).generation() == old(self).generation().wrapping_add(1),
    {
        self.count = 0;
        self.generation = self.generation.wrapping_add(1);
        self.count = self.count + 1;
        Ok(())
    }

    /// Arrives at the barrier. The last party opens it as `wait` does; any
    /// other is counted off and, as no other party can arrive before the
    /// timeout, fails with `Timeout`.
    pub fn wait_timeout(&mut self, timeout: Duration) -> (r: Result<(), SyncError>)
        ensures
            old(self).count() == 1 ==> r is Ok && final(self).count() == 1
                && final(self).generation() == old(self).generation().wrapping_add(1),
            old(self).count() != 1 ==> r == Err::<(), SyncError>(SyncError::Timeout)
                && final(self).count() == old(self).count().wrapping_sub(1)
                && final(self).generation() == old(self).generation(),
    {
        let previous = self.count;
        self.count = self.count.wrapping_sub(1);
        if previous == 1 {
            self.generation = self.generation.wrapping_add(1);
            self.count = self.count + previous;
            Ok(())
        } else {
            Err(SyncError::Timeout)
        }
    }
}

/// A cell that can be written once.
pub struct OnceCell<T> {
    value: Option<T>,
}

impl<T> OnceCell<T> {
    /// The value, once written.
    pub closed spec fn content(&self) -> Option<T> {
        self.value
    }

    pub fn new() -> (r: OnceCell<T>)
        ensures
            r.content() is None,
    {
        OnceCell { value: None }
    }

    pub fn get(&self) -> (r: Option<&T>)
        ensures
            match self.content() {
                Some(v) => r == Some(&v),
                None => r is None,
            },
    {
        match &self.value {
            Some(v) => Some(v),
            None => None,
        }
    }

    /// Writes the value if none was written; else hands it back.
    pub fn set(&mut self, value: T) -> (r: Result<(), T>)
        ensures
            old(self).content() is None ==> r is Ok && final(self).content() == Some(value),
            old(self).content() is Some ==> r == Err::<(), T>(value) && final(self).content()
                == old(self).content(),
    {
        if self.value.is_none() {
            self.value = Some(value);
            Ok(())
        } else {
            Err(value)
        }
    }

    /// The value, computing and writing it with `f` first if none was
    /// written.
    pub fn get_or_init<F: FnOnce() -> T>(&mut self, f: F) -> (r: &T)
        requires
            old(self).content() is None ==> f.requires(()),
        ensures
            old(self).content() is Some ==> final(self).content() == old(self).content(),
            old(self).content() is None ==> final(self).content() is Some && f.ensures(
                (),
                final(self).content()->0,
            ),
            final(self).content() == Some(*r),
    {
        if self.value.is_none() {
            let v = f();
            self.value = Some(v);
        }
        self.value.as_ref().unwrap()
    }

    /// The value, if one was written.
    pub fn into_inner(self) -> (r: Option<T>)
        ensures
            r == self.content(),
    {
        self.value
    }
}

/// Runs an action at most once.
pub struct Once {
    done: bool,
}

impl Once {
    pub closed spec fn completed(&self) -> bool {
        self.done
    }

    pub fn new() -> (r: Once)
        ensures
            !r.completed(),
    {
        Once { done: false }
    }

    /// Runs `f` unless an action has already run.
    pub fn call_once<F: FnOnce()>(&mut self, f: F)
        requires
            !old(self).completed() ==> f.requires(()),
        ensures
            final(self).completed(),
            !old(self).completed() ==> f.ensures((), ()),
            old(self).completed() ==> *final(self) == *old(self),
    {
        if !self.done {
            f();
            self.done = true;
        }
    }

    pub fn is_completed(&self) -> (r: bool)
        ensures
            r == self.completed(),
    {
        self.done
    }
}

/// A manual-reset event.
pub struct Event {
    set: bool,
}

impl Event {
    pub closed spec fn signalled(&self) -> bool {
        self.set
    }

    pub fn new() -> (r: Event)
        ensures
            !r.signalled(),
    {
        Event { set: false }
    }

    /// Returns once the event is set; it must be, as no other party can set
    /// it.
    pub fn wait(&self)
        requires
            self.signalled(),
    {
    }

    /// `Ok` if the event is set, else `Timeout`.
    pub fn wait_timeout(&self, timeout: Duration) -> (r: Result<(), SyncError>)
        ensures
            self.signalled() ==> r is Ok,
            !self.signalled() ==> r == Err::<(), SyncError>(SyncError::Timeout),
    {
        if self.set {
            Ok(())
        } else {
            Err(SyncError::Timeout)
        }
    }

    pub fn set(&mut self)
        ensures
            final(self).signalled(),
    {
        self.set = true;
    }

    pub fn reset(&mut self)
        ensures
            !final(self).signalled(),
    {
        self.set = false;
    }

    pub fn is_set(&self) -> (r: bool)
        ensures
            r == self.signalled(),
    {
        self.set
    }
}

} // verus!
