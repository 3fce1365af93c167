//! Errors of per-thread storage, and running a closure in a scope.
use vstd::prelude::*;
use crate::text::{owned, string_push_str};

verus! {

/// Errors of per-thread storage.
#[derive(Debug, Clone)]
pub enum ThreadLocalError {
    NotInitialized,
    AlreadyInitialized,
    InvalidThreadId,
    PoisonError(String),
}

impl ThreadLocalError {
    /// The message of the error.
    pub fn to_string(&self) -> (r: String)
        ensures
            r@ == match self {
                ThreadLocalError::NotInitialized => "Thread local not initialized"@,
                ThreadLocalError::AlreadyInitialized => "Thread local already initialized"@,
                ThreadLocalError::InvalidThreadId => "Invalid thread ID"@,
                ThreadLocalError::PoisonError(m) => "Poison error: "@ + m@,
            },
    {
        match self {
            ThreadLocalError::NotInitialized => owned("Thread local not initialized"),
            ThreadLocalError::AlreadyInitialized => owned("Thread local already initialized"),
            ThreadLocalError::InvalidThreadId => owned("Invalid thread ID"),
            ThreadLocalError::PoisonError(m) => {
                let mut s = owned("Poison error: ");
                string_push_str(&mut s, m.as_str());
                s
            },
        }
    }
}

/// A closure to be run once.
#[verifier::reject_recursive_types(R)]
pub struct ThreadLocalScope<F, R> where F: FnOnce() -> R {
    f: F,
    result: core::marker::PhantomData<R>,
}

impl<F, R> ThreadLocalScope<F, R> where F: FnOnce() -> R {
    /// The closure the scope runs.
    pub closed spec fn body(&self) -> F {
        self.f
    }

    pub fn new(f: F) -> (r: Self)
        ensures
            r.body() == f,
    {
        ThreadLocalScope { f, result: core::marker::PhantomData }
    }

    /// Runs the closure and gives back its result.
    pub fn run(self) -> (r: R)
        requires
            self.body().requires(()),
        ensures
            self.body().ensures((), r),
    {
        (self.f)()
    }
}

/// Runs `f` in a scope and gives back its result.
pub fn scoped_thread_local<F, R>(f: F) -> (r: R)
    where F: FnOnce() -> R
    requires
        f.requires(()),
    ensures
        f.ensures((), r),
{
    let scope = ThreadLocalScope::new(f);
    scope.run()
}

} // verus!
