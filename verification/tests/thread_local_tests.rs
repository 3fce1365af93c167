use chim_compiler::thread_local::{scoped_thread_local, ThreadLocalError, ThreadLocalScope};

#[test]
fn scoped_closure_result() {
    assert_eq!(scoped_thread_local(|| 41 + 1), 42);
    let v = vec![1, 2, 3];
    let scope = ThreadLocalScope::new(move || v.len());
    assert_eq!(scope.run(), 3);
}

#[test]
fn thread_local_error_messages() {
    assert_eq!(ThreadLocalError::NotInitialized.to_string(), "Thread local not initialized");
    assert_eq!(ThreadLocalError::AlreadyInitialized.to_string(), "Thread local already initialized");
    assert_eq!(ThreadLocalError::InvalidThreadId.to_string(), "Invalid thread ID");
    assert_eq!(ThreadLocalError::PoisonError("lock".to_string()).to_string(), "Poison error: lock");
}
