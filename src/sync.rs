//! The operating-system side of blocking: the lock around a channel's body,
//! the condition variable its blocked operations wait on, and the clock that
//! deadlines are measured against. Each item here is one call into std.
use vstd::prelude::*;

verus! {

#[verifier::external_type_specification]
#[verifier::external_body]
#[verifier::reject_recursive_types(T)]
pub struct ExMutex<T: ?Sized>(std::sync::Mutex<T>);

#[verifier::external_type_specification]
#[verifier::external_body]
#[verifier::reject_recursive_types(T)]
pub struct ExMutexGuard<'a, T: ?Sized + 'a>(std::sync::MutexGuard<'a, T>);

#[verifier::external_type_specification]
#[verifier::external_body]
pub struct ExCondvar(std::sync::Condvar);

#[verifier::external_type_specification]
#[verifier::external_body]
pub struct ExInstant(std::time::Instant);

/// Relies on std::sync::Mutex::new: a lock around `value`.
#[verifier::external_body]
pub(crate) fn new_mutex<S>(value: S) -> std::sync::Mutex<S> {
    std::sync::Mutex::new(value)
}

/// Relies on std::sync::Condvar::new: a condition variable nobody waits on.
#[verifier::external_body]
pub(crate) fn new_condvar() -> std::sync::Condvar {
    std::sync::Condvar::new()
}

/// Relies on std::sync::Mutex::lock: blocks until the lock is held. A lock
/// left poisoned by a panicking holder is taken over, since the body it
/// guards is valid at every point. The call could panic only on a thread
/// that already holds the lock; the library runs no code of its users while
/// holding it (messages leave the body before they are dropped, and the
/// ones an unbounded channel discards are dropped by a sender after it has
/// released the lock), so it never locks twice on one thread.
#[verifier::external_body]
pub(crate) fn lock<'a, S>(m: &'a std::sync::Mutex<S>) -> std::sync::MutexGuard<'a, S>
    opens_invariants none
    no_unwind
{
    m.lock().unwrap_or_else(std::sync::PoisonError::into_inner)
}

/// Relies on DerefMut of std::sync::MutexGuard: the value under the held lock.
#[verifier::external_body]
pub(crate) fn guarded<'a, 'b, S>(g: &'b mut std::sync::MutexGuard<'a, S>) -> &'b mut S
    opens_invariants none
    no_unwind
{
    &mut *g
}

/// Relies on std::sync::Condvar::notify_all: wakes every thread waiting on `cv`.
#[verifier::external_body]
pub(crate) fn notify_all(cv: &std::sync::Condvar)
    opens_invariants none
    no_unwind
{
    cv.notify_all()
}

/// Relies on std::sync::Condvar::wait: releases the lock, blocks until woken
/// (or spuriously), and takes the lock again. A poisoned lock is taken over.
#[verifier::external_body]
pub(crate) fn wait<'a, S>(cv: &std::sync::Condvar, g: std::sync::MutexGuard<'a, S>) -> std::sync::MutexGuard<'a, S> {
    cv.wait(g).unwrap_or_else(std::sync::PoisonError::into_inner)
}

/// Relies on std::sync::Condvar::wait_timeout: as `wait`, but also returns
/// once `dur` has passed.
#[verifier::external_body]
pub(crate) fn wait_timeout<'a, S>(
    cv: &std::sync::Condvar,
    g: std::sync::MutexGuard<'a, S>,
    dur: std::time::Duration,
) -> std::sync::MutexGuard<'a, S> {
    match cv.wait_timeout(g, dur) {
        Ok((g, _)) => g,
        Err(e) => e.into_inner().0,
    }
}

/// Relies on std::time::Instant::now: the current instant.
#[verifier::external_body]
pub(crate) fn now() -> std::time::Instant {
    std::time::Instant::now()
}

/// Relies on std::time::Instant::checked_add: `d` after `i`, or `None` when
/// that instant cannot be represented.
#[verifier::external_body]
pub(crate) fn checked_add(i: std::time::Instant, d: std::time::Duration) -> Option<std::time::Instant> {
    i.checked_add(d)
}

/// Relies on std::time::Instant::saturating_duration_since: the time from
/// `now` to `deadline`, zero when the deadline has passed.
#[verifier::external_body]
pub(crate) fn time_left(deadline: std::time::Instant, now: std::time::Instant) -> std::time::Duration {
    deadline.saturating_duration_since(now)
}

/// Relies on the order of std::time::Instant: whether `now` is at or after
/// `deadline`.
#[verifier::external_body]
pub(crate) fn reached(now: std::time::Instant, deadline: std::time::Instant) -> bool {
    now >= deadline
}

/// Relies on std::sync::Arc::ptr_eq: whether both handles share one allocation.
#[verifier::external_body]
pub(crate) fn same_allocation<S>(a: &std::sync::Arc<S>, b: &std::sync::Arc<S>) -> bool {
    std::sync::Arc::ptr_eq(a, b)
}

} // verus!
