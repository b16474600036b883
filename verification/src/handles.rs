//! The handles that the library shares with the threads around it: the
//! stop flag and the counter of games behind their locks, the channel of
//! finished games, the clock and the shuffle. What other threads, the clock
//! or chance decide is not the library's to say, so little is promised
//! here.

use std::sync::mpsc::{Receiver, Sender};
use std::sync::{Arc, Mutex, MutexGuard};
use std::time::{Duration, Instant};
use vstd::prelude::*;

verus! {

/// `std::sync::Mutex`.
#[verifier::external_type_specification]
#[verifier::external_body]
#[verifier::reject_recursive_types(T)]
pub struct ExMutex<T: ?Sized>(Mutex<T>);

/// `std::time::Instant`.
#[verifier::external_type_specification]
#[verifier::external_body]
pub struct ExInstant(Instant);

/// `std::sync::MutexGuard`.
#[verifier::external_type_specification]
#[verifier::external_body]
#[verifier::reject_recursive_types(T)]
pub struct ExMutexGuard<'a, T: ?Sized + 'a>(MutexGuard<'a, T>);

/// `std::sync::mpsc::Sender`.
#[verifier::external_type_specification]
#[verifier::external_body]
#[verifier::reject_recursive_types(T)]
pub struct ExSender<T>(Sender<T>);

/// `std::sync::mpsc::Receiver`.
#[verifier::external_type_specification]
#[verifier::external_body]
#[verifier::reject_recursive_types(T)]
pub struct ExReceiver<T>(Receiver<T>);

/// What a search shares with whoever may stop it.
pub struct Shared {
    pub stop: bool,
}

/// A lock around `shared`, from `Mutex::new`.
#[verifier::external_body]
pub(crate) fn new_lock(shared: Shared) -> (lock: Mutex<Shared>) {
    Mutex::new(shared)
}

/// Reads the stop flag under its lock, with `Mutex::lock`. Any thread that
/// holds the handle may have set it, so the result is open. A poisoned lock
/// is read all the same.
#[verifier::external_body]
pub(crate) fn stop_requested(shared: &Arc<Mutex<Shared>>) -> (stop: bool) {
    match shared.lock() {
        Ok(guard) => guard.stop,
        Err(poisoned) => poisoned.into_inner().stop,
    }
}

/// Writes the stop flag under its lock, with `Mutex::lock`.
#[verifier::external_body]
pub(crate) fn set_stop(shared: &Arc<Mutex<Shared>>, stop: bool) {
    match shared.lock() {
        Ok(mut guard) => guard.stop = stop,
        Err(poisoned) => poisoned.into_inner().stop = stop,
    }
}

/// The present moment, from `Instant::now`.
#[verifier::external_body]
pub(crate) fn now() -> (t: Instant) {
    Instant::now()
}

/// The moment `millis` milliseconds after `start`, from
/// `Instant::checked_add`; nothing where the clock cannot hold it.
#[verifier::external_body]
pub(crate) fn after_millis(start: &Instant, millis: u64) -> (t: Option<Instant>) {
    start.checked_add(Duration::from_millis(millis))
}

/// Whether the moment `t` is `deadline` or later, by the order of
/// `Instant`.
#[verifier::external_body]
pub(crate) fn not_before(t: &Instant, deadline: &Instant) -> (r: bool) {
    t >= deadline
}

/// The milliseconds that have passed since `start`, from
/// `Instant::elapsed`.
#[verifier::external_body]
pub(crate) fn millis_since(start: &Instant) -> (millis: u128) {
    start.elapsed().as_millis()
}

/// Another handle to the same stop flag, from `Arc::clone`.
#[verifier::external_body]
pub(crate) fn share(handle: &Arc<Mutex<Shared>>) -> (other: Arc<Mutex<Shared>>)
    ensures
        other == *handle,
{
    Arc::clone(handle)
}

/// Takes the lock of the counter of games, with `Mutex::lock`, and waits
/// for it where another thread holds it. A poisoned lock is taken all the
/// same.
#[verifier::external_body]
pub(crate) fn lock_counter<'a>(counter: &'a Arc<Mutex<u32>>) -> (guard: MutexGuard<'a, u32>) {
    match counter.lock() {
        Ok(guard) => guard,
        Err(poisoned) => poisoned.into_inner(),
    }
}

/// The number behind a lock that is held, read through the guard's
/// `Deref`.
#[verifier::external_body]
pub(crate) fn locked_value(guard: &MutexGuard<'_, u32>) -> (value: u32) {
    **guard
}

/// Writes the number behind a lock that is held, through the guard's
/// `DerefMut`.
#[verifier::external_body]
pub(crate) fn set_locked_value(guard: &mut MutexGuard<'_, u32>, value: u32) {
    **guard = value;
}

} // verus!
