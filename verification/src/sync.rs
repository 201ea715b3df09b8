//! The lock that lets a producer and a consumer share one buffer.
//!
//! Everything in this file is trusted: the contracts below are taken on faith
//! from the documentation of `std::sync::Mutex`.
use vstd::prelude::*;

use std::sync::{Mutex, MutexGuard, PoisonError};

verus! {

/// `std::sync::Mutex`, whose contents Verus does not see.
#[verifier::external_type_specification]
#[verifier::external_body]
#[verifier::reject_recursive_types(T)]
pub struct ExMutex<T: ?Sized>(Mutex<T>);

/// `std::sync::MutexGuard`, the proof that a `Mutex` is held.
#[verifier::external_type_specification]
#[verifier::external_body]
#[verifier::reject_recursive_types(T)]
pub struct ExMutexGuard<'a, T: ?Sized + 'a>(MutexGuard<'a, T>);

/// `std::sync::PoisonError`, the report that a lock holder panicked, which
/// still carries what the lock handed out.
#[verifier::external_type_specification]
#[verifier::external_body]
#[verifier::reject_recursive_types(T)]
pub struct ExPoisonError<T>(PoisonError<T>);

/// `Mutex::new` puts `t` under a new, unlocked mutex. Nothing is claimed of
/// the result: what the mutex holds later depends on every thread using it.
pub assume_specification<T>[ Mutex::<T>::new ](t: T) -> Mutex<T>;

/// Calls `Mutex::lock`, blocking until `m` is free; the error reports that
/// the mutex was poisoned by a panic in another holder. Nothing is claimed of
/// the guard.
///
/// It must not be called by a thread that already holds `m`: std documents
/// that the call then does not return (it may deadlock or panic). No clause
/// can say which thread holds a lock, so this stands here: the library locks
/// only in the methods of its handles and in `head_tail`, each of which
/// takes one guard at a time, drops it before locking again, and runs no
/// caller code (accessors, `Default`) while it holds it. No element is
/// dropped under the lock either: a push fills an empty slot, a pop moves
/// its element out to the caller, and only `Copy` elements are overwritten.
#[verifier::external_body]
fn lock_or_poisoned<T>(m: &Mutex<T>) -> Result<MutexGuard<'_, T>, PoisonError<MutexGuard<'_, T>>> {
    m.lock()
}

/// Calls `PoisonError::into_inner`, giving back the guard that the poisoned
/// lock still handed out.
#[verifier::external_body]
fn poisoned_guard<G>(p: PoisonError<G>) -> G {
    p.into_inner()
}

/// Locks `m`. A mutex poisoned by a panic elsewhere is taken over as it is:
/// every value stored under it is a whole value, since the library changes it
/// only through verified operations, which do not panic.
pub(crate) fn lock<T>(m: &Mutex<T>) -> MutexGuard<'_, T> {
    match lock_or_poisoned(m) {
        Ok(guard) => guard,
        Err(poisoned) => poisoned_guard(poisoned),
    }
}

/// Calls `DerefMut::deref_mut` on a held guard, giving access to the value
/// under the lock. Nothing is claimed of that value: another thread may
/// have changed it since it was last seen.
#[verifier::external_body]
pub(crate) fn guarded<'a, 'b, T>(guard: &'a mut MutexGuard<'b, T>) -> &'a mut T {
    &mut **guard
}

} // verus!
