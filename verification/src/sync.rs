//! The std synchronisation pieces the listeners share with their threads.
use std::sync::mpsc::{Receiver, Sender};
use std::sync::Mutex;
use vstd::prelude::*;

verus! {

/// `std::sync::Mutex`, carried through opaque: what it holds changes under
/// other threads, so nothing is known of it here.
#[verifier::external_type_specification]
#[verifier::external_body]
#[verifier::reject_recursive_types(T)]
pub struct ExMutex<T: ?Sized>(std::sync::Mutex<T>);

/// `std::sync::mpsc::Sender`.
#[verifier::external_type_specification]
#[verifier::external_body]
#[verifier::reject_recursive_types(T)]
pub struct ExSender<T>(std::sync::mpsc::Sender<T>);

/// `std::sync::mpsc::Receiver`.
#[verifier::external_type_specification]
#[verifier::external_body]
#[verifier::reject_recursive_types(T)]
pub struct ExReceiver<T>(std::sync::mpsc::Receiver<T>);

/// `Mutex::lock`, then a copy of the value it guards; `None` when the lock
/// is poisoned. What the value is depends on the threads that write it, so
/// nothing is stated of it.
#[verifier::external_body]
pub(crate) fn lock_cloned<T: Clone>(m: &Mutex<Option<T>>) -> Option<T> {
    m.lock().ok().and_then(|g| g.clone())
}

/// `mpsc::channel`: a connected sender and receiver.
#[verifier::external_body]
pub(crate) fn channel<T>() -> (Sender<T>, Receiver<T>) {
    std::sync::mpsc::channel()
}

/// `Sender::send`; `false` when the receiver is gone (whether it is, is up
/// to the other side, so nothing is stated).
#[verifier::external_body]
pub(crate) fn send_to<T>(tx: &Sender<T>, v: T) -> bool {
    tx.send(v).is_ok()
}

/// `Receiver::try_iter`, collected: whatever has arrived so far, in order of
/// arrival. What has arrived depends on the sending thread.
#[verifier::external_body]
pub(crate) fn drain_all<T>(rx: &Receiver<T>) -> Vec<T> {
    rx.try_iter().collect()
}

} // verus!
