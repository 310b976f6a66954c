//! The mailbox plumbing between the facade, the deck thread and the
//! reporter runtime, built on `std::sync::mpsc`.
//!
//! Nothing is assumed about delivery beyond what each item states: a send
//! or receive can always fail with the far end gone, so every caller must
//! hold for either outcome.

use vstd::prelude::*;

verus! {

/// `std::sync::mpsc::Sender`, opaque to the verifier.
#[verifier::external_type_specification]
#[verifier::external_body]
#[verifier::reject_recursive_types(T)]
pub struct ExSender<T>(std::sync::mpsc::Sender<T>);

/// `std::sync::mpsc::Receiver`, opaque to the verifier.
#[verifier::external_type_specification]
#[verifier::external_body]
#[verifier::reject_recursive_types(T)]
pub struct ExReceiver<T>(std::sync::mpsc::Receiver<T>);

/// The outcome of one bounded receive.
pub enum RecvOutcome<T> {
    /// A message arrived within the deadline.
    Got(T),
    /// The deadline elapsed with the channel still open.
    TimedOut,
    /// The channel is closed and drained.
    Closed,
}

/// Relies on `std::sync::mpsc::Sender::send`: `true` exactly when the
/// message was accepted, `false` when the receiver is gone (in which case
/// the message is lost).
#[verifier::external_body]
pub(crate) fn channel_send<T>(tx: &std::sync::mpsc::Sender<T>, msg: T) -> bool {
    tx.send(msg).is_ok()
}

/// Relies on `std::sync::mpsc::Receiver::recv`: blocks for the next
/// message; `None` when the channel is closed and drained.
#[verifier::external_body]
pub(crate) fn channel_recv<T>(rx: &std::sync::mpsc::Receiver<T>) -> Option<T> {
    match rx.recv() {
        Ok(m) => Some(m),
        Err(_) => None,
    }
}

/// Relies on `std::sync::mpsc::Receiver::recv_timeout`: waits at most
/// `timeout_ms` milliseconds for the next message.
#[verifier::external_body]
pub(crate) fn channel_recv_timeout<T>(
    rx: &std::sync::mpsc::Receiver<T>,
    timeout_ms: u64,
) -> RecvOutcome<T> {
    match rx.recv_timeout(std::time::Duration::from_millis(timeout_ms)) {
        Ok(m) => RecvOutcome::Got(m),
        Err(std::sync::mpsc::RecvTimeoutError::Timeout) => RecvOutcome::TimedOut,
        Err(std::sync::mpsc::RecvTimeoutError::Disconnected) => RecvOutcome::Closed,
    }
}

/// Relies on `std::sync::mpsc::Sender::clone`: another sender feeding the
/// same channel.
#[verifier::external_body]
pub(crate) fn clone_sender<T>(tx: &std::sync::mpsc::Sender<T>) -> std::sync::mpsc::Sender<T> {
    tx.clone()
}

} // verus!
