//! The producer-side handle: owned by the monitored task, bound to one
//! record id, and used to send signals back to the deck. Dropping the
//! handle unregisters the record, best-effort.

use vstd::prelude::*;

use crate::channel::channel_send;
use crate::clock::now_ms;
use crate::deck::DM2Deck;
use crate::error::BeatsError;

verus! {

/// The handle a monitored task beats through: the record's id and a sender
/// feeding the deck's mailbox.
pub struct Beat {
    pub sender: std::sync::mpsc::Sender<DM2Deck>,
    pub id: i32,
}

impl Beat {
    /// Stamp the record's deployment with the current instant.
    pub fn deploy(&self) -> (r: Result<(), BeatsError>)
        ensures
            r matches Err(e) ==> e == BeatsError::DM2DeckSendFail,
    {
        let t = now_ms();
        if channel_send(&self.sender, DM2Deck::Deploy(self.id, t)) {
            Ok(())
        } else {
            Err(BeatsError::DM2DeckSendFail)
        }
    }

    /// Send a signal stamped with the current instant.
    pub fn now(&self) -> (r: Result<(), BeatsError>)
        ensures
            r matches Err(e) ==> e == BeatsError::DM2DeckSendFail,
    {
        let t = now_ms();
        if channel_send(&self.sender, DM2Deck::Ping(self.id, t)) {
            Ok(())
        } else {
            Err(BeatsError::DM2DeckSendFail)
        }
    }

    /// Send a signal stamped with the given timestamp.
    pub fn from(&self, timestamp: u64) -> (r: Result<(), BeatsError>)
        ensures
            r matches Err(e) ==> e == BeatsError::DM2DeckSendFail,
    {
        if channel_send(&self.sender, DM2Deck::Ping(self.id, timestamp)) {
            Ok(())
        } else {
            Err(BeatsError::DM2DeckSendFail)
        }
    }

    /// Set the record's expected inter-signal duration.
    pub fn set_expected_freq(&self, expected: u64) -> (r: Result<(), BeatsError>)
        ensures
            r matches Err(e) ==> e == BeatsError::DM2DeckSendFail,
    {
        if channel_send(&self.sender, DM2Deck::SetExpectedFreq(self.id, expected)) {
            Ok(())
        } else {
            Err(BeatsError::DM2DeckSendFail)
        }
    }

    /// Set the record's deployment timestamp.
    pub fn set_deployment(&self, deployment: u64) -> (r: Result<(), BeatsError>)
        ensures
            r matches Err(e) ==> e == BeatsError::DM2DeckSendFail,
    {
        if channel_send(&self.sender, DM2Deck::Deploy(self.id, deployment)) {
            Ok(())
        } else {
            Err(BeatsError::DM2DeckSendFail)
        }
    }
}

impl Drop for Beat {
    /// Relies on `std::sync::mpsc::Sender::send`: dropping the handle
    /// sends a best-effort unregistration for its id; a send failure is
    /// suppressed, since the deck may already be gone.
    #[verifier::external_body]
    fn drop(&mut self)
        opens_invariants none
        no_unwind
    {
        let _ = self.sender.send(DM2Deck::Deregistration(self.id));
    }
}

} // verus!
