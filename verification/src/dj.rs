//! The DJ: the user-facing facade. It talks to the deck thread over
//! channels, reads the published snapshot, and hands out
//! [`Beat`](crate::Beat) handles to the monitored tasks.
//!
//! Spawning the deck and reporter threads needs an executor and is the
//! embedder's part: run [`crate::Deck::step`] in a loop on one thread and,
//! for reporting, [`crate::output::Output::step`] on another, then wire a
//! facade to them with [`TheDJ::connect`].

use vstd::prelude::*;

use crate::beat::Beat;
use crate::channel::{channel_recv, channel_send, clone_sender};
use crate::deck::{Arm, DM2Deck};
use crate::error::BeatsError;
use crate::output::{DM2OutputRunner, Report};
use crate::record::Record;

verus! {

/// Every reply the deck sends back to the facade.
pub enum DM2DJ {
    /// The outcome of a registration: the new id, or why it failed.
    ID(Result<i32, BeatsError>),
    /// The handle to the shared snapshot, replied once to `Init`.
    ARM(Arm),
}

/// The facade: senders towards the deck and the reporter runtime, the
/// reply channel from the deck, and the snapshot handle obtained at
/// connection time. Requests that bear replies are serialized by `&self`
/// borrow discipline of the single reply receiver.
#[verifier::reject_recursive_types(R)]
pub struct TheDJ<R: Report> {
    rt_tx: std::sync::mpsc::Sender<DM2Deck>,
    rt_rx: std::sync::mpsc::Receiver<DM2DJ>,
    outputrunner_tx: std::sync::mpsc::Sender<DM2OutputRunner<R>>,
    atomic_record_map: Option<Arm>,
}

impl<R: Report> TheDJ<R> {
    /// A connected facade holds the snapshot handle.
    pub closed spec fn wf(&self) -> bool {
        self.atomic_record_map is Some
    }

    /// Wire a facade to a deck loop running on the other end of `rt_tx` /
    /// `rt_rx`: ask the deck for its snapshot handle and keep it. Fails
    /// when the deck is gone (`DM2DeckSendFail`, `ChannelRecvFail`) or
    /// replies out of shape (`MaximumConfusion`).
    pub fn connect(
        rt_tx: std::sync::mpsc::Sender<DM2Deck>,
        rt_rx: std::sync::mpsc::Receiver<DM2DJ>,
        outputrunner_tx: std::sync::mpsc::Sender<DM2OutputRunner<R>>,
    ) -> (r: Result<TheDJ<R>, BeatsError>)
        ensures
            r matches Ok(dj) ==> dj.wf(),
            r matches Err(e) ==> (e == BeatsError::DM2DeckSendFail || e
                == BeatsError::ChannelRecvFail || e == BeatsError::MaximumConfusion),
    {
        let mut the_dj = TheDJ { rt_tx, rt_rx, outputrunner_tx, atomic_record_map: None };
        if !channel_send(&the_dj.rt_tx, DM2Deck::Init()) {
            return Err(BeatsError::DM2DeckSendFail);
        }
        match channel_recv(&the_dj.rt_rx) {
            Some(DM2DJ::ARM(arm)) => {
                the_dj.atomic_record_map = Some(arm);
                Ok(the_dj)
            },
            None => Err(BeatsError::ChannelRecvFail),
            Some(_) => Err(BeatsError::MaximumConfusion),
        }
    }

    /// A clone of the snapshot handle, for wiring a reporter runtime to
    /// the same deck.
    pub fn arm(&self) -> (r: Option<Arm>)
        ensures
            r is Some <==> self.wf(),
    {
        match &self.atomic_record_map {
            Some(a) => Some(a.clone()),
            None => None,
        }
    }

    /// Register a record under `name` with expected cadence `freq` (in
    /// milliseconds) and return the producer handle for it. An empty name
    /// or a zero cadence is rejected with `RegisterFail`, and only those
    /// inputs are.
    pub fn register(&self, name: String, freq: u64) -> (r: Result<Beat, BeatsError>)
        ensures
            (name@.len() == 0 || freq == 0) <==> r matches Err(BeatsError::RegisterFail(_)),
    {
        if name.as_str().is_empty() || freq == 0 {
            return Err(BeatsError::RegisterFail("Error: Incorrect register data"));
        }
        if !channel_send(&self.rt_tx, DM2Deck::Registration(name, freq)) {
            return Err(BeatsError::DM2DeckSendFail);
        }
        match channel_recv(&self.rt_rx) {
            Some(DM2DJ::ID(Ok(id))) => Ok(Beat { id, sender: clone_sender(&self.rt_tx) }),
            Some(DM2DJ::ID(Err(e))) => {
                if matches!(e, BeatsError::RegisterFail(_)) {
                    Err(BeatsError::MaximumConfusion)
                } else {
                    Err(e)
                }
            },
            None => Err(BeatsError::ChannelRecvFail),
            Some(_) => Err(BeatsError::MaximumConfusion),
        }
    }

    /// Ask the deck to remove the record under `id`. No reply is expected;
    /// unregistering an unknown id is accepted and leaves the deck
    /// unchanged (see [`crate::Deck::deregister`]).
    pub fn unregister(&self, id: i32) -> (r: Result<(), BeatsError>)
        ensures
            r matches Err(e) ==> e == BeatsError::DM2DeckSendFail,
    {
        if channel_send(&self.rt_tx, DM2Deck::Deregistration(id)) {
            Ok(())
        } else {
            Err(BeatsError::DM2DeckSendFail)
        }
    }

    /// A copy of the record under `id` from the current snapshot, or
    /// `MissingRecord` exactly when the snapshot read does not hold the
    /// id (the lookup itself is [`crate::RecordMap::get`]).
    pub fn get_record(&self, id: i32) -> (r: Result<Record, BeatsError>)
        requires
            self.wf(),
        ensures
            r matches Err(e) ==> e == BeatsError::MissingRecord,
            r matches Ok(rec) ==> rec@.id == id as int,
    {
        let arm = match &self.atomic_record_map {
            Some(a) => a,
            None => {
                return Err(BeatsError::MissingRecord);
            },
        };
        let snap = arm.read_snapshot();
        match snap.get(id) {
            Some(rec) => Ok(rec.clone()),
            None => Err(BeatsError::MissingRecord),
        }
    }

    /// The ids of every record in the current snapshot, or `EmptyRoster`
    /// exactly when the snapshot read holds none (the enumeration itself
    /// is [`crate::RecordMap::roster`]).
    pub fn get_roster(&self) -> (r: Result<Vec<i32>, BeatsError>)
        requires
            self.wf(),
        ensures
            r matches Err(e) ==> e == BeatsError::EmptyRoster,
            r matches Ok(ids) ==> ids@.len() > 0,
    {
        let arm = match &self.atomic_record_map {
            Some(a) => a,
            None => {
                return Err(BeatsError::EmptyRoster);
            },
        };
        let snap = arm.read_snapshot();
        let roster = snap.roster();
        if roster.len() > 0 {
            Ok(roster)
        } else {
            Err(BeatsError::EmptyRoster)
        }
    }

    /// Hand a reporter to the reporter runtime.
    pub fn add_report(&self, report: R) -> (r: Result<(), BeatsError>)
        ensures
            r matches Err(e) ==> e == BeatsError::DM2OutputRunner,
    {
        if channel_send(&self.outputrunner_tx, DM2OutputRunner::RegisterOutput(report)) {
            Ok(())
        } else {
            Err(BeatsError::DM2OutputRunner)
        }
    }
}

} // verus!
