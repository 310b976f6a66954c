//! The uniform error surface of the monitor.

use vstd::prelude::*;

pub use BeatsError as BE;

verus! {

/// Every failure the monitor can surface, as one tagged enum.
///
/// Collaborator failures (I/O, HTTP, environment lookups) are represented
/// by plain tags here; the code at the system edge maps the foreign error
/// values onto these tags before they enter the library.
#[derive(Debug, PartialEq, Eq)]
pub enum BeatsError {
    /// An I/O failure in a collaborator.
    IOError,
    /// A UTF-8 decoding failure in a collaborator.
    Utf8,
    /// The deck mailbox was closed when a message was sent to it.
    DM2DeckSendFail,
    /// The reporter-runtime mailbox was closed when a message was sent to it.
    DM2OutputRunner,
    /// A reply channel was closed before the reply arrived.
    ChannelRecvFail,
    /// A bounded receive elapsed without a message.
    ChanRecvTimeout,
    /// A roster was requested while no record is registered.
    EmptyRoster,
    /// The record requested does not exist in the current snapshot.
    MissingRecord,
    /// Registration was rejected; the payload says why.
    RegisterFail(&'static str),
    /// Sentinel used by reporters that had nothing new to deliver.
    NothingNewToReport,
    /// A record could not be unregistered.
    UnregisterFail,
    /// The indexer has no free ids left.
    MaximumCapacity,
    /// An environment variable a collaborator needs is missing.
    EnvVarFail,
    /// A collaborator was handed a malformed header value.
    InvalidHeaderValue,
    /// An HTTP client failure in a collaborator.
    ReqwestError,
    /// A reply arrived that does not match the request that was sent.
    MaximumConfusion,
}

} // verus!
