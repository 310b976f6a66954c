//! The deck: the single owner of the record map. It runs on one dedicated
//! thread, serially applies mutations arriving on its mailbox, and after
//! every message republishes the map into the shared snapshot so that
//! readers never wait on it.

use vstd::prelude::*;
use vstd::rwlock::{RwLock, RwLockPredicate};

use crate::channel::{channel_recv, channel_send};
use crate::dj::DM2DJ;
use crate::error::BeatsError;
use crate::record::{Record, RecordV};
use crate::record_map::{lemma_full_map, lemma_record_count_bounded, RecordMap};
use crate::track::spec_add;
use crate::RECORD_CAP;

verus! {

/// Every message the deck accepts on its mailbox.
#[derive(Debug)]
pub enum DM2Deck {
    /// A signal from the record with this id, at this timestamp.
    Ping(i32, u64),
    /// A request to create a record with this name and expected cadence;
    /// the deck replies with the new id or the failure.
    Registration(String, u64),
    /// Update the deployment timestamp of the record with this id.
    Deploy(i32, u64),
    /// Update the expected cadence of the record with this id.
    SetExpectedFreq(i32, u64),
    /// Remove the record with this id and release the id.
    Deregistration(i32),
    /// A request to reply with a handle to the shared snapshot.
    Init(),
}

/// The snapshot lock admits exactly the well-formed record maps.
pub struct ArmPred;

impl RwLockPredicate<RecordMap> for ArmPred {
    open spec fn inv(self, v: RecordMap) -> bool {
        v.wf()
    }
}

/// The atomic record map: the published snapshot of the deck's records,
/// shared between the deck (writer) and the readers. Readers hold the
/// read lock only long enough to clone the map.
pub struct Arm {
    lock: std::sync::Arc<RwLock<RecordMap, ArmPred>>,
}

impl Arm {
    /// A fresh snapshot holding `m`.
    pub fn new(m: RecordMap) -> (r: Arm)
        requires
            m.wf(),
    {
        Arm { lock: std::sync::Arc::new(RwLock::new(m, Ghost(ArmPred))) }
    }

    /// A point-in-time copy of the published map.
    pub fn read_snapshot(&self) -> (r: RecordMap)
        ensures
            r.wf(),
    {
        let handle = self.lock.acquire_read();
        let m = handle.borrow().clone();
        handle.release_read();
        m
    }

    /// Replace the published map.
    pub fn publish(&self, m: RecordMap)
        requires
            m.wf(),
    {
        let (_stale, handle) = self.lock.acquire_write();
        handle.release_write(m);
    }
}

impl Clone for Arm {
    /// Relies on `std::sync::Arc::clone`: another handle to the same lock.
    #[verifier::external_body]
    fn clone(&self) -> (res: Self)
        ensures
            res == *self,
    {
        Arm { lock: std::sync::Arc::clone(&self.lock) }
    }
}

/// What one mailbox message may do to the record map: mutations land on
/// the addressed record when it is live and are dropped silently when it
/// is not; a registration inserts a fresh record or changes nothing (when
/// capacity is exhausted, or when the reply failed and the insert was
/// rolled back); `Init` reads only.
pub open spec fn spec_apply(
    pre: Map<int, RecordV>,
    call: DM2Deck,
    post: Map<int, RecordV>,
) -> bool {
    match call {
        DM2Deck::Init() => post == pre,
        DM2Deck::Ping(id, time) => if pre.contains_key(id as int) {
            post == pre.insert(
                id as int,
                RecordV { track: spec_add(pre[id as int].track, time), ..pre[id as int] },
            )
        } else {
            post == pre
        },
        DM2Deck::Deploy(id, time) => if pre.contains_key(id as int) {
            post == pre.insert(id as int, RecordV { deployment: time as int, ..pre[id as int] })
        } else {
            post == pre
        },
        DM2Deck::SetExpectedFreq(id, expected) => if pre.contains_key(id as int) {
            post == pre.insert(id as int, RecordV { freq: expected as int, ..pre[id as int] })
        } else {
            post == pre
        },
        DM2Deck::Registration(name, freq) => post == pre || exists|id: i32, creation: int|
            {
                &&& 0 <= id < RECORD_CAP
                &&& !pre.contains_key(id as int)
                &&& post == pre.insert(
                    id as int,
                    RecordV {
                        name: name@,
                        id: id as int,
                        freq: freq as int,
                        creation,
                        deployment: creation,
                        track: Seq::<u64>::empty(),
                    },
                )
            },
        DM2Deck::Deregistration(id) => post == pre.remove(id as int),
    }
}

/// The single owner of the records: an indexer handing out ids and the map
/// of live records, which always agree on the set of ids in use.
pub struct Deck {
    indexer: crate::Indexer,
    records: RecordMap,
}

impl View for Deck {
    type V = Map<int, RecordV>;

    closed spec fn view(&self) -> Map<int, RecordV> {
        self.records@
    }
}

impl Deck {
    /// The indexer and the record map agree on which ids are live, and
    /// every live id lies in `[0, RECORD_CAP)`.
    pub closed spec fn wf(&self) -> bool {
        &&& self.indexer.wf()
        &&& self.records.wf()
        &&& forall|k: int| #[trigger] self.records@.contains_key(k) == self.indexer@.contains(k)
        &&& forall|k: int| #[trigger] self.records@.contains_key(k) ==> 0 <= k < RECORD_CAP
    }

    /// How many records are live.
    pub closed spec fn spec_len(&self) -> nat {
        self.records.spec_len()
    }

    /// The ids the indexer currently holds as in use.
    pub closed spec fn spec_used(&self) -> Set<int> {
        self.indexer@
    }

    /// A fresh deck with no records.
    pub fn new() -> (r: Deck)
        ensures
            r.wf(),
            r@ == Map::<int, RecordV>::empty(),
            r.spec_len() == 0,
    {
        Deck { indexer: crate::Indexer::new(), records: RecordMap::new() }
    }

    /// The live records.
    pub fn records(&self) -> (r: &RecordMap)
        requires
            self.wf(),
        ensures
            r@ == self@,
            r.wf(),
            r.spec_len() == self.spec_len(),
    {
        &self.records
    }

    /// Create a record under the smallest free id. Fails with
    /// `MaximumCapacity` exactly when every id is taken.
    pub fn register(&mut self, name: String, freq: u64) -> (r: Result<i32, BeatsError>)
        requires
            old(self).wf(),
        ensures
            final(self).wf(),
            match r {
                Ok(id) => {
                    &&& 0 <= id < RECORD_CAP
                    &&& !old(self)@.contains_key(id as int)
                    &&& forall|j: int| 0 <= j < id ==> old(self)@.contains_key(j)
                    &&& final(self)@.contains_key(id as int)
                    &&& final(self)@[id as int].name == name@
                    &&& final(self)@[id as int].id == id as int
                    &&& final(self)@[id as int].freq == freq as int
                    &&& final(self)@[id as int].track == Seq::<u64>::empty()
                    &&& final(self)@[id as int].creation == final(self)@[id as int].deployment
                    &&& final(self)@ == old(self)@.insert(id as int, final(self)@[id as int])
                    &&& final(self).spec_len() == old(self).spec_len() + 1
                },
                Err(e) => {
                    &&& e == BeatsError::MaximumCapacity
                    &&& final(self)@ == old(self)@
                    &&& final(self).spec_len() == old(self).spec_len()
                    &&& forall|j: int| 0 <= j < RECORD_CAP ==> old(self)@.contains_key(j)
                },
            },
    {
        match self.indexer.next() {
            Ok(id) => {
                let mut rec = Record::new(name, id);
                rec.set_expected_freq(freq);
                self.records.insert(rec);
                Ok(id)
            },
            Err(e) => Err(e),
        }
    }

    /// Remove the record under `id` and release the id; an unknown id is a
    /// no-op, and the state is left unchanged.
    pub fn deregister(&mut self, id: i32)
        requires
            old(self).wf(),
        ensures
            final(self).wf(),
            final(self)@ == old(self)@.remove(id as int),
            !old(self)@.contains_key(id as int) ==> final(self)@ == old(self)@,
    {
        if self.records.remove(id) {
            self.indexer.remove(id);
        } else {
            proof {
                assert(self@ =~= old(self)@.remove(id as int));
            }
        }
    }

    /// Append a signal to the record under `id`; unknown ids are dropped
    /// silently.
    pub fn ping(&mut self, id: i32, time: u64)
        requires
            old(self).wf(),
        ensures
            final(self).wf(),
            old(self)@.contains_key(id as int) ==> final(self)@ == old(self)@.insert(
                id as int,
                RecordV {
                    track: spec_add(old(self)@[id as int].track, time),
                    ..old(self)@[id as int]
                },
            ),
            !old(self)@.contains_key(id as int) ==> final(self)@ == old(self)@,
    {
        let _found = self.records.add_beat(id, time);
    }

    /// Update the deployment timestamp of the record under `id`; unknown
    /// ids are dropped silently.
    pub fn deploy(&mut self, id: i32, time: u64)
        requires
            old(self).wf(),
        ensures
            final(self).wf(),
            old(self)@.contains_key(id as int) ==> final(self)@ == old(self)@.insert(
                id as int,
                RecordV { deployment: time as int, ..old(self)@[id as int] },
            ),
            !old(self)@.contains_key(id as int) ==> final(self)@ == old(self)@,
    {
        let _found = self.records.set_deployment(id, time);
    }

    /// Update the expected cadence of the record under `id`; unknown ids
    /// are dropped silently.
    pub fn set_expected_freq(&mut self, id: i32, expected: u64)
        requires
            old(self).wf(),
        ensures
            final(self).wf(),
            old(self)@.contains_key(id as int) ==> final(self)@ == old(self)@.insert(
                id as int,
                RecordV { freq: expected as int, ..old(self)@[id as int] },
            ),
            !old(self)@.contains_key(id as int) ==> final(self)@ == old(self)@,
    {
        let _found = self.records.set_expected_freq(id, expected);
    }

    /// One turn of the deck thread: block for the next message, apply it,
    /// reply to `Init` and `Registration`, and republish the snapshot.
    /// Returns `false` once the loop around it should end: when the
    /// mailbox is closed and drained, or when a reply could not be
    /// delivered (a registration whose reply fails is rolled back first).
    /// The caller dedicates a thread to `while Deck::step(..) {}`.
    ///
    /// Whatever arrives, the deck moves by exactly one message's worth of
    /// mutation (`spec_apply`): this is the single-writer serialization of
    /// the record map.
    pub fn step(
        deck: &mut Deck,
        arm: &Arm,
        rx: &std::sync::mpsc::Receiver<DM2Deck>,
        dj_tx: &std::sync::mpsc::Sender<DM2DJ>,
    ) -> (cont: bool)
        requires
            old(deck).wf(),
        ensures
            final(deck).wf(),
            exists|call: DM2Deck| spec_apply(old(deck)@, call, final(deck)@),
    {
        let mut cont = true;
        match channel_recv(rx) {
            None => {
                proof {
                    assert(spec_apply(old(deck)@, DM2Deck::Init(), deck@));
                }
                return false;
            },
            Some(call) => {
                let ghost call_snap = call;
                match call {
                    DM2Deck::Init() => {
                        if !channel_send(dj_tx, DM2DJ::ARM(arm.clone())) {
                            cont = false;
                        }
                        proof {
                            assert(spec_apply(old(deck)@, call_snap, deck@));
                        }
                    },
                    DM2Deck::Deploy(id, time) => {
                        deck.deploy(id, time);
                        proof {
                            assert(spec_apply(old(deck)@, call_snap, deck@));
                        }
                    },
                    DM2Deck::SetExpectedFreq(id, expected) => {
                        deck.set_expected_freq(id, expected);
                        proof {
                            assert(spec_apply(old(deck)@, call_snap, deck@));
                        }
                    },
                    DM2Deck::Ping(id, time) => {
                        deck.ping(id, time);
                        proof {
                            assert(spec_apply(old(deck)@, call_snap, deck@));
                        }
                    },
                    DM2Deck::Registration(name, freq) => {
                        let ghost name0 = name@;
                        match deck.register(name, freq) {
                            Ok(id) => {
                                proof {
                                    let c = deck@[id as int].creation;
                                    assert(deck@ == old(deck)@.insert(
                                        id as int,
                                        RecordV {
                                            name: name0,
                                            id: id as int,
                                            freq: freq as int,
                                            creation: c,
                                            deployment: c,
                                            track: Seq::<u64>::empty(),
                                        },
                                    ));
                                    assert(spec_apply(old(deck)@, call_snap, deck@));
                                }
                                if !channel_send(dj_tx, DM2DJ::ID(Ok(id))) {
                                    deck.deregister(id);
                                    proof {
                                        assert(deck@ =~= old(deck)@);
                                        assert(spec_apply(old(deck)@, call_snap, deck@));
                                    }
                                    cont = false;
                                }
                            },
                            Err(e) => {
                                let _ = channel_send(dj_tx, DM2DJ::ID(Err(e)));
                                proof {
                                    assert(spec_apply(old(deck)@, call_snap, deck@));
                                }
                            },
                        }
                    },
                    DM2Deck::Deregistration(id) => {
                        deck.deregister(id);
                        proof {
                            assert(spec_apply(old(deck)@, call_snap, deck@));
                        }
                    },
                }
                arm.publish(deck.records().clone());
            },
        }
        cont
    }
}

/// The record map after a run of signals for one record, applied in send
/// order: each step is `spec_apply` of one `Ping`.
pub open spec fn spec_pings(pre: Map<int, RecordV>, id: i32, ts: Seq<u64>) -> Map<int, RecordV>
    decreases ts.len(),
{
    if ts.len() == 0 {
        pre
    } else {
        let prev = spec_pings(pre, id, ts.drop_last());
        if prev.contains_key(id as int) {
            prev.insert(
                id as int,
                RecordV { track: spec_add(prev[id as int].track, ts.last()), ..prev[id as int] },
            )
        } else {
            prev
        }
    }
}

/// The single-producer ordering law at the deck: a run of signals for one
/// live record touches that record alone and leaves its track equal to the
/// capacity-bounded fold of the signals in send order (whose shape
/// [`crate::track::lemma_producer_order`] gives).
pub proof fn lemma_deck_signal_order(pre: Map<int, RecordV>, id: i32, ts: Seq<u64>)
    requires
        pre.contains_key(id as int),
    ensures
        spec_pings(pre, id, ts).contains_key(id as int),
        spec_pings(pre, id, ts)[id as int].track == crate::track::fold_add(
            pre[id as int].track,
            ts,
        ),
        spec_pings(pre, id, ts)[id as int] == (RecordV {
            track: spec_pings(pre, id, ts)[id as int].track,
            ..pre[id as int]
        }),
        forall|k: int| k != id as int ==> #[trigger] spec_pings(pre, id, ts).contains_key(k)
            == pre.contains_key(k),
        forall|k: int| k != id as int && pre.contains_key(k) ==> #[trigger] spec_pings(
            pre,
            id,
            ts,
        )[k] == pre[k],
    decreases ts.len(),
{
    if ts.len() > 0 {
        lemma_deck_signal_order(pre, id, ts.drop_last());
    }
}

/// The capacity bound: a well-formed deck — and `Deck::new` makes one,
/// every mutation keeps one — never holds more than `RECORD_CAP` live
/// records, however registrations and unregistrations were interleaved to
/// reach it; every live id lies in `[0, RECORD_CAP)`; and the record map's
/// key set is exactly the indexer's in-use set.
pub proof fn lemma_deck_capacity(deck: &Deck)
    requires
        deck.wf(),
    ensures
        deck.spec_len() <= RECORD_CAP,
        forall|k: int| #[trigger] deck@.contains_key(k) ==> 0 <= k < RECORD_CAP,
        forall|k: int| #[trigger] deck@.contains_key(k) == deck.spec_used().contains(k),
{
    lemma_record_count_bounded(&deck.records);
}

/// A deck holding `RECORD_CAP` live records has every id taken, so (by the
/// contract of `register`) the next registration fails with
/// `MaximumCapacity`.
pub proof fn lemma_full_deck(deck: &Deck)
    requires
        deck.wf(),
        deck.spec_len() == RECORD_CAP,
    ensures
        forall|k: int| 0 <= k < RECORD_CAP ==> deck@.contains_key(k),
{
    lemma_full_map(&deck.records);
}

} // verus!
