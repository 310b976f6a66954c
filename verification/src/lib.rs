//! An in-process liveness and cadence monitor for concurrent tasks.
//!
//! Monitored tasks hold a [`Beat`] handle and emit timestamped signals;
//! a dedicated deck thread aggregates the signals per task into bounded
//! [`Track`]s, derives an [`ActivityRating`] from the observed cadence,
//! and publishes read-only snapshots that the facade ([`TheDJ`]) and the
//! reporter runtime consume. Timestamps and durations are plain
//! milliseconds. The embedder supplies the threads: it runs
//! [`Deck::step`] and [`output::Output::step`] in loops of their own and
//! wires a facade to them with [`TheDJ::connect`].

pub mod beat;
pub mod channel;
mod clock;
pub mod deck;
pub mod dj;
pub mod error;
pub mod output;
pub mod record;
pub mod record_map;
pub mod track;

pub use crate::beat::Beat;
pub use crate::deck::{Arm, Deck, DM2Deck};
pub use crate::dj::{TheDJ, DM2DJ};
pub use crate::error::{BeatsError, BE};
pub use crate::output::{Cursors, DM2OutputRunner, Output, Report, ReportWrapper};
pub use crate::record::{ActivityRating, Record};
pub use crate::record_map::RecordMap;
pub use crate::track::Track;

use vstd::prelude::*;
use vstd::set_lib::{lemma_len_subset, lemma_int_range, set_int_range};

verus! {

/// Upper bound on the number of concurrently registered records.
pub const RECORD_CAP: usize = 1000;

/// Upper bound on the number of timestamps a track retains.
pub const BEAT_CAP: usize = 100;

/// The set of ids marked as allotted in `s`.
pub open spec fn used_set(s: Seq<bool>) -> Set<int> {
    Set::new(|i: int| 0 <= i < s.len() && s[i])
}

/// Keeps a running index of the record ids that are allotted. Ids are dense
/// integers in `[0, RECORD_CAP)`; the smallest free one is handed out next,
/// and a released id may be reissued immediately.
pub struct Indexer {
    in_use: Vec<bool>,
}

impl View for Indexer {
    type V = Set<int>;

    closed spec fn view(&self) -> Set<int> {
        used_set(self.in_use@)
    }
}

impl Indexer {
    /// The indexer always tracks exactly `RECORD_CAP` slots.
    pub closed spec fn wf(&self) -> bool {
        self.in_use@.len() == RECORD_CAP
    }

    /// A fresh indexer with every id free.
    pub fn new() -> (r: Indexer)
        ensures
            r.wf(),
            r@ == Set::<int>::empty(),
    {
        let mut v: Vec<bool> = Vec::new();
        let mut i: usize = 0;
        while i < RECORD_CAP
            invariant
                i <= RECORD_CAP,
                v@.len() == i,
                forall|j: int| 0 <= j < i ==> !v@[j],
            decreases RECORD_CAP - i,
        {
            v.push(false);
            i = i + 1;
        }
        let r = Indexer { in_use: v };
        proof {
            assert(r@ =~= Set::<int>::empty());
        }
        r
    }

    /// The smallest free id, if any.
    fn find_free(&self) -> (r: Option<usize>)
        requires
            self.wf(),
        ensures
            match r {
                Some(id) => id < RECORD_CAP && !self@.contains(id as int) && forall|j: int|
                    0 <= j < id ==> self@.contains(j),
                None => forall|j: int| 0 <= j < RECORD_CAP ==> self@.contains(j),
            },
    {
        let mut i: usize = 0;
        while i < RECORD_CAP
            invariant
                self.wf(),
                i <= RECORD_CAP,
                forall|j: int| 0 <= j < i ==> self@.contains(j),
            decreases RECORD_CAP - i,
        {
            if !self.in_use[i] {
                return Some(i);
            }
            i = i + 1;
        }
        None
    }

    /// Allot the smallest id not currently in use, or fail with
    /// `MaximumCapacity` when every id is taken.
    pub fn next(&mut self) -> (r: Result<i32, BeatsError>)
        requires
            old(self).wf(),
        ensures
            final(self).wf(),
            match r {
                Ok(id) => {
                    &&& 0 <= id < RECORD_CAP
                    &&& !old(self)@.contains(id as int)
                    &&& forall|j: int| 0 <= j < id ==> old(self)@.contains(j)
                    &&& final(self)@ == old(self)@.insert(id as int)
                },
                Err(e) => {
                    &&& e == BeatsError::MaximumCapacity
                    &&& final(self)@ == old(self)@
                    &&& forall|j: int| 0 <= j < RECORD_CAP ==> old(self)@.contains(j)
                },
            },
    {
        match self.find_free() {
            Some(id) => {
                self.in_use[id] = true;
                proof {
                    assert(self@ =~= old(self)@.insert(id as int));
                }
                Ok(id as i32)
            },
            None => Err(BeatsError::MaximumCapacity),
        }
    }

    /// Release an id. Releasing one that is free, or out of range, is a
    /// no-op.
    pub fn remove(&mut self, job_id: i32)
        requires
            old(self).wf(),
        ensures
            final(self).wf(),
            final(self)@ == old(self)@.remove(job_id as int),
    {
        if 0 <= job_id && (job_id as usize) < RECORD_CAP {
            let j = job_id as usize;
            if self.in_use[j] {
                self.in_use[j] = false;
            }
        }
        proof {
            assert(self@ =~= old(self)@.remove(job_id as int));
        }
    }
}

/// An indexer never has more than `RECORD_CAP` ids allotted.
pub proof fn lemma_indexer_capacity(ix: &Indexer)
    requires
        ix.wf(),
    ensures
        ix@.finite(),
        ix@.len() <= RECORD_CAP,
{
    lemma_ids_bounded(ix@);
}

/// Any set of ids drawn from `[0, RECORD_CAP)` is finite and holds at most
/// `RECORD_CAP` elements.
pub proof fn lemma_ids_bounded(s: Set<int>)
    requires
        forall|j: int| s.contains(j) ==> 0 <= j < RECORD_CAP,
    ensures
        s.finite(),
        s.len() <= RECORD_CAP,
{
    lemma_int_range(0, RECORD_CAP as int);
    lemma_len_subset(s, set_int_range(0, RECORD_CAP as int));
}

/// Pigeonhole: a set of `RECORD_CAP` distinct ids drawn from
/// `[0, RECORD_CAP)` contains every id in that range.
pub proof fn lemma_ids_full(s: Set<int>)
    requires
        forall|j: int| s.contains(j) ==> 0 <= j < RECORD_CAP,
        s.len() == RECORD_CAP,
        s.finite(),
    ensures
        forall|j: int| 0 <= j < RECORD_CAP ==> s.contains(j),
{
    let range = set_int_range(0, RECORD_CAP as int);
    lemma_int_range(0, RECORD_CAP as int);
    assert forall|j: int| 0 <= j < RECORD_CAP implies s.contains(j) by {
        if !s.contains(j) {
            assert(s.subset_of(range.remove(j)));
            lemma_len_subset(s, range.remove(j));
        }
    }
}

} // verus!
