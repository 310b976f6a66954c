//! The bounded history of signal timestamps kept per record.
//!
//! Timestamps are milliseconds since the Unix epoch. A track keeps at most
//! [`BEAT_CAP`](crate::BEAT_CAP) entries; appending past capacity drops the
//! oldest entries. Entries are kept in insertion order, which producers are
//! expected to keep non-decreasing but the track itself does not require.

use std::collections::VecDeque;
use vstd::prelude::*;

use crate::BEAT_CAP;

verus! {

/// A bounded FIFO of raw beat timestamps, owned by a record.
#[derive(Debug)]
pub struct Track(pub VecDeque<u64>);

impl View for Track {
    type V = Seq<u64>;

    open spec fn view(&self) -> Seq<u64> {
        self.0@
    }
}

/// What one append does to a track: push at the back, then drop from the
/// front down to capacity.
pub open spec fn spec_add(s: Seq<u64>, t: u64) -> Seq<u64> {
    let p = s.push(t);
    if p.len() > BEAT_CAP {
        p.skip(p.len() - BEAT_CAP)
    } else {
        p
    }
}

/// Whether an entry falls inside the open window bounds: strictly after
/// `from` (when given) and strictly before `to` (when given).
pub open spec fn spec_pass(e: u64, from: Option<u64>, to: Option<u64>) -> bool {
    &&& (from matches Some(f) ==> e > f)
    &&& (to matches Some(t) ==> e < t)
}

/// The subsequence of entries that fall inside the window bounds, in order.
pub open spec fn spec_window(s: Seq<u64>, from: Option<u64>, to: Option<u64>) -> Seq<u64>
    decreases s.len(),
{
    if s.len() == 0 {
        Seq::empty()
    } else {
        let rest = spec_window(s.drop_last(), from, to);
        if spec_pass(s.last(), from, to) {
            rest.push(s.last())
        } else {
            rest
        }
    }
}

/// The duration from `a` to `b`, clamped to zero when the pair runs
/// backwards (robustness against clock skew from producers).
pub open spec fn spec_gap(a: u64, b: u64) -> u64 {
    if b >= a {
        (b - a) as u64
    } else {
        0u64
    }
}

/// The durations between consecutive entries, in insertion order.
pub open spec fn spec_diffs(s: Seq<u64>) -> Seq<u64> {
    if s.len() <= 1 {
        Seq::empty()
    } else {
        Seq::new((s.len() - 1) as nat, |i: int| spec_gap(s[i], s[i + 1]))
    }
}

impl Track {
    /// An empty track.
    pub fn new() -> (r: Track)
        ensures
            r@ == Seq::<u64>::empty(),
    {
        Track(VecDeque::new())
    }

    /// Append a timestamp at the back, evicting the oldest entries while the
    /// track is over capacity.
    pub fn add(&mut self, timestamp: u64)
        ensures
            final(self)@ == spec_add(old(self)@, timestamp),
    {
        let ghost p = old(self)@.push(timestamp);
        self.0.push_back(timestamp);
        while self.0.len() > BEAT_CAP
            invariant
                self.0@.len() <= p.len(),
                self.0@ =~= p.skip(p.len() - self.0@.len()),
                p.len() > BEAT_CAP ==> self.0@.len() >= BEAT_CAP,
                p.len() <= BEAT_CAP ==> self.0@ == p,
            decreases self.0@.len(),
        {
            self.0.pop_front();
        }
        proof {
            assert(self@ =~= spec_add(old(self)@, timestamp));
        }
    }

    /// Forget every entry.
    pub fn clear(&mut self)
        ensures
            final(self)@ == Seq::<u64>::empty(),
    {
        self.0.clear();
        proof {
            assert(self@ =~= Seq::<u64>::empty());
        }
    }

    /// How many entries the track currently holds.
    pub fn len(&self) -> (r: usize)
        ensures
            r == self@.len(),
    {
        self.0.len()
    }

    /// Whether the track holds no entry.
    pub fn is_empty(&self) -> (r: bool)
        ensures
            r == (self@.len() == 0),
    {
        self.0.len() == 0
    }

    /// The most recently appended entry, if any.
    pub fn back(&self) -> (r: Option<&u64>)
        ensures
            match r {
                Some(b) => self@.len() > 0 && *b == self@.last(),
                None => self@.len() == 0,
            },
    {
        if self.0.len() == 0 {
            None
        } else {
            Some(&self.0[self.0.len() - 1])
        }
    }

    /// The oldest retained entry, if any.
    pub fn front(&self) -> (r: Option<&u64>)
        ensures
            match r {
                Some(b) => self@.len() > 0 && *b == self@[0],
                None => self@.len() == 0,
            },
    {
        if self.0.len() == 0 {
            None
        } else {
            Some(&self.0[0])
        }
    }

    /// A new track holding the entries that fall strictly inside the given
    /// bounds, or `None` when no entry qualifies.
    pub fn hack_track(&self, from: Option<u64>, to: Option<u64>) -> (r: Option<Track>)
        ensures
            match r {
                Some(t) => t@ == spec_window(self@, from, to) && t@.len() > 0,
                None => spec_window(self@, from, to).len() == 0,
            },
    {
        let mut bv: VecDeque<u64> = VecDeque::new();
        let n = self.0.len();
        let mut i: usize = 0;
        while i < n
            invariant
                i <= n,
                n == self@.len(),
                bv@ == spec_window(self@.take(i as int), from, to),
            decreases n - i,
        {
            let e = self.0[i];
            let after_from = match from {
                Some(f) => e > f,
                None => true,
            };
            let before_to = match to {
                Some(t) => e < t,
                None => true,
            };
            if after_from && before_to {
                bv.push_back(e);
            }
            proof {
                assert(self@.take(i + 1).drop_last() =~= self@.take(i as int));
                assert(self@.take(i + 1).last() == self@[i as int]);
            }
            i = i + 1;
        }
        proof {
            assert(self@.take(n as int) =~= self@);
        }
        if bv.len() > 0 {
            Some(Track(bv))
        } else {
            None
        }
    }

    /// Whether the last entry is strictly after `since`.
    pub fn has_beat_since(&self, since: u64) -> (r: bool)
        ensures
            r == (self@.len() > 0 && self@.last() > since),
    {
        match self.back() {
            Some(b) => *b > since,
            None => false,
        }
    }

    /// The durations between consecutive entries, in insertion order; a pair
    /// that runs backwards yields zero.
    pub fn diffs(&self) -> (r: Vec<u64>)
        ensures
            r@ == spec_diffs(self@),
    {
        let mut out: Vec<u64> = Vec::new();
        let n = self.0.len();
        if n <= 1 {
            proof {
                assert(out@ =~= spec_diffs(self@));
            }
            return out;
        }
        let mut i: usize = 0;
        while i < n - 1
            invariant
                n == self@.len(),
                1 < n,
                i <= n - 1,
                out@.len() == i,
                forall|j: int| 0 <= j < i ==> out@[j] == spec_gap(self@[j], self@[j + 1]),
            decreases n - i,
        {
            let a = self.0[i];
            let b = self.0[i + 1];
            if b >= a {
                out.push(b - a);
            } else {
                out.push(0);
            }
            i = i + 1;
        }
        proof {
            assert(out@ =~= spec_diffs(self@));
        }
        out
    }
}

/// The track that results from appending the signals `ts`, in order, to a
/// track holding `init`. One call of [`Track::add`] advances this fold by
/// one step.
pub open spec fn fold_add(init: Seq<u64>, ts: Seq<u64>) -> Seq<u64>
    decreases ts.len(),
{
    if ts.len() == 0 {
        init
    } else {
        spec_add(fold_add(init, ts.drop_last()), ts.last())
    }
}

/// The track bound law: appending `N` signals to a track leaves exactly
/// the most recent `min(N + init.len(), BEAT_CAP)` entries, in insertion
/// order — the suffix of `init + ts`.
pub proof fn lemma_track_bound(init: Seq<u64>, ts: Seq<u64>)
    requires
        init.len() <= BEAT_CAP,
    ensures
        ({
            let total = init + ts;
            let dropped: int = if total.len() > BEAT_CAP {
                total.len() - BEAT_CAP
            } else {
                0int
            };
            &&& fold_add(init, ts) == total.skip(dropped)
            &&& fold_add(init, ts).len() == total.len() - dropped
        }),
    decreases ts.len(),
{
    let total = init + ts;
    if ts.len() == 0 {
        assert(total =~= init);
        assert(total.skip(0) =~= total);
    } else {
        let ts0 = ts.drop_last();
        let t = ts.last();
        lemma_track_bound(init, ts0);
        let total0 = init + ts0;
        let dropped0: int = if total0.len() > BEAT_CAP {
            total0.len() - BEAT_CAP
        } else {
            0int
        };
        let prev = fold_add(init, ts0);
        let p = prev.push(t);
        assert(total0 =~= total.drop_last());
        assert(p =~= total.skip(dropped0));
        if p.len() > BEAT_CAP {
            assert(p.skip(p.len() - BEAT_CAP) =~= total.skip(total.len() - BEAT_CAP));
        }
    }
}

/// The single-producer ordering law: the signals `ts` appended in send
/// order form the track's suffix in that same order; once `ts` alone
/// overflows the capacity, the track is exactly the most recent
/// `BEAT_CAP` of `ts`.
pub proof fn lemma_producer_order(init: Seq<u64>, ts: Seq<u64>)
    requires
        init.len() <= BEAT_CAP,
    ensures
        ts.len() <= BEAT_CAP ==> ({
            let r = fold_add(init, ts);
            &&& r.len() >= ts.len()
            &&& forall|i: int| 0 <= i < ts.len() ==> r[r.len() - ts.len() + i] == ts[i]
        }),
        ts.len() > BEAT_CAP ==> fold_add(init, ts) == ts.skip(ts.len() - BEAT_CAP),
{
    lemma_track_bound(init, ts);
    let total = init + ts;
    let dropped: int = if total.len() > BEAT_CAP {
        total.len() - BEAT_CAP
    } else {
        0int
    };
    if ts.len() > BEAT_CAP {
        assert(total.skip(dropped) =~= ts.skip(ts.len() - BEAT_CAP));
    }
}

impl Clone for Track {
    /// A deep copy holding the same entries.
    fn clone(&self) -> (res: Self)
        ensures
            res@ == self@,
    {
        let mut v: VecDeque<u64> = VecDeque::new();
        let n = self.0.len();
        let mut i: usize = 0;
        while i < n
            invariant
                i <= n,
                n == self@.len(),
                v@ =~= self@.take(i as int),
            decreases n - i,
        {
            v.push_back(self.0[i]);
            i = i + 1;
        }
        proof {
            assert(self@.take(n as int) =~= self@);
        }
        Track(v)
    }
}

} // verus!
