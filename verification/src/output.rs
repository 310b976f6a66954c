//! The reporter runtime: runs pluggable reporters against the published
//! snapshot on each reporter's own cadence, and keeps a per-(reporter,
//! record) cursor so that a reporter is offered each signal only once.

use vstd::prelude::*;

use crate::channel::{channel_recv_timeout, RecvOutcome};
use crate::clock::now_ms;
use crate::deck::Arm;
use crate::error::BeatsError;
use crate::record::{Record, RecordV};
use crate::record_map::RecordMap;

verus! {

/// A pluggable consumer of records. A reporter is built by the library's
/// user, handed to the runtime, and driven by it: `init` once before the
/// first run, `run` per record per due tick, `end` on shutdown.
pub trait Report: Send {
    /// How often the runtime should run this reporter.
    fn duration(&self) -> Result<u64, BeatsError>;

    /// Called once before the first run; a failing reporter is discarded.
    fn init(&self) -> Result<(), BeatsError>;

    /// Called for each record that has new signals on each due tick.
    fn run(&mut self, record: &Record) -> Result<(), BeatsError>;

    /// Called on shutdown.
    fn end(&self) -> Result<(), BeatsError>;
}

/// Control messages for the reporter runtime.
pub enum DM2OutputRunner<R: Report> {
    /// Initialize this reporter and add it to the roster.
    RegisterOutput(R),
    /// Stop a running reporter. The runtime accepts the message; wiring a
    /// deregistration path behind it is still open.
    StopOutput,
}

/// The per-reporter cursor map: for each record id, the timestamp of the
/// latest signal this reporter has been offered.
pub struct Cursors {
    entries: Vec<(i32, u64)>,
}

/// Whether some cursor entry in `s` carries the id `k`.
pub open spec fn spec_cursor_has(s: Seq<(i32, u64)>, k: int) -> bool {
    exists|i: int| 0 <= i < s.len() && s[i].0 == k
}

/// The position of the cursor entry carrying id `k`.
pub open spec fn spec_cursor_idx(s: Seq<(i32, u64)>, k: int) -> int {
    choose|i: int| 0 <= i < s.len() && s[i].0 == k
}

impl View for Cursors {
    type V = Map<int, u64>;

    closed spec fn view(&self) -> Map<int, u64> {
        Map::new(
            |k: int| spec_cursor_has(self.entries@, k),
            |k: int| self.entries@[spec_cursor_idx(self.entries@, k)].1,
        )
    }
}

impl Cursors {
    /// Ids are pairwise distinct.
    pub closed spec fn wf(&self) -> bool {
        forall|i: int, j: int|
            0 <= i < j < self.entries@.len() ==> self.entries@[i].0 != self.entries@[j].0
    }

    /// An empty cursor map.
    pub fn new() -> (r: Cursors)
        ensures
            r.wf(),
            r@ == Map::<int, u64>::empty(),
    {
        let r = Cursors { entries: Vec::new() };
        proof {
            assert(r@ =~= Map::<int, u64>::empty());
        }
        r
    }

    /// The position of the entry for `id`, if any.
    fn find(&self, id: i32) -> (r: Option<usize>)
        requires
            self.wf(),
        ensures
            match r {
                Some(i) => i < self.entries@.len() && self.entries@[i as int].0 == id,
                None => !spec_cursor_has(self.entries@, id as int),
            },
    {
        let n = self.entries.len();
        let mut i: usize = 0;
        while i < n
            invariant
                i <= n,
                n == self.entries@.len(),
                forall|j: int| 0 <= j < i ==> self.entries@[j].0 != id,
            decreases n - i,
        {
            if self.entries[i].0 == id {
                return Some(i);
            }
            i = i + 1;
        }
        None
    }

    /// With unique ids, position `i` is the position the map view reads.
    proof fn lemma_at(&self, i: int)
        requires
            self.wf(),
            0 <= i < self.entries@.len(),
        ensures
            self@.contains_key(self.entries@[i].0 as int),
            self@[self.entries@[i].0 as int] == self.entries@[i].1,
            spec_cursor_idx(self.entries@, self.entries@[i].0 as int) == i,
    {
        let k = self.entries@[i].0 as int;
        assert(spec_cursor_has(self.entries@, k));
        let w = spec_cursor_idx(self.entries@, k);
        assert(0 <= w < self.entries@.len() && self.entries@[w].0 == k);
    }

    /// The cursor for `id`, if one was set.
    pub fn get(&self, id: i32) -> (r: Option<u64>)
        requires
            self.wf(),
        ensures
            match r {
                Some(t) => self@.contains_key(id as int) && self@[id as int] == t,
                None => !self@.contains_key(id as int),
            },
    {
        match self.find(id) {
            Some(i) => {
                proof {
                    self.lemma_at(i as int);
                }
                Some(self.entries[i].1)
            },
            None => None,
        }
    }

    /// Set (or overwrite) the cursor for `id`.
    pub fn set(&mut self, id: i32, t: u64)
        requires
            old(self).wf(),
        ensures
            final(self).wf(),
            final(self)@ == old(self)@.insert(id as int, t),
    {
        let ghost k = id as int;
        let ghost s0 = self.entries@;
        match self.find(id) {
            Some(i) => {
                proof {
                    self.lemma_at(i as int);
                }
                self.entries[i] = (id, t);
                proof {
                    let s1 = self.entries@;
                    assert(s1 =~= s0.update(i as int, (id, t)));
                    assert forall|a: int, b: int|
                        0 <= a < b < s1.len() implies s1[a].0 != s1[b].0 by {
                        assert(s0[a].0 != s0[b].0);
                    }
                    assert forall|k2: int|
                        #[trigger] self@.contains_key(k2) == old(self)@.insert(k, t).contains_key(
                            k2,
                        ) by {
                        if spec_cursor_has(s0, k2) {
                            let w = choose|j: int| 0 <= j < s0.len() && s0[j].0 == k2;
                            assert(s1[w].0 == k2);
                        }
                        if spec_cursor_has(s1, k2) {
                            let w = choose|j: int| 0 <= j < s1.len() && s1[j].0 == k2;
                            assert(s0[w].0 == k2);
                        }
                    }
                    assert forall|k2: int| #[trigger] self@.contains_key(k2) implies self@[k2]
                        == old(self)@.insert(k, t)[k2] by {
                        let w = spec_cursor_idx(s1, k2);
                        assert(0 <= w < s1.len() && s1[w].0 == k2);
                        if k2 == k {
                            assert(w == i) by {
                                if w != i {
                                    assert(s0[w].0 == s0[i as int].0);
                                }
                            }
                        } else {
                            assert(w != i);
                            let w0 = spec_cursor_idx(s0, k2);
                            assert(0 <= w0 < s0.len() && s0[w0].0 == k2);
                            if w0 != w {
                                assert(s0[w0].0 == s0[w].0);
                            }
                        }
                    }
                    assert(self@ =~= old(self)@.insert(k, t));
                }
            },
            None => {
                self.entries.push((id, t));
                proof {
                    let s1 = self.entries@;
                    assert forall|a: int, b: int|
                        0 <= a < b < s1.len() implies s1[a].0 != s1[b].0 by {
                        if b == s1.len() - 1 {
                            if s0[a].0 == id {
                                assert(spec_cursor_has(s0, k));
                            }
                        }
                    }
                    assert forall|k2: int|
                        #[trigger] self@.contains_key(k2) == old(self)@.insert(k, t).contains_key(
                            k2,
                        ) by {
                        if k2 == k {
                            assert(s1[s1.len() - 1].0 == k);
                            assert(spec_cursor_has(s1, k));
                        } else {
                            if spec_cursor_has(s0, k2) {
                                let w = choose|j: int| 0 <= j < s0.len() && s0[j].0 == k2;
                                assert(s1[w].0 == k2);
                            }
                            if spec_cursor_has(s1, k2) {
                                let w = choose|j: int| 0 <= j < s1.len() && s1[j].0 == k2;
                                assert(w < s0.len());
                                assert(s0[w].0 == k2);
                            }
                        }
                    }
                    assert forall|k2: int| #[trigger] self@.contains_key(k2) implies self@[k2]
                        == old(self)@.insert(k, t)[k2] by {
                        let w = spec_cursor_idx(s1, k2);
                        assert(0 <= w < s1.len() && s1[w].0 == k2);
                        if k2 == k {
                            self.lemma_at(s1.len() - 1);
                        } else {
                            assert(w < s0.len());
                            let w0 = spec_cursor_idx(s0, k2);
                            assert(0 <= w0 < s0.len() && s0[w0].0 == k2);
                            if w != w0 {
                                assert(s0[w0].0 == s0[w].0);
                            }
                        }
                    }
                    assert(self@ =~= old(self)@.insert(k, t));
                }
            },
        }
    }
}

/// The cursor a map holds for `id`, as an optional value.
pub open spec fn spec_cursor_state(m: Map<int, u64>, id: int) -> Option<u64> {
    if m.contains_key(id) {
        Some(m[id])
    } else {
        None
    }
}

/// Whether a record with track `tr` has signals the cursor map `old_c` has
/// not seen under `id`: always when no cursor is set yet, otherwise exactly
/// when the track's last signal is strictly newer than the cursor.
pub open spec fn spec_fresh(old_c: Map<int, u64>, tr: Seq<u64>, id: int) -> bool {
    match spec_cursor_state(old_c, id) {
        Some(ts) => tr.len() > 0 && tr.last() > ts,
        None => true,
    }
}

/// The cursor one pass over the snapshot `snap` leaves for `id`: a record
/// that was offered (fresh by `spec_fresh`) and has a signal moves its
/// cursor to its latest signal; every other cursor is left alone. This is
/// the once-per-signal discipline: a signal at or before the cursor is
/// never offered again.
pub open spec fn spec_cursor_after(
    old_c: Map<int, u64>,
    snap: Map<int, RecordV>,
    id: int,
) -> Option<u64> {
    if snap.contains_key(id) && spec_fresh(old_c, snap[id].track, id) && snap[id].track.len()
        > 0 {
        Some(snap[id].track.last())
    } else {
        spec_cursor_state(old_c, id)
    }
}

/// What one call of [`ReportWrapper::pass`] at instant `now` against the
/// snapshot `snap` does to a wrapper: nothing when the pass is not due;
/// when due, the pass is stamped and every cursor moves per
/// `spec_cursor_after`. (What the reporter itself did is its own affair:
/// `Report::run` carries no contract.)
pub open spec fn spec_passed<R: Report>(
    pre: ReportWrapper<R>,
    post: ReportWrapper<R>,
    snap: Map<int, RecordV>,
    now: u64,
) -> bool {
    &&& post.spec_freq() == pre.spec_freq()
    &&& (!pre.spec_due(now) ==> post == pre)
    &&& (pre.spec_due(now) ==> post.spec_last() == now && forall|id: int|
        #[trigger] spec_cursor_state(post.cursors(), id) == spec_cursor_after(
            pre.cursors(),
            snap,
            id,
        ))
}

/// A reporter wrapped with the pacing and cursor state the runtime keeps
/// for it.
pub struct ReportWrapper<R: Report> {
    report: R,
    freq: u64,
    last: u64,
    lrb: Cursors,
}

impl<R: Report> ReportWrapper<R> {
    /// The cursor map is well-formed.
    pub closed spec fn wf(&self) -> bool {
        self.lrb.wf()
    }

    /// The cadence this reporter is run at.
    pub closed spec fn spec_freq(&self) -> u64 {
        self.freq
    }

    /// When this reporter last had a pass.
    pub closed spec fn spec_last(&self) -> u64 {
        self.last
    }

    /// This reporter's cursors: for each record id, the latest signal it
    /// has been offered.
    pub closed spec fn cursors(&self) -> Map<int, u64> {
        self.lrb@
    }

    /// Whether a pass at instant `now` is due: the cadence has elapsed
    /// since the last pass (an overflowing deadline never comes due).
    pub open spec fn spec_due(&self, now: u64) -> bool {
        self.spec_last() + self.spec_freq() <= now
    }

    /// One due-or-skipped pass of this reporter over the snapshot `snap`
    /// at instant `now`: when the reporter's cadence has elapsed since its
    /// last pass, offer it every record that has signals newer than the
    /// cursor, and advance each offered record's cursor to its latest
    /// signal (whether or not the reporter succeeded) — exactly
    /// `spec_passed`.
    fn pass(&mut self, snap: &RecordMap, now: u64)
        requires
            old(self).wf(),
            snap.wf(),
        ensures
            final(self).wf(),
            spec_passed(*old(self), *final(self), snap@, now),
    {
        let due = match self.last.checked_add(self.freq) {
            Some(next) => now >= next,
            None => false,
        };
        if !due {
            return ;
        }
        proof {
            assert(self.spec_due(now));
            snap.lemma_ids();
        }
        let ghost old_c = old(self).cursors();
        let ghost ids = snap.spec_ids();
        let n = snap.len();
        let mut j: usize = 0;
        while j < n
            invariant
                self.wf(),
                snap.wf(),
                j <= n,
                n == snap.spec_len(),
                ids == snap.spec_ids(),
                ids.len() == n,
                forall|a: int, b: int| 0 <= a < b < n ==> ids[a] != ids[b],
                self.freq == old(self).spec_freq(),
                self.last == old(self).spec_last(),
                old_c == old(self).cursors(),
                forall|k: int| 0 <= k < j ==> #[trigger] spec_cursor_state(self.lrb@, ids[k])
                    == spec_cursor_after(old_c, snap@, ids[k]),
                forall|id: int| !ids.take(j as int).contains(id)
                    ==> #[trigger] spec_cursor_state(self.lrb@, id) == spec_cursor_state(
                    old_c,
                    id,
                ),
            decreases n - j,
        {
            let rec = snap.at(j);
            proof {
                assert(rec.id as int == ids[j as int]);
                assert(!ids.take(j as int).contains(ids[j as int])) by {
                    if ids.take(j as int).contains(ids[j as int]) {
                        let w = choose|w: int|
                            0 <= w < j && ids.take(j as int)[w] == ids[j as int];
                        assert(ids[w] == ids[j as int]);
                    }
                }
                assert(spec_cursor_state(self.lrb@, rec.id as int) == spec_cursor_state(
                    old_c,
                    rec.id as int,
                ));
                assert(rec@.track == snap@[rec.id as int].track);
            }
            let fresh = match self.lrb.get(rec.id) {
                Some(ts) => rec.has_beat_since(Some(ts)),
                None => true,
            };
            proof {
                assert(fresh == spec_fresh(old_c, snap@[rec.id as int].track, rec.id as int));
            }
            let ghost lrb_before = self.lrb@;
            if fresh {
                let _ = self.report.run(rec);
                match rec.raw_track.back() {
                    Some(b) => {
                        let latest: u64 = *b;
                        self.lrb.set(rec.id, latest);
                    },
                    None => {},
                }
            }
            proof {
                assert(spec_cursor_state(self.lrb@, ids[j as int]) == spec_cursor_after(
                    old_c,
                    snap@,
                    ids[j as int],
                ));
                assert forall|id: int| id != ids[j as int] implies spec_cursor_state(
                    self.lrb@,
                    id,
                ) == spec_cursor_state(lrb_before, id) by {}
                assert forall|k: int| 0 <= k < j + 1 implies #[trigger] spec_cursor_state(
                    self.lrb@,
                    ids[k],
                ) == spec_cursor_after(old_c, snap@, ids[k]) by {
                    if k < j {
                        assert(ids[k] != ids[j as int]);
                        assert(spec_cursor_state(lrb_before, ids[k]) == spec_cursor_after(
                            old_c,
                            snap@,
                            ids[k],
                        ));
                        assert(spec_cursor_state(self.lrb@, ids[k]) == spec_cursor_state(
                            lrb_before,
                            ids[k],
                        ));
                    }
                }
                assert forall|id: int| !ids.take(j as int + 1).contains(id)
                    implies #[trigger] spec_cursor_state(self.lrb@, id) == spec_cursor_state(
                    old_c,
                    id,
                ) by {
                    if ids.take(j as int).contains(id) {
                        let w = choose|w: int| 0 <= w < j && ids.take(j as int)[w] == id;
                        assert(ids.take(j as int + 1)[w] == id);
                        assert(ids.take(j as int + 1).contains(id));
                    }
                    if id == ids[j as int] {
                        assert(ids.take(j as int + 1)[j as int] == id);
                        assert(ids.take(j as int + 1).contains(id));
                    }
                    assert(!ids.take(j as int).contains(id) && id != ids[j as int]);
                    assert(spec_cursor_state(lrb_before, id) == spec_cursor_state(old_c, id));
                    assert(spec_cursor_state(self.lrb@, id) == spec_cursor_state(
                        lrb_before,
                        id,
                    ));
                }
            }
            j = j + 1;
        }
        proof {
            assert forall|id: int| #[trigger] spec_cursor_state(self.lrb@, id)
                == spec_cursor_after(old_c, snap@, id) by {
                if snap@.contains_key(id) {
                    assert(ids.contains(id));
                    let k = choose|k: int| 0 <= k < ids.len() && ids[k] == id;
                    assert(spec_cursor_state(self.lrb@, ids[k]) == spec_cursor_after(
                        old_c,
                        snap@,
                        ids[k],
                    ));
                } else {
                    assert(!ids.contains(id));
                    assert(!ids.take(n as int).contains(id)) by {
                        if ids.take(n as int).contains(id) {
                            let w = choose|w: int| 0 <= w < n && ids.take(n as int)[w] == id;
                            assert(ids[w] == id);
                            assert(ids.contains(id));
                        }
                    }
                }
            }
        }
        self.last = now;
    }
}

/// Whether `mid` is `pre` with at most one fresh wrapper appended: a new
/// reporter starts with no pass taken and no cursor set.
pub open spec fn spec_grew<R: Report>(
    pre: Seq<ReportWrapper<R>>,
    mid: Seq<ReportWrapper<R>>,
) -> bool {
    mid == pre || (exists|w: ReportWrapper<R>|
        {
            &&& mid == pre.push(w)
            &&& w.spec_last() == 0
            &&& w.cursors() == Map::<int, u64>::empty()
            &&& w.wf()
        })
}

/// Whether every wrapper of `mid` underwent exactly one pass against the
/// snapshot `snap` at instant `now` to become `post` (no pass happens when
/// the roster is empty).
pub open spec fn spec_all_passed<R: Report>(
    mid: Seq<ReportWrapper<R>>,
    post: Seq<ReportWrapper<R>>,
    snap: Map<int, RecordV>,
    now: u64,
) -> bool {
    if mid.len() == 0 {
        post == mid
    } else {
        post.len() == mid.len() && forall|i: int|
            0 <= i < mid.len() ==> spec_passed(mid[i], post[i], snap, now)
    }
}

/// The reporter runtime's state: the snapshot handle it reads, the control
/// mailbox it listens on, and the roster of wrapped reporters.
#[verifier::reject_recursive_types(R)]
pub struct Output<R: Report> {
    pub atomic_record_map: Arm,
    pub outputrunner_rx: std::sync::mpsc::Receiver<DM2OutputRunner<R>>,
    reports: Vec<ReportWrapper<R>>,
}

impl<R: Report> Output<R> {
    /// Every wrapped reporter's cursor map is well-formed.
    pub closed spec fn wf(&self) -> bool {
        forall|i: int| 0 <= i < self.reports@.len() ==> (#[trigger] self.reports@[i]).wf()
    }

    /// How many reporters are on the roster.
    pub closed spec fn spec_roster_len(&self) -> nat {
        self.reports@.len()
    }

    /// The roster of wrapped reporters.
    pub closed spec fn spec_reports(&self) -> Seq<ReportWrapper<R>> {
        self.reports@
    }

    /// A runtime with an empty roster.
    pub fn new(
        atomic_record_map: Arm,
        outputrunner_rx: std::sync::mpsc::Receiver<DM2OutputRunner<R>>,
    ) -> (r: Output<R>)
        ensures
            r.wf(),
            r.spec_roster_len() == 0,
    {
        Output { atomic_record_map, outputrunner_rx, reports: Vec::new() }
    }

    /// Initialize a reporter and add it to the roster; a reporter whose
    /// `init` fails is discarded. Its cadence is its `duration`, or zero
    /// when that fails.
    pub fn add(&mut self, report: R)
        requires
            old(self).wf(),
        ensures
            final(self).wf(),
            spec_grew(old(self).spec_reports(), final(self).spec_reports()),
    {
        if report.init().is_ok() {
            let f = match report.duration() {
                Ok(d) => d,
                Err(_) => 0,
            };
            let lrb = Cursors::new();
            self.reports.push(ReportWrapper { report, freq: f, last: 0, lrb });
            proof {
                let w = self.reports@.last();
                assert(self.spec_reports() == old(self).spec_reports().push(w));
                assert(w.spec_last() == 0 && w.cursors() == Map::<int, u64>::empty()
                    && w.wf());
            }
        }
    }

    /// One turn of the reporter loop: poll the control mailbox for up to a
    /// second, apply what arrived, then give every reporter a pass over a
    /// fresh snapshot. Returns `false` once the control mailbox is gone
    /// and the loop around it should end (leaving the runtime untouched).
    /// Otherwise the roster grew by at most one fresh wrapper and then
    /// every wrapped reporter underwent exactly one pass (`spec_passed`)
    /// against one well-formed snapshot at one instant. The embedder
    /// dedicates a thread to `while output.step() {}`.
    pub fn step(&mut self) -> (cont: bool)
        requires
            old(self).wf(),
        ensures
            final(self).wf(),
            !cont ==> *final(self) == *old(self),
            cont ==> exists|snap_v: Map<int, RecordV>, now: u64, mid: Seq<ReportWrapper<R>>|
                spec_grew(old(self).spec_reports(), mid) && #[trigger] spec_all_passed(
                    mid,
                    final(self).spec_reports(),
                    snap_v,
                    now,
                ),
    {
        match channel_recv_timeout(&self.outputrunner_rx, 1000) {
            RecvOutcome::Got(DM2OutputRunner::RegisterOutput(report)) => {
                self.add(report);
            },
            RecvOutcome::Got(DM2OutputRunner::StopOutput) => {},
            RecvOutcome::TimedOut => {},
            RecvOutcome::Closed => {
                return false;
            },
        }
        let ghost mid = self.spec_reports();
        if self.reports.len() == 0 {
            proof {
                assert(spec_all_passed(
                    mid,
                    self.spec_reports(),
                    Map::<int, RecordV>::empty(),
                    0u64,
                ));
            }
            return true;
        }
        let snap = self.atomic_record_map.read_snapshot();
        let now = now_ms();
        self.run_pass(&snap, now);
        true
    }

    /// Give every wrapped reporter one pass (`spec_passed`) over the
    /// snapshot `snap` at instant `now`. This is the whole reporting turn
    /// as a function of the snapshot and the instant; [`Output::step`]
    /// calls it on what it read and on the clock.
    pub fn run_pass(&mut self, snap: &RecordMap, now: u64)
        requires
            old(self).wf(),
            snap.wf(),
        ensures
            final(self).wf(),
            spec_all_passed(old(self).spec_reports(), final(self).spec_reports(), snap@, now),
    {
        let ghost mid = self.spec_reports();
        let n = self.reports.len();
        let mut i: usize = 0;
        while i < n
            invariant
                self.wf(),
                snap.wf(),
                i <= n,
                n == mid.len(),
                n == self.reports@.len(),
                forall|k: int| i <= k < n ==> self.reports@[k] == mid[k],
                forall|k: int| 0 <= k < i ==> spec_passed(
                    #[trigger] mid[k],
                    self.reports@[k],
                    snap@,
                    now,
                ),
            decreases n - i,
        {
            self.reports[i].pass(&snap, now);
            i = i + 1;
        }
        proof {
            if mid.len() == 0 {
                assert(self.spec_reports() =~= mid);
            }
            assert(spec_all_passed(mid, self.spec_reports(), snap@, now));
        }
    }
}

} // verus!
