//! Per-task state: identity, expected cadence, and the signal track,
//! together with the derived cadence analytics.

use vstd::arithmetic::div_mod::{lemma_div_by_multiple, lemma_div_is_ordered};
use vstd::prelude::*;

use crate::clock::now_ms;
use crate::error::BeatsError;
use crate::track::{spec_diffs, spec_window, Track};

verus! {

/// Discrete health classification derived from the observed cadence.
#[derive(Debug, PartialEq, Eq, Structural)]
pub enum ActivityRating {
    /// Mean observed interval within two percent of the expected cadence.
    Optimal,
    /// Mean observed interval outside that band.
    NotOptimal,
    /// A single signal was recorded, so there is no interval yet.
    OnlyOnce,
    /// No signal was recorded.
    NotOnce,
}

/// The mathematical value of a record.
pub ghost struct RecordV {
    pub name: Seq<char>,
    pub id: int,
    pub freq: int,
    pub creation: int,
    pub deployment: int,
    pub track: Seq<u64>,
}

/// The per-task record: identity, expected inter-signal duration in
/// milliseconds (zero meaning unknown), lifecycle timestamps, and the
/// bounded track of raw signal timestamps.
#[derive(Debug)]
pub struct Record {
    pub name: String,
    pub id: i32,
    pub freq: u64,
    pub creation: u64,
    pub deployment: u64,
    pub raw_track: Track,
}

impl View for Record {
    type V = RecordV;

    open spec fn view(&self) -> RecordV {
        RecordV {
            name: self.name@,
            id: self.id as int,
            freq: self.freq as int,
            creation: self.creation as int,
            deployment: self.deployment as int,
            track: self.raw_track@,
        }
    }
}

/// The sum of a sequence of durations.
pub open spec fn spec_sum(s: Seq<u64>) -> int
    decreases s.len(),
{
    if s.len() == 0 {
        0
    } else {
        spec_sum(s.drop_last()) + s.last()
    }
}

/// The mean inter-signal duration observed at time `now`: absent for an
/// empty track, zero for a single signal, and otherwise the inter-signal
/// durations plus the duration from the last signal to `now` (when `now`
/// is not before the last signal), divided by the number of durations
/// summed.
pub open spec fn spec_average(track: Seq<u64>, now: u64) -> Option<int> {
    if track.len() == 0 {
        None
    } else if track.len() == 1 {
        Some(0int)
    } else if now >= track.last() {
        Some((spec_sum(spec_diffs(track)) + (now - track.last())) / (track.len() as int))
    } else {
        Some(spec_sum(spec_diffs(track)) / (track.len() - 1))
    }
}

/// Two percent of the expected cadence, in whole milliseconds.
pub open spec fn spec_margin(freq: u64) -> int {
    (freq as int) * 2 / 100
}

/// The rating observed at time `now`: no signals give `NotOnce`, a zero
/// mean gives `OnlyOnce`, a mean inside the inclusive band
/// `[freq - margin, freq + margin]` gives `Optimal`, anything else
/// `NotOptimal`.
pub open spec fn spec_rating(track: Seq<u64>, freq: u64, now: u64) -> ActivityRating {
    match spec_average(track, now) {
        None => ActivityRating::NotOnce,
        Some(a) => if a == 0 {
            ActivityRating::OnlyOnce
        } else if freq - spec_margin(freq) <= a <= freq + spec_margin(freq) {
            ActivityRating::Optimal
        } else {
            ActivityRating::NotOptimal
        },
    }
}

/// The signed difference between the observed mean and the expected
/// cadence, in milliseconds; absent when the mean is absent.
pub open spec fn spec_avg_diff(track: Seq<u64>, freq: u64, now: u64) -> Option<int> {
    match spec_average(track, now) {
        None => None,
        Some(a) => Some(a - freq),
    }
}

/// Whether `r` is the mean that was observed at some instant `now`.
pub open spec fn observed_average(track: Seq<u64>, now: u64, r: Option<u64>) -> bool {
    match r {
        Some(a) => spec_average(track, now) == Some(a as int),
        None => spec_average(track, now) is None,
    }
}

/// The sum of the durations in `d`, exact and overflow-free.
fn sum_all(d: &Vec<u64>) -> (total: u128)
    ensures
        total == spec_sum(d@),
        total <= d@.len() * 0xffff_ffff_ffff_ffffu64,
{
    let mut total: u128 = 0;
    let n = d.len();
    let mut i: usize = 0;
    while i < n
        invariant
            i <= n,
            n == d@.len(),
            total == spec_sum(d@.take(i as int)),
            total <= i * 0xffff_ffff_ffff_ffffu64,
        decreases n - i,
    {
        proof {
            assert(d@.take(i + 1).drop_last() =~= d@.take(i as int));
        }
        total = total + d[i] as u128;
        i = i + 1;
    }
    proof {
        assert(d@.take(n as int) =~= d@);
    }
    total
}

impl Record {
    /// A fresh record: empty track, unknown cadence, creation and
    /// deployment both set to the current instant.
    pub fn new(name: String, id: i32) -> (r: Record)
        ensures
            r.name@ == name@,
            r.id == id,
            r.freq == 0,
            r.raw_track@ == Seq::<u64>::empty(),
            r.creation == r.deployment,
    {
        let now = now_ms();
        Record {
            name,
            id,
            creation: now,
            deployment: now,
            freq: 0,
            raw_track: Track::new(),
        }
    }

    /// Append a signal timestamp to the track.
    pub fn add_beat(&mut self, time: u64)
        ensures
            final(self)@ == (RecordV {
                track: crate::track::spec_add(old(self)@.track, time),
                ..old(self)@
            }),
    {
        self.raw_track.add(time);
    }

    /// Update the deployment timestamp.
    pub fn set_deployment(&mut self, deployment: u64)
        ensures
            final(self)@ == (RecordV { deployment: deployment as int, ..old(self)@ }),
    {
        self.deployment = deployment;
    }

    /// Update the expected inter-signal duration.
    pub fn set_expected_freq(&mut self, expected: u64)
        ensures
            final(self)@ == (RecordV { freq: expected as int, ..old(self)@ }),
    {
        self.freq = expected;
    }

    /// Forget every recorded signal.
    pub fn clear(&mut self)
        ensures
            final(self)@ == (RecordV { track: Seq::<u64>::empty(), ..old(self)@ }),
    {
        self.raw_track.clear();
    }

    /// Whether a signal arrived strictly after `lrb`; absent `lrb` means no.
    pub fn has_beat_since(&self, lrb: Option<u64>) -> (r: bool)
        ensures
            r == (lrb matches Some(t) && self.raw_track@.len() > 0 && self.raw_track@.last() > t),
    {
        match lrb {
            Some(t) => self.raw_track.has_beat_since(t),
            None => false,
        }
    }

    /// The mean inter-signal duration as observed at the instant `now`.
    pub fn average_at(&self, now: u64) -> (r: Option<u64>)
        ensures
            observed_average(self.raw_track@, now, r),
    {
        let n = self.raw_track.len();
        if n == 0 {
            return None;
        }
        if n == 1 {
            return Some(0);
        }
        let d = self.raw_track.diffs();
        let total: u128 = sum_all(&d);
        let last: u64 = match self.raw_track.back() {
            Some(b) => *b,
            None => 0,
        };
        let numer: u128;
        let denom: u128;
        if now >= last {
            numer = total + (now - last) as u128;
            denom = n as u128;
        } else {
            numer = total;
            denom = (n - 1) as u128;
        }
        proof {
            assert(numer <= denom * 0xffff_ffff_ffff_ffffu64);
            lemma_div_is_ordered(
                numer as int,
                denom as int * 0xffff_ffff_ffff_ffffu64,
                denom as int,
            );
            lemma_div_by_multiple(0xffff_ffff_ffff_ffffu64 as int, denom as int);
        }
        let avg: u128 = numer / denom;
        Some(avg as u64)
    }

    /// The mean inter-signal duration, observed now.
    pub fn get_average(&self) -> (r: Option<u64>)
        ensures
            self.raw_track@.len() == 0 ==> r is None,
            self.raw_track@.len() == 1 ==> r == Some(0u64),
            r is Some ==> self.raw_track@.len() >= 1,
            exists|now: u64| observed_average(self.raw_track@, now, r),
    {
        let now = now_ms();
        let r = self.average_at(now);
        proof {
            assert(observed_average(self.raw_track@, now, r));
        }
        r
    }

    /// The signed mean-to-expected difference as observed at `now`.
    pub fn avg_diff_at(&self, now: u64) -> (r: Option<i128>)
        ensures
            match r {
                Some(dv) => spec_avg_diff(self.raw_track@, self.freq, now) == Some(dv as int),
                None => spec_avg_diff(self.raw_track@, self.freq, now) is None,
            },
    {
        match self.average_at(now) {
            Some(a) => Some(a as i128 - self.freq as i128),
            None => None,
        }
    }

    /// The signed mean-to-expected difference in milliseconds, observed now.
    pub fn get_avg_diff(&self) -> (r: Option<i128>)
        ensures
            self.raw_track@.len() == 0 ==> r is None,
            r is Some ==> self.raw_track@.len() >= 1,
            exists|now: u64|
                match r {
                    Some(dv) => spec_avg_diff(self.raw_track@, self.freq, now) == Some(dv as int),
                    None => spec_avg_diff(self.raw_track@, self.freq, now) is None,
                },
    {
        let now = now_ms();
        let r = self.avg_diff_at(now);
        r
    }

    /// The rating as observed at the instant `now`.
    pub fn rating_at(&self, now: u64) -> (r: ActivityRating)
        ensures
            r == spec_rating(self.raw_track@, self.freq, now),
    {
        match self.average_at(now) {
            None => ActivityRating::NotOnce,
            Some(a) => {
                if a == 0 {
                    ActivityRating::OnlyOnce
                } else {
                    let e: i128 = self.freq as i128;
                    let m: i128 = (self.freq as i128) * 2 / 100;
                    let av: i128 = a as i128;
                    if e - m <= av && av <= e + m {
                        ActivityRating::Optimal
                    } else {
                        ActivityRating::NotOptimal
                    }
                }
            },
        }
    }

    /// The generalized health status, observed now. Ratings for empty and
    /// single-signal tracks do not depend on the instant of observation.
    pub fn get_activity_rating(&self) -> (r: Result<ActivityRating, BeatsError>)
        ensures
            r is Ok,
            self.raw_track@.len() == 0 ==> r == Ok::<ActivityRating, BeatsError>(
                ActivityRating::NotOnce,
            ),
            self.raw_track@.len() == 1 ==> r == Ok::<ActivityRating, BeatsError>(
                ActivityRating::OnlyOnce,
            ),
            exists|now: u64|
                r == Ok::<ActivityRating, BeatsError>(
                    spec_rating(self.raw_track@, self.freq, now),
                ),
    {
        let now = now_ms();
        let rt = self.rating_at(now);
        proof {
            assert(Ok::<ActivityRating, BeatsError>(rt) == Ok::<ActivityRating, BeatsError>(
                spec_rating(self.raw_track@, self.freq, now),
            ));
        }
        Ok(rt)
    }

    /// Whether the record is currently beating as expected.
    pub fn is_optimal(&self) -> (r: bool)
        ensures
            self.raw_track@.len() <= 1 ==> r == false,
            r ==> exists|now: u64|
                spec_rating(self.raw_track@, self.freq, now) == ActivityRating::Optimal,
    {
        match self.get_activity_rating() {
            Ok(ar) => {
                let opt = ar == ActivityRating::Optimal;
                proof {
                    if opt {
                        let w = choose|now: u64|
                            Ok::<ActivityRating, BeatsError>(ar) == Ok::<
                                ActivityRating,
                                BeatsError,
                            >(spec_rating(self.raw_track@, self.freq, now));
                        assert(spec_rating(self.raw_track@, self.freq, w)
                            == ActivityRating::Optimal);
                    }
                }
                opt
            },
            Err(_) => false,
        }
    }

    /// The signals strictly after `lbr` (all of them when `lbr` is absent),
    /// or `None` when no signal qualifies.
    pub fn get_beats(&self, lbr: Option<u64>) -> (r: Option<Vec<u64>>)
        ensures
            match r {
                Some(v) => v@ == spec_window(self.raw_track@, lbr, None::<u64>) && v@.len() > 0,
                None => spec_window(self.raw_track@, lbr, None::<u64>).len() == 0,
            },
    {
        match self.raw_track.hack_track(lbr, None) {
            Some(t) => {
                let mut v: Vec<u64> = Vec::new();
                let n = t.0.len();
                let mut i: usize = 0;
                while i < n
                    invariant
                        i <= n,
                        n == t@.len(),
                        v@ =~= t@.take(i as int),
                    decreases n - i,
                {
                    v.push(t.0[i]);
                    i = i + 1;
                }
                proof {
                    assert(t@.take(n as int) =~= t@);
                }
                Some(v)
            },
            None => None,
        }
    }

    /// The durations between consecutive recorded signals, provided more
    /// than one signal falls strictly after `lbr`; `None` otherwise.
    pub fn get_beat_diffs(&self, lbr: Option<u64>) -> (r: Option<Vec<u64>>)
        ensures
            match r {
                Some(v) => v@ == spec_diffs(self.raw_track@) && spec_window(
                    self.raw_track@,
                    lbr,
                    None::<u64>,
                ).len() > 1,
                None => spec_window(self.raw_track@, lbr, None::<u64>).len() <= 1,
            },
    {
        match self.raw_track.hack_track(lbr, None) {
            Some(t) => {
                if t.len() > 1 {
                    Some(self.raw_track.diffs())
                } else {
                    None
                }
            },
            None => None,
        }
    }
}

/// The sum of a sequence whose entries all equal `c` is its length times
/// `c`.
proof fn lemma_sum_const(s: Seq<u64>, c: u64)
    requires
        forall|i: int| 0 <= i < s.len() ==> s[i] == c,
    ensures
        spec_sum(s) == s.len() * c,
    decreases s.len(),
{
    if s.len() > 0 {
        lemma_sum_const(s.drop_last(), c);
        assert(s.last() == c);
        assert((s.len() - 1) * c + c == s.len() * c) by (nonlinear_arith);
    }
}

/// For a track whose consecutive signals are exactly `gap` apart, the
/// inter-signal durations sum to `(len - 1) * gap`.
proof fn lemma_sum_arith(track: Seq<u64>, gap: u64)
    requires
        2 <= track.len(),
        forall|i: int| 0 <= i < track.len() - 1 ==> #[trigger] track[i + 1] == track[i] + gap,
    ensures
        spec_sum(spec_diffs(track)) == (track.len() - 1) * gap,
{
    let d = spec_diffs(track);
    assert forall|i: int| 0 <= i < d.len() implies d[i] == gap by {
        assert(track[i + 1] == track[i] + gap);
    }
    lemma_sum_const(d, gap);
}

/// The rating correctness law: a track whose signals are exactly `freq`
/// apart, observed at an instant `now` no earlier than the last signal and
/// within the two-percent margin past it, rates `Optimal` — provided the
/// margin is a whole millisecond (`freq >= 50`) and enough signals have
/// accumulated that the not-yet-due tail term cannot drag the mean below
/// the band (`freq - (now - last) <= len * margin`). Sparse tracks
/// genuinely fail without that last bound: five signals 3000 ms apart
/// observed 60 ms after the last give a mean of 2412 ms, which is
/// `NotOptimal`.
pub proof fn lemma_rating_optimal(track: Seq<u64>, freq: u64, now: u64)
    requires
        2 <= track.len(),
        50 <= freq,
        forall|i: int| 0 <= i < track.len() - 1 ==> #[trigger] track[i + 1] == track[i] + freq,
        track.last() <= now,
        now - track.last() <= spec_margin(freq),
        freq - (now - track.last()) <= track.len() * spec_margin(freq),
    ensures
        spec_rating(track, freq, now) == ActivityRating::Optimal,
{
    let n = track.len() as int;
    let f = freq as int;
    let m = spec_margin(freq);
    let d = now - track.last();
    lemma_sum_arith(track, freq);
    let x = spec_sum(spec_diffs(track)) + d;
    assert(x == (n - 1) * f + d);
    assert(1 <= m <= f / 2) by {
        assert(m == f * 2 / 100);
        assert(f * 2 >= 100) by (nonlinear_arith)
            requires f >= 50;
        assert(f * 2 / 100 >= 1);
        assert(f * 2 / 100 <= f / 2) by (nonlinear_arith)
            requires f >= 50;
    }
    assert(x <= n * (f + m)) by (nonlinear_arith)
        requires
            x == (n - 1) * f + d,
            0 <= d <= m,
            n >= 2,
            f >= 0,
            m >= 0;
    assert(x >= n * (f - m)) by (nonlinear_arith)
        requires
            x == (n - 1) * f + d,
            f - d <= n * m,
            d >= 0,
            n >= 2,
            f >= 0;
    assert(spec_average(track, now) == Some(x / n));
    lemma_div_is_ordered(x, n * (f + m), n);
    lemma_div_by_multiple(f + m, n);
    assert((f + m) * n == n * (f + m)) by (nonlinear_arith);
    lemma_div_is_ordered(n * (f - m), x, n);
    lemma_div_by_multiple(f - m, n);
    assert((f - m) * n == n * (f - m)) by (nonlinear_arith);
    assert(f - m <= x / n <= f + m);
    assert(x / n > 0);
}

/// The steady-cadence law: when every interval — the tail from the last
/// signal to the observation instant included — is exactly `freq`, the
/// mean is exactly `freq` and the rating is `Optimal`, for any number of
/// signals and any positive cadence.
pub proof fn lemma_rating_steady(track: Seq<u64>, freq: u64, now: u64)
    requires
        2 <= track.len(),
        1 <= freq,
        forall|i: int| 0 <= i < track.len() - 1 ==> #[trigger] track[i + 1] == track[i] + freq,
        now == track.last() + freq,
    ensures
        spec_average(track, now) == Some(freq as int),
        spec_avg_diff(track, freq, now) == Some(0int),
        spec_rating(track, freq, now) == ActivityRating::Optimal,
{
    let n = track.len() as int;
    let f = freq as int;
    lemma_sum_arith(track, freq);
    let x = spec_sum(spec_diffs(track)) + f;
    assert(x == (n - 1) * f + f);
    assert(x == n * f) by (nonlinear_arith)
        requires
            x == (n - 1) * f + f;
    assert(spec_average(track, now) == Some(x / n));
    lemma_div_by_multiple(f, n);
    assert(f * n == n * f) by (nonlinear_arith);
    assert(x / n == f);
    assert(spec_margin(freq) >= 0);
}

/// The rating boundary law: when every interval — the tail from the last
/// signal to the observation instant included — is exactly `1.021 × freq`,
/// the mean lands strictly above the two-percent band and the rating is
/// `NotOptimal`. (`gap * 1000 == freq * 1021` pins the factor exactly; a
/// `freq` in whole seconds makes such a `gap` a whole number.)
pub proof fn lemma_rating_boundary(track: Seq<u64>, freq: u64, gap: u64, now: u64)
    requires
        2 <= track.len(),
        1 <= freq,
        gap * 1000 == freq * 1021,
        forall|i: int| 0 <= i < track.len() - 1 ==> #[trigger] track[i + 1] == track[i] + gap,
        now == track.last() + gap,
    ensures
        spec_rating(track, freq, now) == ActivityRating::NotOptimal,
{
    let n = track.len() as int;
    let f = freq as int;
    let g = gap as int;
    let m = spec_margin(freq);
    lemma_sum_arith(track, gap);
    let x = spec_sum(spec_diffs(track)) + g;
    assert(x == (n - 1) * g + g);
    assert(x == n * g) by (nonlinear_arith)
        requires
            x == (n - 1) * g + g;
    assert(spec_average(track, now) == Some(x / n));
    lemma_div_by_multiple(g, n);
    assert(g * n == n * g) by (nonlinear_arith);
    assert(x / n == g);
    assert(g > f + m) by {
        assert(m == f * 2 / 100);
        assert(100 * m <= f * 2) by (nonlinear_arith)
            requires
                m == f * 2 / 100;
        assert(1000 * (f + m) <= 1020 * f);
        assert(1000 * g == 1021 * f) by (nonlinear_arith)
            requires
                g * 1000 == f * 1021;
        assert(1020 * f < 1021 * f) by (nonlinear_arith)
            requires f >= 1;
    }
    assert(g > 0);
}

impl Clone for Record {
    /// A deep copy with the same mathematical value.
    fn clone(&self) -> (res: Self)
        ensures
            res@ == self@,
    {
        Record {
            name: self.name.clone(),
            id: self.id,
            freq: self.freq,
            creation: self.creation,
            deployment: self.deployment,
            raw_track: self.raw_track.clone(),
        }
    }
}

} // verus!
