use std::time::{SystemTime, UNIX_EPOCH};

use thumper::{ActivityRating, Record, Track};

fn now_millis() -> u64 {
    SystemTime::now()
        .duration_since(UNIX_EPOCH)
        .unwrap()
        .as_millis() as u64
}

#[test]
fn record_test() {
    let tc: u64 = 5;
    let td: u64 = 3000;
    let now = now_millis();
    let mut n = Record::new("foo".to_string(), 0);
    n.set_expected_freq(td);

    // Test get_avg
    for i in 0..tc {
        n.add_beat(now + i * td);
    }
    assert_eq!(n.get_activity_rating().unwrap(), ActivityRating::Optimal);

    // Test clear
    n.clear();
    assert!(n.raw_track.is_empty());
    assert_eq!(n.get_activity_rating().unwrap(), ActivityRating::NotOnce);

    // Test one time
    n.add_beat(now);
    assert_eq!(n.get_activity_rating().unwrap(), ActivityRating::OnlyOnce);
    assert!(!n.is_optimal());
    n.clear();

    // Test _diff
    let offset: u64 = 5000;
    let offset_dur = td + offset;
    for i in 0..tc {
        n.add_beat(now + i * (td + offset));
    }
    assert_eq!(n.get_avg_diff().unwrap(), offset as i128);
    assert_eq!(
        n.get_beat_diffs(None).unwrap(),
        vec![offset_dur; (tc - 1) as usize]
    );
    assert_eq!(
        n.get_beat_diffs(n.raw_track.front().copied()).unwrap(),
        vec![offset_dur; tc as usize - 1]
    );

    // Test get_last
    n.add_beat(now);
    assert_eq!(n.raw_track.back().unwrap(), &now);

    // Does it still average?
    assert!(n.get_activity_rating().is_ok());
}

#[test]
fn scenario_steady_cadence_is_optimal() {
    // Signals exactly freq apart, measured one cadence after the last one.
    let freq: u64 = 3000;
    let t0: u64 = 1_000_000;
    let mut r = Record::new("s1".to_string(), 1);
    r.set_expected_freq(freq);
    for i in 0..5u64 {
        r.add_beat(t0 + i * freq);
    }
    let last = t0 + 4 * freq;
    assert_eq!(r.rating_at(last + freq), ActivityRating::Optimal);
    assert_eq!(r.avg_diff_at(last + freq), Some(0));
    assert_eq!(r.average_at(last + freq), Some(freq));
}

#[test]
fn scenario_slow_cadence_is_not_optimal() {
    // Intervals of 8 s against an expected cadence of 3 s.
    let freq: u64 = 3000;
    let gap: u64 = 8000;
    let t0: u64 = 1_000_000;
    let mut r = Record::new("s2".to_string(), 2);
    r.set_expected_freq(freq);
    for i in 0..5u64 {
        r.add_beat(t0 + i * gap);
    }
    let last = t0 + 4 * gap;
    assert_eq!(r.rating_at(last + gap), ActivityRating::NotOptimal);
    assert_eq!(r.avg_diff_at(last + gap), Some(5000));
}

#[test]
fn scenario_single_signal_is_only_once() {
    let mut r = Record::new("s3".to_string(), 3);
    r.set_expected_freq(3000);
    r.add_beat(42);
    assert_eq!(r.get_activity_rating().unwrap(), ActivityRating::OnlyOnce);
    assert!(!r.is_optimal());
}

#[test]
fn scenario_no_signal_is_not_once() {
    let mut r = Record::new("s4".to_string(), 4);
    r.set_expected_freq(3000);
    assert_eq!(r.get_activity_rating().unwrap(), ActivityRating::NotOnce);
    assert!(!r.is_optimal());
    assert_eq!(r.get_average(), None);
    assert_eq!(r.get_avg_diff(), None);
}

#[test]
fn rating_boundary_two_percent() {
    // Intervals of freq * 1.021 (tail included) land just above the band;
    // intervals of freq * 1.02 sit exactly on its inclusive edge.
    let freq: u64 = 3000;
    let t0: u64 = 1_000_000;

    let over: u64 = 3063; // 3000 * 1021 / 1000
    let mut r = Record::new("over".to_string(), 5);
    r.set_expected_freq(freq);
    for i in 0..5u64 {
        r.add_beat(t0 + i * over);
    }
    let last = t0 + 4 * over;
    assert_eq!(r.rating_at(last + over), ActivityRating::NotOptimal);

    let edge: u64 = 3060; // 3000 * 102 / 100, the inclusive band edge
    let mut e = Record::new("edge".to_string(), 6);
    e.set_expected_freq(freq);
    for i in 0..5u64 {
        e.add_beat(t0 + i * edge);
    }
    let last_e = t0 + 4 * edge;
    assert_eq!(e.rating_at(last_e + edge), ActivityRating::Optimal);
}

#[test]
fn track_bound_keeps_most_recent_hundred() {
    let mut t = Track::new();
    for i in 0..150u64 {
        t.add(1000 + i);
    }
    assert_eq!(t.len(), 100);
    assert_eq!(t.front(), Some(&(1000 + 50)));
    assert_eq!(t.back(), Some(&(1000 + 149)));

    let mut small = Track::new();
    for i in 0..7u64 {
        small.add(i);
    }
    assert_eq!(small.len(), 7);
    assert_eq!(small.front(), Some(&0));
    assert_eq!(small.back(), Some(&6));
}

#[test]
fn track_window_and_queries() {
    let mut t = Track::new();
    for i in 1..=5u64 {
        t.add(i * 10);
    }
    // Window strictly between the bounds.
    let w = t.hack_track(Some(10), Some(50)).unwrap();
    assert_eq!(w.len(), 3);
    assert_eq!(w.front(), Some(&20));
    assert_eq!(w.back(), Some(&40));
    // No entry qualifies.
    assert!(t.hack_track(Some(50), None).is_none());
    assert!(t.hack_track(None, Some(10)).is_none());
    // Open bounds keep everything.
    let all = t.hack_track(None, None).unwrap();
    assert_eq!(all.len(), 5);
    // Strictly-after query looks at the last entry only.
    assert!(t.has_beat_since(49));
    assert!(!t.has_beat_since(50));
    // Consecutive differences, with a backwards pair clamped to zero.
    assert_eq!(t.diffs(), vec![10, 10, 10, 10]);
    let mut skewed = Track::new();
    skewed.add(100);
    skewed.add(70);
    skewed.add(90);
    assert_eq!(skewed.diffs(), vec![0, 20]);
}

#[test]
fn record_projections() {
    let mut r = Record::new("proj".to_string(), 9);
    r.set_expected_freq(1000);
    r.set_deployment(777);
    assert_eq!(r.deployment, 777);
    for i in 1..=4u64 {
        r.add_beat(i * 100);
    }
    assert_eq!(r.get_beats(None).unwrap(), vec![100, 200, 300, 400]);
    assert_eq!(r.get_beats(Some(200)).unwrap(), vec![300, 400]);
    assert!(r.get_beats(Some(400)).is_none());
    // has_beat_since: absent cursor means no.
    assert!(!r.has_beat_since(None));
    assert!(r.has_beat_since(Some(399)));
    assert!(!r.has_beat_since(Some(400)));
    // A window of one entry is not enough for diffs.
    assert!(r.get_beat_diffs(Some(300)).is_none());
}
