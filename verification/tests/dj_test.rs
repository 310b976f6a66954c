use std::collections::HashMap;
use std::sync::mpsc;
use std::sync::{Arc, Mutex};
use std::time::{Duration, SystemTime};

use thumper::{
    Arm, Beat, BeatsError, Deck, DM2DJ, DM2Deck, Output, Record, RecordMap, Report, TheDJ,
};

/// Wire a facade to a deck loop (and, when asked, a reporter loop), each
/// running on a thread of smol's blocking pool.
fn spin_dj<R: Report + 'static>(with_reporting: bool) -> TheDJ<R> {
    let (deck_tx, deck_rx) = mpsc::channel::<DM2Deck>();
    let (dj_tx, dj_rx) = mpsc::channel::<DM2DJ>();
    let (out_tx, out_rx) = mpsc::channel();
    smol::unblock(move || {
        let mut deck = Deck::new();
        let arm = Arm::new(RecordMap::new());
        while Deck::step(&mut deck, &arm, &deck_rx, &dj_tx) {}
    })
    .detach();
    let dj: TheDJ<R> = TheDJ::connect(deck_tx, dj_rx, out_tx).unwrap();
    if with_reporting {
        let arm = dj.arm().unwrap();
        smol::unblock(move || {
            let mut output = Output::new(arm, out_rx);
            while output.step() {}
        })
        .detach();
    }
    dj
}

/// Poll `cond` for up to `limit_ms` milliseconds.
fn wait_until(limit_ms: u64, mut cond: impl FnMut() -> bool) {
    let deadline = SystemTime::now() + Duration::from_millis(limit_ms);
    while SystemTime::now() < deadline {
        if cond() {
            return;
        }
        smol::block_on(smol::Timer::after(Duration::from_millis(25)));
    }
}

struct SilentReport;

impl Report for SilentReport {
    fn duration(&self) -> Result<u64, BeatsError> {
        Ok(0)
    }
    fn init(&self) -> Result<(), BeatsError> {
        Ok(())
    }
    fn run(&mut self, _: &Record) -> Result<(), BeatsError> {
        Ok(())
    }
    fn end(&self) -> Result<(), BeatsError> {
        Ok(())
    }
}

enum TestCall {
    TestBeat(i32),
    TestFinished,
}

// Mock test task which supports a seperate counter
async fn run_task(id: i32, sender: mpsc::Sender<TestCall>, beat: Beat) {
    // Deploy would help determine frequency better
    let _ = beat.deploy();

    for i in 1..=id {
        assert!(beat.now().is_ok(), "Cannot send beat to the runtime");
        assert!(sender.send(TestCall::TestBeat(id)).is_ok(), "Counter fail");
        smol::Timer::after(Duration::from_millis(100 * i as u64)).await;
    }
    assert!(
        sender.send(TestCall::TestFinished).is_ok(),
        "Task completed counter"
    );
}

#[test]
fn integration_test() {
    let test_count: i32 = 5;

    // Test map    k: Record Id, v: Running beat count
    let mut tm: HashMap<i32, u64> = HashMap::new();

    // Finished task counter
    let mut fc: i32 = 0;

    // Comms between async jobs and main
    let (tx, rx) = mpsc::channel::<TestCall>();

    // Init the dj
    let dj: TheDJ<SilentReport> = spin_dj(false);

    // Init runtime that performs and monitors the mock tasks
    smol::block_on(async {
        for i in 1..=test_count {
            let b = dj.register(format!("test_beat_{:?}", i), 1000).unwrap();
            let s = tx.clone();
            smol::spawn(async move { run_task(i, s, b).await }).detach();
        }
    });

    // Manage the incoming calls from the mocked tasks in the async runtime
    loop {
        if fc >= test_count {
            break;
        }
        match rx.recv_timeout(Duration::from_secs(test_count as u64 * 2)) {
            Ok(TestCall::TestBeat(id)) => *tm.entry(id).or_insert(0) += 1,
            Ok(TestCall::TestFinished) => fc += 1,
            Err(e) => panic!("{:?}", e),
        }
    }

    // Assert all the things
    assert_eq!(tm.len(), test_count as usize);
    assert_eq!(test_count, fc);

    for i in 1..test_count {
        assert_eq!(*tm.get(&i).unwrap(), i as u64);
    }
}

#[derive(Debug)]
pub struct TestReport {
    complete: Arc<Mutex<bool>>,
}

impl TestReport {
    fn test(&self) -> Result<(), BeatsError> {
        assert!(self.complete.lock().and_then(|mut c| Ok(*c = true)).is_ok());
        Ok(())
    }
}

impl Report for TestReport {
    fn duration(&self) -> Result<u64, BeatsError> {
        Ok(0)
    }
    fn init(&self) -> Result<(), BeatsError> {
        Ok(())
    }
    fn run(&mut self, _: &Record) -> Result<(), BeatsError> {
        self.test()
    }
    fn end(&self) -> Result<(), BeatsError> {
        self.test()
    }
}

#[test]
fn output_test() {
    // Init the dj with reporting output
    let dj: TheDJ<TestReport> = spin_dj(true);
    let complete = Arc::new(Mutex::new(false));
    let complete2 = complete.clone();

    assert!(dj.add_report(TestReport { complete: complete2 }).is_ok());

    let beat = dj.register(String::from("test_beat"), 1000).unwrap();
    assert!(beat.now().is_ok());

    // Wait a moment for the report to run
    wait_until(5000, || *complete.lock().unwrap());

    assert!(*complete.lock().unwrap());
}

struct SignalSpotter {
    stamp: u64,
    seen: Arc<Mutex<bool>>,
}

impl Report for SignalSpotter {
    fn duration(&self) -> Result<u64, BeatsError> {
        Ok(0)
    }
    fn init(&self) -> Result<(), BeatsError> {
        Ok(())
    }
    fn run(&mut self, record: &Record) -> Result<(), BeatsError> {
        if let Some(beats) = record.get_beats(None) {
            if beats.contains(&self.stamp) {
                *self.seen.lock().unwrap() = true;
            }
        }
        Ok(())
    }
    fn end(&self) -> Result<(), BeatsError> {
        Ok(())
    }
}

#[test]
fn reporter_sees_signal() {
    // A reporter with cadence zero is run within a few seconds with a
    // record whose track holds the emitted signal.
    let dj: TheDJ<SignalSpotter> = spin_dj(true);
    let seen = Arc::new(Mutex::new(false));
    let stamp: u64 = 987_654_321;
    dj.add_report(SignalSpotter { stamp, seen: seen.clone() })
        .unwrap();
    let beat = dj.register("spotted".to_string(), 1000).unwrap();
    beat.from(stamp).unwrap();
    wait_until(3000, || *seen.lock().unwrap());
    assert!(*seen.lock().unwrap());
}

#[test]
fn roster_and_track_lengths() {
    // Five tasks with cadences of 1..=5 seconds, task i emitting i signals.
    let dj: TheDJ<SilentReport> = spin_dj(false);
    let mut beats: Vec<Beat> = Vec::new();
    for i in 1..=5u64 {
        let b = dj.register(format!("task_{:?}", i), i * 1000).unwrap();
        for k in 0..i {
            b.from(1_000_000 + k * i * 1000).unwrap();
        }
        beats.push(b);
    }
    wait_until(10_000, || {
        (0..5i32).all(|id| {
            dj.get_record(id)
                .map(|r| r.raw_track.len() == (id as usize) + 1)
                .unwrap_or(false)
        })
    });
    let roster = dj.get_roster().unwrap();
    assert_eq!(roster.len(), 5);
    for id in 0..5i32 {
        let rec = dj.get_record(id).unwrap();
        assert_eq!(rec.raw_track.len(), (id as usize) + 1);
        assert_eq!(rec.freq, ((id as u64) + 1) * 1000);
        assert_eq!(rec.name, format!("task_{:?}", id + 1));
    }
    drop(beats);
}

#[test]
fn snapshot_freshness() {
    // Every mutation shows up in the snapshot promptly; here the deck
    // publishes after each message, so only scheduling lag remains.
    let dj: TheDJ<SilentReport> = spin_dj(false);
    let beat = dj.register("fresh".to_string(), 1000).unwrap();
    beat.from(12345).unwrap();
    wait_until(1000, || {
        dj.get_record(beat.id)
            .map(|r| r.raw_track.back() == Some(&12345))
            .unwrap_or(false)
    });
    let rec = dj.get_record(beat.id).unwrap();
    assert_eq!(rec.raw_track.back(), Some(&12345));

    dj.unregister(beat.id).unwrap();
    wait_until(1000, || dj.get_record(beat.id).is_err());
    assert!(matches!(dj.get_record(beat.id), Err(BeatsError::MissingRecord)));
    assert!(matches!(dj.get_roster(), Err(BeatsError::EmptyRoster)));
}

#[test]
fn register_validation() {
    let dj: TheDJ<SilentReport> = spin_dj(false);
    assert!(matches!(
        dj.register(String::new(), 1000),
        Err(BeatsError::RegisterFail(_))
    ));
    assert!(matches!(
        dj.register("x".to_string(), 0),
        Err(BeatsError::RegisterFail(_))
    ));
    // Valid input goes through.
    assert!(dj.register("x".to_string(), 1).is_ok());
}

#[test]
fn send_failures_surface() {
    // A handle whose deck is gone reports the send failure...
    let (tx, rx) = mpsc::channel::<DM2Deck>();
    drop(rx);
    let beat = Beat { sender: tx, id: 0 };
    assert!(matches!(beat.now(), Err(BeatsError::DM2DeckSendFail)));
    assert!(matches!(beat.from(1), Err(BeatsError::DM2DeckSendFail)));
    assert!(matches!(beat.deploy(), Err(BeatsError::DM2DeckSendFail)));
    assert!(matches!(
        beat.set_expected_freq(5),
        Err(BeatsError::DM2DeckSendFail)
    ));
    assert!(matches!(
        beat.set_deployment(5),
        Err(BeatsError::DM2DeckSendFail)
    ));

    // ...and so does connecting a facade to nothing.
    let (deck_tx, deck_rx) = mpsc::channel::<DM2Deck>();
    drop(deck_rx);
    let (_dj_tx, dj_rx) = mpsc::channel::<DM2DJ>();
    let (out_tx, _out_rx) = mpsc::channel::<thumper::DM2OutputRunner<SilentReport>>();
    assert!(matches!(
        TheDJ::connect(deck_tx, dj_rx, out_tx),
        Err(BeatsError::DM2DeckSendFail)
    ));

    // A deck that dies before replying surfaces the receive failure.
    let (deck_tx2, _deck_rx2) = mpsc::channel::<DM2Deck>();
    let (dj_tx2, dj_rx2) = mpsc::channel::<DM2DJ>();
    drop(dj_tx2);
    let (out_tx2, _out_rx2) = mpsc::channel::<thumper::DM2OutputRunner<SilentReport>>();
    assert!(matches!(
        TheDJ::connect(deck_tx2, dj_rx2, out_tx2),
        Err(BeatsError::ChannelRecvFail)
    ));

    // A reply that does not match the request's shape is confusion.
    let (deck_tx3, _deck_rx3) = mpsc::channel::<DM2Deck>();
    let (dj_tx3, dj_rx3) = mpsc::channel::<DM2DJ>();
    dj_tx3.send(DM2DJ::ID(Ok(1))).unwrap();
    let (out_tx3, _out_rx3) = mpsc::channel::<thumper::DM2OutputRunner<SilentReport>>();
    assert!(matches!(
        TheDJ::connect(deck_tx3, dj_rx3, out_tx3),
        Err(BeatsError::MaximumConfusion)
    ));

    // Without a reporter runtime, handing over a reporter fails.
    let dj: TheDJ<SilentReport> = spin_dj(false);
    assert!(matches!(
        dj.add_report(SilentReport),
        Err(BeatsError::DM2OutputRunner)
    ));
}

struct CountingReport {
    runs: Arc<Mutex<u32>>,
}

impl Report for CountingReport {
    fn duration(&self) -> Result<u64, BeatsError> {
        Ok(0)
    }
    fn init(&self) -> Result<(), BeatsError> {
        Ok(())
    }
    fn run(&mut self, _: &Record) -> Result<(), BeatsError> {
        *self.runs.lock().unwrap() += 1;
        Ok(())
    }
    fn end(&self) -> Result<(), BeatsError> {
        Ok(())
    }
}

#[test]
fn reporter_offered_each_signal_once() {
    // Drive the reporting turn directly: a record's signal is offered on
    // the first pass, not again while nothing new arrived, and again once
    // a newer signal shows up.
    let arm = Arm::new(RecordMap::new());
    let (_tx, rx) = mpsc::channel::<thumper::DM2OutputRunner<CountingReport>>();
    let mut output = Output::new(arm, rx);
    let runs = Arc::new(Mutex::new(0u32));
    output.add(CountingReport { runs: runs.clone() });

    let mut snap = RecordMap::new();
    let mut rec = Record::new("counted".to_string(), 0);
    rec.add_beat(1000);
    snap.insert(rec);

    output.run_pass(&snap, 10);
    assert_eq!(*runs.lock().unwrap(), 1);
    output.run_pass(&snap, 20);
    assert_eq!(*runs.lock().unwrap(), 1);

    let mut rec2 = Record::new("counted".to_string(), 0);
    rec2.add_beat(1000);
    rec2.add_beat(2000);
    let mut snap2 = RecordMap::new();
    snap2.insert(rec2);
    output.run_pass(&snap2, 30);
    assert_eq!(*runs.lock().unwrap(), 2);
    output.run_pass(&snap2, 40);
    assert_eq!(*runs.lock().unwrap(), 2);
}
