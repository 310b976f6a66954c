use std::sync::mpsc;

use thumper::{Arm, BeatsError, Beat, Deck, DM2Deck, DM2DJ, RecordMap};

#[test]
fn capacity_bound_and_reuse() {
    // Fill the deck: the smallest free id is handed out every time.
    let mut deck = Deck::new();
    for i in 0..1000i32 {
        let id = deck.register(format!("task_{:?}", i), 1000).unwrap();
        assert_eq!(id, i);
    }
    // The 1001st concurrent registration fails with the capacity error.
    match deck.register("one_too_many".to_string(), 1000) {
        Err(BeatsError::MaximumCapacity) => {}
        other => panic!("expected MaximumCapacity, got {:?}", other),
    }
    // Releasing any id makes the next registration succeed, on that id.
    deck.deregister(123);
    let id = deck.register("replacement".to_string(), 1000).unwrap();
    assert_eq!(id, 123);
}

#[test]
fn idempotent_unregister() {
    let mut deck = Deck::new();
    let a = deck.register("a".to_string(), 500).unwrap();
    let b = deck.register("b".to_string(), 900).unwrap();
    deck.ping(a, 111);
    deck.ping(b, 222);

    // Unregistering an unknown id is accepted and changes nothing.
    deck.deregister(999);
    assert_eq!(deck.records().len(), 2);
    assert_eq!(deck.records().get(a).unwrap().raw_track.back(), Some(&111));
    assert_eq!(deck.records().get(b).unwrap().raw_track.back(), Some(&222));
    assert_eq!(deck.records().get(a).unwrap().freq, 500);
    assert_eq!(deck.records().get(b).unwrap().freq, 900);

    // A known id goes away; doing it twice is as good as once.
    deck.deregister(a);
    assert_eq!(deck.records().len(), 1);
    assert!(deck.records().get(a).is_none());
    deck.deregister(a);
    assert_eq!(deck.records().len(), 1);
}

#[test]
fn deck_mutations() {
    let mut deck = Deck::new();
    let id = deck.register("mutant".to_string(), 100).unwrap();
    deck.set_expected_freq(id, 2500);
    deck.deploy(id, 424242);
    deck.ping(id, 10);
    deck.ping(id, 20);
    let rec = deck.records().get(id).unwrap();
    assert_eq!(rec.freq, 2500);
    assert_eq!(rec.deployment, 424242);
    assert_eq!(rec.raw_track.len(), 2);
    assert_eq!(rec.raw_track.front(), Some(&10));
    assert_eq!(rec.name, "mutant");
    // Mutations aimed at an unknown id are dropped silently.
    deck.ping(55, 1);
    deck.deploy(55, 1);
    deck.set_expected_freq(55, 1);
    assert!(deck.records().get(55).is_none());
    assert_eq!(deck.records().len(), 1);
}

#[test]
fn single_producer_ordering() {
    // Messages sent through one sender reach the deck and land in the
    // track in send order.
    let (deck_tx, deck_rx) = mpsc::channel::<DM2Deck>();
    let (dj_tx, dj_rx) = mpsc::channel::<DM2DJ>();

    deck_tx
        .send(DM2Deck::Registration("ordered".to_string(), 1000))
        .unwrap();
    let stamps: Vec<u64> = vec![5, 3, 9, 9, 12, 1];
    for t in &stamps {
        deck_tx.send(DM2Deck::Ping(0, *t)).unwrap();
    }
    drop(deck_tx);

    let mut deck = Deck::new();
    let arm = Arm::new(RecordMap::new());
    while Deck::step(&mut deck, &arm, &deck_rx, &dj_tx) {}

    match dj_rx.recv().unwrap() {
        DM2DJ::ID(Ok(0)) => {}
        _ => panic!("registration reply out of shape"),
    }
    let rec = deck.records().get(0).unwrap();
    assert_eq!(rec.get_beats(None).unwrap(), stamps);
    // The published snapshot saw the same mutations.
    let snap = arm.read_snapshot();
    assert_eq!(snap.get(0).unwrap().get_beats(None).unwrap(), stamps);
}

#[test]
fn dropping_a_beat_unregisters_it() {
    // The handle's destructor sends the deregistration; feeding the drained
    // mailbox to a deck releases the id for reuse.
    let (deck_tx, deck_rx) = mpsc::channel::<DM2Deck>();
    let (dj_tx, dj_rx) = mpsc::channel::<DM2DJ>();

    deck_tx
        .send(DM2Deck::Registration("ephemeral".to_string(), 1000))
        .unwrap();
    {
        let beat = Beat { sender: deck_tx.clone(), id: 0 };
        beat.from(77).unwrap();
        // `beat` goes out of scope here and unregisters id 0.
    }
    deck_tx
        .send(DM2Deck::Registration("successor".to_string(), 1000))
        .unwrap();
    drop(deck_tx);

    let mut deck = Deck::new();
    let arm = Arm::new(RecordMap::new());
    while Deck::step(&mut deck, &arm, &deck_rx, &dj_tx) {}

    // Both registrations got id 0: the drop released it.
    match (dj_rx.recv().unwrap(), dj_rx.recv().unwrap()) {
        (DM2DJ::ID(Ok(0)), DM2DJ::ID(Ok(0))) => {}
        _ => panic!("expected id 0 to be reissued"),
    }
    let rec = deck.records().get(0).unwrap();
    assert_eq!(rec.name, "successor");
    assert!(rec.raw_track.is_empty());
}

#[test]
fn registration_reply_failure_rolls_back() {
    // With the reply channel gone, a registration is rolled back and the
    // deck loop ends.
    let (deck_tx, deck_rx) = mpsc::channel::<DM2Deck>();
    let (dj_tx, dj_rx) = mpsc::channel::<DM2DJ>();
    drop(dj_rx);

    deck_tx
        .send(DM2Deck::Registration("unlucky".to_string(), 1000))
        .unwrap();

    let mut deck = Deck::new();
    let arm = Arm::new(RecordMap::new());
    while Deck::step(&mut deck, &arm, &deck_rx, &dj_tx) {}

    assert_eq!(deck.records().len(), 0);
    let snap = arm.read_snapshot();
    assert_eq!(snap.len(), 0);
    // The rolled-back id is free again.
    let id = deck.register("after".to_string(), 1000).unwrap();
    assert_eq!(id, 0);
}

#[test]
fn cursor_map_updates() {
    let mut c = thumper::Cursors::new();
    assert_eq!(c.get(3), None);
    c.set(3, 100);
    c.set(8, 50);
    assert_eq!(c.get(3), Some(100));
    assert_eq!(c.get(8), Some(50));
    // Overwriting replaces the old cursor.
    c.set(3, 200);
    assert_eq!(c.get(3), Some(200));
    assert_eq!(c.get(8), Some(50));
    assert_eq!(c.get(4), None);
}
