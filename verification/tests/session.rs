use donglora_mux::session::{DROP_LOG_EVERY, SEND_QUEUE_CAP};
use donglora_mux::{ClientIds, ClientSession, SendOutcome};

#[test]
fn identifiers_count_up_from_zero() {
    let mut ids = ClientIds::new();
    for expected in 0..5u64 {
        let (session, _rx) = ClientSession::new(&mut ids);
        assert_eq!(session.id, expected);
        assert_eq!(session.id(), expected);
        assert!(!session.rx_interested());
        assert_eq!(session.drop_count(), 0);
    }
    assert_eq!(ids.fresh(), 5);
}

#[test]
fn labels_hold_the_identifier_in_decimal() {
    let mut ids = ClientIds::new();
    let (first, _rx) = ClientSession::new(&mut ids);
    assert_eq!(first.label(), "client-0");
    for _ in 1..1207 {
        ids.fresh();
    }
    let (later, _rx) = ClientSession::new(&mut ids);
    assert_eq!(later.label(), "client-1207");
}

#[test]
fn queue_takes_256_frames_in_order_and_drops_the_next() {
    assert_eq!(SEND_QUEUE_CAP, 256);
    let mut ids = ClientIds::new();
    let (mut session, mut rx) = ClientSession::new(&mut ids);
    for i in 0..256u32 {
        assert_eq!(session.enqueue(i.to_le_bytes().to_vec()), None);
    }
    assert_eq!(session.drop_count(), 0);
    assert_eq!(session.enqueue(vec![0xFF]), Some(1));
    assert_eq!(session.drop_count(), 1);
    for i in 0..256u32 {
        assert_eq!(rx.try_recv().unwrap(), i.to_le_bytes().to_vec());
    }
    assert!(rx.try_recv().is_err());
    // There is room again.
    assert_eq!(session.enqueue(vec![7]), None);
    assert_eq!(rx.try_recv().unwrap(), vec![7]);
    assert_eq!(session.drop_count(), 1);
}

#[test]
fn drops_are_reported_at_the_first_and_every_32nd() {
    assert_eq!(DROP_LOG_EVERY, 32);
    let mut ids = ClientIds::new();
    let (mut session, _rx) = ClientSession::new(&mut ids);
    let mut reported = Vec::new();
    for _ in 0..100 {
        if let Some(total) = session.record(SendOutcome::Full) {
            reported.push(total);
        }
    }
    assert_eq!(reported, vec![1, 32, 64, 96]);
    assert_eq!(session.drop_count(), 100);
}

#[test]
fn closed_queue_is_ignored() {
    let mut ids = ClientIds::new();
    let (mut session, rx) = ClientSession::new(&mut ids);
    drop(rx);
    assert_eq!(session.enqueue(vec![1, 2, 3]), None);
    assert_eq!(session.drop_count(), 0);
    assert_eq!(session.record(SendOutcome::Closed), None);
    assert_eq!(session.record(SendOutcome::Sent), None);
    assert_eq!(session.drop_count(), 0);
}

#[test]
fn packets_are_cached_per_tag() {
    let mut ids = ClientIds::new();
    let (mut session, _rx) = ClientSession::new(&mut ids);
    session.cache_tx(3, vec![1]);
    session.cache_tx(4, vec![2]);
    session.cache_tx(3, vec![5, 6]);
    assert_eq!(session.uncache_tx(3), Some(vec![5, 6]));
    assert_eq!(session.uncache_tx(3), None);
    assert_eq!(session.uncache_tx(4), Some(vec![2]));
}

#[test]
fn interest_is_switched() {
    let mut ids = ClientIds::new();
    let (mut session, _rx) = ClientSession::new(&mut ids);
    session.set_rx_interested(true);
    assert!(session.rx_interested());
    assert!(session.rx_interested);
    session.set_rx_interested(false);
    assert!(!session.rx_interested());
}

#[test]
fn each_receiver_drains_its_own_sessions_queue() {
    let mut ids = ClientIds::new();
    let (mut a, mut rx_a) = ClientSession::new(&mut ids);
    let (mut b, mut rx_b) = ClientSession::new(&mut ids);
    assert!(rx_a.try_recv().is_err() && rx_b.try_recv().is_err());
    a.enqueue(vec![1]);
    b.enqueue(vec![2]);
    a.enqueue(vec![3]);
    assert_eq!(rx_a.try_recv().unwrap(), vec![1]);
    assert_eq!(rx_a.try_recv().unwrap(), vec![3]);
    assert!(rx_a.try_recv().is_err());
    assert_eq!(rx_b.try_recv().unwrap(), vec![2]);
    assert!(rx_b.try_recv().is_err());
}

#[test]
fn a_queue_that_is_drained_drops_nothing() {
    let mut ids = ClientIds::new();
    let (mut session, mut rx) = ClientSession::new(&mut ids);
    for i in 0..1000u32 {
        assert_eq!(session.enqueue(i.to_le_bytes().to_vec()), None);
        assert_eq!(rx.try_recv().unwrap(), i.to_le_bytes().to_vec());
    }
    assert_eq!(session.drop_count(), 0);
}
