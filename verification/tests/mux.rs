use donglora_mux::{
    ClientAction, ClientId, ClientIds, ClientSession, ErrorCode, FrameEvent, FrameReader, MuxInner,
    Outgoing, WriterWork, SYNTHETIC_CLIENT,
};
use donglora_protocol::{commands, events, RxOrigin, RxPayload};
use tokio::sync::mpsc::Receiver;

type Frame = (u8, u16, Vec<u8>);

struct Bench {
    mux: MuxInner,
    ids: ClientIds,
    queues: Vec<(ClientId, Receiver<Vec<u8>>)>,
}

impl Bench {
    fn new(clients: usize) -> Bench {
        let mut bench = Bench { mux: MuxInner::new(), ids: ClientIds::new(), queues: vec![] };
        for _ in 0..clients {
            bench.connect();
        }
        bench
    }

    fn connect(&mut self) -> ClientId {
        let (session, queue) = ClientSession::new(&mut self.ids);
        let id = session.id;
        self.mux.add_client(session);
        self.queues.push((id, queue));
        id
    }

    /// What has arrived at a client since it was last asked.
    fn received(&mut self, id: ClientId) -> Vec<Frame> {
        let (_, queue) = self.queues.iter_mut().find(|(c, _)| *c == id).unwrap();
        let mut frames = vec![];
        while let Ok(bytes) = queue.try_recv() {
            frames.extend(decode(&bytes));
        }
        frames
    }

    /// A frame from the dongle, delivered.
    fn dongle(&mut self, type_id: u8, tag: u16, payload: &[u8]) {
        let outs = self.mux.dispatch_dongle_frame(type_id, tag, payload, 1_000_000);
        self.mux.deliver(&outs);
    }

    /// A frame from a client. Returns what the dongle gets to see.
    fn client(&mut self, id: ClientId, type_id: u8, tag: u16, payload: &[u8]) -> Option<Frame> {
        match self.mux.handle_client_frame(type_id, tag, payload.to_vec(), id) {
            ClientAction::Reply(out) => {
                self.mux.deliver(&vec![out]);
                None
            }
            ClientAction::Forward(work) => self.write(work),
            ClientAction::Nothing => panic!("swallowed"),
        }
    }

    fn write(&mut self, work: WriterWork) -> Option<Frame> {
        assert!(self.mux.has_free_tag());
        let bytes = self.mux.prepare_write(work).unwrap();
        let mut frames = decode(&bytes);
        assert_eq!(frames.len(), 1);
        frames.pop()
    }
}

fn decode(bytes: &[u8]) -> Vec<Frame> {
    FrameReader::new()
        .feed(bytes)
        .into_iter()
        .map(|e| match e {
            FrameEvent::Frame { type_id, tag, payload } => (type_id, tag, payload),
            FrameEvent::Corrupt => panic!("corrupt"),
        })
        .collect()
}

const LORA: [u8; 16] = [1, 0x88, 0x6A, 0x45, 0x36, 7, 6, 0, 16, 0, 0x24, 0x14, 20, 0, 1, 0];

fn applied(config: &[u8]) -> Vec<u8> {
    let mut payload = vec![0, 1];
    payload.extend_from_slice(config);
    payload
}

#[test]
fn answers_return_to_their_senders_under_their_own_tags() {
    let mut b = Bench::new(2);
    let first = b.client(0, commands::TYPE_PING, 500, &[]).unwrap();
    let second = b.client(1, commands::TYPE_GET_INFO, 500, &[]).unwrap();
    assert_eq!(first, (commands::TYPE_PING, 1, vec![]));
    assert_eq!(second, (commands::TYPE_GET_INFO, 2, vec![]));
    // Out of order.
    b.dongle(events::TYPE_OK, second.1, &[9, 9]);
    b.dongle(events::TYPE_OK, first.1, &[]);
    assert_eq!(b.received(0), vec![(events::TYPE_OK, 500, vec![])]);
    assert_eq!(b.received(1), vec![(events::TYPE_OK, 500, vec![9, 9])]);
    // Answered once.
    b.dongle(events::TYPE_OK, first.1, &[]);
    assert!(b.received(0).is_empty() && b.received(1).is_empty());
}

#[test]
fn frames_without_a_tag_reach_everyone() {
    let mut b = Bench::new(3);
    b.dongle(events::TYPE_ERR, 0, &[2, 1]);
    for id in 0..3 {
        assert_eq!(b.received(id), vec![(events::TYPE_ERR, 0, vec![2, 1])]);
    }
}

#[test]
fn unsolicited_frames_reach_nobody() {
    let mut b = Bench::new(2);
    b.dongle(events::TYPE_OK, 17, &[]);
    assert!(b.received(0).is_empty() && b.received(1).is_empty());
}

#[test]
fn frames_that_do_not_fit_are_not_sent() {
    let mut b = Bench::new(1);
    assert!(b.mux.dispatch_dongle_frame(events::TYPE_RX, 0, &[0; 276], 0).is_empty());
    assert_eq!(b.mux.dispatch_dongle_frame(events::TYPE_RX, 0, &[0; 275], 0).len(), 1);
    let big = WriterWork::Forward {
        client_id: 0,
        type_id: commands::TYPE_PING,
        upstream_tag: 1,
        payload: vec![0; 276],
    };
    assert!(b.mux.prepare_write(big).is_none());
    // Its tag is taken all the same.
    assert_eq!(b.write(WriterWork::Keepalive).unwrap().1, 2);
}

#[test]
fn keepalives_and_their_answers_are_hidden() {
    let mut b = Bench::new(1);
    let ping = b.write(WriterWork::Keepalive).unwrap();
    assert_eq!(ping, (commands::TYPE_PING, 1, vec![]));
    b.dongle(events::TYPE_OK, ping.1, &[]);
    assert!(b.received(0).is_empty());
}

#[test]
fn a_transmission_is_looped_back_to_the_others() {
    let mut b = Bench::new(3);
    let (type_id, tag, payload) = b.client(1, commands::TYPE_TX, 70, &[1, 0xCA, 0xFE]).unwrap();
    assert_eq!((type_id, payload), (commands::TYPE_TX, vec![1, 0xCA, 0xFE]));
    // The OK comes first, and leaves the command in flight.
    b.dongle(events::TYPE_OK, tag, &[]);
    assert_eq!(b.received(1), vec![(events::TYPE_OK, 70, vec![])]);
    assert!(b.received(0).is_empty());
    b.dongle(events::TYPE_TX_DONE, tag, &[0, 0x10, 0x27, 0, 0]);
    assert_eq!(b.received(1), vec![(events::TYPE_TX_DONE, 70, vec![0, 0x10, 0x27, 0, 0])]);
    let mut expected = vec![0u8; 8];
    expected.extend(1_000_000u64.to_le_bytes());
    expected.extend([1, 0, 0, 1, 0xCA, 0xFE]);
    for id in [0, 2] {
        let frames = b.received(id);
        assert_eq!(frames, vec![(events::TYPE_RX, 0, expected.clone())]);
        let rx = RxPayload::decode(&frames[0].2).unwrap();
        assert_eq!(rx.origin, RxOrigin::LocalLoopback);
        assert_eq!(&rx.data[..], &[0xCA, 0xFE]);
        assert_eq!(rx.timestamp_us, 1_000_000);
        assert!(rx.crc_valid);
    }
    // The TX_DONE was the end of it.
    b.dongle(events::TYPE_TX_DONE, tag, &[0, 0, 0, 0, 0]);
    assert!(b.received(0).is_empty() && b.received(1).is_empty());
}

#[test]
fn a_failed_transmission_is_not_looped_back() {
    for done in [vec![1, 0, 0, 0, 0], vec![2, 0, 0, 0, 0], vec![3, 0, 0, 0, 0], vec![0, 0, 0, 0]] {
        let mut b = Bench::new(2);
        let tag = b.client(0, commands::TYPE_TX, 7, &[0, 1]).unwrap().1;
        b.dongle(events::TYPE_TX_DONE, tag, &done);
        assert_eq!(b.received(0), vec![(events::TYPE_TX_DONE, 7, done)]);
        assert!(b.received(1).is_empty());
    }
}

#[test]
fn a_refused_transmission_is_settled_by_its_error() {
    let mut b = Bench::new(2);
    let tag = b.client(0, commands::TYPE_TX, 7, &[0, 1]).unwrap().1;
    b.dongle(events::TYPE_ERR, tag, &[6, 0]);
    b.dongle(events::TYPE_TX_DONE, tag, &[0, 0, 0, 0, 0]);
    assert_eq!(b.received(0), vec![(events::TYPE_ERR, 7, vec![6, 0])]);
    assert!(b.received(1).is_empty());
}

#[test]
fn the_longest_packet_is_looped_back() {
    let mut b = Bench::new(2);
    let mut tx = vec![0u8];
    tx.extend(vec![0xAB; 255]);
    let tag = b.client(0, commands::TYPE_TX, 7, &tx).unwrap().1;
    b.dongle(events::TYPE_TX_DONE, tag, &[0, 0, 0, 0, 0]);
    let frames = b.received(1);
    assert_eq!(frames[0].2.len(), 275);
    assert_eq!(&frames[0].2[20..], &tx[1..]);
}

#[test]
fn what_is_no_command_is_answered_with_an_error() {
    let mut b = Bench::new(2);
    let cases: [(u8, Vec<u8>); 8] = [
        (0x7F, vec![]),
        (0x00, vec![1, 2]),
        (commands::TYPE_PING, vec![1]),
        (commands::TYPE_TX, vec![]),
        (commands::TYPE_TX, vec![0]),
        (commands::TYPE_TX, vec![2, 1]),
        (commands::TYPE_TX, vec![0; 257]),
        (commands::TYPE_SET_CONFIG, vec![9]),
    ];
    for (type_id, payload) in cases {
        assert_eq!(b.client(0, type_id, 31, &payload), None);
        assert_eq!(b.received(0), vec![(events::TYPE_ERR, 31, vec![5, 0])]);
        assert!(b.received(1).is_empty());
    }
    // The shortest and the longest TX are commands.
    assert!(b.client(0, commands::TYPE_TX, 1, &[1, 0]).is_some());
    assert!(b.client(0, commands::TYPE_TX, 2, &[0; 256]).is_some());
}

#[test]
fn an_applied_configuration_is_locked() {
    let mut b = Bench::new(2);
    let mut other = LORA;
    other[1] = 0;
    let tag = b.client(0, commands::TYPE_SET_CONFIG, 3, &LORA).unwrap().1;
    b.dongle(events::TYPE_OK, tag, &applied(&LORA));
    assert_eq!(b.received(0), vec![(events::TYPE_OK, 3, applied(&LORA))]);

    assert_eq!(b.client(1, commands::TYPE_SET_CONFIG, 4, &LORA), None);
    assert_eq!(b.client(1, commands::TYPE_SET_CONFIG, 5, &other), None);
    let mut matched = vec![1, 2];
    matched.extend(LORA);
    let mut mismatch = vec![2, 2];
    mismatch.extend(LORA);
    assert_eq!(b.received(1), vec![(events::TYPE_OK, 4, matched), (events::TYPE_OK, 5, mismatch)]);

    // The owner goes on to reconfigure, and takes the lock along.
    let tag = b.client(0, commands::TYPE_SET_CONFIG, 6, &other).unwrap().1;
    b.dongle(events::TYPE_OK, tag, &applied(&other));
    assert_eq!(b.client(1, commands::TYPE_SET_CONFIG, 7, &other), None);
    assert_eq!(b.received(1)[0].2[0], 1);
}

#[test]
fn only_an_applied_configuration_of_ones_own_is_locked() {
    for head in [[1u8, 1u8], [2, 1], [0, 0], [0, 2], [3, 1]] {
        let mut b = Bench::new(2);
        let tag = b.client(0, commands::TYPE_SET_CONFIG, 3, &LORA).unwrap().1;
        let mut payload = head.to_vec();
        payload.extend(LORA);
        b.dongle(events::TYPE_OK, tag, &payload);
        // No lock: the other client's wish is forwarded.
        assert!(b.client(1, commands::TYPE_SET_CONFIG, 4, &LORA).is_some());
    }
}

#[test]
fn the_lock_is_released_when_its_owner_leaves() {
    let mut b = Bench::new(3);
    let tag = b.client(0, commands::TYPE_SET_CONFIG, 3, &LORA).unwrap().1;
    b.dongle(events::TYPE_OK, tag, &applied(&LORA));
    assert!(!b.mux.remove_client(2).lock_released);
    b.connect();
    assert_eq!(b.client(1, commands::TYPE_SET_CONFIG, 4, &LORA), None);
    assert!(b.mux.remove_client(0).lock_released);
    assert!(b.client(1, commands::TYPE_SET_CONFIG, 5, &LORA).is_some());
}

#[test]
fn reception_is_counted_across_clients() {
    let mut b = Bench::new(2);
    let start = b.client(0, commands::TYPE_RX_START, 1, &[]).unwrap();
    assert_eq!(start.0, commands::TYPE_RX_START);
    // Nobody listens until the dongle has accepted.
    assert!(b.client(1, commands::TYPE_RX_START, 2, &[]).is_some());
    b.dongle(events::TYPE_OK, start.1, &[]);
    assert_eq!(b.client(1, commands::TYPE_RX_START, 3, &[]), None);
    assert_eq!(b.received(1), vec![(events::TYPE_OK, 3, vec![])]);
    assert_eq!(b.client(0, commands::TYPE_RX_STOP, 4, &[]), None);
    assert_eq!(b.client(0, commands::TYPE_RX_STOP, 5, &[]), None);
    let stop = b.client(1, commands::TYPE_RX_STOP, 6, &[]).unwrap();
    assert_eq!(stop.0, commands::TYPE_RX_STOP);
    b.dongle(events::TYPE_OK, stop.1, &[]);
    assert!(b.client(0, commands::TYPE_RX_START, 7, &[]).is_some());
}

#[test]
fn a_refused_rx_start_is_not_recorded() {
    let mut b = Bench::new(1);
    let tag = b.client(0, commands::TYPE_RX_START, 1, &[]).unwrap().1;
    b.dongle(events::TYPE_ERR, tag, &[3, 0]);
    assert!(b.client(0, commands::TYPE_RX_START, 2, &[]).is_some());
}

#[test]
fn the_last_listener_turns_reception_off_by_leaving() {
    let mut b = Bench::new(3);
    let tag = b.client(0, commands::TYPE_RX_START, 1, &[]).unwrap().1;
    b.dongle(events::TYPE_OK, tag, &[]);
    assert_eq!(b.client(1, commands::TYPE_RX_START, 2, &[]), None);
    // One that does not listen, and one of two that do.
    assert!(b.mux.remove_client(2).work.is_none());
    assert!(b.mux.remove_client(0).work.is_none());
    let departure = b.mux.remove_client(1);
    assert!(matches!(
        departure.work,
        Some(WriterWork::Forward {
            client_id: SYNTHETIC_CLIENT,
            type_id: commands::TYPE_RX_STOP,
            upstream_tag: 0,
            ref payload,
        }) if payload.is_empty()
    ));
    assert_eq!(b.mux.client_count(), 0);
    assert_eq!(b.write(departure.work.unwrap()).unwrap().0, commands::TYPE_RX_STOP);
}

#[test]
fn a_client_that_leaves_takes_its_commands_along() {
    let mut b = Bench::new(2);
    let gone = b.client(0, commands::TYPE_PING, 1, &[]).unwrap().1;
    let kept = b.client(1, commands::TYPE_PING, 2, &[]).unwrap().1;
    let departure = b.mux.remove_client(0);
    assert_eq!(departure.drops, 0);
    b.dongle(events::TYPE_OK, gone, &[]);
    b.dongle(events::TYPE_OK, kept, &[]);
    assert!(b.received(0).is_empty());
    assert_eq!(b.received(1), vec![(events::TYPE_OK, 2, vec![])]);
    // A client that is not there leaves nothing behind.
    let nobody = b.mux.remove_client(99);
    assert!(nobody.work.is_none() && nobody.drops == 0 && !nobody.lock_released);
}

#[test]
fn a_lost_dongle_takes_what_is_in_flight_along() {
    let mut b = Bench::new(1);
    let tag = b.client(0, commands::TYPE_PING, 1, &[]).unwrap().1;
    b.mux.forget_pending();
    b.dongle(events::TYPE_OK, tag, &[]);
    assert!(b.received(0).is_empty());
    assert_eq!(b.client(0, commands::TYPE_PING, 2, &[]).unwrap().1, tag + 1);
}

#[test]
fn link_errors_reach_everyone() {
    let mut b = Bench::new(2);
    let outs = b.mux.fanout_async_err(ErrorCode::EFrame);
    b.mux.deliver(&outs);
    for id in 0..2 {
        assert_eq!(b.received(id), vec![(events::TYPE_ERR, 0, vec![2, 1])]);
    }
}

#[test]
fn a_read_is_dispatched_whole_with_one_error_at_its_end() {
    let mut b = Bench::new(2);
    let tag = b.client(0, commands::TYPE_PING, 8, &[]).unwrap().1;
    let events = vec![
        FrameEvent::Corrupt,
        FrameEvent::Frame { type_id: events::TYPE_OK, tag, payload: vec![] },
        FrameEvent::Corrupt,
        FrameEvent::Frame { type_id: events::TYPE_RX, tag: 0, payload: vec![1] },
    ];
    let outs = b.mux.dispatch_dongle_events(&events);
    b.mux.deliver(&outs);
    let rx = (events::TYPE_RX, 0, vec![1]);
    let err = (events::TYPE_ERR, 0, vec![2, 1]);
    assert_eq!(b.received(0), vec![(events::TYPE_OK, 8, vec![]), rx.clone(), err.clone()]);
    assert_eq!(b.received(1), vec![rx, err]);
    assert!(b.mux.dispatch_dongle_events(&vec![]).is_empty());
}

#[test]
fn loopback_is_stamped_with_the_time_of_the_read() {
    let mut b = Bench::new(2);
    let tag = b.client(0, commands::TYPE_TX, 8, &[0, 5]).unwrap().1;
    let before = donglora_mux::now_us();
    let done = FrameEvent::Frame { type_id: events::TYPE_TX_DONE, tag, payload: vec![0; 5] };
    let outs = b.mux.dispatch_dongle_events(&vec![done]);
    let after = donglora_mux::now_us();
    b.mux.deliver(&outs);
    let rx = RxPayload::decode(&b.received(1)[0].2).unwrap();
    assert!(before <= rx.timestamp_us && rx.timestamp_us <= after);
}

#[test]
fn a_slow_client_holds_up_nobody() {
    let mut b = Bench::new(2);
    let mut reports = vec![];
    for i in 0..300u16 {
        let outs = b.mux.dispatch_dongle_frame(events::TYPE_RX, 0, &i.to_le_bytes(), 0);
        reports.extend(b.mux.deliver(&outs));
        // One client reads, the other does not.
        assert_eq!(b.received(1), vec![(events::TYPE_RX, 0, i.to_le_bytes().to_vec())]);
    }
    let totals: Vec<(ClientId, u64)> = reports.iter().map(|r| (r.client_id, r.total)).collect();
    assert_eq!(totals, vec![(0, 1), (0, 32)]);
    let kept = b.received(0);
    assert_eq!(kept.len(), 256);
    assert_eq!(kept[255].2, 255u16.to_le_bytes().to_vec());
    assert_eq!(b.mux.remove_client(0).drops, 44);
    assert_eq!(b.mux.remove_client(1).drops, 0);
}

#[test]
fn frames_for_clients_that_are_gone_are_not_delivered() {
    let mut b = Bench::new(1);
    let out = Outgoing { frame: vec![1, 2, 0], recipients: vec![5] };
    assert!(b.mux.deliver(&vec![out]).is_empty());
    assert!(b.received(0).is_empty());
    // A client's frame that is handled after it has left is answered to nobody.
    match b.mux.handle_client_frame(0x7F, 1, vec![], 5) {
        ClientAction::Reply(out) => assert!(out.recipients.is_empty()),
        _ => panic!("expected a reply"),
    }
}

#[test]
fn what_is_no_frame_is_answered_to_its_sender() {
    let mut b = Bench::new(2);
    let mut reader = donglora_mux::ClientReader::new();
    // A ping, something corrupt, and what is no command.
    let mut bytes = donglora_mux::PingProbe::request();
    bytes.extend([1, 1, 1, 0]);
    let mut wire = [0u8; donglora_protocol::MAX_WIRE_FRAME];
    let n = donglora_protocol::encode_frame(0x7F, 9, &[], &mut wire).unwrap();
    bytes.extend(&wire[..n]);
    let mut works = vec![];
    for event in reader.on_read(Some(&bytes[..])).unwrap() {
        match b.mux.handle_client_event(event, 0) {
            ClientAction::Reply(out) => {
                b.mux.deliver(&vec![out]);
            }
            ClientAction::Forward(work) => works.push(work),
            ClientAction::Nothing => panic!("swallowed"),
        }
    }
    assert_eq!(
        b.received(0),
        vec![(events::TYPE_ERR, 0, vec![0x02, 0x01]), (events::TYPE_ERR, 9, vec![0x05, 0x00])]
    );
    assert!(b.received(1).is_empty());
    assert_eq!(works.len(), 1);
    assert_eq!(b.write(works.pop().unwrap()).unwrap().0, commands::TYPE_PING);
    // A client that is gone gets nothing.
    assert!(b.mux.answer_corrupt_frame(7).recipients.is_empty());
    assert_eq!(b.mux.answer_corrupt_frame(1).recipients, vec![1]);
}

#[test]
fn stopping_twice_is_stopping_once() {
    let mut b = Bench::new(1);
    let tag = b.client(0, commands::TYPE_RX_START, 1, &[]).unwrap().1;
    b.dongle(events::TYPE_OK, tag, &[]);
    assert_eq!(b.client(0, commands::TYPE_RX_START, 2, &[]), None);
    assert!(b.client(0, commands::TYPE_RX_STOP, 3, &[]).is_some());
    assert_eq!(b.client(0, commands::TYPE_RX_STOP, 4, &[]), None);
    let ok = |tag: u16| (events::TYPE_OK, tag, vec![]);
    assert_eq!(b.received(0), vec![ok(1), ok(2), ok(4)]);
}

#[test]
fn a_client_whose_writer_is_gone_loses_its_frames_uncounted() {
    let mut b = Bench::new(2);
    b.queues.remove(0);
    b.dongle(events::TYPE_RX, 0, &[1]);
    assert_eq!(b.received(1), vec![(events::TYPE_RX, 0, vec![1])]);
    assert_eq!(b.mux.remove_client(0).drops, 0);
}
