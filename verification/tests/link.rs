use donglora_mux::link::{
    KEEPALIVE_INTERVAL_MS, MAX_CONSECUTIVE_ERRORS, PING_TIMEOUT_MS, READ_RETRY_DELAY_MS,
    RECONNECT_DELAY_MS,
};
use donglora_mux::{
    link_step, ClientReader, DongleReader, DongleStep, FrameEvent, LinkAction, LinkEvent,
    PingProbe, PingStep,
};
use donglora_protocol::{commands, events};

fn wire(type_id: u8, tag: u16, payload: &[u8]) -> Vec<u8> {
    let mut buf = [0u8; donglora_protocol::MAX_WIRE_FRAME];
    let n = donglora_protocol::encode_frame(type_id, tag, payload, &mut buf).unwrap();
    buf[..n].to_vec()
}

#[test]
fn delays_are_those_of_the_daemon() {
    assert_eq!(RECONNECT_DELAY_MS, 2000);
    assert_eq!(KEEPALIVE_INTERVAL_MS, 500);
    assert_eq!(READ_RETRY_DELAY_MS, 100);
    assert_eq!(PING_TIMEOUT_MS, 2000);
    assert_eq!(MAX_CONSECUTIVE_ERRORS, 3);
}

#[test]
fn the_dongle_is_lost_at_the_third_failure_in_a_row() {
    let mut reader = DongleReader::new();
    assert!(matches!(reader.on_read(None), DongleStep::Retry));
    assert!(matches!(reader.on_read(None), DongleStep::Retry));
    assert_eq!(reader.consecutive_errors(), 2);
    assert!(matches!(reader.on_read(Some(&[0][..])), DongleStep::Dispatch(_)));
    assert_eq!(reader.consecutive_errors(), 0);
    assert!(matches!(reader.on_read(None), DongleStep::Retry));
    assert!(matches!(reader.on_read(None), DongleStep::Retry));
    assert!(matches!(reader.on_read(None), DongleStep::Lost));
    assert_eq!(reader.consecutive_errors(), 3);
    assert!(matches!(reader.on_read(None), DongleStep::Lost));
    assert_eq!(reader.consecutive_errors(), 3);
}

#[test]
fn the_dongle_is_lost_at_the_end_of_its_stream() {
    let mut reader = DongleReader::new();
    assert!(matches!(reader.on_read(Some(&[][..])), DongleStep::Lost));
}

#[test]
fn the_dongles_frames_are_dispatched_and_corruption_reported() {
    let mut reader = DongleReader::new();
    let mut bytes = wire(events::TYPE_OK, 9, &[1]);
    bytes.extend([1, 1, 1, 0]);
    let half = 3;
    let DongleStep::Dispatch(first) = reader.on_read(Some(&bytes[..half])) else { panic!("lost") };
    assert!(first.is_empty());
    // A failed read between the halves loses no byte.
    assert!(matches!(reader.on_read(None), DongleStep::Retry));
    let DongleStep::Dispatch(rest) = reader.on_read(Some(&bytes[half..])) else { panic!("lost") };
    assert_eq!(rest.len(), 2);
    assert!(matches!(&rest[0], FrameEvent::Frame { type_id: 0x80, tag: 9, payload } if payload == &vec![1]));
    assert!(matches!(rest[1], FrameEvent::Corrupt));
}

#[test]
fn a_clients_frames_are_read_and_corruption_reported() {
    let mut reader = ClientReader::new();
    let mut bytes = wire(commands::TYPE_PING, 3, &[]);
    bytes.extend([1, 1, 1, 0]);
    bytes.extend(wire(commands::TYPE_TX, 4, &[0, 5, 6]));
    let events = reader.on_read(Some(&bytes[..])).unwrap();
    assert_eq!(events.len(), 3);
    assert!(matches!(&events[0], FrameEvent::Frame { type_id: 1, tag: 3, payload } if payload.is_empty()));
    assert!(matches!(events[1], FrameEvent::Corrupt));
    assert!(matches!(&events[2], FrameEvent::Frame { type_id: 4, tag: 4, payload } if payload == &vec![0, 5, 6]));
    assert!(reader.on_read(None).is_none());
    assert!(reader.on_read(Some(&[][..])).is_none());
}

#[test]
fn the_first_ping_is_a_ping_under_tag_one() {
    assert_eq!(PingProbe::request(), wire(commands::TYPE_PING, 1, &[]));
}

#[test]
fn the_dongle_is_alive_at_its_first_ok() {
    let mut probe = PingProbe::new();
    assert_eq!(probe.on_read(Some(&wire(events::TYPE_ERR, 1, &[5, 0])[..])), PingStep::Wait);
    assert_eq!(probe.on_read(Some(&[1, 1, 0][..])), PingStep::Wait);
    let ok = wire(events::TYPE_OK, 1, &[]);
    assert_eq!(probe.on_read(Some(&ok[..2])), PingStep::Wait);
    assert_eq!(probe.on_read(Some(&ok[2..])), PingStep::Alive);
    // Whatever its tag, and among other frames.
    let mut bytes = wire(events::TYPE_RX, 0, &[0; 20]);
    bytes.extend(wire(events::TYPE_OK, 77, &[1]));
    assert_eq!(PingProbe::new().on_read(Some(&bytes[..])), PingStep::Alive);
}

#[test]
fn the_first_ping_fails_with_the_port() {
    let mut probe = PingProbe::new();
    assert_eq!(probe.on_read(None), PingStep::Failed);
    assert_eq!(probe.on_read(Some(&[][..])), PingStep::Closed);
}

#[test]
fn the_link_is_opened_served_torn_down_and_opened_again() {
    assert_eq!(link_step(LinkEvent::Started, false), LinkAction::Open);
    assert_eq!(link_step(LinkEvent::OpenFailed, false), LinkAction::Wait);
    assert_eq!(link_step(LinkEvent::Waited, false), LinkAction::Open);
    assert_eq!(link_step(LinkEvent::Opened, false), LinkAction::Serve);
    assert_eq!(link_step(LinkEvent::Served, false), LinkAction::TearDown);
    assert_eq!(link_step(LinkEvent::TornDown, false), LinkAction::Wait);
}

#[test]
fn the_link_stops_on_shutdown() {
    assert_eq!(link_step(LinkEvent::Started, true), LinkAction::Stop);
    assert_eq!(link_step(LinkEvent::Waited, true), LinkAction::Stop);
    assert_eq!(link_step(LinkEvent::TornDown, true), LinkAction::Stop);
    // A dongle that was opened meanwhile is served, and torn down, before the end.
    assert_eq!(link_step(LinkEvent::Opened, true), LinkAction::Serve);
    assert_eq!(link_step(LinkEvent::Served, true), LinkAction::TearDown);
    assert_eq!(link_step(LinkEvent::OpenFailed, true), LinkAction::Wait);
}
