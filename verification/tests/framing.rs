use donglora_mux::framing::MAX_FRAME_BODY;
use donglora_mux::{FrameEvent, FrameReader};

fn wire(type_id: u8, tag: u16, payload: &[u8]) -> Vec<u8> {
    let mut buf = [0u8; donglora_protocol::MAX_WIRE_FRAME];
    let n = donglora_protocol::encode_frame(type_id, tag, payload, &mut buf).unwrap();
    buf[..n].to_vec()
}

fn plain(events: Vec<FrameEvent>) -> Vec<Option<(u8, u16, Vec<u8>)>> {
    events
        .into_iter()
        .map(|e| match e {
            FrameEvent::Frame { type_id, tag, payload } => Some((type_id, tag, payload)),
            FrameEvent::Corrupt => None,
        })
        .collect()
}

#[test]
fn frames_come_back_in_order() {
    let mut stream = wire(0x80, 7, &[]);
    stream.extend(wire(0xC0, 0, &[0, 1, 0, 2]));
    let long: Vec<u8> = (0..275usize).map(|i| (i % 251) as u8).collect();
    stream.extend(wire(0x04, 65535, &long));
    let events = plain(FrameReader::new().feed(&stream));
    assert_eq!(
        events,
        vec![Some((0x80, 7, vec![])), Some((0xC0, 0, vec![0, 1, 0, 2])), Some((0x04, 65535, long))]
    );
}

#[test]
fn it_makes_no_difference_how_a_stream_is_cut() {
    let mut stream = wire(1, 2, &[3, 0, 4]);
    stream.extend([9, 9, 0]);
    stream.extend(wire(5, 6, &[7; 40]));
    let whole = plain(FrameReader::new().feed(&stream));
    for cut in 0..=stream.len() {
        let mut reader = FrameReader::new();
        let mut events = plain(reader.feed(&stream[..cut]));
        events.extend(plain(reader.feed(&stream[cut..])));
        assert_eq!(events, whole);
    }
    let mut reader = FrameReader::new();
    let mut events = Vec::new();
    for byte in &stream {
        events.extend(plain(reader.feed(&[*byte])));
    }
    assert_eq!(events, whole);
}

#[test]
fn a_flipped_bit_is_corrupt_and_costs_no_later_frame() {
    let good = wire(0x81, 3, &[2, 1]);
    for i in 0..good.len() - 1 {
        for bit in 0..8 {
            let mut bad = good.clone();
            bad[i] ^= 1 << bit;
            bad.extend(wire(0x80, 4, &[]));
            let events = plain(FrameReader::new().feed(&bad));
            assert_eq!(events.last().unwrap(), &Some((0x80, 4, vec![])));
            assert!(events[..events.len() - 1].iter().all(|e| e.is_none()));
        }
    }
}

#[test]
fn empty_stretches_report_nothing() {
    let mut reader = FrameReader::new();
    assert!(reader.feed(&[0, 0, 0]).is_empty());
    assert!(reader.feed(&[]).is_empty());
    assert_eq!(plain(reader.feed(&wire(1, 1, &[]))), vec![Some((1, 1, vec![]))]);
}

#[test]
fn stretches_that_are_too_long_are_skipped() {
    let mut reader = FrameReader::new();
    // One byte too many: skipped up to the zero, without a report.
    assert!(reader.feed(&vec![1u8; MAX_FRAME_BODY + 1]).is_empty());
    assert!(reader.feed(&[1, 2, 3, 0]).is_empty());
    // As long as the buffer: decoded, and no frame.
    assert!(reader.feed(&vec![1u8; MAX_FRAME_BODY]).is_empty());
    assert_eq!(plain(reader.feed(&[0])), vec![None]);
    assert_eq!(plain(reader.feed(&wire(1, 1, &[5]))), vec![Some((1, 1, vec![5]))]);
}
