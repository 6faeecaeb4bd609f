use donglora_mux::framing::MAX_FRAME_BODY;
use donglora_mux::protocol;
use donglora_mux::Modulation;
use donglora_protocol::{commands, events, Owner, RxOrigin, SetConfigResultCode, TxResult};

#[test]
fn constants_are_those_of_the_codec() {
    assert_eq!(protocol::TYPE_PING, commands::TYPE_PING);
    assert_eq!(protocol::TYPE_GET_INFO, commands::TYPE_GET_INFO);
    assert_eq!(protocol::TYPE_SET_CONFIG, commands::TYPE_SET_CONFIG);
    assert_eq!(protocol::TYPE_TX, commands::TYPE_TX);
    assert_eq!(protocol::TYPE_RX_START, commands::TYPE_RX_START);
    assert_eq!(protocol::TYPE_RX_STOP, commands::TYPE_RX_STOP);
    assert_eq!(protocol::TYPE_OK, events::TYPE_OK);
    assert_eq!(protocol::TYPE_ERR, events::TYPE_ERR);
    assert_eq!(protocol::TYPE_RX, events::TYPE_RX);
    assert_eq!(protocol::TYPE_TX_DONE, events::TYPE_TX_DONE);
    assert_eq!(protocol::MAX_OTA_PAYLOAD, donglora_protocol::MAX_OTA_PAYLOAD);
    assert_eq!(protocol::MAX_PAYLOAD_FIELD, donglora_protocol::MAX_PAYLOAD_FIELD);
    assert_eq!(protocol::RESULT_APPLIED, SetConfigResultCode::Applied.as_u8());
    assert_eq!(protocol::RESULT_ALREADY_MATCHED, SetConfigResultCode::AlreadyMatched.as_u8());
    assert_eq!(protocol::RESULT_LOCKED_MISMATCH, SetConfigResultCode::LockedMismatch.as_u8());
    assert_eq!(protocol::OWNER_MINE, Owner::Mine.as_u8());
    assert_eq!(protocol::OWNER_OTHER, Owner::Other.as_u8());
    assert_eq!(protocol::TX_TRANSMITTED, TxResult::Transmitted.as_u8());
    assert_eq!(protocol::ORIGIN_LOCAL_LOOPBACK, RxOrigin::LocalLoopback.as_u8());
    assert_eq!(MAX_FRAME_BODY + 1, donglora_protocol::MAX_WIRE_FRAME);
}

/// Whether the multiplexer should take the bytes for a modulation.
fn expected(w: &[u8]) -> bool {
    let p = if w.is_empty() { return false } else { &w[1..] };
    match w[0] {
        1 => p.len() == 15 && p[5] <= 13 && p[6] <= 3 && p[12] <= 1 && p[13] <= 1 && p[14] <= 1,
        2 => p.len() >= 16 && p[15] <= 8 && p.len() == 16 + p[15] as usize,
        3 => p.len() == 10 && p[4] <= 7 && p[5] <= 3 && p[6] <= 1 && p[7] <= 1 && p[9] == 0,
        4 => p.len() == 13 && p[4] <= 7 && p[5] <= 2 && p[6] <= 2 && p[7] <= 6,
        _ => false,
    }
}

fn check(wire: &[u8]) {
    match Modulation::from_wire(wire) {
        Some(m) => {
            assert!(expected(wire), "accepted {wire:?}");
            assert_eq!(m.wire(), wire);
        }
        None => assert!(!expected(wire), "refused {wire:?}"),
    }
}

fn bases() -> Vec<Vec<u8>> {
    let mut bases = vec![
        vec![1, 0x88, 0x6A, 0x45, 0x36, 7, 6, 0, 16, 0, 0x24, 0x14, 20, 0, 1, 0],
        vec![3, 1, 2, 3, 4, 5, 1, 1, 0, 9, 0],
        vec![4, 1, 2, 3, 4, 5, 1, 1, 2, 9, 8, 7, 6, 5],
    ];
    for sync_len in 0..=8u8 {
        let mut fsk = vec![2u8];
        fsk.extend_from_slice(&[11, 12, 13, 14, 15, 16, 17, 18, 19, 20, 21, 22, 23, 24, 25]);
        fsk.push(sync_len);
        fsk.extend(100..100 + sync_len);
        bases.push(fsk);
    }
    bases
}

#[test]
fn modulations_are_recognised_byte_by_byte() {
    for base in bases() {
        check(&base);
        for i in 0..base.len() {
            for byte in 0..=255u8 {
                let mut wire = base.clone();
                wire[i] = byte;
                check(&wire);
            }
        }
    }
}

#[test]
fn modulations_are_recognised_by_length() {
    check(&[]);
    for base in bases() {
        for len in 1..base.len() {
            check(&base[..len]);
        }
        let mut longer = base.clone();
        longer.push(0);
        check(&longer);
    }
}

#[test]
fn modulations_match_when_their_bytes_do() {
    let all = bases();
    for (i, a) in all.iter().enumerate() {
        for (j, b) in all.iter().enumerate() {
            let a = Modulation::from_wire(a).unwrap();
            let b = Modulation::from_wire(b).unwrap();
            assert_eq!(a.matches(&b), i == j);
        }
    }
}
