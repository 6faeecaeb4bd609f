use donglora_mux::{
    decide, synthesize_err, ClientId, ClientIds, ClientSession, Decision, ErrorCode,
    Modulation as Locked, MuxState,
};
use donglora_protocol::events::{TYPE_ERR, TYPE_OK};
use donglora_protocol::{
    Command, LoRaBandwidth, LoRaCodingRate, LoRaConfig, LoRaHeaderMode, Modulation, OkPayload,
    Owner, SetConfigResultCode,
};
use std::collections::HashMap;

fn lora(freq: u32) -> Modulation {
    Modulation::LoRa(LoRaConfig {
        freq_hz: freq,
        sf: 7,
        bw: LoRaBandwidth::Khz62,
        cr: LoRaCodingRate::Cr4_5,
        preamble_len: 16,
        sync_word: 0x1424,
        tx_power_dbm: 20,
        header_mode: LoRaHeaderMode::Explicit,
        payload_crc: true,
        iq_invert: false,
    })
}

fn locked(modulation: Modulation) -> Locked {
    Locked::from_wire(&encode_set_config(modulation)).unwrap()
}

fn make_sessions(n: usize) -> HashMap<ClientId, ClientSession> {
    let mut ids = ClientIds::new();
    let mut map = HashMap::new();
    for _ in 0..n {
        let (session, _rx) = ClientSession::new(&mut ids);
        map.insert(session.id, session);
    }
    map
}

fn first_id(sessions: &HashMap<ClientId, ClientSession>) -> ClientId {
    *sessions.keys().min().unwrap()
}

fn second_id(sessions: &HashMap<ClientId, ClientSession>) -> ClientId {
    let mut ids: Vec<_> = sessions.keys().copied().collect();
    ids.sort_unstable();
    ids[1]
}

fn encode_set_config(modulation: Modulation) -> Vec<u8> {
    let mut buf = [0u8; 64];
    let n = Command::SetConfig(modulation).encode_payload(&mut buf).unwrap();
    buf[..n].to_vec()
}

#[test]
fn set_config_single_client_forwards() {
    let mut sessions = make_sessions(1);
    let mut state = MuxState::new();
    let id = first_id(&sessions);
    let payload = encode_set_config(lora(910_525_000));
    assert!(matches!(
        decide(donglora_protocol::commands::TYPE_SET_CONFIG, &payload, id, &mut state, &mut sessions),
        Decision::Forward
    ));
}

#[test]
fn set_config_first_multi_client_forwards() {
    let mut sessions = make_sessions(2);
    let mut state = MuxState::new();
    let id = first_id(&sessions);
    let payload = encode_set_config(lora(910_525_000));
    assert!(matches!(
        decide(donglora_protocol::commands::TYPE_SET_CONFIG, &payload, id, &mut state, &mut sessions),
        Decision::Forward
    ));
}

#[test]
fn set_config_matching_synthesizes_already_matched() {
    let mut sessions = make_sessions(2);
    let id_a = first_id(&sessions);
    let id_b = second_id(&sessions);
    let mut state = MuxState::new();
    state.locked = Some((id_a, locked(lora(910_525_000))));
    let payload = encode_set_config(lora(910_525_000));
    match decide(donglora_protocol::commands::TYPE_SET_CONFIG, &payload, id_b, &mut state, &mut sessions) {
        Decision::Synthesize { type_id, payload } => {
            assert_eq!(type_id, TYPE_OK);
            let parsed = OkPayload::parse_for(donglora_protocol::commands::TYPE_SET_CONFIG, &payload).unwrap();
            let OkPayload::SetConfig(result) = parsed else { panic!("expected SetConfig") };
            assert_eq!(result.result, SetConfigResultCode::AlreadyMatched);
            assert_eq!(result.owner, Owner::Other);
        }
        other => panic!("unexpected decision: {other:?}"),
    }
}

#[test]
fn set_config_conflict_synthesizes_locked_mismatch() {
    let mut sessions = make_sessions(2);
    let id_a = first_id(&sessions);
    let id_b = second_id(&sessions);
    let mut state = MuxState::new();
    state.locked = Some((id_a, locked(lora(910_525_000))));
    let payload = encode_set_config(lora(915_000_000));
    match decide(donglora_protocol::commands::TYPE_SET_CONFIG, &payload, id_b, &mut state, &mut sessions) {
        Decision::Synthesize { type_id, payload } => {
            assert_eq!(type_id, TYPE_OK);
            let parsed = OkPayload::parse_for(donglora_protocol::commands::TYPE_SET_CONFIG, &payload).unwrap();
            let OkPayload::SetConfig(result) = parsed else { panic!("expected SetConfig") };
            assert_eq!(result.result, SetConfigResultCode::LockedMismatch);
            assert_eq!(result.owner, Owner::Other);
            // `current` should reflect the locked modulation (910.525 MHz).
            if let Modulation::LoRa(c) = result.current {
                assert_eq!(c.freq_hz, 910_525_000);
            } else {
                panic!("expected LoRa");
            }
        }
        other => panic!("unexpected decision: {other:?}"),
    }
}

#[test]
fn set_config_owner_reconfig_forwards() {
    let mut sessions = make_sessions(2);
    let id_a = first_id(&sessions);
    let mut state = MuxState::new();
    state.locked = Some((id_a, locked(lora(910_525_000))));
    let payload = encode_set_config(lora(915_000_000));
    assert!(matches!(
        decide(donglora_protocol::commands::TYPE_SET_CONFIG, &payload, id_a, &mut state, &mut sessions),
        Decision::Forward
    ));
}

#[test]
fn rx_start_first_forwards() {
    let mut sessions = make_sessions(1);
    let mut state = MuxState::new();
    let id = first_id(&sessions);
    assert!(matches!(
        decide(donglora_protocol::commands::TYPE_RX_START, &[], id, &mut state, &mut sessions),
        Decision::Forward
    ));
}

#[test]
fn rx_start_when_others_listening_synthesizes_ok() {
    let mut sessions = make_sessions(2);
    let mut state = MuxState::new();
    let id_a = first_id(&sessions);
    let id_b = second_id(&sessions);
    sessions.get_mut(&id_a).unwrap().rx_interested = true;
    let res = decide(donglora_protocol::commands::TYPE_RX_START, &[], id_b, &mut state, &mut sessions);
    assert!(matches!(res, Decision::Synthesize { type_id: TYPE_OK, .. }));
    assert!(sessions.get(&id_b).unwrap().rx_interested);
}

#[test]
fn rx_start_already_interested_synthesizes_ok() {
    let mut sessions = make_sessions(1);
    let mut state = MuxState::new();
    let id = first_id(&sessions);
    sessions.get_mut(&id).unwrap().rx_interested = true;
    let res = decide(donglora_protocol::commands::TYPE_RX_START, &[], id, &mut state, &mut sessions);
    assert!(matches!(res, Decision::Synthesize { type_id: TYPE_OK, .. }));
}

#[test]
fn rx_stop_not_interested_synthesizes_ok() {
    let mut sessions = make_sessions(1);
    let mut state = MuxState::new();
    let id = first_id(&sessions);
    let res = decide(donglora_protocol::commands::TYPE_RX_STOP, &[], id, &mut state, &mut sessions);
    assert!(matches!(res, Decision::Synthesize { type_id: TYPE_OK, .. }));
}

#[test]
fn rx_stop_with_others_listening_synthesizes_ok_and_clears() {
    let mut sessions = make_sessions(2);
    let mut state = MuxState::new();
    let id_a = first_id(&sessions);
    let id_b = second_id(&sessions);
    sessions.get_mut(&id_a).unwrap().rx_interested = true;
    sessions.get_mut(&id_b).unwrap().rx_interested = true;
    let res = decide(donglora_protocol::commands::TYPE_RX_STOP, &[], id_a, &mut state, &mut sessions);
    assert!(matches!(res, Decision::Synthesize { type_id: TYPE_OK, .. }));
    assert!(!sessions.get(&id_a).unwrap().rx_interested);
    assert!(sessions.get(&id_b).unwrap().rx_interested);
}

#[test]
fn rx_stop_last_forwards_and_clears() {
    let mut sessions = make_sessions(1);
    let mut state = MuxState::new();
    let id = first_id(&sessions);
    sessions.get_mut(&id).unwrap().rx_interested = true;
    let res = decide(donglora_protocol::commands::TYPE_RX_STOP, &[], id, &mut state, &mut sessions);
    assert!(matches!(res, Decision::Forward));
    assert!(!sessions.get(&id).unwrap().rx_interested);
}

#[test]
fn other_commands_forward() {
    let mut sessions = make_sessions(1);
    let mut state = MuxState::new();
    let id = first_id(&sessions);
    // PING, GET_INFO forward unchanged.
    assert!(matches!(
        decide(donglora_protocol::commands::TYPE_PING, &[], id, &mut state, &mut sessions),
        Decision::Forward
    ));
    assert!(matches!(
        decide(donglora_protocol::commands::TYPE_GET_INFO, &[], id, &mut state, &mut sessions),
        Decision::Forward
    ));
}

#[test]
fn synthesize_err_encodes_wire_value() {
    let (type_id, payload) = synthesize_err(ErrorCode::EBusy);
    assert_eq!(type_id, TYPE_ERR);
    let code = donglora_protocol::events::decode_err_payload(&payload).unwrap();
    assert_eq!(code, donglora_protocol::ErrorCode::EBusy);
}

#[test]
fn every_error_code_is_read_back() {
    let pairs = [
        (ErrorCode::EParam, donglora_protocol::ErrorCode::EParam),
        (ErrorCode::ELength, donglora_protocol::ErrorCode::ELength),
        (ErrorCode::ENotConfigured, donglora_protocol::ErrorCode::ENotConfigured),
        (ErrorCode::EModulation, donglora_protocol::ErrorCode::EModulation),
        (ErrorCode::EUnknownCmd, donglora_protocol::ErrorCode::EUnknownCmd),
        (ErrorCode::EBusy, donglora_protocol::ErrorCode::EBusy),
        (ErrorCode::ERadio, donglora_protocol::ErrorCode::ERadio),
        (ErrorCode::EFrame, donglora_protocol::ErrorCode::EFrame),
        (ErrorCode::EInternal, donglora_protocol::ErrorCode::EInternal),
        (ErrorCode::Unknown(0xBEEF), donglora_protocol::ErrorCode::Unknown(0xBEEF)),
    ];
    for (ours, theirs) in pairs {
        let (_, payload) = synthesize_err(ours);
        assert_eq!(payload, ours.as_u16().to_le_bytes().to_vec());
        assert_eq!(donglora_protocol::events::decode_err_payload(&payload).unwrap(), theirs);
    }
    assert_eq!(synthesize_err(ErrorCode::EFrame).1, vec![0x02, 0x01]);
}

#[test]
fn locked_answer_has_exact_bytes() {
    let mut sessions = make_sessions(2);
    let id_a = first_id(&sessions);
    let id_b = second_id(&sessions);
    let mut state = MuxState::new();
    let current = encode_set_config(lora(910_525_000));
    state.locked = Locked::from_wire(&current).map(|m| (id_a, m));
    let other = encode_set_config(lora(868_100_000));
    for (wish, result) in [(current.clone(), 1u8), (other, 2u8)] {
        let Decision::Synthesize { payload, .. } = decide(
            donglora_protocol::commands::TYPE_SET_CONFIG,
            &wish,
            id_b,
            &mut state,
            &mut sessions,
        ) else {
            panic!("expected an answer")
        };
        let mut expected = vec![result, 2];
        expected.extend_from_slice(&current);
        assert_eq!(payload, expected);
        // The lock is where it was.
        let (owner, kept) = state.locked.as_ref().unwrap();
        assert_eq!(*owner, id_a);
        assert_eq!(kept.wire(), &current[..]);
    }
}

#[test]
fn set_config_of_the_only_client_forwards_under_anybodys_lock() {
    let mut sessions = make_sessions(1);
    let id = first_id(&sessions);
    let mut state = MuxState::new();
    state.locked = Some((id + 100, locked(lora(910_525_000))));
    let payload = encode_set_config(lora(915_000_000));
    assert!(matches!(
        decide(donglora_protocol::commands::TYPE_SET_CONFIG, &payload, id, &mut state, &mut sessions),
        Decision::Forward
    ));
}

#[test]
fn commands_of_unknown_clients_forward() {
    let mut sessions = make_sessions(2);
    let mut state = MuxState::new();
    let id_a = first_id(&sessions);
    sessions.get_mut(&id_a).unwrap().rx_interested = true;
    for type_id in [donglora_protocol::commands::TYPE_RX_START, donglora_protocol::commands::TYPE_RX_STOP] {
        assert!(matches!(decide(type_id, &[], 77, &mut state, &mut sessions), Decision::Forward));
    }
    assert!(sessions.get(&id_a).unwrap().rx_interested);
}

#[test]
fn malformed_commands_forward_and_change_nothing() {
    let mut sessions = make_sessions(2);
    let mut state = MuxState::new();
    let id_a = first_id(&sessions);
    let id_b = second_id(&sessions);
    sessions.get_mut(&id_a).unwrap().rx_interested = true;
    sessions.get_mut(&id_b).unwrap().rx_interested = true;
    // RX_STOP has no body; this is none.
    let res = decide(donglora_protocol::commands::TYPE_RX_STOP, &[1], id_a, &mut state, &mut sessions);
    assert!(matches!(res, Decision::Forward));
    assert!(sessions.get(&id_a).unwrap().rx_interested);
    assert!(matches!(decide(0x7F, &[], id_a, &mut state, &mut sessions), Decision::Forward));
}

#[test]
fn rx_interest_is_counted() {
    let mut sessions = make_sessions(3);
    assert_eq!(MuxState::rx_interest_count(&sessions), 0);
    sessions.get_mut(&0).unwrap().rx_interested = true;
    sessions.get_mut(&2).unwrap().rx_interested = true;
    assert_eq!(MuxState::rx_interest_count(&sessions), 2);
}
