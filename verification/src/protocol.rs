//! The wire shapes of the DongLoRa protocol that the multiplexer reads or writes.
//!
//! The codec itself is the `donglora_protocol` crate. This module states what its
//! messages look like as byte sequences, calls it, and hands plain values to the
//! rest of the library.
use vstd::prelude::*;

verus! {

/// `PING`, host to device.
pub const TYPE_PING: u8 = 0x01;

/// `GET_INFO`, host to device.
pub const TYPE_GET_INFO: u8 = 0x02;

/// `SET_CONFIG`, host to device.
pub const TYPE_SET_CONFIG: u8 = 0x03;

/// `TX`, host to device.
pub const TYPE_TX: u8 = 0x04;

/// `RX_START`, host to device.
pub const TYPE_RX_START: u8 = 0x05;

/// `RX_STOP`, host to device.
pub const TYPE_RX_STOP: u8 = 0x06;

/// `OK`, device to host.
pub const TYPE_OK: u8 = 0x80;

/// `ERR`, device to host.
pub const TYPE_ERR: u8 = 0x81;

/// `RX`, device to host.
pub const TYPE_RX: u8 = 0xC0;

/// `TX_DONE`, device to host.
pub const TYPE_TX_DONE: u8 = 0xC1;

/// Largest packet that goes over the air.
pub const MAX_OTA_PAYLOAD: usize = 255;

/// Largest payload field of any frame: a packet and its `RX` metadata.
pub const MAX_PAYLOAD_FIELD: usize = 275;

/// `SET_CONFIG` result: the request was accepted.
pub const RESULT_APPLIED: u8 = 0;

/// `SET_CONFIG` result: another client holds the lock, with the requested configuration.
pub const RESULT_ALREADY_MATCHED: u8 = 1;

/// `SET_CONFIG` result: another client holds the lock, with a different configuration.
pub const RESULT_LOCKED_MISMATCH: u8 = 2;

/// `SET_CONFIG` owner: the calling client holds the lock.
pub const OWNER_MINE: u8 = 1;

/// `SET_CONFIG` owner: a different client holds the lock.
pub const OWNER_OTHER: u8 = 2;

/// `TX_DONE` result: the packet went on the air.
pub const TX_TRANSMITTED: u8 = 0;

/// `RX` origin: sent by another client of this multiplexer.
pub const ORIGIN_LOCAL_LOOPBACK: u8 = 1;

/// The `width` low bytes of `value`, least significant first.
pub open spec fn le_bytes(value: nat, width: nat) -> Seq<u8>
    decreases width,
{
    if width == 0 {
        Seq::empty()
    } else {
        seq![(value % 256) as u8] + le_bytes(value / 256, (width - 1) as nat)
    }
}

/// The number that `bytes` spell, least significant first.
pub open spec fn le_value(bytes: Seq<u8>) -> nat
    decreases bytes.len(),
{
    if bytes.len() == 0 {
        0
    } else {
        bytes[0] as nat + 256 * le_value(bytes.skip(1))
    }
}

/// Bytes are spelled by the number that they spell.
pub proof fn law_bytes_spell_their_number(bytes: Seq<u8>)
    ensures
        le_bytes(le_value(bytes), bytes.len()) == bytes,
    decreases bytes.len(),
{
    if bytes.len() > 0 {
        law_bytes_spell_their_number(bytes.skip(1));
        assert(le_bytes(le_value(bytes), bytes.len()) =~= seq![bytes[0]] + bytes.skip(1));
        assert(seq![bytes[0]] + bytes.skip(1) =~= bytes);
    } else {
        assert(le_bytes(le_value(bytes), 0) =~= bytes);
    }
}

/// The code of an `ERR` can be read back from its payload.
pub proof fn law_error_code_round_trip(code: u16)
    ensures
        le_value(le_bytes(code as nat, 2)) == code,
{
    reveal_with_fuel(le_bytes, 3);
    reveal_with_fuel(le_value, 3);
    let bytes = le_bytes(code as nat, 2);
    assert(bytes =~= seq![(code % 256) as u8, (code / 256) as u8]);
    assert(bytes.skip(1) =~= seq![(code / 256) as u8]);
    assert(bytes.skip(1).skip(1) =~= Seq::empty());
}

// ---- Modulations ----------------------------------------------------------

/// LoRa parameters: frequency, spreading factor, bandwidth, coding rate, preamble,
/// sync word, power, header mode, payload CRC, IQ inversion.
pub open spec fn valid_lora(p: Seq<u8>) -> bool {
    p.len() == 15 && p[5] <= 13 && p[6] <= 3 && p[12] <= 1 && p[13] <= 1 && p[14] <= 1
}

/// FSK/GFSK parameters: a fixed part whose last byte is the length of the sync word
/// that follows.
pub open spec fn valid_fsk(p: Seq<u8>) -> bool {
    p.len() >= 16 && p[15] <= 8 && p.len() == 16 + p[15]
}

/// LR-FHSS parameters: frequency, bandwidth, coding rate, grid, hopping, power, and a
/// reserved byte that is zero.
pub open spec fn valid_lr_fhss(p: Seq<u8>) -> bool {
    p.len() == 10 && p[4] <= 7 && p[5] <= 3 && p[6] <= 1 && p[7] <= 1 && p[9] == 0
}

/// FLRC parameters: frequency, bitrate, coding rate, BT product, preamble, sync word, power.
pub open spec fn valid_flrc(p: Seq<u8>) -> bool {
    p.len() == 13 && p[4] <= 7 && p[5] <= 2 && p[6] <= 2 && p[7] <= 6
}

/// Whether `wire` is a modulation: one byte that names its kind, and parameters that
/// the kind admits.
pub open spec fn valid_modulation(wire: Seq<u8>) -> bool {
    &&& wire.len() > 0
    &&& if wire[0] == 1 {
        valid_lora(wire.skip(1))
    } else if wire[0] == 2 {
        valid_fsk(wire.skip(1))
    } else if wire[0] == 3 {
        valid_lr_fhss(wire.skip(1))
    } else if wire[0] == 4 {
        valid_flrc(wire.skip(1))
    } else {
        false
    }
}

/// No modulation takes more than 25 bytes.
pub proof fn lemma_modulation_len(wire: Seq<u8>)
    requires
        valid_modulation(wire),
    ensures
        wire.len() <= 25,
{
}

/// A radio configuration, held in its wire form: two configurations are the same when
/// they are the same bytes on the wire.
pub struct Modulation {
    wire: Vec<u8>,
}

impl View for Modulation {
    type V = Seq<u8>;

    closed spec fn view(&self) -> Seq<u8> {
        self.wire@
    }
}

impl Modulation {
    #[verifier::type_invariant]
    spec fn inv(self) -> bool {
        valid_modulation(self.wire@)
    }

    /// The modulation that `wire` encodes, if it encodes one.
    pub fn from_wire(wire: &[u8]) -> (r: Option<Modulation>)
        ensures
            r is Some <==> valid_modulation(wire@),
            r matches Some(m) ==> m@ == wire@,
    {
        match parse_command(TYPE_SET_CONFIG, wire) {
            Some(Command::SetConfig(wire)) => Some(Modulation { wire }),
            _ => None,
        }
    }

    /// The modulation with the wire form `wire`.
    pub(crate) fn new(wire: Vec<u8>) -> (r: Modulation)
        requires
            valid_modulation(wire@),
        ensures
            r@ == wire@,
    {
        Modulation { wire }
    }

    /// The wire form.
    pub fn wire(&self) -> (r: &[u8])
        ensures
            r@ == self@,
            valid_modulation(self@),
    {
        proof {
            use_type_invariant(self);
        }
        self.wire.as_slice()
    }

    /// Whether two modulations are the same parameters on the wire.
    pub fn matches(&self, other: &Modulation) -> (r: bool)
        ensures
            r == (self@ == other@),
    {
        bytes_equal(self.wire.as_slice(), other.wire.as_slice())
    }
}

/// Whether two byte strings are equal.
fn bytes_equal(a: &[u8], b: &[u8]) -> (r: bool)
    ensures
        r == (a@ == b@),
{
    if a.len() != b.len() {
        return false;
    }
    let mut i: usize = 0;
    while i < a.len()
        invariant
            i <= a@.len(),
            a@.len() == b@.len(),
            forall|j: int| 0 <= j < i ==> a@[j] == b@[j],
        decreases a@.len() - i,
    {
        if a[i] != b[i] {
            return false;
        }
        i += 1;
    }
    assert(a@ =~= b@);
    true
}

// ---- Commands -------------------------------------------------------------

/// A host-to-device command, as far as the multiplexer reads it: a `SET_CONFIG` carries
/// the wire form of the requested modulation.
pub enum Command {
    Ping,
    GetInfo,
    SetConfig(Vec<u8>),
    Tx,
    RxStart,
    RxStop,
}

/// What a [`Command`] is as a value.
pub enum CommandView {
    Ping,
    GetInfo,
    SetConfig(Seq<u8>),
    Tx,
    RxStart,
    RxStop,
}

impl View for Command {
    type V = CommandView;

    open spec fn view(&self) -> CommandView {
        match *self {
            Command::Ping => CommandView::Ping,
            Command::GetInfo => CommandView::GetInfo,
            Command::SetConfig(wire) => CommandView::SetConfig(wire@),
            Command::Tx => CommandView::Tx,
            Command::RxStart => CommandView::RxStart,
            Command::RxStop => CommandView::RxStop,
        }
    }
}

/// Whether a command without a body may carry `payload`, and what it then is.
pub open spec fn bare(command: CommandView, payload: Seq<u8>) -> Option<CommandView> {
    if payload.len() == 0 {
        Some(command)
    } else {
        None
    }
}

/// The command that a frame of type `type_id` with body `payload` carries, if it carries one.
pub open spec fn command_of(type_id: u8, payload: Seq<u8>) -> Option<CommandView> {
    if type_id == TYPE_PING {
        bare(CommandView::Ping, payload)
    } else if type_id == TYPE_GET_INFO {
        bare(CommandView::GetInfo, payload)
    } else if type_id == TYPE_RX_START {
        bare(CommandView::RxStart, payload)
    } else if type_id == TYPE_RX_STOP {
        bare(CommandView::RxStop, payload)
    } else if type_id == TYPE_SET_CONFIG && valid_modulation(payload) {
        Some(CommandView::SetConfig(payload))
    } else if type_id == TYPE_TX && 2 <= payload.len() <= 1 + MAX_OTA_PAYLOAD && payload[0] <= 1 {
        Some(CommandView::Tx)
    } else {
        None
    }
}

/// Calls `donglora_protocol::Command::parse`, and turns the modulation of a parsed
/// `SET_CONFIG` into its wire form with `Modulation::encode`.
///
/// Claims that the four commands without a body are recognised when the body is empty,
/// `TX` when one flag byte of 0 or 1 precedes 1 to 255 bytes, and `SET_CONFIG` when the
/// body is a modulation; and that encoding a decoded modulation gives its bytes back.
#[verifier::external_body]
pub(crate) fn parse_command(type_id: u8, payload: &[u8]) -> (r: Option<Command>)
    ensures
        r is Some <==> command_of(type_id, payload@) is Some,
        r matches Some(c) ==> command_of(type_id, payload@) == Some(c@),
{
    match donglora_protocol::Command::parse(type_id, payload) {
        Ok(donglora_protocol::Command::Ping) => Some(Command::Ping),
        Ok(donglora_protocol::Command::GetInfo) => Some(Command::GetInfo),
        Ok(donglora_protocol::Command::SetConfig(m)) => {
            let mut buf = [0u8; donglora_protocol::MAX_SETCONFIG_OK_PAYLOAD];
            m.encode(&mut buf).ok().map(|n| Command::SetConfig(buf[..n].to_vec()))
        }
        Ok(donglora_protocol::Command::Tx { .. }) => Some(Command::Tx),
        Ok(donglora_protocol::Command::RxStart) => Some(Command::RxStart),
        Ok(donglora_protocol::Command::RxStop) => Some(Command::RxStop),
        Err(_) => None,
    }
}

// ---- Device messages ------------------------------------------------------

/// A code of the protocol's error table; `Unknown` carries one that is not in it.
#[derive(Clone, Copy, Debug, PartialEq, Eq, Structural)]
pub enum ErrorCode {
    EParam,
    ELength,
    ENotConfigured,
    EModulation,
    EUnknownCmd,
    EBusy,
    ERadio,
    EFrame,
    EInternal,
    Unknown(u16),
}

impl ErrorCode {
    /// The number of the code on the wire.
    pub open spec fn number(self) -> u16 {
        match self {
            ErrorCode::EParam => 0x0001,
            ErrorCode::ELength => 0x0002,
            ErrorCode::ENotConfigured => 0x0003,
            ErrorCode::EModulation => 0x0004,
            ErrorCode::EUnknownCmd => 0x0005,
            ErrorCode::EBusy => 0x0006,
            ErrorCode::ERadio => 0x0101,
            ErrorCode::EFrame => 0x0102,
            ErrorCode::EInternal => 0x0103,
            ErrorCode::Unknown(raw) => raw,
        }
    }

    /// The number of the code on the wire.
    pub fn as_u16(self) -> (r: u16)
        ensures
            r == self.number(),
    {
        match self {
            ErrorCode::EParam => 0x0001,
            ErrorCode::ELength => 0x0002,
            ErrorCode::ENotConfigured => 0x0003,
            ErrorCode::EModulation => 0x0004,
            ErrorCode::EUnknownCmd => 0x0005,
            ErrorCode::EBusy => 0x0006,
            ErrorCode::ERadio => 0x0101,
            ErrorCode::EFrame => 0x0102,
            ErrorCode::EInternal => 0x0103,
            ErrorCode::Unknown(raw) => raw,
        }
    }
}

/// Calls `donglora_protocol::events::encode_err_payload`.
///
/// Claims that a buffer of two bytes is enough for any code, and that the payload is the
/// code's number, least significant byte first.
#[verifier::external_body]
pub(crate) fn encode_err_payload(code: u16) -> (r: Option<Vec<u8>>)
    ensures
        r is Some,
        r->0@ == le_bytes(code as nat, 2),
{
    let mut buf = [0u8; 2];
    let code = donglora_protocol::ErrorCode::from_u16(code);
    donglora_protocol::events::encode_err_payload(code, &mut buf).ok().map(|n| buf[..n].to_vec())
}

/// The body of an `OK` that answers `SET_CONFIG`.
pub open spec fn set_config_ok(result: u8, owner: u8, current: Seq<u8>) -> Seq<u8> {
    seq![result, owner] + current
}

/// Calls `donglora_protocol::OkPayload::encode` on a `SetConfig`, whose modulation is built
/// from its wire form with `Modulation::decode`.
///
/// Claims that a buffer of `MAX_SETCONFIG_OK_PAYLOAD` bytes is enough, and that the payload
/// is the result, the owner, and the modulation's own bytes.
#[verifier::external_body]
pub(crate) fn encode_set_config_ok(result: u8, owner: u8, current: &[u8]) -> (r: Option<Vec<u8>>)
    requires
        result <= 2,
        owner <= 2,
        valid_modulation(current@),
    ensures
        r is Some,
        r->0@ == set_config_ok(result, owner, current@),
{
    let reply = donglora_protocol::SetConfigResult {
        result: donglora_protocol::SetConfigResultCode::from_u8(result)?,
        owner: donglora_protocol::Owner::from_u8(owner)?,
        current: donglora_protocol::Modulation::decode(current).ok()?,
    };
    let mut buf = [0u8; donglora_protocol::MAX_SETCONFIG_OK_PAYLOAD];
    let n = donglora_protocol::OkPayload::SetConfig(reply).encode(&mut buf).ok()?;
    Some(buf[..n].to_vec())
}

/// The body of an `OK` that answers `SET_CONFIG`, taken apart.
pub struct SetConfigReply {
    pub result: u8,
    pub owner: u8,
    pub current: Vec<u8>,
}

/// Whether `payload` is the body of an `OK` that answers `SET_CONFIG`.
pub open spec fn valid_set_config_ok(payload: Seq<u8>) -> bool {
    payload.len() >= 2 && payload[0] <= 2 && payload[1] <= 2 && valid_modulation(payload.skip(2))
}

/// Calls `donglora_protocol::OkPayload::parse_for`, and turns the modulation of the result
/// into its wire form with `Modulation::encode`.
///
/// Claims that for `SET_CONFIG` it accepts a result byte and an owner byte of at most 2 that
/// precede a modulation, and nothing else; and that encoding a decoded modulation gives its
/// bytes back.
#[verifier::external_body]
pub(crate) fn parse_set_config_ok(cmd_type: u8, payload: &[u8]) -> (r: Option<SetConfigReply>)
    requires
        cmd_type == TYPE_SET_CONFIG,
    ensures
        r is Some <==> valid_set_config_ok(payload@),
        r matches Some(s) ==> payload@ == set_config_ok(s.result, s.owner, s.current@),
{
    match donglora_protocol::OkPayload::parse_for(cmd_type, payload) {
        Ok(donglora_protocol::OkPayload::SetConfig(s)) => {
            let mut buf = [0u8; donglora_protocol::MAX_SETCONFIG_OK_PAYLOAD];
            let n = s.current.encode(&mut buf).ok()?;
            let current = buf[..n].to_vec();
            Some(SetConfigReply { result: s.result.as_u8(), owner: s.owner.as_u8(), current })
        }
        _ => None,
    }
}

/// The body of a `TX_DONE`, taken apart.
pub struct TxDone {
    pub result: u8,
    pub airtime_us: u32,
}

/// Whether `payload` is the body of a `TX_DONE`: a result and the airtime.
pub open spec fn valid_tx_done(payload: Seq<u8>) -> bool {
    payload.len() == 5 && payload[0] <= 2
}

/// Calls `donglora_protocol::TxDonePayload::decode`.
///
/// Claims that it accepts five bytes of which the first, the result, is at most 2, and that
/// the other four are the airtime, least significant byte first.
#[verifier::external_body]
pub(crate) fn decode_tx_done(payload: &[u8]) -> (r: Option<TxDone>)
    ensures
        r is Some <==> valid_tx_done(payload@),
        r matches Some(t) ==> t.result == payload@[0],
        r matches Some(t) ==> t.airtime_us == le_value(payload@.skip(1)),
{
    match donglora_protocol::TxDonePayload::decode(payload) {
        Ok(t) => Some(TxDone { result: t.result.as_u8(), airtime_us: t.airtime_us }),
        Err(_) => None,
    }
}

/// The body of an `RX`, taken apart.
pub struct RxPayload {
    pub rssi_tenths_dbm: i16,
    pub snr_tenths_db: i16,
    pub freq_err_hz: i32,
    pub timestamp_us: u64,
    pub crc_valid: bool,
    pub packets_dropped: u16,
    pub origin: u8,
    pub data: Vec<u8>,
}

impl RxPayload {
    /// The bytes of the body: the metadata, then the packet.
    pub open spec fn bytes(self) -> Seq<u8> {
        le_bytes((self.rssi_tenths_dbm as u16) as nat, 2) + le_bytes(
            (self.snr_tenths_db as u16) as nat,
            2,
        ) + le_bytes((self.freq_err_hz as u32) as nat, 4) + le_bytes(self.timestamp_us as nat, 8)
            + seq![if self.crc_valid { 1u8 } else { 0u8 }] + le_bytes(
            self.packets_dropped as nat,
            2,
        ) + seq![self.origin] + self.data@
    }
}

/// Calls `donglora_protocol::RxPayload::encode`, with the packet copied into the fixed-size
/// vector that it takes by `heapless::Vec::from_slice`.
///
/// Claims that it succeeds on every packet of at most `MAX_OTA_PAYLOAD` bytes and on no longer
/// one, and that the body is the metadata, each number least significant byte first, and the
/// packet.
#[verifier::external_body]
pub(crate) fn encode_rx(rx: &RxPayload) -> (r: Option<Vec<u8>>)
    requires
        rx.origin <= 1,
    ensures
        r is Some <==> rx.data@.len() <= MAX_OTA_PAYLOAD,
        r matches Some(b) ==> b@ == rx.bytes(),
{
    let out = donglora_protocol::RxPayload {
        rssi_tenths_dbm: rx.rssi_tenths_dbm,
        snr_tenths_db: rx.snr_tenths_db,
        freq_err_hz: rx.freq_err_hz,
        timestamp_us: rx.timestamp_us,
        crc_valid: rx.crc_valid,
        packets_dropped: rx.packets_dropped,
        origin: donglora_protocol::RxOrigin::from_u8(rx.origin)?,
        data: heapless::Vec::from_slice(&rx.data).ok()?,
    };
    let mut buf = [0u8; donglora_protocol::MAX_PAYLOAD_FIELD];
    let n = out.encode(&mut buf).ok()?;
    Some(buf[..n].to_vec())
}

} // verus!
