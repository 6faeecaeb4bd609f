//! Frames on the wire: `COBS(type, tag, payload, CRC)` and a zero byte.
//!
//! Encoding and decoding are the `donglora_protocol` crate's. What is stated here is how a
//! stream of bytes falls into frames, and that a frame which was encoded is decoded again.
use crate::protocol::MAX_PAYLOAD_FIELD;
use vstd::prelude::*;

verus! {

/// Longest encoded frame without its terminating zero that a decoder buffers.
pub const MAX_FRAME_BODY: usize = 283;

/// The wire form of a frame, as `donglora_protocol::encode_frame` writes it.
pub uninterp spec fn frame_wire(type_id: u8, tag: u16, payload: Seq<u8>) -> Seq<u8>;

/// What the bytes between two zeros decode to, as `donglora_protocol::FrameDecoder` decodes
/// them: a type, a tag and a payload, or nothing where COBS, length or CRC is wrong.
pub uninterp spec fn decoded_body(body: Seq<u8>) -> Option<(u8, u16, Seq<u8>)>;

/// Whether `wire` is a body that fits a decoder's buffer, without zeros, and one zero at the
/// end.
pub open spec fn is_delimited(wire: Seq<u8>) -> bool {
    &&& 2 <= wire.len() <= MAX_FRAME_BODY + 1
    &&& wire.last() == 0
    &&& forall|i: int| 0 <= i < wire.len() - 1 ==> wire[i] != 0
}

/// Whether `wire` is a wire form of the given frame.
pub open spec fn is_wire_frame(wire: Seq<u8>, type_id: u8, tag: u16, payload: Seq<u8>) -> bool {
    &&& is_delimited(wire)
    &&& decoded_body(wire.drop_last()) == Some((type_id, tag, payload))
}

/// Calls `donglora_protocol::encode_frame` with a buffer of `MAX_WIRE_FRAME` bytes.
///
/// Claims that it succeeds on payloads of at most `MAX_PAYLOAD_FIELD` bytes and on no longer
/// ones, that what it writes depends on its arguments alone, and that it is a wire form of the
/// frame: the decoder of the same crate reads type, tag and payload back.
#[verifier::external_body]
pub(crate) fn encode_frame(type_id: u8, tag: u16, payload: &[u8]) -> (r: Option<Vec<u8>>)
    ensures
        r is Some <==> payload@.len() <= MAX_PAYLOAD_FIELD,
        r matches Some(w) ==> w@ == frame_wire(type_id, tag, payload@),
        r matches Some(w) ==> is_delimited(w@),
        r matches Some(w) ==> decoded_body(w@.drop_last()) == Some((type_id, tag, payload@)),
{
    let mut wire = [0u8; donglora_protocol::MAX_WIRE_FRAME];
    match donglora_protocol::encode_frame(type_id, tag, payload, &mut wire) {
        Ok(n) => Some(wire[..n].to_vec()),
        Err(_) => None,
    }
}

/// What a decoder reports: a frame, or that what stood between two zeros was none.
#[derive(Debug)]
pub enum FrameEvent {
    Frame { type_id: u8, tag: u16, payload: Vec<u8> },
    Corrupt,
}

/// What a [`FrameEvent`] is as a value.
pub enum FrameEventView {
    Frame { type_id: u8, tag: u16, payload: Seq<u8> },
    Corrupt,
}

impl View for FrameEvent {
    type V = FrameEventView;

    open spec fn view(&self) -> FrameEventView {
        match *self {
            FrameEvent::Frame { type_id, tag, payload } => FrameEventView::Frame {
                type_id,
                tag,
                payload: payload@,
            },
            FrameEvent::Corrupt => FrameEventView::Corrupt,
        }
    }
}

/// The values of a list of events.
pub open spec fn event_views(events: Seq<FrameEvent>) -> Seq<FrameEventView> {
    events.map_values(|e: FrameEvent| e@)
}

/// A decoder between two bytes: what it has buffered since the last zero, and whether that
/// grew too long and is being skipped.
pub struct DecoderView {
    pub buffer: Seq<u8>,
    pub overflowed: bool,
}

impl DecoderView {
    /// A decoder that has seen no byte since the last zero.
    pub open spec fn fresh() -> DecoderView {
        DecoderView { buffer: Seq::empty(), overflowed: false }
    }

    /// The decoder after one more byte.
    pub open spec fn after_byte(self, byte: u8) -> DecoderView {
        if byte == 0 {
            DecoderView::fresh()
        } else if self.overflowed || self.buffer.len() >= MAX_FRAME_BODY {
            DecoderView { buffer: Seq::empty(), overflowed: true }
        } else {
            DecoderView { buffer: self.buffer.push(byte), overflowed: false }
        }
    }

    /// What the decoder reports at one more byte.
    pub open spec fn at_byte(self, byte: u8) -> Seq<FrameEventView> {
        if byte != 0 || self.overflowed || self.buffer.len() == 0 {
            Seq::empty()
        } else {
            match decoded_body(self.buffer) {
                Some((type_id, tag, payload)) => seq![
                    FrameEventView::Frame { type_id, tag, payload },
                ],
                None => seq![FrameEventView::Corrupt],
            }
        }
    }

    /// The decoder after more bytes.
    pub open spec fn after(self, data: Seq<u8>) -> DecoderView
        decreases data.len(),
    {
        if data.len() == 0 {
            self
        } else {
            self.after(data.drop_last()).after_byte(data.last())
        }
    }

    /// What the decoder reports over more bytes.
    pub open spec fn events(self, data: Seq<u8>) -> Seq<FrameEventView>
        decreases data.len(),
    {
        if data.len() == 0 {
            Seq::empty()
        } else {
            self.events(data.drop_last()) + self.after(data.drop_last()).at_byte(data.last())
        }
    }
}

/// Declares `donglora_protocol::FrameDecoder`. Nothing inside it is seen but by the names below.
#[verifier::external_type_specification]
#[verifier::external_body]
pub struct ExFrameDecoder(donglora_protocol::FrameDecoder);

/// The bytes that a `donglora_protocol::FrameDecoder` has buffered.
pub uninterp spec fn decoder_buffer(decoder: donglora_protocol::FrameDecoder) -> Seq<u8>;

/// Whether a `donglora_protocol::FrameDecoder` is skipping to the next zero.
pub uninterp spec fn decoder_overflowed(decoder: donglora_protocol::FrameDecoder) -> bool;

/// What a `donglora_protocol::FrameDecoder` holds.
pub open spec fn decoder_view(decoder: donglora_protocol::FrameDecoder) -> DecoderView {
    DecoderView { buffer: decoder_buffer(decoder), overflowed: decoder_overflowed(decoder) }
}

/// Calls `donglora_protocol::FrameDecoder::new`.
///
/// Claims that a new decoder holds nothing.
#[verifier::external_body]
fn new_decoder() -> (r: donglora_protocol::FrameDecoder)
    ensures
        decoder_buffer(r) == Seq::<u8>::empty(),
        decoder_overflowed(r) == false,
{
    donglora_protocol::FrameDecoder::new()
}

/// Calls `donglora_protocol::FrameDecoder::feed`, and collects what it reports in order.
///
/// Claims that it buffers bytes up to a zero, decodes what is buffered there unless nothing is
/// or more than `MAX_FRAME_BODY` bytes came, and reports one event for each such body; and that
/// no decoded payload is longer than `MAX_PAYLOAD_FIELD`.
#[verifier::external_body]
fn feed_decoder(decoder: &mut donglora_protocol::FrameDecoder, data: &[u8]) -> (r: Vec<FrameEvent>)
    ensures
        event_views(r@) == decoder_view(*old(decoder)).events(data@),
        decoder_view(*final(decoder)) == decoder_view(*old(decoder)).after(data@),
        forall|i: int|
            0 <= i < r@.len() ==> (#[trigger] r@[i] matches FrameEvent::Frame { payload, .. }
                ==> payload@.len() <= MAX_PAYLOAD_FIELD),
{
    let mut events = Vec::new();
    decoder.feed(data, |result| match result {
        donglora_protocol::FrameResult::Ok { type_id, tag, payload } => {
            events.push(FrameEvent::Frame { type_id, tag, payload: payload.to_vec() })
        }
        donglora_protocol::FrameResult::Err(_) => events.push(FrameEvent::Corrupt),
    });
    events
}

/// Splits one direction of a connection into frames.
pub struct FrameReader {
    decoder: donglora_protocol::FrameDecoder,
}

impl View for FrameReader {
    type V = DecoderView;

    closed spec fn view(&self) -> DecoderView {
        decoder_view(self.decoder)
    }
}

impl FrameReader {
    /// A reader at the start of a stream.
    pub fn new() -> (r: FrameReader)
        ensures
            r@ == DecoderView::fresh(),
    {
        FrameReader { decoder: new_decoder() }
    }

    /// Takes the next bytes of the stream and returns what they complete.
    pub fn feed(&mut self, data: &[u8]) -> (r: Vec<FrameEvent>)
        ensures
            event_views(r@) == old(self)@.events(data@),
            final(self)@ == old(self)@.after(data@),
            forall|i: int|
                0 <= i < r@.len() ==> (#[trigger] r@[i] matches FrameEvent::Frame { payload, .. }
                    ==> payload@.len() <= MAX_PAYLOAD_FIELD),
    {
        feed_decoder(&mut self.decoder, data)
    }
}

// ---- Laws -----------------------------------------------------------------

/// It makes no difference how a stream is cut into reads: two reads report what one read of
/// all their bytes reports, and leave the decoder where it leaves it.
pub proof fn law_reads_concatenate(s: DecoderView, first: Seq<u8>, second: Seq<u8>)
    ensures
        s.after(first + second) == s.after(first).after(second),
        s.events(first + second) == s.events(first) + s.after(first).events(second),
    decreases second.len(),
{
    if second.len() == 0 {
        assert(first + second =~= first);
        assert(s.events(first) + Seq::<FrameEventView>::empty() =~= s.events(first));
    } else {
        law_reads_concatenate(s, first, second.drop_last());
        assert((first + second).drop_last() =~= first + second.drop_last());
        assert((first + second).last() == second.last());
        assert(s.events(first + second) =~= s.events(first) + s.after(first).events(second));
    }
}

/// Bytes other than zero are buffered, as long as they fit.
proof fn lemma_body_is_buffered(s: DecoderView, body: Seq<u8>)
    requires
        !s.overflowed,
        s.buffer.len() + body.len() <= MAX_FRAME_BODY,
        forall|i: int| 0 <= i < body.len() ==> body[i] != 0,
    ensures
        s.after(body) == (DecoderView { buffer: s.buffer + body, overflowed: false }),
        s.events(body) == Seq::<FrameEventView>::empty(),
    decreases body.len(),
{
    if body.len() == 0 {
        assert(s.buffer + body =~= s.buffer);
    } else {
        lemma_body_is_buffered(s, body.drop_last());
        assert((s.buffer + body.drop_last()).push(body.last()) =~= s.buffer + body);
        assert(s.events(body) =~= Seq::<FrameEventView>::empty());
    }
}

/// A frame that was encoded is decoded again, exactly once, and the decoder is then ready for
/// the next frame.
pub proof fn law_frame_round_trip(wire: Seq<u8>, type_id: u8, tag: u16, payload: Seq<u8>)
    requires
        is_wire_frame(wire, type_id, tag, payload),
    ensures
        DecoderView::fresh().events(wire) == seq![FrameEventView::Frame { type_id, tag, payload }],
        DecoderView::fresh().after(wire) == DecoderView::fresh(),
{
    let body = wire.drop_last();
    lemma_body_is_buffered(DecoderView::fresh(), body);
    assert(Seq::<u8>::empty() + body =~= body);
    assert(DecoderView::fresh().events(wire) =~= seq![
        FrameEventView::Frame { type_id, tag, payload },
    ]);
}

/// The bytes of several frames, one after the other.
pub open spec fn concatenated(wires: Seq<Seq<u8>>) -> Seq<u8>
    decreases wires.len(),
{
    if wires.len() == 0 {
        Seq::empty()
    } else {
        concatenated(wires.drop_last()) + wires.last()
    }
}

/// A stream of encoded frames is read as those frames, all of them and in order.
pub proof fn law_stream_round_trip(wires: Seq<Seq<u8>>, frames: Seq<(u8, u16, Seq<u8>)>)
    requires
        wires.len() == frames.len(),
        forall|i: int|
            0 <= i < wires.len() ==> is_wire_frame(
                #[trigger] wires[i],
                frames[i].0,
                frames[i].1,
                frames[i].2,
            ),
    ensures
        DecoderView::fresh().after(concatenated(wires)) == DecoderView::fresh(),
        DecoderView::fresh().events(concatenated(wires)) == frames.map_values(
            |f: (u8, u16, Seq<u8>)|
                FrameEventView::Frame { type_id: f.0, tag: f.1, payload: f.2 },
        ),
    decreases wires.len(),
{
    let fresh = DecoderView::fresh();
    let as_event = |f: (u8, u16, Seq<u8>)|
        FrameEventView::Frame { type_id: f.0, tag: f.1, payload: f.2 };
    if wires.len() == 0 {
        assert(fresh.events(concatenated(wires)) =~= frames.map_values(as_event));
    } else {
        let last = frames.last();
        law_stream_round_trip(wires.drop_last(), frames.drop_last());
        assert(is_wire_frame(wires[wires.len() - 1], last.0, last.1, last.2));
        law_frame_round_trip(wires.last(), last.0, last.1, last.2);
        law_reads_concatenate(fresh, concatenated(wires.drop_last()), wires.last());
        assert(fresh.events(concatenated(wires)) =~= frames.map_values(as_event));
    }
}

/// A zero byte resynchronises: whatever came before it, the decoder is then as at the start,
/// so a corrupt stretch costs no later frame.
pub proof fn law_zero_resynchronises(s: DecoderView, before: Seq<u8>, rest: Seq<u8>)
    ensures
        s.after(before.push(0)) == DecoderView::fresh(),
        s.events(before.push(0) + rest) == s.events(before.push(0)) + DecoderView::fresh().events(
            rest,
        ),
{
    assert(before.push(0).drop_last() =~= before);
    law_reads_concatenate(s, before.push(0), rest);
}

/// What a decoder that is skipping reads up to the next zero is skipped.
proof fn lemma_skipping_goes_on(s: DecoderView, body: Seq<u8>)
    requires
        s.overflowed,
        s.buffer.len() == 0,
        forall|i: int| 0 <= i < body.len() ==> body[i] != 0,
    ensures
        s.after(body) == s,
        s.events(body) == Seq::<FrameEventView>::empty(),
    decreases body.len(),
{
    if body.len() > 0 {
        lemma_skipping_goes_on(s, body.drop_last());
        assert(s.events(body) =~= Seq::<FrameEventView>::empty());
        assert(s.after(body).buffer =~= s.buffer);
    }
}

/// A stretch between zeros is reported once, at its end: as the frame that it decodes to, or as
/// corrupt. One that is empty, or too long for any frame, is not reported.
pub proof fn law_stretch_is_reported_once(body: Seq<u8>)
    requires
        forall|i: int| 0 <= i < body.len() ==> body[i] != 0,
    ensures
        ({
            let reported = DecoderView::fresh().events(body.push(0));
            &&& body.len() == 0 || body.len() > MAX_FRAME_BODY ==> reported.len() == 0
            &&& 0 < body.len() <= MAX_FRAME_BODY ==> reported.len() == 1
            &&& 0 < body.len() <= MAX_FRAME_BODY ==> (reported[0] is Corrupt <==> decoded_body(body)
                is None)
            &&& 0 < body.len() <= MAX_FRAME_BODY ==> (decoded_body(body) matches Some(
                (type_id, tag, payload),
            ) ==> reported[0] == (FrameEventView::Frame { type_id, tag, payload }))
        }),
{
    let fresh = DecoderView::fresh();
    assert(body.push(0).drop_last() =~= body);
    if body.len() <= MAX_FRAME_BODY {
        lemma_body_is_buffered(fresh, body);
        assert(fresh.buffer + body =~= body);
    } else {
        let first = body.take(MAX_FRAME_BODY as int);
        let next = seq![body[MAX_FRAME_BODY as int]];
        let rest = body.skip(MAX_FRAME_BODY + 1);
        assert(body =~= first + next + rest);
        lemma_body_is_buffered(fresh, first);
        law_reads_concatenate(fresh, first, next);
        law_reads_concatenate(fresh, first + next, rest);
        assert(next.drop_last() =~= Seq::empty());
        assert(next.last() == body[MAX_FRAME_BODY as int]);
        reveal_with_fuel(DecoderView::after, 2);
        reveal_with_fuel(DecoderView::events, 2);
        assert(fresh.after(first).events(next) =~= Seq::empty());
        lemma_skipping_goes_on(fresh.after(first + next), rest);
        assert(fresh.events(body) =~= Seq::empty());
    }
}

} // verus!
