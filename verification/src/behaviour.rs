//! What each input does, client by client and byte by byte: what it changes, what it leaves
//! alone, and who gets to see what.
use crate::clock::{epoch_micros, is_clock_reading, timestamp};
use crate::framing::{
    event_views, is_wire_frame, law_frame_round_trip, DecoderView, FrameEvent, FrameEventView,
};
use crate::intercept::{
    decided_sessions, decision, interested, Decision, DecisionView, LockView, MuxState,
};
use crate::laws::{
    addressed_to, in_flight, is_loopback, lemma_copies, lemma_loopback_bytes, Step,
};
use crate::model::{
    are_readings, delivered, offered_by, totals_of, ActionView, ClientAction, DropReport, MuxView,
    Outgoing, OutgoingView, WorkView, WriterWork, SYNTHETIC_CLIENT,
};
use crate::protocol::{
    le_bytes, valid_modulation, ErrorCode, MAX_OTA_PAYLOAD, MAX_PAYLOAD_FIELD, OWNER_MINE,
    OWNER_OTHER, RESULT_ALREADY_MATCHED, RESULT_APPLIED, RESULT_LOCKED_MISMATCH, TX_TRANSMITTED,
    TYPE_ERR, TYPE_GET_INFO, TYPE_OK, TYPE_PING, TYPE_RX, TYPE_RX_START, TYPE_RX_STOP,
    TYPE_SET_CONFIG, TYPE_TX, TYPE_TX_DONE,
};
use crate::queue::SendOutcome;
use crate::session::{
    full_count, law_sends_keep_the_session, session_views, ClientSession, SessionView,
};
use crate::tags::{law_fresh_tag, ClientId, Pending};
use vstd::prelude::*;

verus! {

// ---- Words ----------------------------------------------------------------

/// Whether a client is connected and listens.
pub open spec fn listens(s: MuxView, id: ClientId) -> bool {
    s.sessions.contains_key(id) && s.sessions[id].rx_interested
}

/// Whether two sessions differ at most in whether the client listens.
pub open spec fn same_but_interest(a: SessionView, b: SessionView) -> bool {
    a.id == b.id && a.queue == b.queue && a.drops == b.drops && a.tx_cache == b.tx_cache
}

/// Whether two sessions differ at most in the packet that is cached under one tag.
pub open spec fn same_but_packet(a: SessionView, b: SessionView, upstream_tag: u16) -> bool {
    &&& a.id == b.id && a.rx_interested == b.rx_interested && a.queue == b.queue && a.drops
        == b.drops
    &&& forall|u: u16|
        u != upstream_tag ==> #[trigger] a.tx_cache.get(u) == b.tx_cache.get(u)
}

/// Whether two states have the same clients, and all but one of them the same session.
pub open spec fn same_but_client(s: MuxView, t: MuxView, client_id: ClientId) -> bool {
    &&& t.sessions.dom() == s.sessions.dom()
    &&& forall|id: ClientId|
        id != client_id && #[trigger] s.sessions.contains_key(id) ==> t.sessions[id]
            == s.sessions[id]
}

/// Whether a frame is a `PING`, a `GET_INFO` or a `TX`.
pub open spec fn is_plain_command(type_id: u8, payload: Seq<u8>) -> bool {
    ||| type_id == TYPE_PING && payload.len() == 0
    ||| type_id == TYPE_GET_INFO && payload.len() == 0
    ||| type_id == TYPE_TX && 2 <= payload.len() <= 1 + MAX_OTA_PAYLOAD && payload[0] <= 1
}

/// Whether a frame is an `RX_START` or an `RX_STOP`.
pub open spec fn is_reception_command(type_id: u8, payload: Seq<u8>) -> bool {
    (type_id == TYPE_RX_START || type_id == TYPE_RX_STOP) && payload.len() == 0
}

/// Whether a frame is a `SET_CONFIG`.
pub open spec fn is_set_config(type_id: u8, payload: Seq<u8>) -> bool {
    type_id == TYPE_SET_CONFIG && valid_modulation(payload)
}

// ---- What a client gets of several frames ---------------------------------

proof fn lemma_addressed_concat(a: Seq<OutgoingView>, b: Seq<OutgoingView>, id: ClientId)
    ensures
        addressed_to(a + b, id) == addressed_to(a, id) + addressed_to(b, id),
    decreases b.len(),
{
    if b.len() == 0 {
        assert(a + b =~= a);
        assert(addressed_to(a, id) + addressed_to(b, id) =~= addressed_to(a, id));
    } else {
        lemma_addressed_concat(a, b.drop_last(), id);
        assert((a + b).drop_last() =~= a + b.drop_last());
        assert((a + b).last() == b.last());
        assert(addressed_to(a + b, id) =~= addressed_to(a, id) + addressed_to(b, id));
    }
}

proof fn lemma_addressed_one(v: OutgoingView, id: ClientId)
    ensures
        addressed_to(seq![v], id) == if v.recipients.contains(id) {
            seq![(v.type_id, v.tag, v.payload)]
        } else {
            Seq::empty()
        },
{
    assert(seq![v].drop_last() =~= Seq::empty());
    assert(seq![v].last() == v);
    assert(addressed_to(Seq::empty(), id) =~= Seq::empty());
    assert(addressed_to(seq![v], id) =~= if v.recipients.contains(id) {
        seq![(v.type_id, v.tag, v.payload)]
    } else {
        Seq::empty()
    });
}

// ---- Frames from the dongle -----------------------------------------------

/// A frame from the dongle touches no session but that of the client whose command it answers,
/// and of that one only what the answer is about: whether the client listens, and the packet of
/// the command.
pub proof fn law_dongle_frame_touches_one_client(
    s: MuxView,
    type_id: u8,
    tag: u16,
    payload: Seq<u8>,
)
    requires
        s.wf(),
    ensures
        ({
            let t = s.after_dongle_frame(type_id, tag, payload);
            &&& t.tags.next == s.tags.next
            &&& in_flight(s, tag) is None ==> t == s
            &&& in_flight(s, tag) matches Some(p) ==> {
                &&& same_but_client(s, t, p.client_id)
                &&& p.cmd_type == TYPE_TX && type_id == TYPE_TX_DONE && s.sessions.contains_key(
                    p.client_id,
                ) ==> {
                    &&& same_but_packet(
                        s.sessions[p.client_id],
                        t.sessions[p.client_id],
                        p.upstream_tag,
                    )
                    &&& !t.sessions[p.client_id].tx_cache.contains_key(p.upstream_tag)
                }
                &&& !(p.cmd_type == TYPE_TX && type_id == TYPE_TX_DONE)
                    && s.sessions.contains_key(p.client_id) ==> same_but_interest(
                    s.sessions[p.client_id],
                    t.sessions[p.client_id],
                )
            }
        }),
{
    let t = s.after_dongle_frame(type_id, tag, payload);
    assert(t.sessions.dom() =~= s.sessions.dom());
    if let Some(p) = in_flight(s, tag) {
        if s.sessions.contains_key(p.client_id) {
            let a = s.sessions[p.client_id];
            let b = t.sessions[p.client_id];
            assert forall|u: u16| u != p.upstream_tag implies #[trigger] a.tx_cache.get(u)
                == b.tx_cache.get(u) by {}
        }
    }
}

/// A frame from the dongle takes out of flight the command that it answers, and no other; the
/// `OK` to a `TX` takes out none.
pub proof fn law_dongle_frame_settles_one_command(
    s: MuxView,
    type_id: u8,
    tag: u16,
    payload: Seq<u8>,
    other: u16,
)
    requires
        s.wf(),
    ensures
        ({
            let t = s.after_dongle_frame(type_id, tag, payload);
            &&& other != tag ==> in_flight(t, other) == in_flight(s, other)
            &&& in_flight(s, tag) matches Some(p) ==> if p.cmd_type == TYPE_TX && type_id
                == TYPE_OK {
                in_flight(t, tag) == Some(p)
            } else {
                in_flight(t, tag) is None
            }
        }),
{
}

/// A frame from the dongle changes who listens only if it is an `OK` to an `RX_START`, after
/// which the client listens, or to an `RX_STOP`, after which it does not.
pub proof fn law_dongle_frame_and_listeners(
    s: MuxView,
    type_id: u8,
    tag: u16,
    payload: Seq<u8>,
    id: ClientId,
)
    requires
        s.wf(),
    ensures
        ({
            let t = s.after_dongle_frame(type_id, tag, payload);
            let p = in_flight(s, tag);
            if s.sessions.contains_key(id) && type_id == TYPE_OK && (p matches Some(p)
                && p.client_id == id && p.cmd_type == TYPE_RX_START) {
                listens(t, id)
            } else if type_id == TYPE_OK && (p matches Some(p) && p.client_id == id && p.cmd_type
                == TYPE_RX_STOP) {
                !listens(t, id)
            } else {
                listens(t, id) == listens(s, id)
            }
        }),
{
}

/// A frame from the dongle changes the configuration lock exactly if it is an `OK` to a
/// `SET_CONFIG` that reports a configuration as applied for the client that asked; the lock is
/// then that client's, with that configuration.
pub proof fn law_dongle_frame_and_lock(
    s: MuxView,
    type_id: u8,
    tag: u16,
    payload: Seq<u8>,
    current: Seq<u8>,
)
    requires
        s.wf(),
    ensures
        ({
            let t = s.after_dongle_frame(type_id, tag, payload);
            let asked = in_flight(s, tag) matches Some(p) && p.cmd_type == TYPE_SET_CONFIG;
            &&& asked && type_id == TYPE_OK && valid_modulation(current) && payload == seq![
                RESULT_APPLIED,
                OWNER_MINE,
            ] + current ==> t.lock == Some((in_flight(s, tag)->0.client_id, current))
            &&& !(asked && type_id == TYPE_OK && payload.len() >= 2 && payload[0] == RESULT_APPLIED
                && payload[1] == OWNER_MINE && valid_modulation(payload.skip(2))) ==> t.lock
                == s.lock
        }),
{
    if payload == seq![RESULT_APPLIED, OWNER_MINE] + current {
        assert(payload.skip(2) =~= current);
    }
}

/// Whether a frame from the dongle reports that a packet in the cache went on the air.
pub open spec fn reports_transmission(s: MuxView, type_id: u8, tag: u16, payload: Seq<u8>) -> bool {
    in_flight(s, tag) matches Some(p) && p.cmd_type == TYPE_TX && type_id == TYPE_TX_DONE
        && payload.len() == 5 && payload[0] == TX_TRANSMITTED && s.sessions.contains_key(
        p.client_id,
    ) && s.sessions[p.client_id].tx_cache.contains_key(p.upstream_tag)
        && s.sessions[p.client_id].tx_cache[p.upstream_tag].len() <= MAX_OTA_PAYLOAD
}

/// What one client gets at a frame from the dongle. Without a tag, everybody gets the frame. With
/// one, the client whose command it answers gets the frame, once, under its own tag and with the
/// body untouched; and the others get nothing, but for a packet that went on the air, which they
/// get whole and once.
pub proof fn law_who_gets_a_dongle_frame(
    s: MuxView,
    type_id: u8,
    tag: u16,
    payload: Seq<u8>,
    now: u64,
    id: ClientId,
)
    requires
        s.wf(),
        payload.len() <= MAX_PAYLOAD_FIELD,
    ensures
        ({
            let got = addressed_to(s.at_dongle_frame(type_id, tag, payload, now), id);
            &&& !s.sessions.contains_key(id) ==> got.len() == 0
            &&& s.sessions.contains_key(id) && tag == 0 ==> got == seq![(type_id, 0u16, payload)]
            &&& tag != 0 && in_flight(s, tag) is None ==> got.len() == 0
            &&& s.sessions.contains_key(id) && tag != 0 ==> (in_flight(s, tag) matches Some(p) ==> {
                &&& p.client_id == id ==> got == seq![(type_id, p.upstream_tag, payload)]
                &&& p.client_id != id && !reports_transmission(s, type_id, tag, payload)
                    ==> got.len() == 0
                &&& p.client_id != id && reports_transmission(s, type_id, tag, payload) ==> {
                    &&& got.len() == 1
                    &&& got[0].0 == TYPE_RX
                    &&& got[0].1 == 0
                    &&& is_loopback(
                        got[0].2,
                        now,
                        s.sessions[p.client_id].tx_cache[p.upstream_tag],
                    )
                }
            })
        }),
{
    let outs = s.at_dongle_frame(type_id, tag, payload, now);
    if tag == 0 {
        assert(outs =~= seq![outs[0]]);
        lemma_addressed_one(outs[0], id);
    } else if let Some(p) = in_flight(s, tag) {
        if s.sessions.contains_key(p.client_id) {
            lemma_addressed_one(outs[0], id);
            if reports_transmission(s, type_id, tag, payload) {
                assert(outs =~= seq![outs[0]] + seq![outs[1]]);
                lemma_addressed_concat(seq![outs[0]], seq![outs[1]], id);
                lemma_addressed_one(outs[1], id);
                lemma_loopback_bytes(now, s.sessions[p.client_id].tx_cache[p.upstream_tag]);
                assert(addressed_to(outs, id) =~= addressed_to(seq![outs[0]], id) + addressed_to(
                    seq![outs[1]],
                    id,
                ));
                if id == p.client_id {
                    assert(addressed_to(outs, id) =~= seq![(type_id, p.upstream_tag, payload)]);
                }
            } else {
                assert(outs =~= seq![outs[0]]);
            }
        } else {
            assert(outs =~= Seq::empty());
        }
    }
}

/// A frame that is too long to be sent on goes to nobody.
pub proof fn law_overlong_frames_go_nowhere(
    s: MuxView,
    type_id: u8,
    tag: u16,
    payload: Seq<u8>,
    now: u64,
)
    requires
        s.wf(),
        payload.len() > MAX_PAYLOAD_FIELD,
    ensures
        s.at_dongle_frame(type_id, tag, payload, now).len() == 0,
{
}

// ---- Reads from the dongle ------------------------------------------------

/// Dispatching a read is dispatching its parts: the state after two lists of events is that
/// after the first and then the second, and what is sent is what the first has sent and then what
/// the second has sent.
pub proof fn law_reads_are_dispatched_in_parts(
    s: MuxView,
    a: Seq<FrameEventView>,
    b: Seq<FrameEventView>,
    times_a: Seq<u64>,
    times_b: Seq<u64>,
)
    requires
        times_a.len() == a.len(),
        times_b.len() == b.len(),
    ensures
        s.after_dongle_events(a + b) == s.after_dongle_events(a).after_dongle_events(b),
        s.at_dongle_frames(a + b, times_a + times_b) == s.at_dongle_frames(a, times_a)
            + s.after_dongle_events(a).at_dongle_frames(b, times_b),
    decreases b.len(),
{
    if b.len() == 0 {
        assert(a + b =~= a);
        assert(times_a + times_b =~= times_a);
        assert(s.at_dongle_frames(a, times_a) + Seq::<OutgoingView>::empty()
            =~= s.at_dongle_frames(a, times_a));
    } else {
        law_reads_are_dispatched_in_parts(s, a, b.drop_last(), times_a, times_b.drop_last());
        assert((a + b).drop_last() =~= a + b.drop_last());
        assert((a + b).last() == b.last());
        assert((times_a + times_b).drop_last() =~= times_a + times_b.drop_last());
        assert((times_a + times_b).last() == times_b.last());
        assert(s.at_dongle_frames(a + b, times_a + times_b) =~= s.at_dongle_frames(a, times_a)
            + s.after_dongle_events(a).at_dongle_frames(b, times_b));
    }
}

/// Dispatching a read of one frame is dispatching the frame; a read of nothing, or of one corrupt
/// stretch, changes nothing and has no frame sent.
pub proof fn law_single_events_are_dispatched(
    s: MuxView,
    type_id: u8,
    tag: u16,
    payload: Seq<u8>,
    now: u64,
)
    ensures
        ({
            let frame = seq![FrameEventView::Frame { type_id, tag, payload }];
            let corrupt = seq![FrameEventView::Corrupt];
            &&& s.after_dongle_events(frame) == s.after_dongle_frame(type_id, tag, payload)
            &&& s.at_dongle_frames(frame, seq![now]) == s.at_dongle_frame(
                type_id,
                tag,
                payload,
                now,
            )
            &&& s.after_dongle_events(corrupt) == s
            &&& s.at_dongle_frames(corrupt, seq![now]).len() == 0
            &&& s.after_dongle_events(Seq::empty()) == s
            &&& s.at_dongle_frames(Seq::empty(), Seq::empty()).len() == 0
        }),
{
    reveal_with_fuel(MuxView::after_dongle_events, 2);
    reveal_with_fuel(MuxView::at_dongle_frames, 2);
    let frame = seq![FrameEventView::Frame { type_id, tag, payload }];
    let corrupt = seq![FrameEventView::Corrupt];
    assert(frame.last() == FrameEventView::Frame { type_id, tag, payload });
    assert(corrupt.last() is Corrupt);
    assert(frame.drop_last() =~= Seq::empty());
    assert(corrupt.drop_last() =~= Seq::empty());
    assert(seq![now].drop_last() =~= Seq::empty());
    assert(seq![now].last() == now);
    assert(s.at_dongle_frames(frame, seq![now]) =~= s.at_dongle_frame(type_id, tag, payload, now));
}

/// After its frames, a read in which anything was corrupt has one more frame sent, to everybody:
/// an error without a tag. A read in which nothing was has none.
pub proof fn law_corruption_is_reported_once(
    s: MuxView,
    events: Seq<FrameEventView>,
    times: Seq<u64>,
)
    ensures
        ({
            let all = s.at_dongle_events(events, times);
            let frames = s.at_dongle_frames(events, times);
            let corrupt = exists|i: int| 0 <= i < events.len() && #[trigger] events[i] is Corrupt;
            &&& !corrupt ==> all == frames
            &&& corrupt ==> all.len() == frames.len() + 1 && all.take(frames.len() as int) == frames
                && all.last() == (OutgoingView {
                type_id: TYPE_ERR,
                tag: 0,
                payload: seq![0x02, 0x01],
                recipients: s.sessions.dom(),
            })
        }),
{
    let all = s.at_dongle_events(events, times);
    let frames = s.at_dongle_frames(events, times);
    reveal_with_fuel(le_bytes, 3);
    assert(le_bytes(0x0102, 2) =~= seq![0x02u8, 0x01u8]);
    if exists|i: int| 0 <= i < events.len() && #[trigger] events[i] is Corrupt {
        let i = choose|i: int| 0 <= i < events.len() && #[trigger] events[i] is Corrupt;
        assert(events[i] == FrameEventView::Corrupt);
        assert(events.contains(FrameEventView::Corrupt));
        assert(all.take(frames.len() as int) =~= frames);
    } else {
        assert(all =~= frames);
    }
}

/// A read of frames without tags has every one of them sent to everybody, in order.
pub proof fn law_untagged_reads_are_broadcast(
    s: MuxView,
    events: Seq<FrameEventView>,
    times: Seq<u64>,
    id: ClientId,
)
    requires
        s.wf(),
        s.sessions.contains_key(id),
        times.len() == events.len(),
        forall|i: int|
            0 <= i < events.len() ==> (#[trigger] events[i] matches FrameEventView::Frame {
                tag,
                payload,
                ..
            } && tag == 0 && payload.len() <= MAX_PAYLOAD_FIELD),
    ensures
        s.after_dongle_events(events) == s,
        addressed_to(s.at_dongle_frames(events, times), id) == events.map_values(
            |e: FrameEventView| (e->type_id, e->tag, e->payload),
        ),
    decreases events.len(),
{
    let got = addressed_to(s.at_dongle_frames(events, times), id);
    let plain = |e: FrameEventView| (e->type_id, e->tag, e->payload);
    if events.len() == 0 {
        assert(got =~= events.map_values(plain));
    } else {
        let before = events.drop_last();
        let last = events.last();
        assert forall|i: int| 0 <= i < before.len() implies (
        #[trigger] before[i] matches FrameEventView::Frame { tag, payload, .. } && tag == 0
            && payload.len() <= MAX_PAYLOAD_FIELD) by {
            assert(before[i] == events[i]);
        }
        assert(events[events.len() - 1] == last);
        law_untagged_reads_are_broadcast(s, before, times.drop_last(), id);
        law_who_gets_a_dongle_frame(
            s,
            last->type_id,
            0,
            last->payload,
            times.last(),
            id,
        );
        lemma_addressed_concat(
            s.at_dongle_frames(before, times.drop_last()),
            s.at_dongle_frame(last->type_id, 0, last->payload, times.last()),
            id,
        );
        assert(got =~= events.map_values(plain));
    }
}

/// An error of the link goes to everybody, without a tag, and once.
pub proof fn law_link_errors_reach_everyone(s: MuxView, code: ErrorCode, id: ClientId)
    requires
        s.wf(),
        s.sessions.contains_key(id),
    ensures
        addressed_to(s.at_link_error(code), id) == seq![
            (
                TYPE_ERR,
                0u16,
                seq![(code.number() % 256) as u8, (code.number() / 256) as u8],
            ),
        ],
{
    reveal_with_fuel(le_bytes, 3);
    let outs = s.at_link_error(code);
    assert(outs =~= seq![outs[0]]);
    lemma_addressed_one(outs[0], id);
    assert(le_bytes(code.number() as nat, 2) =~= seq![
        (code.number() % 256) as u8,
        (code.number() / 256) as u8,
    ]);
}

// ---- Frames from clients --------------------------------------------------

/// `PING`, `GET_INFO` and `TX` go to the dongle as they are, whoever sends them and whoever holds
/// the lock, and change nothing.
pub proof fn law_plain_commands_are_forwarded(
    s: MuxView,
    type_id: u8,
    upstream_tag: u16,
    payload: Seq<u8>,
    client_id: ClientId,
)
    requires
        is_plain_command(type_id, payload),
    ensures
        s.at_client_frame(type_id, upstream_tag, payload, client_id) == ActionView::Forward(
            WorkView::Forward { client_id, type_id, upstream_tag, payload },
        ),
        s.after_client_frame(type_id, payload, client_id) == s,
{
}

/// What is none of the six commands is answered with an error under its own tag, to the client
/// that sent it and nobody else, and changes nothing.
pub proof fn law_other_frames_are_refused(
    s: MuxView,
    type_id: u8,
    upstream_tag: u16,
    payload: Seq<u8>,
    client_id: ClientId,
)
    requires
        !is_plain_command(type_id, payload),
        !is_reception_command(type_id, payload),
        !is_set_config(type_id, payload),
    ensures
        s.at_client_frame(type_id, upstream_tag, payload, client_id) matches ActionView::Reply(out)
            && out.type_id == TYPE_ERR && out.tag == upstream_tag && out.payload == seq![
            0x05u8,
            0x00u8,
        ] && forall|id: ClientId|
            out.recipients.contains(id) <==> id == client_id && s.sessions.contains_key(id),
        s.after_client_frame(type_id, payload, client_id) == s,
{
    reveal_with_fuel(le_bytes, 3);
    assert(le_bytes(0x0005, 2) =~= seq![0x05u8, 0x00u8]);
}

/// A `SET_CONFIG` is answered by the multiplexer exactly when several clients are connected and
/// another client holds the lock: with whether the wish is the locked configuration, that the
/// lock is another's, and the locked configuration. Otherwise it goes to the dongle as it is.
/// Either way nothing changes.
pub proof fn law_set_config_by_bytes(
    s: MuxView,
    upstream_tag: u16,
    requested: Seq<u8>,
    client_id: ClientId,
)
    requires
        valid_modulation(requested),
    ensures
        ({
            let action = s.at_client_frame(TYPE_SET_CONFIG, upstream_tag, requested, client_id);
            let locked = s.sessions.len() > 1 && (s.lock matches Some((owner, _)) && owner
                != client_id);
            &&& s.after_client_frame(TYPE_SET_CONFIG, requested, client_id) == s
            &&& !locked ==> action == ActionView::Forward(
                WorkView::Forward {
                    client_id,
                    type_id: TYPE_SET_CONFIG,
                    upstream_tag,
                    payload: requested,
                },
            )
            &&& locked ==> {
                &&& action matches ActionView::Reply(out)
                &&& out.type_id == TYPE_OK
                &&& out.tag == upstream_tag
                &&& out.payload.len() == 2 + (s.lock->0).1.len()
                &&& out.payload[0] == RESULT_ALREADY_MATCHED <==> requested == (s.lock->0).1
                &&& out.payload[0] == RESULT_LOCKED_MISMATCH <==> requested != (s.lock->0).1
                &&& out.payload[1] == OWNER_OTHER
                &&& out.payload.skip(2) == (s.lock->0).1
                &&& forall|id: ClientId|
                    out.recipients.contains(id) <==> id == client_id && s.sessions.contains_key(id)
            }
        }),
{
    if let ActionView::Reply(out) = s.at_client_frame(
        TYPE_SET_CONFIG,
        upstream_tag,
        requested,
        client_id,
    ) {
        assert(out.payload.skip(2) =~= (s.lock->0).1);
    }
}

/// Whether an action is an `OK` without a body, to one connected client and under its own tag.
pub open spec fn is_empty_ok(action: ActionView, client_id: ClientId, upstream_tag: u16) -> bool {
    &&& action matches ActionView::Reply(out)
    &&& out.type_id == TYPE_OK
    &&& out.tag == upstream_tag
    &&& out.payload.len() == 0
    &&& forall|id: ClientId| out.recipients.contains(id) <==> id == client_id
}

/// An `RX_START` goes to the dongle, and changes nothing, exactly when no connected client
/// listens; otherwise it is answered, and the client listens. Nobody else starts or stops.
pub proof fn law_rx_start_by_listeners(
    s: MuxView,
    upstream_tag: u16,
    client_id: ClientId,
    id: ClientId,
)
    requires
        s.wf(),
        s.sessions.contains_key(client_id),
    ensures
        ({
            let action = s.at_client_frame(TYPE_RX_START, upstream_tag, Seq::empty(), client_id);
            let t = s.after_client_frame(TYPE_RX_START, Seq::empty(), client_id);
            let anybody = exists|other: ClientId| listens(s, other);
            &&& !anybody ==> action == ActionView::Forward(
                WorkView::Forward {
                    client_id,
                    type_id: TYPE_RX_START,
                    upstream_tag,
                    payload: Seq::empty(),
                },
            ) && t == s
            &&& anybody ==> is_empty_ok(action, client_id, upstream_tag) && listens(t, client_id)
            &&& id != client_id ==> listens(t, id) == listens(s, id)
        }),
{
    let before = interested(s.sessions);
    assert(before.subset_of(s.sessions.dom()));
    vstd::set_lib::lemma_set_subset_finite(s.sessions.dom(), before);
    if before.len() == 0 {
        assert(before =~= Set::empty());
        assert forall|other: ClientId| !listens(s, other) by {
            assert(!before.contains(other));
        }
    } else {
        let other = before.choose();
        assert(before.contains(other)) by {
            if forall|x: ClientId| !before.contains(x) {
                assert(before =~= Set::empty());
            }
        }
        assert(listens(s, other));
    }
    assert(s.sessions.dom().intersect(set![client_id]) =~= set![client_id]);
}

/// An `RX_STOP` goes to the dongle exactly when the client listens and no other does; otherwise
/// it is answered. Either way the client does not listen any more, and nobody else starts or
/// stops.
pub proof fn law_rx_stop_by_listeners(
    s: MuxView,
    upstream_tag: u16,
    client_id: ClientId,
    id: ClientId,
)
    requires
        s.wf(),
        s.sessions.contains_key(client_id),
    ensures
        ({
            let action = s.at_client_frame(TYPE_RX_STOP, upstream_tag, Seq::empty(), client_id);
            let t = s.after_client_frame(TYPE_RX_STOP, Seq::empty(), client_id);
            let last = listens(s, client_id) && forall|other: ClientId|
                other != client_id ==> !listens(s, other);
            &&& last ==> action == ActionView::Forward(
                WorkView::Forward {
                    client_id,
                    type_id: TYPE_RX_STOP,
                    upstream_tag,
                    payload: Seq::empty(),
                },
            )
            &&& !last ==> is_empty_ok(action, client_id, upstream_tag)
            &&& !listens(t, client_id)
            &&& id != client_id ==> listens(t, id) == listens(s, id)
        }),
{
    lemma_only_listener(s, client_id);
    assert(s.sessions.dom().intersect(set![client_id]) =~= set![client_id]);
}

/// One client listens and no other does, exactly when the set of those who listen is that client.
proof fn lemma_only_listener(s: MuxView, client_id: ClientId)
    ensures
        interested(s.sessions) == set![client_id] <==> listens(s, client_id) && forall|
            other: ClientId,
        |
            other != client_id ==> !listens(s, other),
{
    let now = interested(s.sessions);
    assert forall|id: ClientId| #[trigger] now.contains(id) <==> listens(s, id) by {}
    if now == set![client_id] {
        assert(now.contains(client_id));
        assert forall|other: ClientId| other != client_id implies !listens(s, other) by {
            assert(!now.contains(other));
        }
    }
    if listens(s, client_id) && forall|other: ClientId|
        other != client_id ==> !listens(s, other) {
        assert(now =~= set![client_id]);
    }
}

/// An `RX_START` or `RX_STOP` of a client that is not connected is forwarded, and changes nothing.
pub proof fn law_reception_commands_of_strangers_are_forwarded(
    s: MuxView,
    type_id: u8,
    upstream_tag: u16,
    client_id: ClientId,
)
    requires
        !s.sessions.contains_key(client_id),
        type_id == TYPE_RX_START || type_id == TYPE_RX_STOP,
    ensures
        s.at_client_frame(type_id, upstream_tag, Seq::empty(), client_id) == ActionView::Forward(
            WorkView::Forward { client_id, type_id, upstream_tag, payload: Seq::empty() },
        ),
        s.after_client_frame(type_id, Seq::empty(), client_id) == s,
{
}

/// A frame from a client never changes the lock, what is in flight, who is connected, or another
/// client's session; of its own session it changes at most whether the client listens, and only
/// an `RX_START` or an `RX_STOP` does that.
pub proof fn law_client_frame_touches_one_flag(
    s: MuxView,
    type_id: u8,
    payload: Seq<u8>,
    client_id: ClientId,
)
    requires
        s.wf(),
    ensures
        ({
            let t = s.after_client_frame(type_id, payload, client_id);
            &&& t.lock == s.lock
            &&& t.tags == s.tags
            &&& same_but_client(s, t, client_id)
            &&& s.sessions.contains_key(client_id) ==> same_but_interest(
                s.sessions[client_id],
                t.sessions[client_id],
            )
            &&& !is_reception_command(type_id, payload) ==> t == s
        }),
{
    let t = s.after_client_frame(type_id, payload, client_id);
    assert(t.sessions.dom() =~= s.sessions.dom());
}

/// The multiplexer answers by itself only what is a `SET_CONFIG`, an `RX_START`, an `RX_STOP`, or
/// no command; and whatever it forwards, it forwards as it came.
pub proof fn law_only_these_are_answered(
    s: MuxView,
    type_id: u8,
    upstream_tag: u16,
    payload: Seq<u8>,
    client_id: ClientId,
)
    ensures
        match s.at_client_frame(type_id, upstream_tag, payload, client_id) {
            ActionView::Forward(work) => work == (WorkView::Forward {
                client_id,
                type_id,
                upstream_tag,
                payload,
            }) && (is_plain_command(type_id, payload) || is_reception_command(type_id, payload)
                || is_set_config(type_id, payload)),
            ActionView::Reply(out) => out.tag == upstream_tag && !is_plain_command(
                type_id,
                payload,
            ) && out.recipients.subset_of(set![client_id]),
            ActionView::Nothing => false,
        },
{
}

/// What is decided of a frame is what is done with it, but that what is no command is decided to
/// be forwarded, and left to the dongle's rules; and deciding changes the sessions as handling
/// the frame does.
pub proof fn law_decisions_are_carried_out(
    s: MuxView,
    type_id: u8,
    upstream_tag: u16,
    payload: Seq<u8>,
    client_id: ClientId,
)
    requires
        s.wf(),
    ensures
        ({
            let decided = decision(type_id, payload, client_id, s.lock, s.sessions);
            let action = s.at_client_frame(type_id, upstream_tag, payload, client_id);
            let command = is_plain_command(type_id, payload) || is_reception_command(
                type_id,
                payload,
            ) || is_set_config(type_id, payload);
            &&& decided_sessions(type_id, payload, client_id, s.sessions) == s.after_client_frame(
                type_id,
                payload,
                client_id,
            ).sessions
            &&& !command ==> decided is Forward
            &&& command ==> (decided is Forward <==> action is Forward)
            &&& command ==> (action matches ActionView::Reply(out) ==> decided == (
            DecisionView::Synthesize { type_id: out.type_id, payload: out.payload }))
        }),
{
}

/// What the decoder of a client's stream reports is handled frame by frame; what is no frame is
/// answered to that client alone, without a tag, and changes nothing.
pub proof fn law_client_events_by_bytes(
    s: MuxView,
    type_id: u8,
    tag: u16,
    payload: Seq<u8>,
    client_id: ClientId,
)
    ensures
        ({
            let frame = FrameEventView::Frame { type_id, tag, payload };
            &&& s.at_client_event(frame, client_id) == s.at_client_frame(
                type_id,
                tag,
                payload,
                client_id,
            )
            &&& s.after_client_event(frame, client_id) == s.after_client_frame(
                type_id,
                payload,
                client_id,
            )
            &&& s.after_client_event(FrameEventView::Corrupt, client_id) == s
            &&& s.at_client_event(FrameEventView::Corrupt, client_id) matches ActionView::Reply(out)
            &&& out.type_id == TYPE_ERR
            &&& out.tag == 0
            &&& out.payload == seq![0x02u8, 0x01u8]
            &&& forall|id: ClientId|
                out.recipients.contains(id) <==> id == client_id && s.sessions.contains_key(id)
        }),
{
    reveal_with_fuel(le_bytes, 3);
    assert(le_bytes(0x0102, 2) =~= seq![0x02u8, 0x01u8]);
}

/// The answer to a corrupt frame on its own is the answer that handling it gives.
pub proof fn law_corrupt_answer(s: MuxView, client_id: ClientId)
    ensures
        s.at_client_event(FrameEventView::Corrupt, client_id) == ActionView::Reply(
            s.corrupt_answer(client_id),
        ),
{
}

// ---- Writing to the dongle ------------------------------------------------

/// A forwarded command is written as it came: the dongle reads its type and its body, under the
/// fresh tag. A keepalive is a ping. What is in flight then names the client, its tag and the
/// type, so that the answer finds its way.
pub proof fn law_work_is_written_as_it_came(
    client_id: ClientId,
    type_id: u8,
    upstream_tag: u16,
    payload: Seq<u8>,
    wire: Seq<u8>,
    tag: u16,
)
    ensures
        ({
            let work = WorkView::Forward { client_id, type_id, upstream_tag, payload };
            let ping = WorkView::Keepalive;
            &&& work.pending() == Pending { client_id, upstream_tag, cmd_type: type_id }
            &&& is_wire_frame(wire, work.pending().cmd_type, tag, work.payload())
                ==> DecoderView::fresh().events(wire) == seq![
                FrameEventView::Frame { type_id, tag, payload },
            ]
            &&& ping.pending() == Pending {
                client_id: SYNTHETIC_CLIENT,
                upstream_tag: 0,
                cmd_type: TYPE_PING,
            }
            &&& is_wire_frame(wire, ping.pending().cmd_type, tag, ping.payload())
                ==> DecoderView::fresh().events(wire) == seq![
                FrameEventView::Frame { type_id: TYPE_PING, tag, payload: Seq::empty() },
            ]
        }),
{
    if is_wire_frame(wire, type_id, tag, payload) {
        law_frame_round_trip(wire, type_id, tag, payload);
    }
    if is_wire_frame(wire, TYPE_PING, tag, Seq::empty()) {
        law_frame_round_trip(wire, TYPE_PING, tag, Seq::empty());
    }
}

/// Writing puts one more command in flight, under a tag that was free, and leaves the others and
/// the lock alone. It touches no session, but that the packet of a `TX` is cached, whole and
/// without its flags, for the client that is connected.
pub proof fn law_write_caches_the_packet(
    s: MuxView,
    client_id: ClientId,
    type_id: u8,
    upstream_tag: u16,
    payload: Seq<u8>,
    other: u16,
)
    requires
        s.wf(),
        s.tags.has_free_tag(),
    ensures
        ({
            let t = s.after_write(WorkView::Forward { client_id, type_id, upstream_tag, payload });
            let caches = type_id == TYPE_TX && payload.len() > 1 && s.sessions.contains_key(
                client_id,
            );
            &&& t.lock == s.lock
            &&& in_flight(s, s.tags.fresh_tag()) is None
            &&& in_flight(t, s.tags.fresh_tag()) == Some(
                Pending { client_id, upstream_tag, cmd_type: type_id },
            )
            &&& other != s.tags.fresh_tag() ==> in_flight(t, other) == in_flight(s, other)
            &&& !caches ==> t.sessions == s.sessions
            &&& caches ==> same_but_client(s, t, client_id)
            &&& caches ==> same_but_packet(
                s.sessions[client_id],
                t.sessions[client_id],
                upstream_tag,
            )
            &&& caches ==> t.sessions[client_id].tx_cache.get(upstream_tag) == Some(
                payload.subrange(1, payload.len() as int),
            )
        }),
{
    let work = WorkView::Forward { client_id, type_id, upstream_tag, payload };
    law_fresh_tag(s.tags, work.pending());
    let t = s.after_write(work);
    assert(s.tags.pending.get(other) == in_flight(s, other));
    if type_id == TYPE_TX && payload.len() > 1 && s.sessions.contains_key(client_id) {
        assert(t.sessions.dom() =~= s.sessions.dom());
        assert(payload.subrange(1, payload.len() as int) =~= payload.skip(1));
        let a = s.sessions[client_id];
        let b = t.sessions[client_id];
        assert forall|u: u16| u != upstream_tag implies #[trigger] a.tx_cache.get(u)
            == b.tx_cache.get(u) by {}
    }
}

/// A keepalive puts a ping of the multiplexer's own in flight, and touches nothing else.
pub proof fn law_keepalive_touches_only_tags(s: MuxView, other: u16)
    requires
        s.wf(),
        s.tags.has_free_tag(),
    ensures
        ({
            let t = s.after_write(WorkView::Keepalive);
            &&& t.lock == s.lock
            &&& t.sessions == s.sessions
            &&& in_flight(t, s.tags.fresh_tag()) == Some(
                Pending { client_id: SYNTHETIC_CLIENT, upstream_tag: 0, cmd_type: TYPE_PING },
            )
            &&& other != s.tags.fresh_tag() ==> in_flight(t, other) == in_flight(s, other)
        }),
{
    law_fresh_tag(s.tags, WorkView::Keepalive.pending());
    assert(s.tags.pending.get(other) == in_flight(s, other));
}

// ---- Coming and going -----------------------------------------------------

/// A client that connects is there with its session; nothing else changes.
pub proof fn law_connecting_adds_one_client(s: MuxView, session: SessionView, id: ClientId)
    requires
        s.wf(),
    ensures
        ({
            let t = s.with_client(session);
            &&& t.lock == s.lock
            &&& t.tags == s.tags
            &&& t.sessions.contains_key(session.id)
            &&& t.sessions[session.id] == session
            &&& id != session.id ==> t.sessions.contains_key(id) == s.sessions.contains_key(id)
            &&& id != session.id && s.sessions.contains_key(id) ==> t.sessions[id] == s.sessions[id]
        }),
{
}

/// A client that leaves is gone with its session, its commands in flight and its lock. What is
/// the others' stays, and tags go on from where they were.
pub proof fn law_leaving_removes_one_client(s: MuxView, client_id: ClientId, id: ClientId, tag: u16)
    requires
        s.wf(),
    ensures
        ({
            let t = s.without_client(client_id);
            &&& t.sessions.contains_key(id) <==> s.sessions.contains_key(id) && id != client_id
            &&& t.sessions.contains_key(id) ==> t.sessions[id] == s.sessions[id]
            &&& t.tags.next == s.tags.next
            &&& in_flight(t, tag) == match in_flight(s, tag) {
                Some(p) => if p.client_id == client_id {
                    None
                } else {
                    Some(p)
                },
                None => None,
            }
            &&& t.lock is Some ==> t.lock == s.lock && (t.lock->0).0 != client_id
            &&& s.lock is Some && (s.lock->0).0 != client_id ==> t.lock == s.lock
        }),
{
}

/// The receiver is turned off on leaving exactly when the client that leaves listens and no other
/// does; by an `RX_STOP` of the multiplexer's own.
pub proof fn law_leaving_and_listeners(s: MuxView, client_id: ClientId)
    requires
        s.wf(),
    ensures
        ({
            let last = listens(s, client_id) && forall|other: ClientId|
                other != client_id ==> !listens(s, other);
            &&& last ==> s.at_removal(client_id) == Some(
                WorkView::Forward {
                    client_id: SYNTHETIC_CLIENT,
                    type_id: TYPE_RX_STOP,
                    upstream_tag: 0,
                    payload: Seq::empty(),
                },
            )
            &&& !last ==> s.at_removal(client_id) is None
        }),
{
    lemma_only_listener(s, client_id);
}

/// When the dongle is lost, nothing is in flight any more; the clients and the lock stay, and
/// tags go on from where they were.
pub proof fn law_forgetting_touches_only_flight(s: MuxView, tag: u16)
    ensures
        in_flight(s.with_nothing_pending(), tag) is None,
        s.with_nothing_pending().tags.next == s.tags.next,
        s.with_nothing_pending().sessions == s.sessions,
        s.with_nothing_pending().lock == s.lock,
{
}

// ---- Every step -----------------------------------------------------------

/// Who listens changes in these ways only: by an `RX_START` or `RX_STOP` of the client itself, by
/// the dongle's `OK` to one, by the client's leaving, and by its coming.
pub proof fn law_what_changes_listeners(s: MuxView, step: Step, t: MuxView, id: ClientId)
    requires
        s.wf(),
        step.leads(s, t),
        listens(t, id) != listens(s, id),
    ensures
        match step {
            Step::ClientFrame { client_id, type_id, payload } => client_id == id
                && is_reception_command(type_id, payload) && listens(t, id) == (type_id
                == TYPE_RX_START),
            Step::DongleFrame { type_id, tag, .. } => type_id == TYPE_OK && (in_flight(
                s,
                tag,
            ) matches Some(p) && p.client_id == id && (p.cmd_type == TYPE_RX_START || p.cmd_type
                == TYPE_RX_STOP) && listens(t, id) == (p.cmd_type == TYPE_RX_START)),
            Step::Disconnect(client_id) => client_id == id,
            Step::Connect(session) => session.id == id,
            _ => false,
        },
{
    if let Step::Deliver { offered, outcomes, reports } = step {
        law_delivery_touches_only_queues(s, offered, outcomes, t, reports, id);
    }
    if let Step::ClientFrame { client_id, type_id, payload } = step {
        law_client_frame_touches_one_flag(s, type_id, payload, client_id);
        assert(client_id != id && s.sessions.contains_key(id) ==> t.sessions[id] == s.sessions[id]);
    }
}

/// A delivery changes of each session only what its queue has taken, whether the queue was found
/// closed, and the count of drops, by one for each frame that found the queue full; and it
/// reports on connected clients only.
pub proof fn law_delivery_touches_only_queues(
    s: MuxView,
    offered: spec_fn(ClientId) -> Seq<Seq<u8>>,
    outcomes: Map<ClientId, Seq<SendOutcome>>,
    t: MuxView,
    reports: Seq<DropReport>,
    id: ClientId,
)
    requires
        s.wf(),
        delivered(s, offered, outcomes, t, reports),
    ensures
        t.lock == s.lock,
        t.tags == s.tags,
        t.sessions.dom() == s.sessions.dom(),
        s.sessions.contains_key(id) ==> {
            &&& t.sessions[id].id == id
            &&& t.sessions[id].rx_interested == s.sessions[id].rx_interested
            &&& t.sessions[id].tx_cache == s.sessions[id].tx_cache
            &&& t.sessions[id].queue.id == s.sessions[id].queue.id
            &&& t.sessions[id].queue.capacity == s.sessions[id].queue.capacity
            &&& outcomes[id].len() == offered(id).len()
            &&& t.sessions[id].drops == (s.sessions[id].drops + full_count(outcomes[id]))
                % 0x1_0000_0000_0000_0000
            &&& totals_of(reports, id) == s.sessions[id].reports(offered(id), outcomes[id])
            &&& s.sessions[id].admits(offered(id), outcomes[id])
        },
        forall|i: int|
            0 <= i < reports.len() ==> s.sessions.contains_key((#[trigger] reports[i]).client_id),
{
    if s.sessions.contains_key(id) {
        law_sends_keep_the_session(s.sessions[id], offered(id), outcomes[id]);
    }
}

/// The totals of a client among several reports are all of its own, in order, and no others.
pub proof fn law_totals_of_reports(reports: Seq<DropReport>, next: DropReport, id: ClientId)
    ensures
        totals_of(Seq::empty(), id).len() == 0,
        totals_of(reports.push(next), id) == if next.client_id == id {
            totals_of(reports, id).push(next.total)
        } else {
            totals_of(reports, id)
        },
{
    assert(reports.push(next).drop_last() =~= reports);
}

// ---- What is handed over --------------------------------------------------

/// An action that performs a reply is a reply that carries it; one that performs a forward hands
/// over that very work; one that performs neither is nothing.
pub proof fn law_actions_are_performed(action: ClientAction, v: ActionView)
    requires
        action.performs(v),
    ensures
        v is Reply ==> (action matches ClientAction::Reply(out) && is_wire_frame(
            out.frame@,
            v->Reply_0.type_id,
            v->Reply_0.tag,
            v->Reply_0.payload,
        ) && forall|id: ClientId|
            out.recipients@.contains(id) <==> v->Reply_0.recipients.contains(id)),
        v is Forward ==> (action matches ClientAction::Forward(work) && work@ == v->Forward_0),
        v is Nothing ==> action is Nothing,
{
    if let (ClientAction::Reply(out), ActionView::Reply(w)) = (action, v) {
        assert forall|id: ClientId|
            out.recipients@.contains(id) <==> w.recipients.contains(id) by {
            assert(out.recipients@.contains(id) <==> out.recipients@.to_set().contains(id));
        }
    }
}

/// A piece of work and its value hold the same client, type, tag and bytes.
pub proof fn law_work_is_its_value(work: WriterWork)
    ensures
        match work {
            WriterWork::Forward { client_id, type_id, upstream_tag, payload } => work@ == (
            WorkView::Forward { client_id, type_id, upstream_tag, payload: payload@ }),
            WriterWork::Keepalive => work@ is Keepalive,
        },
{
}

/// A decision and its value say the same.
pub proof fn law_decision_is_its_value(d: Decision)
    ensures
        match d {
            Decision::Forward => d@ is Forward,
            Decision::Synthesize { type_id, payload } => d@ == (DecisionView::Synthesize {
                type_id,
                payload: payload@,
            }),
            Decision::Drop => d@ is Drop,
        },
{
}

/// A client is among those who listen exactly when it is connected and listens.
pub proof fn law_listeners_are_counted(sessions: Map<ClientId, SessionView>, id: ClientId)
    ensures
        interested(sessions).contains(id) <==> sessions.contains_key(id)
            && sessions[id].rx_interested,
{
}

/// Decisions on `SET_CONFIG`, `RX_START` and `RX_STOP` never depend on anything but the lock and
/// who is connected, and who listens: two tables of sessions that agree on that are decided alike.
pub proof fn law_decisions_depend_on_listeners(
    type_id: u8,
    payload: Seq<u8>,
    client_id: ClientId,
    lock: LockView,
    a: Map<ClientId, SessionView>,
    b: Map<ClientId, SessionView>,
)
    requires
        a.dom() == b.dom(),
        forall|id: ClientId| #[trigger]
            a.contains_key(id) ==> a[id].rx_interested == b[id].rx_interested,
    ensures
        decision(type_id, payload, client_id, lock, a) == decision(
            type_id,
            payload,
            client_id,
            lock,
            b,
        ),
{
    assert(interested(a) =~= interested(b));
}

/// The loopback of each frame is stamped with a time that the clock showed: its whole microseconds
/// since the Unix epoch, as far as they fit.
pub proof fn law_stamps_are_clock_readings(
    events: Seq<FrameEventView>,
    times: Seq<u64>,
    i: int,
)
    requires
        are_readings(events, times),
        0 <= i < events.len(),
        events[i] is Frame,
    ensures
        times.len() == events.len(),
        exists|time: std::time::SystemTime| #[trigger]
            epoch_micros(time) == Some(times[i] as u128) || (times[i] == 0 && epoch_micros(
                time,
            ) is None) || (times[i] == u64::MAX && epoch_micros(time) is Some && epoch_micros(
                time,
            )->0 > u64::MAX),
{
    let time = choose|time: std::time::SystemTime|
        times[i] == timestamp(#[trigger] epoch_micros(time));
    assert(is_clock_reading(times[i]));
    assert(times[i] == timestamp(epoch_micros(time)));
}

/// What a delivery offers to a client is what the list holds for it: the frames of a list with one
/// more are those of the list, and then that one, as often as the client is named.
pub proof fn law_offers_are_what_the_list_holds(
    outs: Seq<Outgoing>,
    next: Outgoing,
    id: ClientId,
)
    requires
        next.recipients@.no_duplicates(),
    ensures
        offered_by(Seq::empty())(id).len() == 0,
        offered_by(outs.push(next))(id) == if next.recipients@.contains(id) {
            offered_by(outs)(id).push(next.frame@)
        } else {
            offered_by(outs)(id)
        },
{
    assert(outs.push(next).drop_last() =~= outs);
    lemma_copies(next.frame@, next.recipients@, id);
    assert(offered_by(outs.push(next))(id) =~= if next.recipients@.contains(id) {
        offered_by(outs)(id).push(next.frame@)
    } else {
        offered_by(outs)(id)
    });
}

/// At the start nobody is connected, nobody holds the lock, nothing is in flight, and the first
/// tag is 1.
pub proof fn law_starts_empty(id: ClientId, tag: u16)
    ensures
        !MuxView::empty().sessions.contains_key(id),
        MuxView::empty().lock is None,
        in_flight(MuxView::empty(), tag) is None,
        MuxView::empty().tags.next == 1,
        MuxView::empty().wf(),
{
}

/// Events, the lock and tables of sessions are their values, one for one.
pub proof fn law_values_are_faithful(
    events: Seq<FrameEvent>,
    i: int,
    state: MuxState,
    sessions: Map<ClientId, ClientSession>,
    id: ClientId,
)
    ensures
        event_views(events).len() == events.len(),
        0 <= i < events.len() ==> match events[i] {
            FrameEvent::Frame { type_id, tag, payload } => event_views(events)[i] == (
            FrameEventView::Frame { type_id, tag, payload: payload@ }),
            FrameEvent::Corrupt => event_views(events)[i] is Corrupt,
        },
        match state.locked {
            Some((owner, current)) => state@ == Some((owner, current@)),
            None => state@ is None,
        },
        session_views(sessions).contains_key(id) <==> sessions.contains_key(id),
        sessions.contains_key(id) ==> session_views(sessions)[id] == sessions[id]@,
{
}

} // verus!
