//! What holds of the multiplexer as a whole.
//!
//! Everything that the multiplexer does is a sequence of steps. The laws say what a step keeps,
//! what a sequence of steps keeps, and who gets to see what at the end of one.
use crate::framing::{
    concatenated, is_wire_frame, law_stream_round_trip, DecoderView, FrameEventView,
};
use crate::intercept::{decision, empty_ok, interested, with_interest};
use crate::model::{
    carry, copies_for, delivered, frames_for, loopback_payload, ActionView,
    DropReport, MuxView, Outgoing, OutgoingView, WorkView, SYNTHETIC_CLIENT,
};
use crate::protocol::{
    command_of, le_bytes, le_value, lemma_modulation_len, set_config_ok, valid_modulation,
    ErrorCode, MAX_OTA_PAYLOAD, MAX_PAYLOAD_FIELD, ORIGIN_LOCAL_LOOPBACK, OWNER_MINE, OWNER_OTHER,
    RESULT_ALREADY_MATCHED, RESULT_APPLIED, RESULT_LOCKED_MISMATCH, TX_TRANSMITTED, TYPE_ERR,
    TYPE_OK, TYPE_RX, TYPE_RX_START, TYPE_RX_STOP, TYPE_SET_CONFIG, TYPE_TX, TYPE_TX_DONE,
};
use crate::queue::{QueueView, SendOutcome};
use crate::session::{
    full_count, law_every_frame_is_taken_or_counted, law_open_queue_takes_all,
    law_open_queue_takes_what_fits, law_sends_keep_the_session, taken, SessionView,
};
use crate::tags::{law_drop_client_frees_its_tags, law_fresh_tag, ClientId, Pending};
use vstd::prelude::*;

verus! {

/// What is in flight under a tag.
pub open spec fn in_flight(s: MuxView, tag: u16) -> Option<Pending> {
    s.tags.pending.get(tag)
}

/// One step of the multiplexer.
pub enum Step {
    Connect(SessionView),
    ClientFrame { client_id: ClientId, type_id: u8, payload: Seq<u8> },
    Write(WorkView),
    DongleFrame { type_id: u8, tag: u16, payload: Seq<u8> },
    Deliver {
        offered: spec_fn(ClientId) -> Seq<Seq<u8>>,
        outcomes: Map<ClientId, Seq<SendOutcome>>,
        reports: Seq<DropReport>,
    },
    Disconnect(ClientId),
    Forget,
}

impl Step {
    /// Whether the step leads from one state to another.
    pub open spec fn leads(self, s: MuxView, t: MuxView) -> bool {
        match self {
            Step::Connect(session) => {
                &&& session.id != SYNTHETIC_CLIENT
                &&& !s.sessions.contains_key(session.id)
                &&& t == s.with_client(session)
            },
            Step::ClientFrame { client_id, type_id, payload } => t == s.after_client_frame(
                type_id,
                payload,
                client_id,
            ),
            Step::Write(work) => s.tags.has_free_tag() && t == s.after_write(work),
            Step::DongleFrame { type_id, tag, payload } => t == s.after_dongle_frame(
                type_id,
                tag,
                payload,
            ),
            Step::Deliver { offered, outcomes, reports } => delivered(
                s,
                offered,
                outcomes,
                t,
                reports,
            ),
            Step::Disconnect(client_id) => t == s.without_client(client_id),
            Step::Forget => t == s.with_nothing_pending(),
        }
    }

    /// Whether the step ends what is in flight under a tag: the last answer to it, its client's
    /// leaving, or the loss of the dongle.
    pub open spec fn settles(self, tag: u16, p: Pending) -> bool {
        match self {
            Step::DongleFrame { type_id, tag: answered, .. } => answered == tag && !(p.cmd_type
                == TYPE_TX && type_id == TYPE_OK),
            Step::Disconnect(client_id) => client_id == p.client_id,
            Step::Forget => true,
            _ => false,
        }
    }

    /// Whether the step replaces or removes the packet that a client has cached under a tag of
    /// its own: another transmission under it, or the end of one.
    pub open spec fn replaces_packet(
        self,
        s: MuxView,
        client_id: ClientId,
        upstream_tag: u16,
    ) -> bool {
        match self {
            Step::Write(WorkView::Forward { client_id: c, type_id, upstream_tag: u, .. }) => c
                == client_id && type_id == TYPE_TX && u == upstream_tag,
            Step::DongleFrame { type_id, tag, .. } => type_id == TYPE_TX_DONE && (in_flight(
                s,
                tag,
            ) matches Some(p) && p.client_id == client_id && p.upstream_tag == upstream_tag
                && p.cmd_type == TYPE_TX),
            Step::Disconnect(c) => c == client_id,
            _ => false,
        }
    }
}

/// Whether a step of a run leads from its state to the next.
pub open spec fn leads_at(states: Seq<MuxView>, steps: Seq<Step>, i: int) -> bool {
    steps[i].leads(states[i], states[i + 1])
}

/// Whether `steps` lead through `states`.
pub open spec fn is_run(states: Seq<MuxView>, steps: Seq<Step>) -> bool {
    &&& states.len() == steps.len() + 1
    &&& forall|i: int| 0 <= i < steps.len() ==> #[trigger] leads_at(states, steps, i)
}

// ---- What every step keeps ------------------------------------------------

/// Every step keeps the state sound.
pub proof fn law_steps_keep_soundness(s: MuxView, step: Step, t: MuxView)
    requires
        s.wf(),
        step.leads(s, t),
    ensures
        t.wf(),
{
    match step {
        Step::Write(work) => {
            law_fresh_tag(s.tags, work.pending());
            assert(t.sessions.dom() =~= s.sessions.dom());
        },
        Step::Deliver { offered, outcomes, reports } => {
            assert forall|id: ClientId| #[trigger] t.sessions.contains_key(id) implies t.sessions[id].id
                == id by {
                assert(s.sessions.contains_key(id));
                law_sends_keep_the_session(s.sessions[id], offered(id), outcomes[id]);
            }
        },
        Step::Disconnect(client_id) => {
            law_drop_client_frees_its_tags(s.tags, client_id, 0);
        },
        Step::ClientFrame { .. } => {
            assert(t.sessions.dom() =~= s.sessions.dom());
        },
        Step::DongleFrame { .. } => {
            assert(t.sessions.dom() =~= s.sessions.dom());
        },
        _ => {},
    }
}

/// Whatever the multiplexer has done since it started, its state is sound.
pub proof fn law_runs_are_sound(states: Seq<MuxView>, steps: Seq<Step>, i: int)
    requires
        is_run(states, steps),
        states[0] == MuxView::empty(),
        0 <= i < states.len(),
    ensures
        states[i].wf(),
    decreases i,
{
    if i > 0 {
        law_runs_are_sound(states, steps, i - 1);
        assert(leads_at(states, steps, i - 1));
        law_steps_keep_soundness(states[i - 1], steps[i - 1], states[i]);
    }
}

/// A command stays in flight, under its tag and for its client, until a step settles it.
pub proof fn law_in_flight_until_settled(
    s: MuxView,
    step: Step,
    t: MuxView,
    tag: u16,
    p: Pending,
)
    requires
        s.wf(),
        step.leads(s, t),
        in_flight(s, tag) == Some(p),
        !step.settles(tag, p),
    ensures
        in_flight(t, tag) == Some(p),
{
    match step {
        Step::Write(work) => {
            law_fresh_tag(s.tags, work.pending());
            assert(s.tags.pending.get(tag) == Some(p));
        },
        Step::Disconnect(client_id) => {
            law_drop_client_frees_its_tags(s.tags, client_id, tag);
        },
        _ => {},
    }
}

/// A client stays connected until it leaves.
pub proof fn law_connected_until_disconnect(s: MuxView, step: Step, t: MuxView, id: ClientId)
    requires
        s.wf(),
        step.leads(s, t),
        s.sessions.contains_key(id),
        !(step matches Step::Disconnect(c) && c == id),
    ensures
        t.sessions.contains_key(id),
{
}

/// The configuration lock changes hands in two ways only: a client whose `SET_CONFIG` the
/// dongle reports as applied gets it, and a client that holds it gives it up when it leaves.
pub proof fn law_lock_changes(s: MuxView, step: Step, t: MuxView)
    requires
        s.wf(),
        step.leads(s, t),
        t.lock != s.lock,
    ensures
        match step {
            Step::DongleFrame { type_id, tag, payload } => {
                &&& in_flight(s, tag) matches Some(p)
                &&& p.cmd_type == TYPE_SET_CONFIG
                &&& type_id == TYPE_OK
                &&& exists|current: Seq<u8>|
                    valid_modulation(current) && payload == seq![RESULT_APPLIED, OWNER_MINE]
                        + current && t.lock == Some((p.client_id, current))
            },
            Step::Disconnect(client_id) => {
                &&& s.lock matches Some((owner, _))
                &&& owner == client_id
                &&& t.lock is None
            },
            _ => false,
        },
{
    if let Step::DongleFrame { payload, .. } = step {
        let current = payload.skip(2);
        assert(payload =~= seq![payload[0], payload[1]] + current);
        assert(valid_modulation(current));
    }
}

// ---- Answers --------------------------------------------------------------

/// The dongle's answer to a command goes to the client that sent it, under the tag that the
/// client chose, with the body untouched. Nobody else sees anything of it but, after a
/// transmission, the packet.
pub proof fn law_answer_goes_to_sender(
    s: MuxView,
    tag: u16,
    p: Pending,
    type_id: u8,
    payload: Seq<u8>,
    now: u64,
)
    requires
        s.wf(),
        in_flight(s, tag) == Some(p),
        s.sessions.contains_key(p.client_id),
        payload.len() <= MAX_PAYLOAD_FIELD,
    ensures
        ({
            let outs = s.at_dongle_frame(type_id, tag, payload, now);
            &&& 1 <= outs.len() <= 2
            &&& outs[0] == OutgoingView {
                type_id,
                tag: p.upstream_tag,
                payload,
                recipients: set![p.client_id],
            }
            &&& outs.len() == 2 ==> outs[1].type_id == TYPE_RX && outs[1].tag == 0
                && !outs[1].recipients.contains(p.client_id)
            &&& outs.len() == 2 <==> p.cmd_type == TYPE_TX && type_id == TYPE_TX_DONE && payload.len()
                == 5 && payload[0] == TX_TRANSMITTED
                && s.sessions[p.client_id].tx_cache.contains_key(p.upstream_tag)
                && s.sessions[p.client_id].tx_cache[p.upstream_tag].len() <= MAX_OTA_PAYLOAD
        }),
{
}

/// What was written stays in flight over any steps that do not settle it.
proof fn lemma_in_flight_over_run(states: Seq<MuxView>, steps: Seq<Step>, tag: u16, p: Pending)
    requires
        is_run(states, steps),
        states[0].wf(),
        in_flight(states[0], tag) == Some(p),
        forall|i: int| 0 <= i < steps.len() ==> !(#[trigger] steps[i]).settles(tag, p),
    ensures
        states.last().wf(),
        in_flight(states.last(), tag) == Some(p),
        states[0].sessions.contains_key(p.client_id) ==> states.last().sessions.contains_key(
            p.client_id,
        ),
    decreases steps.len(),
{
    if steps.len() > 0 {
        let n = steps.len() - 1;
        let before = states.drop_last();
        let fewer = steps.drop_last();
        assert forall|i: int| 0 <= i < fewer.len() implies #[trigger] leads_at(before, fewer, i) by {
            assert(leads_at(states, steps, i));
        }
        assert forall|i: int| 0 <= i < fewer.len() implies !(#[trigger] fewer[i]).settles(
            tag,
            p,
        ) by {
            assert(!steps[i].settles(tag, p));
        }
        lemma_in_flight_over_run(before, fewer, tag, p);
        assert(leads_at(states, steps, n));
        assert(!steps[n].settles(tag, p));
        law_steps_keep_soundness(states[n], steps[n], states[n + 1]);
        law_in_flight_until_settled(states[n], steps[n], states[n + 1], tag, p);
    }
}

/// A command that was written for a connected client gets its answer, whatever else happens
/// meanwhile: when a frame from the dongle carries the command's device tag, and nothing has
/// settled the command before, the frame goes to that client under its own tag.
pub proof fn law_reply_finds_its_client(
    s: MuxView,
    work: WorkView,
    states: Seq<MuxView>,
    steps: Seq<Step>,
    type_id: u8,
    payload: Seq<u8>,
    now: u64,
)
    requires
        s.wf(),
        s.tags.has_free_tag(),
        s.sessions.contains_key(work.pending().client_id),
        is_run(states, steps),
        states[0] == s.after_write(work),
        forall|i: int|
            0 <= i < steps.len() ==> !(#[trigger] steps[i]).settles(
                s.tags.fresh_tag(),
                work.pending(),
            ),
        payload.len() <= MAX_PAYLOAD_FIELD,
    ensures
        ({
            let outs = states.last().at_dongle_frame(type_id, s.tags.fresh_tag(), payload, now);
            &&& outs.len() >= 1
            &&& outs[0] == OutgoingView {
                type_id,
                tag: work.pending().upstream_tag,
                payload,
                recipients: set![work.pending().client_id],
            }
        }),
{
    law_fresh_tag(s.tags, work.pending());
    law_steps_keep_soundness(s, Step::Write(work), states[0]);
    lemma_in_flight_over_run(states, steps, s.tags.fresh_tag(), work.pending());
    law_answer_goes_to_sender(
        states.last(),
        s.tags.fresh_tag(),
        work.pending(),
        type_id,
        payload,
        now,
    );
}

/// An answer settles its command: a second frame under the same tag goes to nobody, and changes
/// nothing. The one exception is the `OK` to a `TX`, which leaves the command in flight for the
/// `TX_DONE` that follows.
pub proof fn law_answered_once(
    s: MuxView,
    tag: u16,
    p: Pending,
    type_id: u8,
    payload: Seq<u8>,
)
    requires
        s.wf(),
        in_flight(s, tag) == Some(p),
    ensures
        p.cmd_type == TYPE_TX && type_id == TYPE_OK ==> in_flight(
            s.after_dongle_frame(type_id, tag, payload),
            tag,
        ) == Some(p),
        !(p.cmd_type == TYPE_TX && type_id == TYPE_OK) ==> in_flight(
            s.after_dongle_frame(type_id, tag, payload),
            tag,
        ) is None,
{
}

/// A frame under a tag that nothing is in flight under goes to nobody, and changes nothing.
pub proof fn law_unsolicited_frames_are_dropped(
    s: MuxView,
    type_id: u8,
    tag: u16,
    payload: Seq<u8>,
    now: u64,
)
    requires
        s.wf(),
        tag != 0,
        in_flight(s, tag) is None,
    ensures
        s.at_dongle_frame(type_id, tag, payload, now) == Seq::<OutgoingView>::empty(),
        s.after_dongle_frame(type_id, tag, payload) == s,
{
}

/// A frame without a tag goes to every client as it is, and changes nothing.
pub proof fn law_async_frames_reach_everyone(
    s: MuxView,
    type_id: u8,
    payload: Seq<u8>,
    now: u64,
)
    requires
        s.wf(),
        payload.len() <= MAX_PAYLOAD_FIELD,
    ensures
        s.at_dongle_frame(type_id, 0, payload, now) == seq![
            OutgoingView { type_id, tag: 0, payload, recipients: s.sessions.dom() },
        ],
        s.after_dongle_frame(type_id, 0, payload) == s,
{
}

/// Answers to what the multiplexer itself has sent reach no client.
pub proof fn law_own_commands_stay_hidden(
    s: MuxView,
    tag: u16,
    p: Pending,
    type_id: u8,
    payload: Seq<u8>,
    now: u64,
)
    requires
        s.wf(),
        in_flight(s, tag) == Some(p),
        p.client_id == SYNTHETIC_CLIENT,
    ensures
        s.at_dongle_frame(type_id, tag, payload, now) == Seq::<OutgoingView>::empty(),
        s.after_dongle_frame(type_id, tag, payload).sessions == s.sessions,
{
    assert(s.at_dongle_frame(type_id, tag, payload, now) =~= Seq::<OutgoingView>::empty());
}

// ---- Transmissions --------------------------------------------------------

/// A cached packet stays cached until a step replaces or removes it.
proof fn lemma_packet_over_run(
    states: Seq<MuxView>,
    steps: Seq<Step>,
    client_id: ClientId,
    upstream_tag: u16,
    packet: Seq<u8>,
)
    requires
        is_run(states, steps),
        states[0].wf(),
        states[0].sessions.contains_key(client_id),
        states[0].sessions[client_id].tx_cache.contains_key(upstream_tag),
        states[0].sessions[client_id].tx_cache[upstream_tag] == packet,
        forall|i: int|
            0 <= i < steps.len() ==> !(#[trigger] steps[i]).replaces_packet(
                states[i],
                client_id,
                upstream_tag,
            ),
    ensures
        states.last().wf(),
        states.last().sessions.contains_key(client_id),
        states.last().sessions[client_id].tx_cache.contains_key(upstream_tag),
        states.last().sessions[client_id].tx_cache[upstream_tag] == packet,
    decreases steps.len(),
{
    if steps.len() > 0 {
        let n = steps.len() - 1;
        let before = states.drop_last();
        let fewer = steps.drop_last();
        assert forall|i: int| 0 <= i < fewer.len() implies #[trigger] leads_at(before, fewer, i) by {
            assert(leads_at(states, steps, i));
        }
        assert forall|i: int| 0 <= i < fewer.len() implies !(#[trigger] fewer[i]).replaces_packet(
            before[i],
            client_id,
            upstream_tag,
        ) by {
            assert(!steps[i].replaces_packet(states[i], client_id, upstream_tag));
        }
        lemma_packet_over_run(before, fewer, client_id, upstream_tag, packet);
        assert(leads_at(states, steps, n));
        assert(!steps[n].replaces_packet(states[n], client_id, upstream_tag));
        law_steps_keep_soundness(states[n], steps[n], states[n + 1]);
        if let Step::Deliver { offered, outcomes, .. } = steps[n] {
            law_sends_keep_the_session(
                states[n].sessions[client_id],
                offered(client_id),
                outcomes[client_id],
            );
        }
    }
}

/// Whether `body` tells of a packet that another client has transmitted, at the time `now`: no
/// signal readings, the time, a valid checksum, nothing dropped, the origin, and the whole
/// packet.
pub open spec fn is_loopback(body: Seq<u8>, now: u64, packet: Seq<u8>) -> bool {
    &&& body.len() == 20 + packet.len()
    &&& forall|i: int| 0 <= i < 8 ==> #[trigger] body[i] == 0
    &&& le_value(body.subrange(8, 16)) == now
    &&& body[16] == 1
    &&& body[17] == 0
    &&& body[18] == 0
    &&& body[19] == ORIGIN_LOCAL_LOOPBACK
    &&& body.skip(20) == packet
}

/// The values that a number of bytes can spell.
spec fn spelled_below(width: nat) -> nat
    decreases width,
{
    if width == 0 {
        1
    } else {
        256 * spelled_below((width - 1) as nat)
    }
}

proof fn lemma_number_round_trip(value: nat, width: nat)
    requires
        value < spelled_below(width),
    ensures
        le_bytes(value, width).len() == width,
        le_value(le_bytes(value, width)) == value,
    decreases width,
{
    if width > 0 {
        lemma_number_round_trip(value / 256, (width - 1) as nat);
        assert(le_bytes(value, width).skip(1) =~= le_bytes(value / 256, (width - 1) as nat));
    }
}

/// The body of a looped-back packet is as it should be.
pub(crate) proof fn lemma_loopback_bytes(now: u64, packet: Seq<u8>)
    ensures
        is_loopback(loopback_payload(now, packet), now, packet),
{
    reveal_with_fuel(spelled_below, 9);
    lemma_number_round_trip(now as nat, 8);
    let body = loopback_payload(now, packet);
    assert(body.subrange(8, 16) =~= le_bytes(now as nat, 8));
    assert(body.skip(20) =~= packet);
}

/// A packet that one client has transmitted reaches every other client, as if received, at the
/// moment when the dongle reports it: whatever else happens between the `TX` and its `TX_DONE`,
/// as long as the client starts or ends no other transmission under the same tag of its own.
/// The transmitter gets the `TX_DONE`, and not the packet.
pub proof fn law_transmission_is_looped_back(
    s: MuxView,
    client_id: ClientId,
    upstream_tag: u16,
    tx: Seq<u8>,
    states: Seq<MuxView>,
    steps: Seq<Step>,
    done: Seq<u8>,
    now: u64,
)
    requires
        s.wf(),
        s.tags.has_free_tag(),
        s.sessions.contains_key(client_id),
        2 <= tx.len() <= 1 + MAX_OTA_PAYLOAD,
        is_run(states, steps),
        states[0] == s.after_write(
            WorkView::Forward { client_id, type_id: TYPE_TX, upstream_tag, payload: tx },
        ),
        forall|i: int|
            0 <= i < steps.len() ==> !(#[trigger] steps[i]).settles(
                s.tags.fresh_tag(),
                Pending { client_id, upstream_tag, cmd_type: TYPE_TX },
            ),
        forall|i: int|
            0 <= i < steps.len() ==> !(#[trigger] steps[i]).replaces_packet(
                states[i],
                client_id,
                upstream_tag,
            ),
        done.len() == 5,
        done[0] == TX_TRANSMITTED,
    ensures
        ({
            let outs = states.last().at_dongle_frame(TYPE_TX_DONE, s.tags.fresh_tag(), done, now);
            &&& outs.len() == 2
            &&& outs[0] == OutgoingView {
                type_id: TYPE_TX_DONE,
                tag: upstream_tag,
                payload: done,
                recipients: set![client_id],
            }
            &&& outs[1].type_id == TYPE_RX
            &&& outs[1].tag == 0
            &&& outs[1].recipients == states.last().sessions.dom().remove(client_id)
            &&& outs[1].payload == loopback_payload(now, tx.skip(1))
            &&& is_loopback(outs[1].payload, now, tx.skip(1))
        }),
{
    let work = WorkView::Forward { client_id, type_id: TYPE_TX, upstream_tag, payload: tx };
    law_fresh_tag(s.tags, work.pending());
    law_steps_keep_soundness(s, Step::Write(work), states[0]);
    lemma_in_flight_over_run(states, steps, s.tags.fresh_tag(), work.pending());
    lemma_packet_over_run(states, steps, client_id, upstream_tag, tx.skip(1));
    lemma_loopback_bytes(now, tx.skip(1));
}

/// Only a report that the packet went on the air loops it back; and whatever a `TX_DONE`
/// reports, the packet is forgotten.
pub proof fn law_failed_transmission_is_not_looped_back(
    s: MuxView,
    tag: u16,
    p: Pending,
    done: Seq<u8>,
    now: u64,
)
    requires
        s.wf(),
        in_flight(s, tag) == Some(p),
        p.cmd_type == TYPE_TX,
        s.sessions.contains_key(p.client_id),
    ensures
        !(done.len() == 5 && done[0] == TX_TRANSMITTED) ==> s.at_dongle_frame(
            TYPE_TX_DONE,
            tag,
            done,
            now,
        ).len() <= 1,
        !(done.len() == 5 && done[0] == TX_TRANSMITTED) ==> s.loopback(
            p,
            TYPE_TX_DONE,
            done,
            now,
        ) == Seq::<OutgoingView>::empty(),
        !s.after_dongle_frame(
            TYPE_TX_DONE,
            tag,
            done,
        ).sessions[p.client_id].tx_cache.contains_key(p.upstream_tag),
{
}

// ---- Commands -------------------------------------------------------------

/// Every frame from a client is either answered, to that client and under its own tag, or
/// forwarded as it is; it is never swallowed, and what is forwarded fits a frame.
pub proof fn law_every_frame_is_answered_or_forwarded(
    s: MuxView,
    type_id: u8,
    upstream_tag: u16,
    payload: Seq<u8>,
    client_id: ClientId,
)
    requires
        s.wf(),
        s.sessions.contains_key(client_id),
    ensures
        match s.at_client_frame(type_id, upstream_tag, payload, client_id) {
            ActionView::Reply(out) => out.tag == upstream_tag && out.recipients == set![client_id],
            ActionView::Forward(work) => work == (WorkView::Forward {
                client_id,
                type_id,
                upstream_tag,
                payload,
            }) && command_of(type_id, payload) is Some && payload.len() <= MAX_PAYLOAD_FIELD,
            ActionView::Nothing => false,
        },
{
    assert(s.sessions.dom().intersect(set![client_id]) =~= set![client_id]);
    if command_of(type_id, payload) is Some && type_id == TYPE_SET_CONFIG {
        lemma_modulation_len(payload);
    }
}

/// What is no command is answered with an error, is not forwarded, and changes nothing.
pub proof fn law_unknown_commands_are_refused(
    s: MuxView,
    type_id: u8,
    upstream_tag: u16,
    payload: Seq<u8>,
    client_id: ClientId,
)
    requires
        s.wf(),
        s.sessions.contains_key(client_id),
        command_of(type_id, payload) is None,
    ensures
        s.at_client_frame(type_id, upstream_tag, payload, client_id) == ActionView::Reply(
            OutgoingView {
                type_id: TYPE_ERR,
                tag: upstream_tag,
                payload: le_bytes(ErrorCode::EUnknownCmd.number() as nat, 2),
                recipients: set![client_id],
            },
        ),
        s.after_client_frame(type_id, payload, client_id) == s,
{
    assert(s.sessions.dom().intersect(set![client_id]) =~= set![client_id]);
}

/// What is no frame at all is answered to the client that sent it, with an error without a tag;
/// it is not forwarded, nobody else hears of it, and nothing changes.
pub proof fn law_corrupt_frames_are_answered(s: MuxView, client_id: ClientId)
    requires
        s.wf(),
        s.sessions.contains_key(client_id),
    ensures
        s.at_client_event(FrameEventView::Corrupt, client_id) == ActionView::Reply(
            OutgoingView {
                type_id: TYPE_ERR,
                tag: 0,
                payload: le_bytes(ErrorCode::EFrame.number() as nat, 2),
                recipients: set![client_id],
            },
        ),
        s.after_client_event(FrameEventView::Corrupt, client_id) == s,
{
    assert(s.sessions.dom().intersect(set![client_id]) =~= set![client_id]);
}

/// While one client holds the configuration lock, no other client's configuration reaches the
/// dongle: the other client is told how its wish compares to the locked configuration, and
/// that the lock is not its own.
pub proof fn law_locked_configuration_is_kept(
    s: MuxView,
    owner: ClientId,
    current: Seq<u8>,
    client_id: ClientId,
    upstream_tag: u16,
    requested: Seq<u8>,
)
    requires
        s.wf(),
        s.lock == Some((owner, current)),
        client_id != owner,
        s.sessions.contains_key(client_id),
        s.sessions.contains_key(owner) || s.sessions.len() > 1,
        command_of(TYPE_SET_CONFIG, requested) is Some,
    ensures
        s.at_client_frame(TYPE_SET_CONFIG, upstream_tag, requested, client_id)
            == ActionView::Reply(
            OutgoingView {
                type_id: TYPE_OK,
                tag: upstream_tag,
                payload: set_config_ok(
                    if requested == current {
                        RESULT_ALREADY_MATCHED
                    } else {
                        RESULT_LOCKED_MISMATCH
                    },
                    OWNER_OTHER,
                    current,
                ),
                recipients: set![client_id],
            },
        ),
        s.after_client_frame(TYPE_SET_CONFIG, requested, client_id) == s,
{
    assert(s.sessions.dom().intersect(set![client_id]) =~= set![client_id]);
    if s.sessions.contains_key(owner) {
        let pair = set![client_id, owner];
        assert(pair.len() == 2);
        assert(pair.subset_of(s.sessions.dom()));
        vstd::set_lib::lemma_len_subset(pair, s.sessions.dom());
    }
}

/// A client configures the dongle freely when it is alone, when nobody holds the lock, or when
/// it holds the lock itself.
pub proof fn law_configuration_is_forwarded(
    s: MuxView,
    client_id: ClientId,
    upstream_tag: u16,
    requested: Seq<u8>,
)
    requires
        s.wf(),
        command_of(TYPE_SET_CONFIG, requested) is Some,
        s.sessions.len() <= 1 || s.lock is None || (s.lock matches Some((owner, _)) && owner
            == client_id),
    ensures
        s.at_client_frame(TYPE_SET_CONFIG, upstream_tag, requested, client_id)
            == ActionView::Forward(
            WorkView::Forward {
                client_id,
                type_id: TYPE_SET_CONFIG,
                upstream_tag,
                payload: requested,
            },
        ),
{
}

/// The lock goes to the client whose configuration the dongle has applied, with that
/// configuration.
pub proof fn law_applied_configuration_is_locked(
    s: MuxView,
    tag: u16,
    p: Pending,
    current: Seq<u8>,
)
    requires
        s.wf(),
        in_flight(s, tag) == Some(p),
        p.cmd_type == TYPE_SET_CONFIG,
        valid_modulation(current),
    ensures
        s.after_dongle_frame(TYPE_OK, tag, seq![RESULT_APPLIED, OWNER_MINE] + current).lock
            == Some((p.client_id, current)),
{
    assert((seq![RESULT_APPLIED, OWNER_MINE] + current).skip(2) =~= current);
}

// ---- Reception ------------------------------------------------------------

/// `RX_START` goes to the dongle exactly when nobody listens yet. Where it does not, the client
/// listens from then on, and nobody else is affected.
pub proof fn law_first_listener_starts_reception(
    s: MuxView,
    client_id: ClientId,
    upstream_tag: u16,
)
    requires
        s.wf(),
        s.sessions.contains_key(client_id),
    ensures
        ({
            let action = s.at_client_frame(TYPE_RX_START, upstream_tag, Seq::empty(), client_id);
            let t = s.after_client_frame(TYPE_RX_START, Seq::empty(), client_id);
            &&& action is Forward <==> interested(s.sessions) == Set::<ClientId>::empty()
            &&& action is Forward ==> t == s
            &&& action !is Forward ==> interested(t.sessions) == interested(s.sessions).insert(
                client_id,
            )
            &&& action !is Forward ==> t.sessions == with_interest(s.sessions, client_id, true)
        }),
{
    let before = interested(s.sessions);
    assert(before.subset_of(s.sessions.dom()));
    vstd::set_lib::lemma_set_subset_finite(s.sessions.dom(), before);
    if before.len() == 0 {
        assert(before =~= Set::<ClientId>::empty());
    } else {
        let t = s.after_client_frame(TYPE_RX_START, Seq::empty(), client_id);
        assert(interested(t.sessions) =~= before.insert(client_id));
    }
}

/// `RX_STOP` goes to the dongle exactly when the client that stops is the only one that listens:
/// the dongle receives until the last listener stops. Either way the client listens no more, and
/// nobody else is affected.
pub proof fn law_last_listener_stops_reception(
    s: MuxView,
    client_id: ClientId,
    upstream_tag: u16,
)
    requires
        s.wf(),
        s.sessions.contains_key(client_id),
    ensures
        ({
            let action = s.at_client_frame(TYPE_RX_STOP, upstream_tag, Seq::empty(), client_id);
            let t = s.after_client_frame(TYPE_RX_STOP, Seq::empty(), client_id);
            &&& action is Forward <==> interested(s.sessions) == set![client_id]
            &&& interested(t.sessions) == interested(s.sessions).remove(client_id)
            &&& action is Forward ==> interested(t.sessions) == Set::<ClientId>::empty()
            &&& t.sessions == with_interest(s.sessions, client_id, false)
        }),
{
    let before = interested(s.sessions);
    let t = s.after_client_frame(TYPE_RX_STOP, Seq::empty(), client_id);
    assert(interested(t.sessions) =~= before.remove(client_id));
    if before == set![client_id] {
        assert(interested(t.sessions) =~= Set::<ClientId>::empty());
    }
}

/// Stopping twice is stopping once: a second `RX_STOP` at once is answered `OK`, does not reach
/// the dongle, and changes nothing.
pub proof fn law_second_rx_stop_changes_nothing(
    s: MuxView,
    client_id: ClientId,
    upstream_tag: u16,
)
    requires
        s.wf(),
        s.sessions.contains_key(client_id),
    ensures
        ({
            let t = s.after_client_frame(TYPE_RX_STOP, Seq::empty(), client_id);
            &&& decision(TYPE_RX_STOP, Seq::empty(), client_id, t.lock, t.sessions) == empty_ok()
            &&& t.at_client_frame(TYPE_RX_STOP, upstream_tag, Seq::empty(), client_id)
                == ActionView::Reply(
                OutgoingView {
                    type_id: TYPE_OK,
                    tag: upstream_tag,
                    payload: Seq::empty(),
                    recipients: set![client_id],
                },
            )
            &&& t.after_client_frame(TYPE_RX_STOP, Seq::empty(), client_id) == t
        }),
{
    let t = s.after_client_frame(TYPE_RX_STOP, Seq::empty(), client_id);
    law_last_listener_stops_reception(s, client_id, upstream_tag);
    assert(!interested(t.sessions).contains(client_id));
    assert(set![client_id].contains(client_id));
    assert(t.sessions.dom().intersect(set![client_id]) =~= set![client_id]);
    assert(with_interest(t.sessions, client_id, false) =~= t.sessions);
}

/// A client that listens already is answered `OK` to an `RX_START`, which does not reach the
/// dongle and changes nothing.
pub proof fn law_rx_start_of_a_listener_changes_nothing(
    s: MuxView,
    client_id: ClientId,
    upstream_tag: u16,
)
    requires
        s.wf(),
        interested(s.sessions).contains(client_id),
    ensures
        s.at_client_frame(TYPE_RX_START, upstream_tag, Seq::empty(), client_id)
            == ActionView::Reply(
            OutgoingView {
                type_id: TYPE_OK,
                tag: upstream_tag,
                payload: Seq::empty(),
                recipients: set![client_id],
            },
        ),
        s.after_client_frame(TYPE_RX_START, Seq::empty(), client_id) == s,
{
    law_first_listener_starts_reception(s, client_id, upstream_tag);
    assert(s.sessions.dom().intersect(set![client_id]) =~= set![client_id]);
    assert(with_interest(s.sessions, client_id, true) =~= s.sessions);
}

/// A client whose `RX_START` the dongle has accepted listens; one whose `RX_STOP` it has
/// accepted does not.
pub proof fn law_accepted_reception_is_recorded(
    s: MuxView,
    tag: u16,
    p: Pending,
    payload: Seq<u8>,
)
    requires
        s.wf(),
        in_flight(s, tag) == Some(p),
        s.sessions.contains_key(p.client_id),
    ensures
        ({
            let t = s.after_dongle_frame(TYPE_OK, tag, payload);
            &&& p.cmd_type == TYPE_RX_START ==> interested(t.sessions) == interested(
                s.sessions,
            ).insert(p.client_id)
            &&& p.cmd_type == TYPE_RX_STOP ==> interested(t.sessions) == interested(
                s.sessions,
            ).remove(p.client_id)
        }),
{
    let t = s.after_dongle_frame(TYPE_OK, tag, payload);
    if p.cmd_type == TYPE_RX_START {
        assert(interested(t.sessions) =~= interested(s.sessions).insert(p.client_id));
    }
    if p.cmd_type == TYPE_RX_STOP {
        assert(interested(t.sessions) =~= interested(s.sessions).remove(p.client_id));
    }
}

// ---- Leaving --------------------------------------------------------------

/// A client that leaves takes everything of its own along, and nothing of anybody else: its
/// session, its commands in flight and its lock are gone, and the others keep theirs.
pub proof fn law_leaving_is_clean(s: MuxView, client_id: ClientId)
    requires
        s.wf(),
    ensures
        ({
            let t = s.without_client(client_id);
            &&& !t.sessions.contains_key(client_id)
            &&& !(t.lock matches Some((owner, _)) && owner == client_id)
            &&& forall|tag: u16| #[trigger]
                in_flight(t, tag) matches Some(p) ==> p.client_id != client_id
            &&& forall|id: ClientId|
                id != client_id && #[trigger] s.sessions.contains_key(id)
                    ==> t.sessions.contains_key(id) && t.sessions[id] == s.sessions[id]
            &&& forall|tag: u16|
                (#[trigger] in_flight(s, tag) matches Some(p) && p.client_id != client_id)
                    ==> in_flight(t, tag) == in_flight(s, tag)
            &&& !(s.lock matches Some((owner, _)) && owner == client_id) ==> t.lock == s.lock
        }),
{
    assert forall|tag: u16|
        (#[trigger] in_flight(s, tag) matches Some(p) && p.client_id != client_id) implies
        in_flight(s.without_client(client_id), tag) == in_flight(s, tag) by {
        law_drop_client_frees_its_tags(s.tags, client_id, tag);
    }
}

/// When the last client that listens leaves, the dongle's receiver is turned off; when anybody
/// else leaves, or others still listen, it is left alone.
pub proof fn law_leaving_stops_reception(s: MuxView, client_id: ClientId)
    requires
        s.wf(),
    ensures
        s.at_removal(client_id) is Some <==> interested(s.sessions).contains(client_id)
            && interested(s.without_client(client_id).sessions) == Set::<ClientId>::empty(),
        s.at_removal(client_id) matches Some(work) ==> work == (WorkView::Forward {
            client_id: SYNTHETIC_CLIENT,
            type_id: TYPE_RX_STOP,
            upstream_tag: 0,
            payload: Seq::empty(),
        }),
{
    let before = interested(s.sessions);
    let rest = interested(s.without_client(client_id).sessions);
    assert(rest =~= before.remove(client_id));
    if before == set![client_id] {
        assert(rest =~= Set::<ClientId>::empty());
    }
    if before.contains(client_id) && rest == Set::<ClientId>::empty() {
        assert(before =~= set![client_id]) by {
            assert forall|id: ClientId| before.contains(id) <==> set![client_id].contains(id) by {
                if before.contains(id) && id != client_id {
                    assert(rest.contains(id));
                }
            }
        }
    }
}

// ---- Delivery -------------------------------------------------------------

/// The frames among several that go to one client.
pub open spec fn addressed_to(views: Seq<OutgoingView>, id: ClientId) -> Seq<(u8, u16, Seq<u8>)>
    decreases views.len(),
{
    if views.len() == 0 {
        Seq::empty()
    } else if views.last().recipients.contains(id) {
        addressed_to(views.drop_last(), id).push(
            (views.last().type_id, views.last().tag, views.last().payload),
        )
    } else {
        addressed_to(views.drop_last(), id)
    }
}

/// A client that is named once gets one copy of a frame, and one that is not named gets none.
pub(crate) proof fn lemma_copies(frame: Seq<u8>, recipients: Seq<ClientId>, id: ClientId)
    requires
        recipients.no_duplicates(),
    ensures
        copies_for(frame, recipients, id) == if recipients.contains(id) {
            seq![frame]
        } else {
            Seq::empty()
        },
    decreases recipients.len(),
{
    if recipients.len() > 0 {
        let fewer = recipients.drop_last();
        lemma_copies(frame, fewer, id);
        assert(recipients =~= fewer.push(recipients.last()));
        if fewer.contains(id) {
            let k = fewer.index_of(id);
            assert(recipients[k] == id);
            assert(recipients[recipients.len() - 1] != id);
        } else if recipients.last() == id {
            assert(recipients[recipients.len() - 1] == id);
            assert(copies_for(frame, recipients, id) =~= seq![frame]);
        } else if recipients.contains(id) {
            let k = recipients.index_of(id);
            assert(fewer[k] == id);
        }
    }
}

proof fn lemma_frames_are_addressed(outs: Seq<Outgoing>, views: Seq<OutgoingView>, id: ClientId)
    requires
        carry(outs, views),
    ensures
        frames_for(outs, id).len() == addressed_to(views, id).len(),
        forall|i: int|
            0 <= i < frames_for(outs, id).len() ==> is_wire_frame(
                #[trigger] frames_for(outs, id)[i],
                addressed_to(views, id)[i].0,
                addressed_to(views, id)[i].1,
                addressed_to(views, id)[i].2,
            ),
    decreases outs.len(),
{
    if outs.len() > 0 {
        let n = outs.len() - 1;
        assert(outs[n].carries(views[n]));
        assert forall|i: int| 0 <= i < n implies (#[trigger] outs.drop_last()[i]).carries(
            views.drop_last()[i],
        ) by {
            assert(outs[i].carries(views[i]));
        }
        lemma_frames_are_addressed(outs.drop_last(), views.drop_last(), id);
        lemma_copies(outs[n].frame@, outs[n].recipients@, id);
        assert(outs[n].recipients@.contains(id) <==> views[n].recipients.contains(id));
    }
}

/// A client reads exactly what is addressed to it: the bytes that a delivery offers to its queue
/// decode to the frames that go to it, all of them, in order, and no others.
pub proof fn law_client_reads_its_frames(
    outs: Seq<Outgoing>,
    views: Seq<OutgoingView>,
    id: ClientId,
)
    requires
        carry(outs, views),
    ensures
        DecoderView::fresh().events(concatenated(frames_for(outs, id)))
            == addressed_to(views, id).map_values(
            |f: (u8, u16, Seq<u8>)|
                FrameEventView::Frame { type_id: f.0, tag: f.1, payload: f.2 },
        ),
{
    lemma_frames_are_addressed(outs, views, id);
    law_stream_round_trip(frames_for(outs, id), addressed_to(views, id));
}

/// A slow client holds up nobody: what a delivery does to one client depends on its own queue
/// alone, whatever becomes of the frames of the others.
pub proof fn law_slow_client_holds_up_nobody(
    s: MuxView,
    offered: spec_fn(ClientId) -> Seq<Seq<u8>>,
    outcomes: Map<ClientId, Seq<SendOutcome>>,
    t: MuxView,
    reports: Seq<DropReport>,
    id: ClientId,
)
    requires
        s.wf(),
        delivered(s, offered, outcomes, t, reports),
        s.sessions.contains_key(id),
        forall|i: int| 0 <= i < outcomes[id].len() ==> #[trigger] outcomes[id][i] is Sent,
    ensures
        t.sessions[id] == (SessionView {
            queue: QueueView {
                sent: s.sessions[id].queue.sent + offered(id),
                ..s.sessions[id].queue
            },
            ..s.sessions[id]
        }),
{
    law_open_queue_takes_all(s.sessions[id], offered(id), outcomes[id]);
}

/// A delivery delivers: a client whose queue is not found closed, and has room for the frames
/// that the client is offered, gets them all, in order.
pub proof fn law_delivery_reaches_open_queues(
    s: MuxView,
    offered: spec_fn(ClientId) -> Seq<Seq<u8>>,
    outcomes: Map<ClientId, Seq<SendOutcome>>,
    t: MuxView,
    reports: Seq<DropReport>,
    id: ClientId,
)
    requires
        s.wf(),
        delivered(s, offered, outcomes, t, reports),
        s.sessions.contains_key(id),
        !t.sessions[id].queue.closed,
        s.sessions[id].queue.sent.len() + offered(id).len() <= s.sessions[id].queue.capacity,
    ensures
        t.sessions[id] == (SessionView {
            queue: QueueView {
                sent: s.sessions[id].queue.sent + offered(id),
                ..s.sessions[id].queue
            },
            ..s.sessions[id]
        }),
{
    law_open_queue_takes_what_fits(s.sessions[id], offered(id), outcomes[id]);
}

/// A delivery loses nothing in silence: of the frames that a client is offered, its queue takes
/// some, in order, and the others are counted as dropped, as long as the queue is not found
/// closed.
pub proof fn law_delivery_counts_its_losses(
    s: MuxView,
    offered: spec_fn(ClientId) -> Seq<Seq<u8>>,
    outcomes: Map<ClientId, Seq<SendOutcome>>,
    t: MuxView,
    reports: Seq<DropReport>,
    id: ClientId,
)
    requires
        s.wf(),
        delivered(s, offered, outcomes, t, reports),
        s.sessions.contains_key(id),
        !t.sessions[id].queue.closed,
    ensures
        t.sessions[id].queue.sent == s.sessions[id].queue.sent + taken(offered(id), outcomes[id]),
        taken(offered(id), outcomes[id]).len() + full_count(outcomes[id]) == offered(id).len(),
        t.sessions[id].drops == (s.sessions[id].drops + full_count(outcomes[id]))
            % 0x1_0000_0000_0000_0000,
{
    law_sends_keep_the_session(s.sessions[id], offered(id), outcomes[id]);
    law_every_frame_is_taken_or_counted(s.sessions[id], offered(id), outcomes[id]);
}

} // verus!
