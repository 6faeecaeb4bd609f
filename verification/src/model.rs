//! What the multiplexer holds, how it changes, and what it sends.
//!
//! Every command that is forwarded travels under a fresh device tag, which leads the dongle's
//! answer back to the client that sent it. Frames without a tag go to every client. A packet
//! that one client had transmitted is looped back to the others as if they had received it.
use crate::clock::is_clock_reading;
use crate::framing::{frame_wire, is_wire_frame, FrameEventView};
use crate::intercept::{decided_sessions, decision, interested, DecisionView, LockView};
use crate::protocol::{
    command_of, le_bytes, valid_modulation, valid_set_config_ok, valid_tx_done, ErrorCode,
    MAX_OTA_PAYLOAD, MAX_PAYLOAD_FIELD, ORIGIN_LOCAL_LOOPBACK, OWNER_MINE, RESULT_APPLIED,
    TX_TRANSMITTED, TYPE_ERR, TYPE_OK, TYPE_PING, TYPE_RX, TYPE_RX_START, TYPE_RX_STOP,
    TYPE_SET_CONFIG, TYPE_TX, TYPE_TX_DONE,
};
use crate::queue::SendOutcome;
use crate::session::SessionView;
use crate::tags::{ClientId, Pending, TagView};
use vstd::prelude::*;

verus! {

/// Stands for the multiplexer itself where a client is named; no client has this identifier.
pub const SYNTHETIC_CLIENT: ClientId = u64::MAX;

// ---- Values ---------------------------------------------------------------

/// Work for the task that writes to the dongle.
#[derive(Debug)]
pub enum WriterWork {
    /// Forward a command under a fresh device tag.
    Forward { client_id: ClientId, type_id: u8, upstream_tag: u16, payload: Vec<u8> },
    /// Send a ping of the multiplexer's own.
    Keepalive,
}

/// What a [`WriterWork`] is as a value.
pub enum WorkView {
    Forward { client_id: ClientId, type_id: u8, upstream_tag: u16, payload: Seq<u8> },
    Keepalive,
}

impl View for WriterWork {
    type V = WorkView;

    open spec fn view(&self) -> WorkView {
        match *self {
            WriterWork::Forward { client_id, type_id, upstream_tag, payload } => {
                WorkView::Forward { client_id, type_id, upstream_tag, payload: payload@ }
            },
            WriterWork::Keepalive => WorkView::Keepalive,
        }
    }
}

impl WorkView {
    /// What is recorded of the work while it is in flight.
    pub open spec fn pending(self) -> Pending {
        match self {
            WorkView::Forward { client_id, type_id, upstream_tag, .. } => Pending {
                client_id,
                upstream_tag,
                cmd_type: type_id,
            },
            WorkView::Keepalive => Pending {
                client_id: SYNTHETIC_CLIENT,
                upstream_tag: 0,
                cmd_type: TYPE_PING,
            },
        }
    }

    /// The body of the command.
    pub open spec fn payload(self) -> Seq<u8> {
        match self {
            WorkView::Forward { payload, .. } => payload,
            WorkView::Keepalive => Seq::empty(),
        }
    }
}

/// An encoded frame, and the clients it goes to.
#[derive(Debug)]
pub struct Outgoing {
    pub frame: Vec<u8>,
    pub recipients: Vec<ClientId>,
}

/// A frame, and the clients it goes to.
pub struct OutgoingView {
    pub type_id: u8,
    pub tag: u16,
    pub payload: Seq<u8>,
    pub recipients: Set<ClientId>,
}

impl Outgoing {
    /// Whether this is the encoding of the given frame, for the given clients, each once.
    pub open spec fn carries(self, v: OutgoingView) -> bool {
        &&& self.frame@ == frame_wire(v.type_id, v.tag, v.payload)
        &&& is_wire_frame(self.frame@, v.type_id, v.tag, v.payload)
        &&& self.recipients@.no_duplicates()
        &&& self.recipients@.to_set() == v.recipients
    }
}

/// Whether a list carries the given frames, in order.
pub open spec fn carry(outs: Seq<Outgoing>, views: Seq<OutgoingView>) -> bool {
    &&& outs.len() == views.len()
    &&& forall|i: int| 0 <= i < outs.len() ==> (#[trigger] outs[i]).carries(views[i])
}

/// What is done with a frame from a client.
#[derive(Debug)]
pub enum ClientAction {
    /// Answer it.
    Reply(Outgoing),
    /// Hand it to the task that writes to the dongle.
    Forward(WriterWork),
    /// Swallow it.
    Nothing,
}

/// What a [`ClientAction`] is as a value.
pub enum ActionView {
    Reply(OutgoingView),
    Forward(WorkView),
    Nothing,
}

impl ClientAction {
    /// Whether this is the given action.
    pub open spec fn performs(self, v: ActionView) -> bool {
        match (self, v) {
            (ClientAction::Reply(out), ActionView::Reply(w)) => out.carries(w),
            (ClientAction::Forward(work), ActionView::Forward(w)) => work@ == w,
            (ClientAction::Nothing, ActionView::Nothing) => true,
            _ => false,
        }
    }
}

/// What follows from a client's leaving.
#[derive(Debug)]
pub struct Departure {
    /// Turns the dongle's receiver off when nobody listens any more.
    pub work: Option<WriterWork>,
    /// Frames that were dropped for the client.
    pub drops: u64,
    /// Whether the client held the configuration lock.
    pub lock_released: bool,
}

/// A total of dropped frames that is to be reported.
#[derive(Clone, Copy, Debug, PartialEq, Eq, Structural)]
pub struct DropReport {
    pub client_id: ClientId,
    pub total: u64,
}

/// The totals of one client among several reports, in order.
pub open spec fn totals_of(reports: Seq<DropReport>, id: ClientId) -> Seq<u64>
    decreases reports.len(),
{
    if reports.len() == 0 {
        Seq::empty()
    } else if reports.last().client_id == id {
        totals_of(reports.drop_last(), id).push(reports.last().total)
    } else {
        totals_of(reports.drop_last(), id)
    }
}

/// The copies of a frame that one of its recipients gets: one for each time it is named.
pub open spec fn copies_for(frame: Seq<u8>, recipients: Seq<ClientId>, id: ClientId) -> Seq<Seq<u8>>
    decreases recipients.len(),
{
    if recipients.len() == 0 {
        Seq::empty()
    } else if recipients.last() == id {
        copies_for(frame, recipients.drop_last(), id).push(frame)
    } else {
        copies_for(frame, recipients.drop_last(), id)
    }
}

/// The frames of a list that one client gets, in order.
pub open spec fn frames_for(outs: Seq<Outgoing>, id: ClientId) -> Seq<Seq<u8>>
    decreases outs.len(),
{
    if outs.len() == 0 {
        Seq::empty()
    } else {
        frames_for(outs.drop_last(), id) + copies_for(
            outs.last().frame@,
            outs.last().recipients@,
            id,
        )
    }
}

// ---- The state and its transitions ----------------------------------------

/// What the multiplexer holds: the clients, the configuration lock, and the commands in flight.
#[verifier::ext_equal]
pub struct MuxView {
    pub sessions: Map<ClientId, SessionView>,
    pub lock: LockView,
    pub tags: TagView,
}

/// The configuration that an answer reports as applied for the client that asked, if any.
pub open spec fn applied(cmd_type: u8, type_id: u8, payload: Seq<u8>) -> Option<Seq<u8>> {
    if cmd_type == TYPE_SET_CONFIG && type_id == TYPE_OK && valid_set_config_ok(payload)
        && payload[0] == RESULT_APPLIED && payload[1] == OWNER_MINE {
        Some(payload.skip(2))
    } else {
        None
    }
}

/// A client's session after the dongle answered one of its commands.
pub open spec fn session_answered(s: SessionView, p: Pending, type_id: u8) -> SessionView {
    if p.cmd_type == TYPE_TX && type_id == TYPE_TX_DONE {
        s.without_cached(p.upstream_tag)
    } else if p.cmd_type == TYPE_RX_START && type_id == TYPE_OK {
        s.with_interest(true)
    } else if p.cmd_type == TYPE_RX_STOP && type_id == TYPE_OK {
        s.with_interest(false)
    } else {
        s
    }
}

/// Whether an answer leaves its command in flight: the `OK` to a `TX`, after which a `TX_DONE`
/// still comes.
pub open spec fn is_interim(cmd_type: u8, type_id: u8) -> bool {
    cmd_type == TYPE_TX && type_id == TYPE_OK
}

/// The body of the `RX` by which the other clients learn of a transmitted packet.
pub open spec fn loopback_payload(now: u64, packet: Seq<u8>) -> Seq<u8> {
    Seq::new(8, |i: int| 0u8) + le_bytes(now as nat, 8) + seq![
        1u8,
        0u8,
        0u8,
        ORIGIN_LOCAL_LOOPBACK,
    ] + packet
}

/// Whether the clock was read for each frame that the decoder of the dongle's stream reported.
pub open spec fn are_readings(events: Seq<FrameEventView>, times: Seq<u64>) -> bool {
    &&& times.len() == events.len()
    &&& forall|i: int|
        0 <= i < events.len() && #[trigger] events[i] is Frame ==> is_clock_reading(times[i])
}

impl MuxView {
    /// Nothing connected, nothing in flight.
    pub open spec fn empty() -> MuxView {
        MuxView {
            sessions: Map::empty(),
            lock: None,
            tags: TagView { next: 1, pending: Map::empty() },
        }
    }

    /// Sessions stand under their own identifiers, none of which is the multiplexer's; the locked
    /// configuration is one; tags are sound.
    pub open spec fn wf(self) -> bool {
        &&& self.sessions.dom().finite()
        &&& !self.sessions.contains_key(SYNTHETIC_CLIENT)
        &&& forall|id: ClientId| #[trigger]
            self.sessions.contains_key(id) ==> self.sessions[id].id == id
        &&& self.lock matches Some((_, current)) ==> valid_modulation(current)
        &&& self.tags.wf()
    }

    /// The command that a frame from the dongle answers, if any.
    pub open spec fn answers(self, tag: u16) -> Option<Pending> {
        if tag == 0 {
            None
        } else {
            self.tags.pending.get(tag)
        }
    }

    /// The state after a frame from the dongle.
    pub open spec fn after_dongle_frame(self, type_id: u8, tag: u16, payload: Seq<u8>) -> MuxView {
        match self.answers(tag) {
            None => self,
            Some(p) => MuxView {
                sessions: if self.sessions.contains_key(p.client_id) {
                    self.sessions.insert(
                        p.client_id,
                        session_answered(self.sessions[p.client_id], p, type_id),
                    )
                } else {
                    self.sessions
                },
                lock: match applied(p.cmd_type, type_id, payload) {
                    Some(current) => Some((p.client_id, current)),
                    None => self.lock,
                },
                tags: if is_interim(p.cmd_type, type_id) {
                    self.tags
                } else {
                    TagView { pending: self.tags.pending.remove(tag), ..self.tags }
                },
            },
        }
    }

    /// The packet that a frame from the dongle reports as transmitted, if its client is there and
    /// the packet is known.
    pub open spec fn transmitted(self, p: Pending, type_id: u8, payload: Seq<u8>) -> Option<
        Seq<u8>,
    > {
        if p.cmd_type == TYPE_TX && type_id == TYPE_TX_DONE && self.sessions.contains_key(
            p.client_id,
        ) && self.sessions[p.client_id].tx_cache.contains_key(p.upstream_tag) && valid_tx_done(
            payload,
        ) && payload[0] == TX_TRANSMITTED && self.sessions[p.client_id].tx_cache[p.upstream_tag].len()
            <= MAX_OTA_PAYLOAD {
            Some(self.sessions[p.client_id].tx_cache[p.upstream_tag])
        } else {
            None
        }
    }

    /// The answer as it goes to the client that sent the command: under the client's own tag.
    pub open spec fn answer(self, p: Pending, type_id: u8, payload: Seq<u8>) -> Seq<OutgoingView> {
        if self.sessions.contains_key(p.client_id) {
            seq![
                OutgoingView {
                    type_id,
                    tag: p.upstream_tag,
                    payload,
                    recipients: set![p.client_id],
                },
            ]
        } else {
            Seq::empty()
        }
    }

    /// The transmitted packet as it goes to every other client.
    pub open spec fn loopback(
        self,
        p: Pending,
        type_id: u8,
        payload: Seq<u8>,
        now: u64,
    ) -> Seq<OutgoingView> {
        match self.transmitted(p, type_id, payload) {
            Some(packet) => seq![
                OutgoingView {
                    type_id: TYPE_RX,
                    tag: 0,
                    payload: loopback_payload(now, packet),
                    recipients: self.sessions.dom().remove(p.client_id),
                },
            ],
            None => Seq::empty(),
        }
    }

    /// A frame to every client.
    pub open spec fn to_all(self, type_id: u8, payload: Seq<u8>) -> Seq<OutgoingView> {
        seq![OutgoingView { type_id, tag: 0, payload, recipients: self.sessions.dom() }]
    }

    /// What is sent at a frame from the dongle, at the time `now`.
    pub open spec fn at_dongle_frame(
        self,
        type_id: u8,
        tag: u16,
        payload: Seq<u8>,
        now: u64,
    ) -> Seq<OutgoingView> {
        if payload.len() > MAX_PAYLOAD_FIELD {
            Seq::empty()
        } else if tag == 0 {
            self.to_all(type_id, payload)
        } else {
            match self.answers(tag) {
                Some(p) => self.answer(p, type_id, payload) + self.loopback(
                    p,
                    type_id,
                    payload,
                    now,
                ),
                None => Seq::empty(),
            }
        }
    }

    /// The state after what the decoder of the dongle's stream reported.
    pub open spec fn after_dongle_events(self, events: Seq<FrameEventView>) -> MuxView
        decreases events.len(),
    {
        if events.len() == 0 {
            self
        } else {
            let before = self.after_dongle_events(events.drop_last());
            match events.last() {
                FrameEventView::Frame { type_id, tag, payload } => before.after_dongle_frame(
                    type_id,
                    tag,
                    payload,
                ),
                FrameEventView::Corrupt => before,
            }
        }
    }

    /// What is sent at the frames that the decoder of the dongle's stream reported, each at its
    /// time.
    pub open spec fn at_dongle_frames(
        self,
        events: Seq<FrameEventView>,
        times: Seq<u64>,
    ) -> Seq<OutgoingView>
        decreases events.len(),
    {
        if events.len() == 0 {
            Seq::empty()
        } else {
            let before = self.after_dongle_events(events.drop_last());
            self.at_dongle_frames(events.drop_last(), times.drop_last()) + match events.last() {
                FrameEventView::Frame { type_id, tag, payload } => before.at_dongle_frame(
                    type_id,
                    tag,
                    payload,
                    times.last(),
                ),
                FrameEventView::Corrupt => Seq::empty(),
            }
        }
    }

    /// What is sent at what the decoder of the dongle's stream reported: whatever the frames have
    /// sent, and then one error to every client if anything was corrupt.
    pub open spec fn at_dongle_events(
        self,
        events: Seq<FrameEventView>,
        times: Seq<u64>,
    ) -> Seq<OutgoingView> {
        self.at_dongle_frames(events, times) + if events.contains(FrameEventView::Corrupt) {
            self.at_link_error(ErrorCode::EFrame)
        } else {
            Seq::empty()
        }
    }

    /// What is sent when the link to the dongle fails in a way that no client caused.
    pub open spec fn at_link_error(self, code: ErrorCode) -> Seq<OutgoingView> {
        self.to_all(TYPE_ERR, le_bytes(code.number() as nat, 2))
    }

    /// The state after a frame from a client.
    pub open spec fn after_client_frame(
        self,
        type_id: u8,
        payload: Seq<u8>,
        client_id: ClientId,
    ) -> MuxView {
        MuxView {
            sessions: decided_sessions(type_id, payload, client_id, self.sessions),
            ..self
        }
    }

    /// A frame to the client that sent one, under the tag that it chose, if it is still there.
    pub open spec fn reply(
        self,
        client_id: ClientId,
        upstream_tag: u16,
        type_id: u8,
        payload: Seq<u8>,
    ) -> OutgoingView {
        OutgoingView {
            type_id,
            tag: upstream_tag,
            payload,
            recipients: self.sessions.dom().intersect(set![client_id]),
        }
    }

    /// What is done with a frame from a client: what is no command is answered with an error,
    /// and a command is answered or forwarded.
    pub open spec fn at_client_frame(
        self,
        type_id: u8,
        upstream_tag: u16,
        payload: Seq<u8>,
        client_id: ClientId,
    ) -> ActionView {
        if command_of(type_id, payload) is None {
            ActionView::Reply(
                self.reply(
                    client_id,
                    upstream_tag,
                    TYPE_ERR,
                    le_bytes(ErrorCode::EUnknownCmd.number() as nat, 2),
                ),
            )
        } else {
            match decision(type_id, payload, client_id, self.lock, self.sessions) {
                DecisionView::Synthesize { type_id: out_type, payload: out_payload } => {
                    ActionView::Reply(self.reply(client_id, upstream_tag, out_type, out_payload))
                },
                DecisionView::Forward => ActionView::Forward(
                    WorkView::Forward { client_id, type_id, upstream_tag, payload },
                ),
                DecisionView::Drop => ActionView::Nothing,
            }
        }
    }

    /// The answer to what a client sent and is no frame.
    pub open spec fn corrupt_answer(self, client_id: ClientId) -> OutgoingView {
        self.reply(client_id, 0, TYPE_ERR, le_bytes(ErrorCode::EFrame.number() as nat, 2))
    }

    /// What is done with what the decoder of a client's stream reported.
    pub open spec fn at_client_event(
        self,
        event: FrameEventView,
        client_id: ClientId,
    ) -> ActionView {
        match event {
            FrameEventView::Frame { type_id, tag, payload } => self.at_client_frame(
                type_id,
                tag,
                payload,
                client_id,
            ),
            FrameEventView::Corrupt => ActionView::Reply(self.corrupt_answer(client_id)),
        }
    }

    /// The state after what the decoder of a client's stream reported.
    pub open spec fn after_client_event(
        self,
        event: FrameEventView,
        client_id: ClientId,
    ) -> MuxView {
        match event {
            FrameEventView::Frame { type_id, payload, .. } => self.after_client_frame(
                type_id,
                payload,
                client_id,
            ),
            FrameEventView::Corrupt => self,
        }
    }

    /// The state after a piece of work was written to the dongle: it is in flight, and the packet
    /// of a transmission is remembered.
    pub open spec fn after_write(self, work: WorkView) -> MuxView {
        MuxView {
            sessions: match work {
                WorkView::Forward { client_id, type_id, upstream_tag, payload } if type_id
                    == TYPE_TX && payload.len() > 1 && self.sessions.contains_key(client_id) => {
                    self.sessions.insert(
                        client_id,
                        self.sessions[client_id].with_cached(upstream_tag, payload.skip(1)),
                    )
                },
                _ => self.sessions,
            },
            tags: self.tags.allocated(work.pending()),
            ..self
        }
    }

    /// The state with one more client.
    pub open spec fn with_client(self, session: SessionView) -> MuxView {
        MuxView { sessions: self.sessions.insert(session.id, session), ..self }
    }

    /// The state after a client left: nothing of it is in flight, and it holds no lock.
    pub open spec fn without_client(self, client_id: ClientId) -> MuxView {
        MuxView {
            sessions: self.sessions.remove(client_id),
            lock: match self.lock {
                Some((owner, _)) if owner == client_id => None,
                _ => self.lock,
            },
            tags: self.tags.without_client(client_id),
        }
    }

    /// The work that a client's leaving causes: the last to listen turns the receiver off.
    pub open spec fn at_removal(self, client_id: ClientId) -> Option<WorkView> {
        if interested(self.sessions) == set![client_id] {
            Some(
                WorkView::Forward {
                    client_id: SYNTHETIC_CLIENT,
                    type_id: TYPE_RX_STOP,
                    upstream_tag: 0,
                    payload: Seq::empty(),
                },
            )
        } else {
            None
        }
    }

    /// The state with nothing in flight.
    pub open spec fn with_nothing_pending(self) -> MuxView {
        MuxView { tags: TagView { pending: Map::empty(), ..self.tags }, ..self }
    }
}

// ---- Delivery -------------------------------------------------------------

/// What each client is offered of a list.
pub open spec fn offered_by(outs: Seq<Outgoing>) -> spec_fn(ClientId) -> Seq<Seq<u8>> {
    |id: ClientId| frames_for(outs, id)
}

/// Whether `after` is what `before` has become when each client's queue was offered the frames
/// `offered` to it, one after the other, with the given outcomes, which the queue admits; and
/// whether `reports` are the totals that were to be reported on the way.
///
/// A client is touched by what happens to its own queue and nothing else.
pub open spec fn delivered(
    before: MuxView,
    offered: spec_fn(ClientId) -> Seq<Seq<u8>>,
    outcomes: Map<ClientId, Seq<SendOutcome>>,
    after: MuxView,
    reports: Seq<DropReport>,
) -> bool {
    &&& after.lock == before.lock
    &&& after.tags == before.tags
    &&& after.sessions.dom() == before.sessions.dom()
    &&& forall|id: ClientId| #[trigger]
        before.sessions.contains_key(id) ==> {
            &&& outcomes[id].len() == offered(id).len()
            &&& before.sessions[id].admits(offered(id), outcomes[id])
            &&& after.sessions[id] == before.sessions[id].after_sends(offered(id), outcomes[id])
            &&& totals_of(reports, id) == before.sessions[id].reports(offered(id), outcomes[id])
        }
    &&& forall|i: int|
        0 <= i < reports.len() ==> before.sessions.contains_key(
            (#[trigger] reports[i]).client_id,
        )
}

} // verus!
