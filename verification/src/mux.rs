//! The multiplexer: routes frames between clients and the dongle.
use crate::clock::{is_clock_reading, now_us};
use crate::framing::{
    encode_frame, event_views, frame_wire, is_wire_frame, FrameEvent, FrameEventView,
};
use crate::intercept::{decide, interested, synthesize_err, Decision, MuxState};
use crate::model::{
    applied, are_readings, carry, copies_for, delivered, frames_for, loopback_payload, offered_by,
    session_answered, totals_of, ClientAction, Departure, DropReport, MuxView, Outgoing,
    OutgoingView, WriterWork, SYNTHETIC_CLIENT,
};
use crate::protocol::{
    decode_tx_done, encode_rx, le_bytes, lemma_modulation_len, parse_command,
    parse_set_config_ok, ErrorCode, Modulation, RxPayload, MAX_OTA_PAYLOAD, MAX_PAYLOAD_FIELD,
    ORIGIN_LOCAL_LOOPBACK, OWNER_MINE, RESULT_APPLIED, TX_TRANSMITTED, TYPE_OK, TYPE_PING,
    TYPE_RX, TYPE_RX_START, TYPE_RX_STOP, TYPE_SET_CONFIG, TYPE_TX, TYPE_TX_DONE,
};
use crate::queue::SendOutcome;
use crate::seqs::{lemma_push_to_set, lemma_take_contains};
use crate::session::{
    lemma_session_views_dom, session_views, ClientSession,
};
use crate::tags::{ClientId, Pending, TagMapper};
use std::collections::HashMap;
use vstd::prelude::*;

verus! {

broadcast use {vstd::std_specs::hash::group_hash_axioms, lemma_session_views_dom};

/// The multiplexer's state.
pub struct MuxInner {
    sessions: HashMap<ClientId, ClientSession>,
    mux_state: MuxState,
    tag_mapper: TagMapper,
}

impl View for MuxInner {
    type V = MuxView;

    closed spec fn view(&self) -> MuxView {
        MuxView {
            sessions: session_views(self.sessions@),
            lock: self.mux_state@,
            tags: self.tag_mapper@,
        }
    }
}

/// The frame in its wire form, for the given clients; nothing if it does not fit.
fn addressed(type_id: u8, tag: u16, payload: &[u8], recipients: Vec<ClientId>) -> (r: Vec<Outgoing>)
    requires
        recipients@.no_duplicates(),
    ensures
        payload@.len() <= MAX_PAYLOAD_FIELD ==> carry(
            r@,
            seq![
                OutgoingView {
                    type_id,
                    tag,
                    payload: payload@,
                    recipients: recipients@.to_set(),
                },
            ],
        ),
        payload@.len() > MAX_PAYLOAD_FIELD ==> r@.len() == 0,
{
    match encode_frame(type_id, tag, payload) {
        Some(frame) => vec![Outgoing { frame, recipients }],
        None => vec![],
    }
}

impl MuxInner {
    /// Nothing connected, nothing in flight.
    pub fn new() -> (r: Self)
        ensures
            r@ == MuxView::empty(),
            r@.wf(),
    {
        let mux = MuxInner {
            sessions: HashMap::new(),
            mux_state: MuxState::new(),
            tag_mapper: TagMapper::new(),
        };
        assert(mux@.sessions =~= Map::empty());
        mux
    }

    /// Every client, in no particular order.
    fn clients(&self) -> (r: Vec<ClientId>)
        ensures
            r@.no_duplicates(),
            r@.to_set() == self@.sessions.dom(),
    {
        let mut clients: Vec<ClientId> = Vec::new();
        for id in it: self.sessions.keys()
            invariant
                it.seq().no_duplicates(),
                it.seq().unref().to_set() == self.sessions@.dom(),
                clients@ == it.seq().unref().take(it.index()),
                clients@.no_duplicates(),
                it.index() == it.seq().len() ==> clients@.to_set() == self.sessions@.dom(),
        {
            clients.push(*id);
            assert(clients@ =~= it.seq().unref().take(it.index() + 1));
            assert(it.index() + 1 == it.seq().len() ==> clients@ =~= it.seq().unref());
        }
        clients
    }

    /// Every client but one, in no particular order.
    fn clients_but(&self, left_out: ClientId) -> (r: Vec<ClientId>)
        ensures
            r@.no_duplicates(),
            r@.to_set() == self@.sessions.dom().remove(left_out),
    {
        let all = self.clients();
        let mut others: Vec<ClientId> = Vec::new();
        let mut i: usize = 0;
        while i < all.len()
            invariant
                i <= all@.len(),
                all@.no_duplicates(),
                others@.no_duplicates(),
                others@.to_set() == all@.take(i as int).to_set().remove(left_out),
            decreases all@.len() - i,
        {
            proof {
                assert(all@.take(i + 1) =~= all@.take(i as int).push(all@[i as int]));
                lemma_push_to_set(all@.take(i as int), all@[i as int]);
                lemma_push_to_set(others@, all@[i as int]);
                if all@.take(i as int).contains(all@[i as int]) {
                    let j = all@.take(i as int).index_of(all@[i as int]);
                    assert(all@[j] == all@[i as int]);
                }
                assert(!all@.take(i as int).to_set().contains(all@[i as int]));
                assert(!others@.to_set().contains(all@[i as int]));
            }
            if all[i] != left_out {
                others.push(all[i]);
            }
            assert(others@.to_set() =~= all@.take(i + 1).to_set().remove(left_out));
            i += 1;
        }
        assert(all@.take(i as int) =~= all@);
        others
    }
}

impl MuxInner {
    /// Updates the session of a client whose command was answered. Returns the packet that the
    /// answer takes out of the client's cache.
    fn settle_session(&mut self, p: Pending, type_id: u8) -> (r: Option<Vec<u8>>)
        requires
            old(self)@.wf(),
        ensures
            final(self)@ == (MuxView {
                sessions: if old(self)@.sessions.contains_key(p.client_id) {
                    old(self)@.sessions.insert(
                        p.client_id,
                        session_answered(old(self)@.sessions[p.client_id], p, type_id),
                    )
                } else {
                    old(self)@.sessions
                },
                ..old(self)@
            }),
            r is Some <==> p.cmd_type == TYPE_TX && type_id == TYPE_TX_DONE && old(
                self,
            )@.sessions.contains_key(p.client_id) && old(
                self,
            )@.sessions[p.client_id].tx_cache.contains_key(p.upstream_tag),
            r matches Some(packet) ==> packet@ == old(
                self,
            )@.sessions[p.client_id].tx_cache[p.upstream_tag],
    {
        let mut packet: Option<Vec<u8>> = None;
        match self.sessions.remove(&p.client_id) {
            Some(mut session) => {
                if p.cmd_type == TYPE_TX && type_id == TYPE_TX_DONE {
                    packet = session.uncache_tx(p.upstream_tag);
                } else if p.cmd_type == TYPE_RX_START && type_id == TYPE_OK {
                    session.set_rx_interested(true);
                } else if p.cmd_type == TYPE_RX_STOP && type_id == TYPE_OK {
                    session.set_rx_interested(false);
                }
                self.sessions.insert(p.client_id, session);
                assert(self@.sessions =~= old(self)@.sessions.insert(p.client_id, session@));
            },
            None => {
                assert(self@.sessions =~= old(self)@.sessions);
            },
        }
        packet
    }

    /// Gives the configuration lock to a client whose configuration was applied.
    fn install_lock(&mut self, p: Pending, type_id: u8, payload: &[u8])
        requires
            old(self)@.wf(),
        ensures
            final(self)@ == (MuxView {
                lock: match applied(p.cmd_type, type_id, payload@) {
                    Some(current) => Some((p.client_id, current)),
                    None => old(self)@.lock,
                },
                ..old(self)@
            }),
            final(self)@.wf(),
    {
        if p.cmd_type == TYPE_SET_CONFIG && type_id == TYPE_OK {
            if let Some(reply) = parse_set_config_ok(p.cmd_type, payload) {
                assert(payload@.skip(2) =~= reply.current@);
                if reply.result == RESULT_APPLIED && reply.owner == OWNER_MINE {
                    let current = Modulation::new(reply.current);
                    self.mux_state.locked = Some((p.client_id, current));
                }
            }
        }
    }

    /// The frame by which the other clients learn of a transmitted packet.
    fn loopback_frame(now: u64, packet: Vec<u8>) -> (r: Option<Vec<u8>>)
        ensures
            r is Some <==> packet@.len() <= MAX_OTA_PAYLOAD,
            r matches Some(frame) ==> frame@ == frame_wire(
                TYPE_RX,
                0,
                loopback_payload(now, packet@),
            ) && is_wire_frame(frame@, TYPE_RX, 0, loopback_payload(now, packet@)),
    {
        let rx = RxPayload {
            rssi_tenths_dbm: 0,
            snr_tenths_db: 0,
            freq_err_hz: 0,
            timestamp_us: now,
            crc_valid: true,
            packets_dropped: 0,
            origin: ORIGIN_LOCAL_LOOPBACK,
            data: packet,
        };
        proof {
            reveal_with_fuel(le_bytes, 5);
            assert(rx.bytes() =~= loopback_payload(now, packet@));
            lemma_le_bytes_len(now as nat, 8);
        }
        match encode_rx(&rx) {
            Some(payload) => encode_frame(TYPE_RX, 0, payload.as_slice()),
            None => None,
        }
    }

    /// Takes a frame from the dongle at the time `now`, and returns what it has to send, in
    /// order.
    ///
    /// A frame without a tag goes to every client. A frame with one answers the command that was
    /// forwarded under it, if there is one, and goes to the client that sent it. The client gets
    /// the configuration lock when its configuration was applied. A packet that was transmitted
    /// goes to the other clients too.
    pub fn dispatch_dongle_frame(&mut self, type_id: u8, tag: u16, payload: &[u8], now: u64) -> (r: Vec<
        Outgoing,
    >)
        requires
            old(self)@.wf(),
        ensures
            final(self)@ == old(self)@.after_dongle_frame(type_id, tag, payload@),
            final(self)@.wf(),
            carry(r@, old(self)@.at_dongle_frame(type_id, tag, payload@, now)),
    {
        if tag == 0 {
            return addressed(type_id, 0, payload, self.clients());
        }
        let p = match self.tag_mapper.peek(tag) {
            Some(p) => *p,
            None => {
                return vec![];
            },
        };
        if !(p.cmd_type == TYPE_TX && type_id == TYPE_OK) {
            self.tag_mapper.take(tag);
        }
        self.install_lock(p, type_id, payload);
        let packet = self.settle_session(p, type_id);
        assert(self@.sessions.dom() =~= old(self)@.sessions.dom());
        let Some(frame) = encode_frame(type_id, p.upstream_tag, payload) else {
            return vec![];
        };
        let mut out: Vec<Outgoing> = vec![];
        if self.sessions.contains_key(&p.client_id) {
            let recipients = vec![p.client_id];
            assert(recipients@.to_set() =~= set![p.client_id]) by {
                assert(recipients@[0] == p.client_id);
            }
            out.push(Outgoing { frame, recipients });
        }
        assert(carry(out@, old(self)@.answer(p, type_id, payload@)));
        if let Some(packet) = packet {
            if let Some(done) = decode_tx_done(payload) {
                if done.result == TX_TRANSMITTED {
                    if let Some(frame) = Self::loopback_frame(now, packet) {
                        let recipients = self.clients_but(p.client_id);
                        out.push(Outgoing { frame, recipients });
                    }
                }
            }
        }
        out
    }
}

impl MuxInner {
    /// Sends an error to every client.
    pub fn fanout_async_err(&self, code: ErrorCode) -> (r: Vec<Outgoing>)
        ensures
            carry(r@, self@.at_link_error(code)),
    {
        let (type_id, payload) = synthesize_err(code);
        proof {
            lemma_le_bytes_len(code.number() as nat, 2);
        }
        addressed(type_id, 0, payload.as_slice(), self.clients())
    }

    /// Takes what the decoder of the dongle's stream reported, and returns what it has to send,
    /// in order.
    pub fn dispatch_dongle_events(&mut self, events: &Vec<FrameEvent>) -> (r: Vec<Outgoing>)
        requires
            old(self)@.wf(),
        ensures
            final(self)@ == old(self)@.after_dongle_events(event_views(events@)),
            final(self)@.wf(),
            exists|times: Seq<u64>|
                are_readings(event_views(events@), times) && carry(
                    r@,
                    #[trigger] old(self)@.at_dongle_events(event_views(events@), times),
                ),
    {
        let ghost views = event_views(events@);
        let ghost mut times: Seq<u64> = Seq::empty();
        let mut out: Vec<Outgoing> = vec![];
        let mut corrupt = false;
        let mut i: usize = 0;
        assert(views.take(0) =~= Seq::empty());
        while i < events.len()
            invariant
                i <= events@.len(),
                views == event_views(events@),
                old(self)@.wf(),
                self@.wf(),
                self@ == old(self)@.after_dongle_events(views.take(i as int)),
                self@.sessions.dom() == old(self)@.sessions.dom(),
                are_readings(views.take(i as int), times),
                carry(out@, old(self)@.at_dongle_frames(views.take(i as int), times)),
                corrupt == views.take(i as int).contains(FrameEventView::Corrupt),
            decreases events@.len() - i,
        {
            let ghost before = self@;
            let ghost sent = out@;
            let ghost mut now: u64 = 0;
            assert(views[i as int] == events@[i as int]@);
            match &events[i] {
                FrameEvent::Frame { type_id, tag, payload } => {
                    let time = now_us();
                    let mut more = self.dispatch_dongle_frame(*type_id, *tag, payload.as_slice(), time);
                    out.append(&mut more);
                    proof {
                        now = time;
                    }
                },
                FrameEvent::Corrupt => {
                    corrupt = true;
                },
            }
            proof {
                let ghost next = views.take(i + 1);
                assert(next.drop_last() =~= views.take(i as int));
                assert(next.last() == views[i as int]);
                assert(times.push(now).drop_last() =~= times);
                assert(times.push(now).last() == now);
                lemma_take_contains(views, i as int, FrameEventView::Corrupt);
                assert(self@.sessions.dom() =~= before.sessions.dom());
                assert forall|k: int|
                    0 <= k <= i && #[trigger] next[k] is Frame implies is_clock_reading(
                    times.push(now)[k],
                ) by {
                    if k < i {
                        assert(views.take(i as int)[k] == next[k]);
                    }
                }
                times = times.push(now);
                let expected = old(self)@.at_dongle_frames(next, times);
                assert forall|k: int| 0 <= k < out@.len() implies (#[trigger] out@[k]).carries(
                    expected[k],
                ) by {
                    if k < sent.len() {
                        assert(out@[k] == sent[k]);
                    }
                }
            }
            i += 1;
        }
        assert(views.take(i as int) =~= views);
        let ghost frames = out@;
        if corrupt {
            let mut more = self.fanout_async_err(ErrorCode::EFrame);
            let ghost extra = more@;
            out.append(&mut more);
            proof {
                let expected = old(self)@.at_dongle_events(views, times);
                assert(carry(extra, old(self)@.at_link_error(ErrorCode::EFrame)));
                assert forall|k: int| 0 <= k < out@.len() implies (#[trigger] out@[k]).carries(
                    expected[k],
                ) by {
                    if k < frames.len() {
                        assert(out@[k] == frames[k]);
                    } else {
                        assert(out@[k] == extra[k - frames.len()]);
                    }
                }
            }
        } else {
            assert(old(self)@.at_dongle_events(views, times) =~= old(self)@.at_dongle_frames(
                views,
                times,
            ));
        }
        assert(carry(out@, old(self)@.at_dongle_events(views, times)));
        out
    }
}

impl MuxInner {
    /// The frame in its wire form, for a client if it is still there.
    fn reply_to(
        &self,
        client_id: ClientId,
        upstream_tag: u16,
        type_id: u8,
        payload: &[u8],
    ) -> (r: Outgoing)
        requires
            payload@.len() <= MAX_PAYLOAD_FIELD,
        ensures
            r.carries(self@.reply(client_id, upstream_tag, type_id, payload@)),
    {
        let recipients = if self.sessions.contains_key(&client_id) {
            vec![client_id]
        } else {
            vec![]
        };
        assert(recipients@.to_set() =~= self@.sessions.dom().intersect(set![client_id])) by {
            if self@.sessions.contains_key(client_id) {
                assert(recipients@[0] == client_id);
            }
        }
        let frame = match encode_frame(type_id, upstream_tag, payload) {
            Some(frame) => frame,
            None => vec![],
        };
        Outgoing { frame, recipients }
    }

    /// The answer to what a client sent and is no frame: an error without a tag.
    pub fn answer_corrupt_frame(&self, client_id: ClientId) -> (r: Outgoing)
        ensures
            r.carries(self@.corrupt_answer(client_id)),
    {
        let (type_id, payload) = synthesize_err(ErrorCode::EFrame);
        proof {
            lemma_le_bytes_len(ErrorCode::EFrame.number() as nat, 2);
        }
        self.reply_to(client_id, 0, type_id, payload.as_slice())
    }

    /// Takes what the decoder of a client's stream reported, and returns what is to be done with
    /// it.
    pub fn handle_client_event(&mut self, event: FrameEvent, client_id: ClientId) -> (r:
        ClientAction)
        requires
            old(self)@.wf(),
        ensures
            final(self)@ == old(self)@.after_client_event(event@, client_id),
            final(self)@.wf(),
            r.performs(old(self)@.at_client_event(event@, client_id)),
    {
        match event {
            FrameEvent::Frame { type_id, tag, payload } => self.handle_client_frame(
                type_id,
                tag,
                payload,
                client_id,
            ),
            FrameEvent::Corrupt => ClientAction::Reply(self.answer_corrupt_frame(client_id)),
        }
    }

    /// Takes a frame from a client, and returns what is to be done with it.
    ///
    /// A frame that is no command is answered with an error under the client's tag.
    pub fn handle_client_frame(
        &mut self,
        type_id: u8,
        upstream_tag: u16,
        payload: Vec<u8>,
        client_id: ClientId,
    ) -> (r: ClientAction)
        requires
            old(self)@.wf(),
        ensures
            final(self)@ == old(self)@.after_client_frame(type_id, payload@, client_id),
            final(self)@.wf(),
            r.performs(
                old(self)@.at_client_frame(type_id, upstream_tag, payload@, client_id),
            ),
    {
        let decision = decide(
            type_id,
            payload.as_slice(),
            client_id,
            &mut self.mux_state,
            &mut self.sessions,
        );
        proof {
            assert(self@.sessions.dom() =~= old(self)@.sessions.dom());
            if let Some((_, current)) = self@.lock {
                lemma_modulation_len(current);
            }
            lemma_le_bytes_len(ErrorCode::EUnknownCmd.number() as nat, 2);
        }
        match decision {
            Decision::Synthesize { type_id: out_type, payload: out_payload } => ClientAction::Reply(
                self.reply_to(client_id, upstream_tag, out_type, out_payload.as_slice()),
            ),
            Decision::Drop => ClientAction::Nothing,
            Decision::Forward => {
                if parse_command(type_id, payload.as_slice()).is_none() {
                    let (err_type, err_payload) = synthesize_err(ErrorCode::EUnknownCmd);
                    return ClientAction::Reply(
                        self.reply_to(client_id, upstream_tag, err_type, err_payload.as_slice()),
                    );
                }
                ClientAction::Forward(
                    WriterWork::Forward { client_id, type_id, upstream_tag, payload },
                )
            },
        }
    }

    /// Remembers the packet of a transmission until the dongle reports on it.
    fn remember_packet(&mut self, client_id: ClientId, upstream_tag: u16, payload: &Vec<u8>)
        requires
            old(self)@.wf(),
            payload@.len() > 1,
        ensures
            final(self)@ == (MuxView {
                sessions: if old(self)@.sessions.contains_key(client_id) {
                    old(self)@.sessions.insert(
                        client_id,
                        old(self)@.sessions[client_id].with_cached(upstream_tag, payload@.skip(1)),
                    )
                } else {
                    old(self)@.sessions
                },
                ..old(self)@
            }),
    {
        match self.sessions.remove(&client_id) {
            Some(mut session) => {
                let packet = vstd::slice::slice_subrange(payload.as_slice(), 1, payload.len());
                session.cache_tx(upstream_tag, vstd::slice::slice_to_vec(packet));
                assert(packet@ =~= payload@.skip(1));
                self.sessions.insert(client_id, session);
                assert(self@.sessions =~= old(self)@.sessions.insert(client_id, session@));
            },
            None => {
                assert(self@.sessions =~= old(self)@.sessions);
            },
        }
    }

    /// Takes work for the dongle: puts it in flight under a fresh device tag, and returns the
    /// bytes to write; nothing if the command does not fit a frame.
    pub fn prepare_write(&mut self, work: WriterWork) -> (r: Option<Vec<u8>>)
        requires
            old(self)@.wf(),
            old(self)@.tags.has_free_tag(),
        ensures
            final(self)@ == old(self)@.after_write(work@),
            final(self)@.wf(),
            r is Some <==> work@.payload().len() <= MAX_PAYLOAD_FIELD,
            r matches Some(wire) ==> wire@ == frame_wire(
                work@.pending().cmd_type,
                old(self)@.tags.fresh_tag(),
                work@.payload(),
            ),
            r matches Some(wire) ==> is_wire_frame(
                wire@,
                work@.pending().cmd_type,
                old(self)@.tags.fresh_tag(),
                work@.payload(),
            ),
    {
        match work {
            WriterWork::Keepalive => {
                let device_tag = self.tag_mapper.allocate(SYNTHETIC_CLIENT, 0, TYPE_PING);
                let payload: Vec<u8> = vec![];
                encode_frame(TYPE_PING, device_tag, payload.as_slice())
            },
            WriterWork::Forward { client_id, type_id, upstream_tag, payload } => {
                if type_id == TYPE_TX && payload.len() > 1 {
                    self.remember_packet(client_id, upstream_tag, &payload);
                }
                let device_tag = self.tag_mapper.allocate(client_id, upstream_tag, type_id);
                encode_frame(type_id, device_tag, payload.as_slice())
            },
        }
    }

    /// Whether a device tag is left for another command.
    pub fn has_free_tag(&self) -> (r: bool)
        ensures
            r == self@.tags.has_free_tag(),
    {
        self.tag_mapper.has_free_tag()
    }

    /// How many clients are connected.
    pub fn client_count(&self) -> (r: usize)
        ensures
            r == self@.sessions.len(),
    {
        self.sessions.len()
    }

    /// Connects a client.
    pub fn add_client(&mut self, session: ClientSession)
        requires
            old(self)@.wf(),
            session@.id != SYNTHETIC_CLIENT,
        ensures
            final(self)@ == old(self)@.with_client(session@),
            final(self)@.wf(),
    {
        self.sessions.insert(session.id(), session);
        assert(self@.sessions =~= old(self)@.sessions.insert(session@.id, session@));
    }

    /// Disconnects a client: nothing of it stays in flight, the configuration lock is released
    /// if it held it, and the dongle's receiver is turned off if it was the last to listen.
    pub fn remove_client(&mut self, client_id: ClientId) -> (r: Departure)
        requires
            old(self)@.wf(),
        ensures
            final(self)@ == old(self)@.without_client(client_id),
            final(self)@.wf(),
            match r.work {
                Some(work) => Some(work@) == old(self)@.at_removal(client_id),
                None => old(self)@.at_removal(client_id) is None,
            },
            r.drops == if old(self)@.sessions.contains_key(client_id) {
                old(self)@.sessions[client_id].drops
            } else {
                0
            },
            r.lock_released <==> (old(self)@.lock matches Some((owner, _)) && owner == client_id),
    {
        let (was_interested, drops) = match self.sessions.get(&client_id) {
            Some(session) => (session.rx_interested(), session.drop_count()),
            None => (false, 0),
        };
        self.sessions.remove(&client_id);
        assert(self@.sessions =~= old(self)@.sessions.remove(client_id));
        self.tag_mapper.drop_client(client_id);
        let lock_released = match &self.mux_state.locked {
            Some((owner, _)) => *owner == client_id,
            None => false,
        };
        if lock_released {
            self.mux_state.locked = None;
        }
        let ghost before = interested(old(self)@.sessions);
        let ghost rest = interested(self@.sessions);
        proof {
            assert(rest =~= before.remove(client_id));
            assert(was_interested <==> before.contains(client_id));
            assert(rest.subset_of(old(self)@.sessions.dom()));
            assert(before == set![client_id] <==> was_interested && rest.len() == 0) by {
                if before == set![client_id] {
                    assert(before.contains(client_id));
                    assert(rest =~= Set::empty());
                }
                if was_interested && rest.len() == 0 {
                    assert(rest =~= Set::empty());
                    assert(before =~= set![client_id]);
                }
            }
        }
        let work = if was_interested && MuxState::rx_interest_count(&self.sessions) == 0 {
            Some(
                WriterWork::Forward {
                    client_id: SYNTHETIC_CLIENT,
                    type_id: TYPE_RX_STOP,
                    upstream_tag: 0,
                    payload: vec![],
                },
            )
        } else {
            None
        };
        Departure { work, drops, lock_released }
    }

    /// Forgets every command in flight: the dongle that had them is gone.
    pub fn forget_pending(&mut self)
        requires
            old(self)@.wf(),
        ensures
            final(self)@ == old(self)@.with_nothing_pending(),
            final(self)@.wf(),
    {
        self.tag_mapper.clear();
    }
}

impl MuxInner {
    /// Offers a frame to one client's queue. Returns the total of drops when it is to be
    /// reported; does nothing if the client is gone.
    fn offer(&mut self, client_id: ClientId, frame: &Vec<u8>) -> (r: Option<u64>)
        ensures
            final(self)@.lock == old(self)@.lock,
            final(self)@.tags == old(self)@.tags,
            old(self)@.sessions.contains_key(client_id) ==> exists|outcome: SendOutcome|
                final(self)@.sessions == old(self)@.sessions.insert(
                    client_id,
                    #[trigger] old(self)@.sessions[client_id].after_send(frame@, outcome),
                ) && r == old(self)@.sessions[client_id].report(outcome) && old(
                    self,
                )@.sessions[client_id].queue.admits(outcome),
            !old(self)@.sessions.contains_key(client_id) ==> r is None && final(self)@.sessions
                == old(self)@.sessions,
    {
        match self.sessions.remove(&client_id) {
            Some(mut session) => {
                let ghost before = session@;
                let copy = vstd::slice::slice_to_vec(frame.as_slice());
                assert(copy@ =~= frame@);
                let report = session.enqueue(copy);
                self.sessions.insert(client_id, session);
                proof {
                    let outcome = choose|outcome: SendOutcome|
                        session@ == #[trigger] before.after_send(frame@, outcome) && report
                            == before.report(outcome) && before.queue.admits(outcome);
                    assert(before == old(self)@.sessions[client_id]);
                    assert(self@.sessions =~= old(self)@.sessions.insert(
                        client_id,
                        old(self)@.sessions[client_id].after_send(frame@, outcome),
                    ));
                }
                report
            },
            None => {
                assert(self@.sessions =~= old(self)@.sessions);
                None
            },
        }
    }

    /// Offers frames to the queues of the clients they go to. A frame that finds a queue full is
    /// dropped for that client alone. Returns the totals of drops that are to be reported.
    pub fn deliver(&mut self, outs: &Vec<Outgoing>) -> (r: Vec<DropReport>)
        requires
            old(self)@.wf(),
        ensures
            exists|outcomes: Map<ClientId, Seq<SendOutcome>>| #[trigger]
                delivered(
                    old(self)@,
                    offered_by(outs@),
                    outcomes,
                    final(self)@,
                    r@,
                ),
            final(self)@.wf(),
    {
        let ghost mut outcomes: Map<ClientId, Seq<SendOutcome>> = Map::new(
            |id: ClientId| true,
            |id: ClientId| Seq::empty(),
        );
        let ghost mut offered = |id: ClientId| Seq::<Seq<u8>>::empty();
        let mut reports: Vec<DropReport> = vec![];
        let mut i: usize = 0;
        while i < outs.len()
            invariant
                i <= outs@.len(),
                old(self)@.wf(),
                self@.wf(),
                delivered(old(self)@, offered, outcomes, self@, reports@),
                forall|id: ClientId| #[trigger] offered(id) == frames_for(outs@.take(i as int), id),
            decreases outs@.len() - i,
        {
            let out = &outs[i];
            let ghost so_far = outs@.take(i as int);
            let mut j: usize = 0;
            assert(forall|id: ClientId| #[trigger]
                copies_for(out.frame@, out.recipients@.take(0), id) =~= Seq::empty());
            while j < out.recipients.len()
                invariant
                    j <= out.recipients@.len(),
                    old(self)@.wf(),
                    self@.wf(),
                    delivered(old(self)@, offered, outcomes, self@, reports@),
                    forall|id: ClientId| #[trigger]
                        offered(id) == frames_for(so_far, id) + copies_for(
                            out.frame@,
                            out.recipients@.take(j as int),
                            id,
                        ),
                decreases out.recipients@.len() - j,
            {
                let client_id = out.recipients[j];
                let ghost before = self@;
                let ghost reported = reports@;
                let report = self.offer(client_id, &out.frame);
                if let Some(total) = report {
                    reports.push(DropReport { client_id, total });
                }
                proof {
                    let next = out.recipients@.take(j + 1);
                    assert(next.drop_last() =~= out.recipients@.take(j as int));
                    assert(next.last() == client_id);
                    let more = |id: ClientId|
                        if id == client_id {
                            offered(id).push(out.frame@)
                        } else {
                            offered(id)
                        };
                    assert forall|id: ClientId| #[trigger] more(id) == frames_for(so_far, id)
                        + copies_for(out.frame@, next, id) by {
                        assert(offered(id) == frames_for(so_far, id) + copies_for(
                            out.frame@,
                            out.recipients@.take(j as int),
                            id,
                        ));
                        assert(more(id) =~= frames_for(so_far, id) + copies_for(
                            out.frame@,
                            next,
                            id,
                        ));
                    }
                    if before.sessions.contains_key(client_id) {
                        let s = before.sessions[client_id];
                        let outcome = choose|outcome: SendOutcome|
                            self@.sessions == before.sessions.insert(
                                client_id,
                                #[trigger] s.after_send(out.frame@, outcome),
                            ) && report == s.report(outcome) && s.queue.admits(outcome);
                        lemma_delivered_step(
                            old(self)@,
                            offered,
                            outcomes,
                            before,
                            reported,
                            client_id,
                            out.frame@,
                            outcome,
                            self@,
                            reports@,
                            more,
                        );
                        outcomes = outcomes.insert(client_id, outcomes[client_id].push(outcome));
                    } else {
                        assert(self@ =~= before);
                    }
                    offered = more;
                }
                j += 1;
            }
            proof {
                assert(out.recipients@.take(j as int) =~= out.recipients@);
                assert(outs@.take(i + 1).drop_last() =~= so_far);
                assert(outs@.take(i + 1).last() == *out);
            }
            i += 1;
        }
        proof {
            assert(outs@.take(i as int) =~= outs@);
            let all = offered_by(outs@);
            assert(delivered(old(self)@, all, outcomes, self@, reports@)) by {
                assert forall|id: ClientId| all(id) == #[trigger] offered(id) by {}
            }
        }
        reports
    }
}

/// Offering one more frame to a client's queue is one more step of a delivery.
proof fn lemma_delivered_step(
    before: MuxView,
    offered: spec_fn(ClientId) -> Seq<Seq<u8>>,
    outcomes: Map<ClientId, Seq<SendOutcome>>,
    now: MuxView,
    reports: Seq<DropReport>,
    client_id: ClientId,
    frame: Seq<u8>,
    outcome: SendOutcome,
    after: MuxView,
    reports_after: Seq<DropReport>,
    offered_after: spec_fn(ClientId) -> Seq<Seq<u8>>,
)
    requires
        delivered(before, offered, outcomes, now, reports),
        now.sessions.contains_key(client_id),
        now.sessions[client_id].queue.admits(outcome),
        after == (MuxView {
            sessions: now.sessions.insert(
                client_id,
                now.sessions[client_id].after_send(frame, outcome),
            ),
            ..now
        }),
        reports_after == match now.sessions[client_id].report(outcome) {
            Some(total) => reports.push(DropReport { client_id, total }),
            None => reports,
        },
        forall|id: ClientId| #[trigger]
            offered_after(id) == if id == client_id {
                offered(id).push(frame)
            } else {
                offered(id)
            },
    ensures
        delivered(
            before,
            offered_after,
            outcomes.insert(client_id, outcomes[client_id].push(outcome)),
            after,
            reports_after,
        ),
{
    let outcomes_after = outcomes.insert(client_id, outcomes[client_id].push(outcome));
    assert(after.sessions.dom() =~= before.sessions.dom());
    if now.sessions[client_id].report(outcome) is Some {
        assert(reports_after.drop_last() =~= reports);
        assert(reports_after.last().client_id == client_id);
    }
    assert forall|id: ClientId| #[trigger] before.sessions.contains_key(id) implies {
        &&& outcomes_after[id].len() == offered_after(id).len()
        &&& before.sessions[id].admits(offered_after(id), outcomes_after[id])
        &&& after.sessions[id] == before.sessions[id].after_sends(
            offered_after(id),
            outcomes_after[id],
        )
        &&& totals_of(reports_after, id) == before.sessions[id].reports(
            offered_after(id),
            outcomes_after[id],
        )
    } by {
        if id == client_id {
            assert(offered_after(id).drop_last() =~= offered(id));
            assert(outcomes_after[id].drop_last() =~= outcomes[id]);
            assert(totals_of(reports_after, id) =~= before.sessions[id].reports(
                offered_after(id),
                outcomes_after[id],
            ));
        }
    }
}

/// A number takes as many bytes as it is given.
proof fn lemma_le_bytes_len(value: nat, width: nat)
    ensures
        le_bytes(value, width).len() == width,
    decreases width,
{
    if width > 0 {
        lemma_le_bytes_len(value / 256, (width - 1) as nat);
    }
}

} // verus!
