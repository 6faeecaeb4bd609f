//! Which client commands the multiplexer answers itself.
//!
//! When several clients share one dongle, some commands must not simply be forwarded:
//!
//! - `SET_CONFIG`: the client whose configuration was applied holds a lock. It may go on to
//!   reconfigure; any other client is answered `ALREADY_MATCHED` or `LOCKED_MISMATCH`, and the
//!   configuration stays.
//! - `RX_START` and `RX_STOP` are counted: the dongle receives from the first interested client
//!   to the last.
use crate::protocol::{
    command_of, encode_err_payload, encode_set_config_ok, le_bytes, parse_command, set_config_ok,
    Command, CommandView, ErrorCode, Modulation, OWNER_OTHER, RESULT_ALREADY_MATCHED,
    RESULT_LOCKED_MISMATCH, TYPE_ERR, TYPE_OK,
};
use crate::session::{lemma_session_views_dom, session_views, ClientSession, SessionView};
use crate::tags::ClientId;
use std::collections::HashMap;
use vstd::prelude::*;

verus! {

broadcast use {vstd::std_specs::hash::group_hash_axioms, lemma_session_views_dom};

/// What to do with a client command.
#[derive(Clone, Debug)]
pub enum Decision {
    /// Pass it on to the dongle.
    Forward,
    /// Answer the client directly; the dongle does not see the command.
    Synthesize { type_id: u8, payload: Vec<u8> },
    /// Swallow it.
    Drop,
}

/// What a [`Decision`] is as a value.
pub enum DecisionView {
    Forward,
    Synthesize { type_id: u8, payload: Seq<u8> },
    Drop,
}

impl View for Decision {
    type V = DecisionView;

    open spec fn view(&self) -> DecisionView {
        match *self {
            Decision::Forward => DecisionView::Forward,
            Decision::Synthesize { type_id, payload } => DecisionView::Synthesize {
                type_id,
                payload: payload@,
            },
            Decision::Drop => DecisionView::Drop,
        }
    }
}

/// State that all clients share.
pub struct MuxState {
    /// The configuration lock: who last had a configuration applied, and which.
    pub locked: Option<(ClientId, Modulation)>,
}

/// The holder of the lock and the wire form of its configuration.
pub type LockView = Option<(ClientId, Seq<u8>)>;

impl View for MuxState {
    type V = LockView;

    open spec fn view(&self) -> LockView {
        match self.locked {
            Some((owner, current)) => Some((owner, current@)),
            None => None,
        }
    }
}

/// The clients that have received packets turned on.
pub open spec fn interested(sessions: Map<ClientId, SessionView>) -> Set<ClientId> {
    sessions.dom().filter(|id: ClientId| sessions[id].rx_interested)
}

/// The sessions with one client's interest in received packets set.
pub open spec fn with_interest(
    sessions: Map<ClientId, SessionView>,
    client_id: ClientId,
    on: bool,
) -> Map<ClientId, SessionView> {
    sessions.insert(client_id, sessions[client_id].with_interest(on))
}

/// An `OK` without a body.
pub open spec fn empty_ok() -> DecisionView {
    DecisionView::Synthesize { type_id: TYPE_OK, payload: Seq::empty() }
}

/// What is done with a `SET_CONFIG` for `requested`: when another client holds the lock, the
/// client is told how `requested` compares to the locked configuration.
pub open spec fn set_config_decision(
    requested: Seq<u8>,
    client_id: ClientId,
    lock: LockView,
    session_count: nat,
) -> DecisionView {
    match lock {
        Some((owner, current)) if session_count > 1 && owner != client_id => {
            DecisionView::Synthesize {
                type_id: TYPE_OK,
                payload: set_config_ok(
                    if requested == current {
                        RESULT_ALREADY_MATCHED
                    } else {
                        RESULT_LOCKED_MISMATCH
                    },
                    OWNER_OTHER,
                    current,
                ),
            }
        },
        _ => DecisionView::Forward,
    }
}

/// What is done with an `RX_START`: while anybody listens, the dongle receives already.
pub open spec fn rx_start_decision(
    client_id: ClientId,
    sessions: Map<ClientId, SessionView>,
) -> DecisionView {
    if sessions.contains_key(client_id) && interested(sessions).len() > 0 {
        empty_ok()
    } else {
        DecisionView::Forward
    }
}

/// The sessions after an `RX_START`: the client joins those who listen.
pub open spec fn rx_start_sessions(
    client_id: ClientId,
    sessions: Map<ClientId, SessionView>,
) -> Map<ClientId, SessionView> {
    if sessions.contains_key(client_id) && interested(sessions).len() > 0 {
        with_interest(sessions, client_id, true)
    } else {
        sessions
    }
}

/// What is done with an `RX_STOP`: the dongle stops only when the client that stops was the last
/// to listen.
pub open spec fn rx_stop_decision(
    client_id: ClientId,
    sessions: Map<ClientId, SessionView>,
) -> DecisionView {
    if sessions.contains_key(client_id) && interested(sessions) != set![client_id] {
        empty_ok()
    } else {
        DecisionView::Forward
    }
}

/// The sessions after an `RX_STOP`: the client listens no more.
pub open spec fn rx_stop_sessions(
    client_id: ClientId,
    sessions: Map<ClientId, SessionView>,
) -> Map<ClientId, SessionView> {
    if sessions.contains_key(client_id) {
        with_interest(sessions, client_id, false)
    } else {
        sessions
    }
}

/// What is done with a frame from a client.
pub open spec fn decision(
    type_id: u8,
    payload: Seq<u8>,
    client_id: ClientId,
    lock: LockView,
    sessions: Map<ClientId, SessionView>,
) -> DecisionView {
    match command_of(type_id, payload) {
        Some(CommandView::SetConfig(requested)) => set_config_decision(
            requested,
            client_id,
            lock,
            sessions.len(),
        ),
        Some(CommandView::RxStart) => rx_start_decision(client_id, sessions),
        Some(CommandView::RxStop) => rx_stop_decision(client_id, sessions),
        _ => DecisionView::Forward,
    }
}

/// The sessions after a frame from a client.
pub open spec fn decided_sessions(
    type_id: u8,
    payload: Seq<u8>,
    client_id: ClientId,
    sessions: Map<ClientId, SessionView>,
) -> Map<ClientId, SessionView> {
    match command_of(type_id, payload) {
        Some(CommandView::RxStart) => rx_start_sessions(client_id, sessions),
        Some(CommandView::RxStop) => rx_stop_sessions(client_id, sessions),
        _ => sessions,
    }
}

impl MuxState {
    /// Nobody holds the lock.
    pub fn new() -> (r: Self)
        ensures
            r@ is None,
    {
        Self { locked: None }
    }

    /// How many clients have received packets turned on.
    pub fn rx_interest_count(sessions: &HashMap<ClientId, ClientSession>) -> (r: usize)
        ensures
            r == interested(session_views(sessions@)).len(),
    {
        let ghost views = session_views(sessions@);
        let mut count: usize = 0;
        let ghost mut counted: Set<ClientId> = Set::empty();
        assert(sessions.len() == sessions@.len());
        for entry in it: sessions.iter()
            invariant
                views == session_views(sessions@),
                count == counted.len(),
                count <= it.index(),
                it.seq().len() <= usize::MAX,
                counted.finite(),
                it.seq().no_duplicates(),
                forall|id: ClientId| #[trigger]
                    counted.contains(id) <==> exists|j: int|
                        0 <= j < it.index() && *(#[trigger] it.seq()[j]).0 == id
                            && it.seq()[j].1@.rx_interested,
                forall|j: int|
                    0 <= j < it.seq().len() ==> sessions@.contains_key(
                        *(#[trigger] it.seq()[j]).0,
                    ) && sessions@[*it.seq()[j].0] == *it.seq()[j].1,
                forall|id: ClientId| #[trigger]
                    sessions@.contains_key(id) ==> it.seq().contains((&id, &sessions@[id])),
        {
            if entry.1.rx_interested() {
                count += 1;
                proof {
                    counted = counted.insert(*entry.0);
                }
            }
        }
        assert(counted =~= interested(views));
        count
    }
}

/// Sets one client's interest in received packets, if it is connected.
fn set_interest(
    sessions: &mut HashMap<ClientId, ClientSession>,
    client_id: ClientId,
    interested: bool,
)
    ensures
        session_views(final(sessions)@) == if old(sessions)@.contains_key(client_id) {
            with_interest(session_views(old(sessions)@), client_id, interested)
        } else {
            session_views(old(sessions)@)
        },
{
    if let Some(mut session) = sessions.remove(&client_id) {
        session.set_rx_interested(interested);
        sessions.insert(client_id, session);
        assert(session_views(sessions@) =~= with_interest(
            session_views(old(sessions)@),
            client_id,
            interested,
        ));
    } else {
        assert(sessions@ =~= old(sessions)@);
    }
}

/// Decides what to do with a frame from a client, and updates who listens.
///
/// A frame that is no command is passed on.
pub fn decide(
    type_id: u8,
    payload: &[u8],
    client_id: ClientId,
    state: &mut MuxState,
    sessions: &mut HashMap<ClientId, ClientSession>,
) -> (r: Decision)
    ensures
        r@ == decision(
            type_id,
            payload@,
            client_id,
            old(state)@,
            session_views(old(sessions)@),
        ),
        session_views(final(sessions)@) == decided_sessions(
            type_id,
            payload@,
            client_id,
            session_views(old(sessions)@),
        ),
        *final(state) == *old(state),
{
    let Some(command) = parse_command(type_id, payload) else {
        return Decision::Forward;
    };
    match command {
        Command::SetConfig(wire) => {
            let requested = Modulation::new(wire);
            decide_set_config(&requested, client_id, state, sessions)
        },
        Command::RxStart => decide_rx_start(client_id, sessions),
        Command::RxStop => decide_rx_stop(client_id, sessions),
        _ => Decision::Forward,
    }
}

fn decide_set_config(
    requested: &Modulation,
    client_id: ClientId,
    state: &MuxState,
    sessions: &HashMap<ClientId, ClientSession>,
) -> (r: Decision)
    ensures
        r@ == set_config_decision(requested@, client_id, state@, sessions@.len()),
{
    if sessions.len() <= 1 {
        return Decision::Forward;
    }
    match &state.locked {
        None => Decision::Forward,
        Some((owner, current)) => {
            if *owner == client_id {
                return Decision::Forward;
            }
            let result = if requested.matches(current) {
                RESULT_ALREADY_MATCHED
            } else {
                RESULT_LOCKED_MISMATCH
            };
            match encode_set_config_ok(result, OWNER_OTHER, current.wire()) {
                Some(payload) => Decision::Synthesize { type_id: TYPE_OK, payload },
                None => Decision::Forward,
            }
        },
    }
}

fn decide_rx_start(
    client_id: ClientId,
    sessions: &mut HashMap<ClientId, ClientSession>,
) -> (r: Decision)
    ensures
        r@ == rx_start_decision(client_id, session_views(old(sessions)@)),
        session_views(final(sessions)@) == rx_start_sessions(
            client_id,
            session_views(old(sessions)@),
        ),
{
    let ghost views = session_views(sessions@);
    let Some(client) = sessions.get(&client_id) else {
        return Decision::Forward;
    };
    if client.rx_interested() {
        proof {
            assert(interested(views).contains(client_id));
            assert(interested(views).subset_of(views.dom()));
            assert(interested(views).len() > 0) by {
                if interested(views).len() == 0 {
                    assert(interested(views) =~= Set::empty());
                }
            }
            assert(views =~= with_interest(views, client_id, true));
        }
        return Decision::Synthesize { type_id: TYPE_OK, payload: vec![] };
    }
    if MuxState::rx_interest_count(sessions) > 0 {
        set_interest(sessions, client_id, true);
        return Decision::Synthesize { type_id: TYPE_OK, payload: vec![] };
    }
    Decision::Forward
}

fn decide_rx_stop(
    client_id: ClientId,
    sessions: &mut HashMap<ClientId, ClientSession>,
) -> (r: Decision)
    ensures
        r@ == rx_stop_decision(client_id, session_views(old(sessions)@)),
        session_views(final(sessions)@) == rx_stop_sessions(
            client_id,
            session_views(old(sessions)@),
        ),
{
    let ghost views = session_views(sessions@);
    let Some(client) = sessions.get(&client_id) else {
        return Decision::Forward;
    };
    if !client.rx_interested() {
        proof {
            assert(!interested(views).contains(client_id));
            assert(set![client_id].contains(client_id));
            assert(views =~= with_interest(views, client_id, false));
        }
        return Decision::Synthesize { type_id: TYPE_OK, payload: vec![] };
    }
    set_interest(sessions, client_id, false);
    let ghost rest = interested(session_views(sessions@));
    assert(rest =~= interested(views).remove(client_id));
    assert(interested(views).contains(client_id));
    if MuxState::rx_interest_count(sessions) > 0 {
        assert(interested(views) != set![client_id]) by {
            if interested(views) == set![client_id] {
                assert(rest =~= Set::empty());
            }
        }
        return Decision::Synthesize { type_id: TYPE_OK, payload: vec![] };
    }
    proof {
        assert(rest.subset_of(views.dom()));
        assert(rest =~= Set::empty());
        assert(interested(views) =~= set![client_id]);
    }
    Decision::Forward
}

/// An `ERR` with the given code, as a type and a payload.
#[must_use]
pub fn synthesize_err(code: ErrorCode) -> (r: (u8, Vec<u8>))
    ensures
        r.0 == TYPE_ERR,
        r.1@ == le_bytes(code.number() as nat, 2),
{
    match encode_err_payload(code.as_u16()) {
        Some(payload) => (TYPE_ERR, payload),
        None => (TYPE_ERR, vec![]),
    }
}

} // verus!
