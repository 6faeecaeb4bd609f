//! One connected client: its identity, what it listens to, and its bounded send queue.
use crate::queue::{drained_queue, QueueView, SendOutcome, SendQueue};
use crate::seqs::lemma_push_to_set;
use crate::tags::ClientId;
use crate::text::{decimal, law_decimal_is_injective, push_decimal};
use std::collections::HashMap;
use tokio::sync::mpsc;
use vstd::prelude::*;
use vstd::string::*;

verus! {

broadcast use vstd::std_specs::hash::group_hash_axioms;

/// How many frames wait in a client's send queue before frames are dropped.
pub const SEND_QUEUE_CAP: usize = 256;

/// After how many drops of one client the total is reported again.
pub const DROP_LOG_EVERY: u64 = 32;

/// What a [`ClientSession`] holds.
#[verifier::ext_equal]
pub struct SessionView {
    pub id: ClientId,
    pub rx_interested: bool,
    pub queue: QueueView,
    pub drops: u64,
    pub tx_cache: Map<u16, Seq<u8>>,
}

/// Whether a total of dropped frames is reported: the first, and then every so many.
pub open spec fn report_due(total: u64) -> bool {
    total == 1 || total % DROP_LOG_EVERY == 0
}

impl SessionView {
    /// A client that has just connected, with an empty queue of its own.
    pub open spec fn fresh(id: ClientId, queue_id: nat) -> SessionView {
        SessionView {
            id,
            rx_interested: false,
            queue: QueueView {
                id: queue_id,
                capacity: SEND_QUEUE_CAP as nat,
                sent: Seq::empty(),
                closed: false,
            },
            drops: 0,
            tx_cache: Map::empty(),
        }
    }

    /// The session with the given outcome of a send counted: a full queue costs the frame.
    pub open spec fn counted(self, outcome: SendOutcome) -> SessionView {
        match outcome {
            SendOutcome::Full => SessionView { drops: self.drops.wrapping_add(1), ..self },
            _ => self,
        }
    }

    /// The session after a frame was offered to its queue, with the given outcome.
    pub open spec fn after_send(self, frame: Seq<u8>, outcome: SendOutcome) -> SessionView {
        SessionView { queue: self.queue.after_send(frame, outcome), ..self.counted(outcome) }
    }

    /// The total that is to be reported after the given outcome of a send, if any.
    pub open spec fn report(self, outcome: SendOutcome) -> Option<u64> {
        if outcome is Full && report_due(self.drops.wrapping_add(1)) {
            Some(self.drops.wrapping_add(1))
        } else {
            None
        }
    }

    /// The session after frames were offered to its queue in turn, with the given outcomes.
    pub open spec fn after_sends(
        self,
        frames: Seq<Seq<u8>>,
        outcomes: Seq<SendOutcome>,
    ) -> SessionView
        decreases frames.len(),
    {
        if frames.len() == 0 {
            self
        } else {
            self.after_sends(frames.drop_last(), outcomes.drop_last()).after_send(
                frames.last(),
                outcomes.last(),
            )
        }
    }

    /// Whether such sends can have the given outcomes.
    pub open spec fn admits(self, frames: Seq<Seq<u8>>, outcomes: Seq<SendOutcome>) -> bool
        decreases frames.len(),
    {
        frames.len() == 0 || {
            &&& self.admits(frames.drop_last(), outcomes.drop_last())
            &&& self.after_sends(frames.drop_last(), outcomes.drop_last()).queue.admits(
                outcomes.last(),
            )
        }
    }

    /// The totals that are to be reported over such sends, in order.
    pub open spec fn reports(self, frames: Seq<Seq<u8>>, outcomes: Seq<SendOutcome>) -> Seq<u64>
        decreases frames.len(),
    {
        if frames.len() == 0 {
            Seq::empty()
        } else {
            let before = self.after_sends(frames.drop_last(), outcomes.drop_last());
            self.reports(frames.drop_last(), outcomes.drop_last()) + match before.report(
                outcomes.last(),
            ) {
                Some(total) => seq![total],
                None => Seq::empty(),
            }
        }
    }

    /// The session with the given interest in received packets.
    pub open spec fn with_interest(self, interested: bool) -> SessionView {
        SessionView { rx_interested: interested, ..self }
    }

    /// The session with a packet remembered under the client's tag.
    pub open spec fn with_cached(self, upstream_tag: u16, packet: Seq<u8>) -> SessionView {
        SessionView { tx_cache: self.tx_cache.insert(upstream_tag, packet), ..self }
    }

    /// The session without the packet under the client's tag.
    pub open spec fn without_cached(self, upstream_tag: u16) -> SessionView {
        SessionView { tx_cache: self.tx_cache.remove(upstream_tag), ..self }
    }
}

/// Per-client state of the multiplexer.
pub struct ClientSession {
    /// Unique client identifier.
    pub id: ClientId,
    /// Whether this client has received packets turned on.
    pub rx_interested: bool,
    queue: SendQueue,
    drops: u64,
    tx_cache: HashMap<u16, Vec<u8>>,
}

impl View for ClientSession {
    type V = SessionView;

    closed spec fn view(&self) -> SessionView {
        SessionView {
            id: self.id,
            rx_interested: self.rx_interested,
            queue: self.queue@,
            drops: self.drops,
            tx_cache: self.tx_cache@.map_values(|packet: Vec<u8>| packet@),
        }
    }
}

impl ClientSession {
    /// A session under the next identifier, and the receiver that drains its send queue, for the
    /// client's writer.
    pub fn new(ids: &mut ClientIds) -> (r: (Self, mpsc::Receiver<Vec<u8>>))
        ensures
            r.0@ == SessionView::fresh(old(ids)@, drained_queue(r.1)),
            final(ids)@ == old(ids)@.wrapping_add(1),
    {
        let id = ids.fresh();
        let (queue, rx) = SendQueue::new(SEND_QUEUE_CAP);
        let session = Self { id, rx_interested: false, queue, drops: 0, tx_cache: HashMap::new() };
        assert(session@.tx_cache =~= Map::empty());
        (session, rx)
    }

    /// The client's identifier.
    pub fn id(&self) -> (r: ClientId)
        ensures
            r == self@.id,
    {
        self.id
    }

    /// Whether this client has received packets turned on.
    pub fn rx_interested(&self) -> (r: bool)
        ensures
            r == self@.rx_interested,
    {
        self.rx_interested
    }

    /// Human-readable label for logging.
    pub fn label(&self) -> (r: String)
        ensures
            r@ == "client-"@ + decimal(self@.id as nat),
    {
        let mut label = String::new();
        label.append("client-");
        push_decimal(&mut label, self.id);
        label
    }

    /// Running total of frames dropped for this client.
    pub fn drop_count(&self) -> (r: u64)
        ensures
            r == self@.drops,
    {
        self.drops
    }

    /// Offers a frame to the send queue, which drops it when it is full: a slow client does not
    /// hold up the others. The frame is lost only then, or when the client is gone. Returns the total of drops when it is to be reported.
    pub fn enqueue(&mut self, frame: Vec<u8>) -> (r: Option<u64>)
        ensures
            exists|outcome: SendOutcome|
                final(self)@ == #[trigger] old(self)@.after_send(frame@, outcome) && r == old(
                    self,
                )@.report(outcome) && old(self)@.queue.admits(outcome),
            !final(self)@.queue.closed && old(self)@.queue.sent.len() < old(self)@.queue.capacity
                ==> final(self)@.queue.sent == old(self)@.queue.sent.push(frame@),
            !final(self)@.queue.closed ==> final(self)@.queue.sent == old(self)@.queue.sent.push(
                frame@,
            ) || final(self)@.drops == old(self)@.drops.wrapping_add(1),
    {
        let outcome = self.queue.offer(frame);
        let report = self.record(outcome);
        assert(self@ == old(self)@.after_send(frame@, outcome));
        report
    }

    /// Takes note of what became of a frame. Returns the total of drops when it is to be
    /// reported.
    pub fn record(&mut self, outcome: SendOutcome) -> (r: Option<u64>)
        ensures
            final(self)@ == old(self)@.counted(outcome),
            r == old(self)@.report(outcome),
    {
        match outcome {
            SendOutcome::Full => {
                self.drops = self.drops.wrapping_add(1);
                let total = self.drops;
                if total == 1 || total % DROP_LOG_EVERY == 0 {
                    Some(total)
                } else {
                    None
                }
            },
            SendOutcome::Sent => None,
            SendOutcome::Closed => None,
        }
    }

    /// Turns the client's interest in received packets on or off.
    pub fn set_rx_interested(&mut self, interested: bool)
        ensures
            final(self)@ == old(self)@.with_interest(interested),
    {
        self.rx_interested = interested;
    }

    /// Remembers a packet to transmit under the client's tag.
    pub fn cache_tx(&mut self, upstream_tag: u16, packet: Vec<u8>)
        ensures
            final(self)@ == old(self)@.with_cached(upstream_tag, packet@),
    {
        self.tx_cache.insert(upstream_tag, packet);
        assert(self@.tx_cache =~= old(self)@.tx_cache.insert(upstream_tag, packet@));
    }

    /// Forgets the packet under the client's tag, and returns it.
    pub fn uncache_tx(&mut self, upstream_tag: u16) -> (r: Option<Vec<u8>>)
        ensures
            final(self)@ == old(self)@.without_cached(upstream_tag),
            r is Some <==> old(self)@.tx_cache.contains_key(upstream_tag),
            r matches Some(packet) ==> packet@ == old(self)@.tx_cache[upstream_tag],
    {
        let packet = self.tx_cache.remove(&upstream_tag);
        assert(self@.tx_cache =~= old(self)@.tx_cache.remove(upstream_tag));
        packet
    }
}

/// What a table of sessions holds.
pub open spec fn session_views(sessions: Map<ClientId, ClientSession>) -> Map<
    ClientId,
    SessionView,
> {
    sessions.map_values(|s: ClientSession| s@)
}

/// The clients of a table are those of its view.
pub broadcast proof fn lemma_session_views_dom(sessions: Map<ClientId, ClientSession>)
    ensures
        #[trigger] session_views(sessions).dom() == sessions.dom(),
{
    assert(session_views(sessions).dom() =~= sessions.dom());
}

/// Hands out client identifiers, counting up from zero.
pub struct ClientIds {
    next: ClientId,
}

impl View for ClientIds {
    type V = ClientId;

    closed spec fn view(&self) -> ClientId {
        self.next
    }
}

impl ClientIds {
    /// A counter at zero.
    pub fn new() -> (r: Self)
        ensures
            r@ == 0,
    {
        ClientIds { next: 0 }
    }

    /// The next identifier.
    pub fn fresh(&mut self) -> (r: ClientId)
        ensures
            r == old(self)@,
            final(self)@ == old(self)@.wrapping_add(1),
    {
        let id = self.next;
        self.next = self.next.wrapping_add(1);
        id
    }
}

/// The counter after `n` identifiers were drawn from it.
pub open spec fn ids_after(start: ClientId, n: nat) -> ClientId
    decreases n,
{
    if n == 0 {
        start
    } else {
        ids_after(start, (n - 1) as nat).wrapping_add(1)
    }
}

proof fn lemma_ids_after(n: nat)
    requires
        n <= u64::MAX,
    ensures
        ids_after(0, n) == n,
    decreases n,
{
    if n > 0 {
        lemma_ids_after((n - 1) as nat);
    }
}

/// No two clients of a daemon have the same identifier, and none has the largest one, before
/// the counter has run through all the others.
pub proof fn law_identifiers_are_distinct(i: nat, j: nat)
    requires
        i < j < u64::MAX,
    ensures
        ids_after(0, i) != ids_after(0, j),
        ids_after(0, j) != u64::MAX,
{
    lemma_ids_after(i);
    lemma_ids_after(j);
}

/// Different clients have different labels.
pub proof fn law_labels_are_distinct(a: ClientId, b: ClientId)
    requires
        a != b,
    ensures
        "client-"@ + decimal(a as nat) != "client-"@ + decimal(b as nat),
{
    let prefix = "client-"@;
    if prefix + decimal(a as nat) == prefix + decimal(b as nat) {
        assert((prefix + decimal(a as nat)).skip(prefix.len() as int) =~= decimal(a as nat));
        assert((prefix + decimal(b as nat)).skip(prefix.len() as int) =~= decimal(b as nat));
        law_decimal_is_injective(a as nat, b as nat);
    }
}

/// The frames that a queue takes of those it is offered: the ones whose outcome is `Sent`.
pub open spec fn taken(frames: Seq<Seq<u8>>, outcomes: Seq<SendOutcome>) -> Seq<Seq<u8>>
    decreases frames.len(),
{
    if frames.len() == 0 {
        Seq::empty()
    } else if outcomes.last() is Sent {
        taken(frames.drop_last(), outcomes.drop_last()).push(frames.last())
    } else {
        taken(frames.drop_last(), outcomes.drop_last())
    }
}

/// How many frames found the queue full.
pub open spec fn full_count(outcomes: Seq<SendOutcome>) -> nat
    decreases outcomes.len(),
{
    if outcomes.len() == 0 {
        0
    } else {
        full_count(outcomes.drop_last()) + if outcomes.last() is Full {
            1nat
        } else {
            0nat
        }
    }
}

/// Offering frames to a client's queue changes nothing of the session but the frames that the
/// queue has taken, in the order in which they were offered, the count of those it dropped, and
/// whether it was found closed.
pub proof fn law_sends_keep_the_session(
    s: SessionView,
    frames: Seq<Seq<u8>>,
    outcomes: Seq<SendOutcome>,
)
    requires
        outcomes.len() == frames.len(),
    ensures
        ({
            let after = s.after_sends(frames, outcomes);
            &&& after.id == s.id
            &&& after.rx_interested == s.rx_interested
            &&& after.queue.id == s.queue.id
            &&& after.queue.capacity == s.queue.capacity
            &&& after.tx_cache == s.tx_cache
            &&& after.queue.sent == s.queue.sent + taken(frames, outcomes)
            &&& after.queue.closed <==> s.queue.closed || outcomes.contains(SendOutcome::Closed)
            &&& after.drops == (s.drops + full_count(outcomes)) % 0x1_0000_0000_0000_0000
        }),
    decreases frames.len(),
{
    if frames.len() == 0 {
        assert(s.queue.sent + taken(frames, outcomes) =~= s.queue.sent);
    } else {
        law_sends_keep_the_session(s, frames.drop_last(), outcomes.drop_last());
        assert(s.after_sends(frames, outcomes).queue.sent =~= s.queue.sent + taken(
            frames,
            outcomes,
        ));
        assert(outcomes =~= outcomes.drop_last().push(outcomes.last()));
        lemma_push_to_set(outcomes.drop_last(), outcomes.last());
    }
}

/// A queue that is neither full nor closed loses nothing.
pub proof fn law_open_queue_takes_all(
    s: SessionView,
    frames: Seq<Seq<u8>>,
    outcomes: Seq<SendOutcome>,
)
    requires
        outcomes.len() == frames.len(),
        forall|i: int| 0 <= i < outcomes.len() ==> #[trigger] outcomes[i] is Sent,
    ensures
        s.after_sends(frames, outcomes) == (SessionView {
            queue: QueueView { sent: s.queue.sent + frames, ..s.queue },
            ..s
        }),
        s.reports(frames, outcomes) == Seq::<u64>::empty(),
    decreases frames.len(),
{
    if frames.len() == 0 {
        assert(s.queue.sent + frames =~= s.queue.sent);
    } else {
        assert(outcomes[outcomes.len() - 1] is Sent);
        law_open_queue_takes_all(s, frames.drop_last(), outcomes.drop_last());
        assert((s.queue.sent + frames.drop_last()).push(frames.last()) =~= s.queue.sent + frames);
        assert(s.reports(frames, outcomes) =~= Seq::<u64>::empty());
    }
}

/// A queue drops nothing before it has taken as many frames as it was made for: a client that
/// reads nothing at all still gets the first `SEND_QUEUE_CAP` of them.
pub proof fn law_no_drops_within_capacity(
    s: SessionView,
    frames: Seq<Seq<u8>>,
    outcomes: Seq<SendOutcome>,
)
    requires
        outcomes.len() == frames.len(),
        s.admits(frames, outcomes),
        s.queue.sent.len() + frames.len() <= s.queue.capacity,
    ensures
        full_count(outcomes) == 0,
        s.after_sends(frames, outcomes).drops == s.drops,
    decreases frames.len(),
{
    if frames.len() > 0 {
        law_no_drops_within_capacity(s, frames.drop_last(), outcomes.drop_last());
        law_sends_keep_the_session(s, frames.drop_last(), outcomes.drop_last());
        lemma_taken_len(frames.drop_last(), outcomes.drop_last());
    }
}

/// A queue takes no more frames than it is offered.
proof fn lemma_taken_len(frames: Seq<Seq<u8>>, outcomes: Seq<SendOutcome>)
    ensures
        taken(frames, outcomes).len() <= frames.len(),
    decreases frames.len(),
{
    if frames.len() > 0 {
        lemma_taken_len(frames.drop_last(), outcomes.drop_last());
    }
}

/// No frame is lost in silence: as long as the queue is open, every frame is either taken or
/// counted as dropped.
pub proof fn law_every_frame_is_taken_or_counted(
    s: SessionView,
    frames: Seq<Seq<u8>>,
    outcomes: Seq<SendOutcome>,
)
    requires
        outcomes.len() == frames.len(),
        !s.after_sends(frames, outcomes).queue.closed,
    ensures
        taken(frames, outcomes).len() + full_count(outcomes) == frames.len(),
    decreases frames.len(),
{
    if frames.len() > 0 {
        law_every_frame_is_taken_or_counted(s, frames.drop_last(), outcomes.drop_last());
    }
}

/// A client that is there gets what fits: as long as the queue is open, and has taken no more
/// frames than it was made for, it takes every frame that it is offered, in order.
pub proof fn law_open_queue_takes_what_fits(
    s: SessionView,
    frames: Seq<Seq<u8>>,
    outcomes: Seq<SendOutcome>,
)
    requires
        outcomes.len() == frames.len(),
        s.admits(frames, outcomes),
        !s.after_sends(frames, outcomes).queue.closed,
        s.queue.sent.len() + frames.len() <= s.queue.capacity,
    ensures
        s.after_sends(frames, outcomes) == (SessionView {
            queue: QueueView { sent: s.queue.sent + frames, ..s.queue },
            ..s
        }),
    decreases frames.len(),
{
    if frames.len() == 0 {
        assert(s.queue.sent + frames =~= s.queue.sent);
    } else {
        law_open_queue_takes_what_fits(s, frames.drop_last(), outcomes.drop_last());
        assert((s.queue.sent + frames.drop_last()).push(frames.last()) =~= s.queue.sent + frames);
    }
}

/// A new client does not listen, has lost nothing and has no packet cached; its queue is empty and
/// open, and holds 256 frames.
pub proof fn law_new_session(id: ClientId, queue_id: nat)
    ensures
        ({
            let s = SessionView::fresh(id, queue_id);
            &&& s.id == id
            &&& !s.rx_interested
            &&& s.drops == 0
            &&& forall|u: u16| !(#[trigger] s.tx_cache.contains_key(u))
            &&& s.queue.id == queue_id
            &&& s.queue.capacity == 256
            &&& s.queue.sent.len() == 0
            &&& !s.queue.closed
        }),
{
}

/// Interest, cache and count are each changed alone: what one of these does shows in that part of
/// the session, and in no other.
pub proof fn law_session_parts_are_separate(
    s: SessionView,
    on: bool,
    tag: u16,
    packet: Seq<u8>,
    outcome: SendOutcome,
    other: u16,
)
    ensures
        s.with_interest(on).rx_interested == on,
        s.with_interest(on).with_interest(s.rx_interested) == s,
        s.with_cached(tag, packet).tx_cache.get(tag) == Some(packet),
        other != tag ==> s.with_cached(tag, packet).tx_cache.get(other) == s.tx_cache.get(other),
        s.with_cached(tag, packet).without_cached(tag) == s.without_cached(tag),
        s.without_cached(tag).tx_cache.get(tag) is None,
        other != tag ==> s.without_cached(tag).tx_cache.get(other) == s.tx_cache.get(other),
        s.tx_cache.contains_key(tag) ==> s.without_cached(tag).with_cached(tag, s.tx_cache[tag])
            == s,
        s.counted(outcome).drops == if outcome is Full {
            (s.drops + 1) % 0x1_0000_0000_0000_0000
        } else {
            s.drops as int
        },
        s.counted(outcome).id == s.id,
        s.counted(outcome).rx_interested == s.rx_interested,
        s.counted(outcome).queue == s.queue,
        s.counted(outcome).tx_cache == s.tx_cache,
{
    assert(s.with_cached(tag, packet).without_cached(tag).tx_cache =~= s.without_cached(
        tag,
    ).tx_cache);
    if s.tx_cache.contains_key(tag) {
        assert(s.without_cached(tag).with_cached(tag, s.tx_cache[tag]).tx_cache =~= s.tx_cache);
    }
}

/// A frame that finds the queue full has the new total reported if it is the first, or a multiple
/// of 32; any other outcome has none reported.
pub proof fn law_report_of_a_drop(s: SessionView, outcome: SendOutcome)
    ensures
        s.report(outcome) is Some <==> outcome is Full && (s.counted(outcome).drops == 1
            || s.counted(outcome).drops % 32 == 0),
        s.report(outcome) matches Some(total) ==> total == s.counted(outcome).drops,
{
}

/// Over many sends, exactly those totals are reported that the count of drops passes and that are
/// 1 or a multiple of 32, each once and in order.
pub proof fn law_reports_of_drops(s: SessionView, frames: Seq<Seq<u8>>, outcomes: Seq<SendOutcome>)
    requires
        outcomes.len() == frames.len(),
        s.drops + full_count(outcomes) <= u64::MAX,
    ensures
        forall|v: u64| #[trigger]
            s.reports(frames, outcomes).contains(v) <==> s.drops < v <= s.drops + full_count(
                outcomes,
            ) && (v == 1 || v % 32 == 0),
        forall|i: int, j: int|
            0 <= i < j < s.reports(frames, outcomes).len() ==> s.reports(frames, outcomes)[i]
                < s.reports(frames, outcomes)[j],
    decreases frames.len(),
{
    let all = s.reports(frames, outcomes);
    if frames.len() > 0 {
        let some = s.reports(frames.drop_last(), outcomes.drop_last());
        let before = s.after_sends(frames.drop_last(), outcomes.drop_last());
        law_reports_of_drops(s, frames.drop_last(), outcomes.drop_last());
        law_sends_keep_the_session(s, frames.drop_last(), outcomes.drop_last());
        match before.report(outcomes.last()) {
            Some(total) => {
                assert(all =~= some.push(total));
                lemma_push_to_set(some, total);
                assert forall|i: int, j: int| 0 <= i < j < all.len() implies all[i] < all[j] by {
                    if j == some.len() {
                        assert(some.contains(some[i]));
                    }
                }
            },
            None => {
                assert(all =~= some);
            },
        }
    }
}

/// Frames that are offered in two lots end up as if they had been offered in one.
pub proof fn law_sends_in_parts(
    s: SessionView,
    a: Seq<Seq<u8>>,
    b: Seq<Seq<u8>>,
    outcomes_a: Seq<SendOutcome>,
    outcomes_b: Seq<SendOutcome>,
)
    requires
        outcomes_a.len() == a.len(),
        outcomes_b.len() == b.len(),
    ensures
        s.after_sends(a + b, outcomes_a + outcomes_b) == s.after_sends(a, outcomes_a).after_sends(
            b,
            outcomes_b,
        ),
    decreases b.len(),
{
    if b.len() == 0 {
        assert(a + b =~= a);
        assert(outcomes_a + outcomes_b =~= outcomes_a);
    } else {
        law_sends_in_parts(s, a, b.drop_last(), outcomes_a, outcomes_b.drop_last());
        assert((a + b).drop_last() =~= a + b.drop_last());
        assert((outcomes_a + outcomes_b).drop_last() =~= outcomes_a + outcomes_b.drop_last());
    }
}

} // verus!
