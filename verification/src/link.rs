//! The connections: what is read from the dongle and from clients, and when the dongle is
//! opened, served, given up and opened again.
use crate::framing::{
    encode_frame, event_views, frame_wire, is_wire_frame, law_reads_concatenate, DecoderView,
    FrameEvent, FrameEventView, FrameReader,
};
use crate::protocol::{MAX_PAYLOAD_FIELD, TYPE_OK, TYPE_PING};
use vstd::prelude::*;

verus! {

/// Milliseconds between attempts to open the dongle.
pub const RECONNECT_DELAY_MS: u64 = 2000;

/// How many reads from the dongle in a row fail before it counts as lost.
pub const MAX_CONSECUTIVE_ERRORS: u32 = 3;

/// Milliseconds between pings that keep the dongle awake.
pub const KEEPALIVE_INTERVAL_MS: u64 = 500;

/// Milliseconds before the dongle is read again after a failed read.
pub const READ_RETRY_DELAY_MS: u64 = 100;

/// Milliseconds that the dongle has to answer the first ping.
pub const PING_TIMEOUT_MS: u64 = 2000;

/// The tag of the first ping.
pub const PING_TAG: u16 = 1;

// ---- Reading from the dongle ----------------------------------------------

/// What a read from the dongle leads to.
#[derive(Debug)]
pub enum DongleStep {
    /// The dongle is gone.
    Lost,
    /// Read again, after a while.
    Retry,
    /// Take these to the multiplexer.
    Dispatch(Vec<FrameEvent>),
}

/// What a [`DongleStep`] is as a value.
pub enum DongleStepView {
    Lost,
    Retry,
    Dispatch(Seq<FrameEventView>),
}

impl View for DongleStep {
    type V = DongleStepView;

    open spec fn view(&self) -> DongleStepView {
        match *self {
            DongleStep::Lost => DongleStepView::Lost,
            DongleStep::Retry => DongleStepView::Retry,
            DongleStep::Dispatch(events) => DongleStepView::Dispatch(event_views(events@)),
        }
    }
}

/// What a reader of the dongle holds: its decoder, and how many reads in a row have failed.
pub struct DongleReaderView {
    pub decoder: DecoderView,
    pub consecutive_errors: nat,
}

impl DongleReaderView {
    /// A reader at the start of a stream.
    pub open spec fn fresh() -> DongleReaderView {
        DongleReaderView { decoder: DecoderView::fresh(), consecutive_errors: 0 }
    }

    /// The reader after a read: `None` for one that failed, no bytes at the end of the stream.
    pub open spec fn after_read(self, read: Option<Seq<u8>>) -> DongleReaderView {
        match read {
            None => DongleReaderView {
                consecutive_errors: if self.consecutive_errors < MAX_CONSECUTIVE_ERRORS {
                    self.consecutive_errors + 1
                } else {
                    self.consecutive_errors
                },
                ..self
            },
            Some(data) => if data.len() == 0 {
                self
            } else {
                DongleReaderView { decoder: self.decoder.after(data), consecutive_errors: 0 }
            },
        }
    }

    /// What a read leads to.
    pub open spec fn at_read(self, read: Option<Seq<u8>>) -> DongleStepView {
        match read {
            None => if self.consecutive_errors + 1 >= MAX_CONSECUTIVE_ERRORS {
                DongleStepView::Lost
            } else {
                DongleStepView::Retry
            },
            Some(data) => if data.len() == 0 {
                DongleStepView::Lost
            } else {
                DongleStepView::Dispatch(self.decoder.events(data))
            },
        }
    }

    /// The reader after several reads.
    pub open spec fn after_reads(self, reads: Seq<Option<Seq<u8>>>) -> DongleReaderView
        decreases reads.len(),
    {
        if reads.len() == 0 {
            self
        } else {
            self.after_reads(reads.drop_last()).after_read(reads.last())
        }
    }
}

/// Turns reads from the dongle into frames, and counts reads that fail.
pub struct DongleReader {
    reader: FrameReader,
    consecutive_errors: u32,
}

impl View for DongleReader {
    type V = DongleReaderView;

    closed spec fn view(&self) -> DongleReaderView {
        DongleReaderView {
            decoder: self.reader@,
            consecutive_errors: self.consecutive_errors as nat,
        }
    }
}

impl DongleReader {
    /// A reader at the start of a stream.
    pub fn new() -> (r: Self)
        ensures
            r@ == DongleReaderView::fresh(),
    {
        DongleReader { reader: FrameReader::new(), consecutive_errors: 0 }
    }

    /// How many reads in a row have failed.
    pub fn consecutive_errors(&self) -> (r: u32)
        ensures
            r == self@.consecutive_errors,
    {
        self.consecutive_errors
    }

    /// Takes the result of a read: `None` when it failed, no bytes at the end of the stream.
    pub fn on_read(&mut self, read: Option<&[u8]>) -> (r: DongleStep)
        ensures
            final(self)@ == old(self)@.after_read(read_view(read)),
            r@ == old(self)@.at_read(read_view(read)),
    {
        match read {
            None => {
                if self.consecutive_errors < MAX_CONSECUTIVE_ERRORS {
                    self.consecutive_errors = self.consecutive_errors + 1;
                }
                if self.consecutive_errors >= MAX_CONSECUTIVE_ERRORS {
                    DongleStep::Lost
                } else {
                    DongleStep::Retry
                }
            },
            Some(data) => {
                if data.len() == 0 {
                    return DongleStep::Lost;
                }
                self.consecutive_errors = 0;
                DongleStep::Dispatch(self.reader.feed(data))
            },
        }
    }
}

/// The result of a read as a value.
pub open spec fn read_view(read: Option<&[u8]>) -> Option<Seq<u8>> {
    match read {
        Some(data) => Some(data@),
        None => None,
    }
}

/// How many reads at the end of a history have failed, since one that did not.
pub open spec fn failures_in_a_row(reads: Seq<Option<Seq<u8>>>) -> nat
    decreases reads.len(),
{
    if reads.len() == 0 || reads.last() is Some {
        0
    } else {
        failures_in_a_row(reads.drop_last()) + 1
    }
}

/// A failed read gives the dongle up exactly when it is at least the last of
/// `MAX_CONSECUTIVE_ERRORS` failures in a row: a read that brings bytes starts the count again.
pub proof fn law_lost_after_failures_in_a_row(reads: Seq<Option<Seq<u8>>>)
    requires
        forall|i: int|
            0 <= i < reads.len() ==> (#[trigger] reads[i] matches Some(data) ==> data.len() > 0),
    ensures
        DongleReaderView::fresh().after_reads(reads).at_read(None) is Lost <==> failures_in_a_row(
            reads,
        ) + 1 >= MAX_CONSECUTIVE_ERRORS,
{
    lemma_errors_are_failures(reads);
}

proof fn lemma_errors_are_failures(reads: Seq<Option<Seq<u8>>>)
    requires
        forall|i: int|
            0 <= i < reads.len() ==> (#[trigger] reads[i] matches Some(data) ==> data.len() > 0),
    ensures
        ({
            let errors = DongleReaderView::fresh().after_reads(reads).consecutive_errors;
            let failures = failures_in_a_row(reads);
            errors == if failures < MAX_CONSECUTIVE_ERRORS {
                failures
            } else {
                MAX_CONSECUTIVE_ERRORS as nat
            }
        }),
    decreases reads.len(),
{
    if reads.len() > 0 {
        assert forall|i: int| 0 <= i < reads.drop_last().len() implies (
        #[trigger] reads.drop_last()[i] matches Some(data) ==> data.len() > 0) by {
            assert(reads.drop_last()[i] == reads[i]);
        }
        lemma_errors_are_failures(reads.drop_last());
        assert(reads[reads.len() - 1] == reads.last());
    }
}

// ---- Reading from a client ------------------------------------------------

/// Turns reads from a client into frames, and into reports of what is none.
pub struct ClientReader {
    reader: FrameReader,
}

impl View for ClientReader {
    type V = DecoderView;

    closed spec fn view(&self) -> DecoderView {
        self.reader@
    }
}

impl ClientReader {
    /// A reader at the start of a stream.
    pub fn new() -> (r: Self)
        ensures
            r@ == DecoderView::fresh(),
    {
        ClientReader { reader: FrameReader::new() }
    }

    /// Takes the result of a read: `None` when it failed, no bytes at the end of the stream.
    /// Returns what it completes, or nothing when the client is gone.
    pub fn on_read(&mut self, read: Option<&[u8]>) -> (r: Option<Vec<FrameEvent>>)
        ensures
            r is Some <==> (read matches Some(data) && data@.len() > 0),
            read matches Some(data) ==> final(self)@ == old(self)@.after(data@),
            read is None ==> final(self)@ == old(self)@,
            r matches Some(events) ==> (read matches Some(data) && event_views(events@) == old(
                self,
            )@.events(data@)),
            r matches Some(events) ==> forall|i: int|
                0 <= i < events@.len() ==> (#[trigger] events@[i] matches FrameEvent::Frame {
                    payload,
                    ..
                } ==> payload@.len() <= MAX_PAYLOAD_FIELD),
    {
        match read {
            None => None,
            Some(data) => {
                if data.len() == 0 {
                    return None;
                }
                Some(self.reader.feed(data))
            },
        }
    }
}

// ---- The first ping -------------------------------------------------------

/// What a read from the dongle leads to while the first ping is unanswered.
#[derive(Clone, Copy, Debug, PartialEq, Eq, Structural)]
pub enum PingStep {
    /// The dongle answered.
    Alive,
    /// It has not answered yet.
    Wait,
    /// The stream has ended.
    Closed,
    /// The read failed.
    Failed,
}

/// Whether a decoder reports an `OK`, under whatever tag.
pub open spec fn has_ok(events: Seq<FrameEventView>) -> bool {
    exists|i: int|
        0 <= i < events.len() && (#[trigger] events[i] matches FrameEventView::Frame {
            type_id,
            ..
        } && type_id == TYPE_OK)
}

/// Whether there is an `OK` among `events`.
fn contains_ok(events: &Vec<FrameEvent>) -> (r: bool)
    ensures
        r == has_ok(event_views(events@)),
{
    let ghost views = event_views(events@);
    let mut i: usize = 0;
    while i < events.len()
        invariant
            i <= events@.len(),
            views == event_views(events@),
            forall|j: int|
                0 <= j < i ==> !(#[trigger] views[j] matches FrameEventView::Frame { type_id, .. }
                    && type_id == TYPE_OK),
        decreases events@.len() - i,
    {
        assert(views[i as int] == events@[i as int]@);
        if let FrameEvent::Frame { type_id, .. } = &events[i] {
            if *type_id == TYPE_OK {
                return true;
            }
        }
        i += 1;
    }
    false
}

/// Waits for the answer to the first ping.
pub struct PingProbe {
    reader: FrameReader,
}

impl View for PingProbe {
    type V = DecoderView;

    closed spec fn view(&self) -> DecoderView {
        self.reader@
    }
}

impl PingProbe {
    /// A probe at the start of a stream.
    pub fn new() -> (r: Self)
        ensures
            r@ == DecoderView::fresh(),
    {
        PingProbe { reader: FrameReader::new() }
    }

    /// The bytes of the first ping.
    pub fn request() -> (r: Vec<u8>)
        ensures
            r@ == frame_wire(TYPE_PING, PING_TAG, Seq::empty()),
            is_wire_frame(r@, TYPE_PING, PING_TAG, Seq::empty()),
    {
        let payload: Vec<u8> = vec![];
        match encode_frame(TYPE_PING, PING_TAG, payload.as_slice()) {
            Some(wire) => wire,
            None => vec![],
        }
    }

    /// Takes the result of a read: `None` when it failed, no bytes at the end of the stream.
    pub fn on_read(&mut self, read: Option<&[u8]>) -> (r: PingStep)
        ensures
            read matches Some(data) ==> final(self)@ == old(self)@.after(data@),
            read is None ==> final(self)@ == old(self)@,
            r == match read {
                None => PingStep::Failed,
                Some(data) => if data@.len() == 0 {
                    PingStep::Closed
                } else if has_ok(old(self)@.events(data@)) {
                    PingStep::Alive
                } else {
                    PingStep::Wait
                },
            },
    {
        let data = match read {
            None => {
                return PingStep::Failed;
            },
            Some(data) => data,
        };
        if data.len() == 0 {
            return PingStep::Closed;
        }
        let events = self.reader.feed(data);
        if contains_ok(&events) {
            PingStep::Alive
        } else {
            PingStep::Wait
        }
    }
}

// ---- Open, serve, give up, open again -------------------------------------

/// What the daemon does with the dongle.
#[derive(Clone, Copy, Debug, PartialEq, Eq, Structural)]
pub enum LinkAction {
    /// Open it, and ping it.
    Open,
    /// Run the tasks that read it, write it and keep it awake, until one of them loses it or
    /// the daemon is told to stop.
    Serve,
    /// End those tasks, drop what is queued for the dongle, and forget what is in flight.
    TearDown,
    /// Wait until the next attempt, or until the daemon is told to stop.
    Wait,
    /// Leave it.
    Stop,
}

/// What became of an action.
#[derive(Clone, Copy, Debug, PartialEq, Eq, Structural)]
pub enum LinkEvent {
    /// The daemon has started.
    Started,
    /// The dongle is open, and has answered.
    Opened,
    /// It could not be opened, or did not answer.
    OpenFailed,
    /// It is served no more.
    Served,
    /// The tasks are over, and nothing is queued or in flight.
    TornDown,
    /// The wait is over.
    Waited,
}

/// What the daemon does next.
pub open spec fn next_action(event: LinkEvent, shutdown: bool) -> LinkAction {
    match event {
        LinkEvent::Opened => LinkAction::Serve,
        LinkEvent::OpenFailed => LinkAction::Wait,
        LinkEvent::Served => LinkAction::TearDown,
        LinkEvent::TornDown => if shutdown {
            LinkAction::Stop
        } else {
            LinkAction::Wait
        },
        LinkEvent::Started | LinkEvent::Waited => if shutdown {
            LinkAction::Stop
        } else {
            LinkAction::Open
        },
    }
}

/// What the daemon does with the dongle after `event`; `shutdown` says whether it was told to
/// stop.
pub fn link_step(event: LinkEvent, shutdown: bool) -> (r: LinkAction)
    ensures
        r == next_action(event, shutdown),
{
    match event {
        LinkEvent::Opened => LinkAction::Serve,
        LinkEvent::OpenFailed => LinkAction::Wait,
        LinkEvent::Served => LinkAction::TearDown,
        LinkEvent::TornDown => if shutdown {
            LinkAction::Stop
        } else {
            LinkAction::Wait
        },
        LinkEvent::Started => if shutdown {
            LinkAction::Stop
        } else {
            LinkAction::Open
        },
        LinkEvent::Waited => if shutdown {
            LinkAction::Stop
        } else {
            LinkAction::Open
        },
    }
}

/// Whether an event can become of an action.
pub open spec fn ends(action: LinkAction, event: LinkEvent) -> bool {
    match action {
        LinkAction::Open => event is Opened || event is OpenFailed,
        LinkAction::Serve => event is Served,
        LinkAction::TearDown => event is TornDown,
        LinkAction::Wait => event is Waited,
        LinkAction::Stop => false,
    }
}

/// Whether the event at `i` of a run is of the action before it.
pub open spec fn follows(events: Seq<LinkEvent>, shutdowns: Seq<bool>, i: int) -> bool {
    ends(next_action(events[i - 1], shutdowns[i - 1]), events[i])
}

/// Whether `events` and `shutdowns` are a run of the daemon: it starts, each event is of the
/// action before it, and once the daemon was told to stop it stays told.
pub open spec fn is_link_run(events: Seq<LinkEvent>, shutdowns: Seq<bool>) -> bool {
    &&& events.len() == shutdowns.len() > 0
    &&& events[0] is Started
    &&& forall|i: int|
        0 < i < events.len() ==> #[trigger] follows(events, shutdowns, i)
    &&& forall|i: int, j: int|
        0 <= i <= j < shutdowns.len() && #[trigger] shutdowns[i] ==> #[trigger] shutdowns[j]
}

/// A dongle that was served is torn down before anything else is done: it is not opened again,
/// nor left, with commands of the old link queued or in flight.
pub proof fn law_served_then_torn_down(events: Seq<LinkEvent>, shutdowns: Seq<bool>, i: int)
    requires
        is_link_run(events, shutdowns),
        0 < i < events.len(),
        next_action(events[i - 1], shutdowns[i - 1]) is Serve,
    ensures
        next_action(events[i], shutdowns[i]) is TearDown,
{
    assert(follows(events, shutdowns, i));
}

/// Until it is told to stop, the daemon does not leave the dongle: after a failed attempt or a
/// lost link it waits, and after a wait it opens the dongle again.
pub proof fn law_reconnects(events: Seq<LinkEvent>, shutdowns: Seq<bool>, i: int)
    requires
        is_link_run(events, shutdowns),
        0 <= i < events.len(),
        !shutdowns[i],
    ensures
        next_action(events[i], shutdowns[i]) !is Stop,
        events[i] is OpenFailed || events[i] is TornDown ==> next_action(events[i], shutdowns[i])
            is Wait,
        events[i] is Waited ==> next_action(events[i], shutdowns[i]) is Open,
{
}

/// Once it is told to stop, the daemon opens nothing more, and stops within three steps: at the
/// most, a dongle that has just been opened is served and torn down.
pub proof fn law_stops(events: Seq<LinkEvent>, shutdowns: Seq<bool>, i: int, j: int)
    requires
        is_link_run(events, shutdowns),
        0 <= i <= j < events.len(),
        shutdowns[i],
    ensures
        next_action(events[j], shutdowns[j]) !is Open,
        j < i + 3,
{
    assert(shutdowns[j]);
    if j >= i + 3 {
        assert(shutdowns[i + 1] && shutdowns[i + 2] && shutdowns[i + 3]);
        assert(follows(events, shutdowns, i + 1));
        assert(follows(events, shutdowns, i + 2));
        assert(follows(events, shutdowns, i + 3));
    }
}

/// A dongle that has been opened is served, told to stop or not; one that could not be opened is
/// not. At the start, the dongle is opened unless the daemon is told to stop.
pub proof fn law_opened_is_served(events: Seq<LinkEvent>, shutdowns: Seq<bool>, i: int)
    requires
        is_link_run(events, shutdowns),
        0 <= i < events.len(),
    ensures
        next_action(events[i], shutdowns[i]) is Serve <==> events[i] is Opened,
        next_action(events[i], shutdowns[i]) is TearDown <==> events[i] is Served,
        next_action(events[i], shutdowns[i]) is Open <==> !shutdowns[i] && (events[i] is Started
            || events[i] is Waited),
        next_action(events[i], shutdowns[i]) is Stop ==> shutdowns[i],
{
}

/// The bytes of several reads, one after the other.
pub open spec fn bytes_read(reads: Seq<Option<Seq<u8>>>) -> Seq<u8>
    decreases reads.len(),
{
    if reads.len() == 0 {
        Seq::empty()
    } else {
        bytes_read(reads.drop_last()) + match reads.last() {
            Some(data) => data,
            None => Seq::empty(),
        }
    }
}

/// Reads that fail lose no bytes: over any reads, the decoder is where it would be after all the
/// bytes that they brought.
pub proof fn law_failed_reads_lose_nothing(reads: Seq<Option<Seq<u8>>>)
    ensures
        DongleReaderView::fresh().after_reads(reads).decoder == DecoderView::fresh().after(
            bytes_read(reads),
        ),
    decreases reads.len(),
{
    if reads.len() > 0 {
        let before = bytes_read(reads.drop_last());
        law_failed_reads_lose_nothing(reads.drop_last());
        match reads.last() {
            Some(data) => {
                law_reads_concatenate(DecoderView::fresh(), before, data);
                if data.len() == 0 {
                    assert(before + data =~= before);
                }
            },
            None => {
                assert(before + Seq::<u8>::empty() =~= before);
            },
        }
    }
}

/// A read that brings bytes has everything dispatched that they complete; one at the end of the
/// stream loses the dongle; one that fails loses it or is tried again.
pub proof fn law_reads_are_dispatched(s: DongleReaderView, data: Seq<u8>)
    ensures
        data.len() > 0 ==> s.at_read(Some(data)) == DongleStepView::Dispatch(
            s.decoder.events(data),
        ),
        data.len() > 0 ==> s.after_read(Some(data)).consecutive_errors == 0,
        data.len() == 0 ==> s.at_read(Some(data)) is Lost,
        s.at_read(None) is Lost || s.at_read(None) is Retry,
        s.at_read(None) is Lost <==> s.consecutive_errors >= 2,
        s.after_read(None).decoder == s.decoder,
{
}

/// The dongle counts as alive exactly when there is an `OK` among what it sent, under whatever tag
/// and with whatever around it.
pub proof fn law_any_ok_is_an_answer(
    before: Seq<FrameEventView>,
    event: FrameEventView,
    after: Seq<FrameEventView>,
)
    ensures
        has_ok(before + seq![event] + after) <==> has_ok(before) || has_ok(after) || (
        event matches FrameEventView::Frame { type_id, .. } && type_id == TYPE_OK),
        !has_ok(Seq::empty()),
{
    let all = before + seq![event] + after;
    let n = before.len();
    assert(all[n as int] == event);
    assert forall|i: int| 0 <= i < n implies all[i] == before[i] by {}
    assert forall|i: int| 0 <= i < after.len() implies all[i + n + 1] == after[i] by {}
    if has_ok(before) {
        let i = choose|i: int|
            0 <= i < before.len() && (#[trigger] before[i] matches FrameEventView::Frame {
                type_id,
                ..
            } && type_id == TYPE_OK);
        assert(all[i] == before[i]);
    }
    if has_ok(after) {
        let i = choose|i: int|
            0 <= i < after.len() && (#[trigger] after[i] matches FrameEventView::Frame {
                type_id,
                ..
            } && type_id == TYPE_OK);
        assert(all[i + n + 1] == after[i]);
    }
    if has_ok(all) {
        let i = choose|i: int|
            0 <= i < all.len() && (#[trigger] all[i] matches FrameEventView::Frame { type_id, .. }
                && type_id == TYPE_OK);
        if i < n {
            assert(before[i] == all[i]);
        } else if i > n {
            assert(after[i - n - 1] == all[i]);
        }
    }
}

} // verus!
