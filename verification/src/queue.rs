//! The bounded queue between the multiplexer and a client's writer.
use tokio::sync::mpsc;
use vstd::prelude::*;

verus! {

/// Declares `tokio::sync::mpsc::Sender`, the sending half of a queue. Nothing inside it is seen.
#[verifier::external_type_specification]
#[verifier::external_body]
#[verifier::reject_recursive_types(T)]
pub struct ExSender<T>(tokio::sync::mpsc::Sender<T>);

/// Declares `tokio::sync::mpsc::Receiver`, the receiving half of a queue. Nothing inside it is
/// seen.
#[verifier::external_type_specification]
#[verifier::external_body]
#[verifier::reject_recursive_types(T)]
pub struct ExReceiver<T>(tokio::sync::mpsc::Receiver<T>);

/// How many frames the queue behind a sender was made for.
pub uninterp spec fn queue_capacity(tx: tokio::sync::mpsc::Sender<Vec<u8>>) -> nat;

/// The frames that the queue behind a sender has taken through it, first to last.
pub uninterp spec fn frames_sent(tx: tokio::sync::mpsc::Sender<Vec<u8>>) -> Seq<Seq<u8>>;

/// Whether a send through a sender has found its queue closed.
pub uninterp spec fn found_closed(tx: tokio::sync::mpsc::Sender<Vec<u8>>) -> bool;

/// Which queue a sender feeds.
pub uninterp spec fn fed_queue(tx: tokio::sync::mpsc::Sender<Vec<u8>>) -> nat;

/// Which queue a receiver drains.
pub uninterp spec fn drained_queue(rx: tokio::sync::mpsc::Receiver<Vec<u8>>) -> nat;

/// What became of a frame that was offered to a queue.
#[derive(Clone, Copy, Debug, PartialEq, Eq, Structural)]
pub enum SendOutcome {
    /// The queue took it.
    Sent,
    /// The queue was full.
    Full,
    /// The client's writer is gone.
    Closed,
}

/// The only sender of a queue: it is never cloned, and nothing else puts frames in.
pub struct SendQueue {
    tx: mpsc::Sender<Vec<u8>>,
}

/// What a [`SendQueue`] is: which queue it feeds, what the queue was made for, the frames that it
/// has taken, and whether it has been found closed.
#[verifier::ext_equal]
pub struct QueueView {
    pub id: nat,
    pub capacity: nat,
    pub sent: Seq<Seq<u8>>,
    pub closed: bool,
}

impl QueueView {
    /// Whether a frame can have the given outcome: the queue is full at the earliest when it has
    /// taken as many frames as it was made for, and once it has been found closed it stays so.
    pub open spec fn admits(self, outcome: SendOutcome) -> bool {
        &&& outcome is Full ==> self.sent.len() >= self.capacity
        &&& self.closed ==> outcome is Closed
    }

    /// The queue after a frame was offered to it, with the given outcome.
    pub open spec fn after_send(self, frame: Seq<u8>, outcome: SendOutcome) -> QueueView {
        match outcome {
            SendOutcome::Sent => QueueView { sent: self.sent.push(frame), ..self },
            SendOutcome::Full => self,
            SendOutcome::Closed => QueueView { closed: true, ..self },
        }
    }
}

impl View for SendQueue {
    type V = QueueView;

    closed spec fn view(&self) -> QueueView {
        QueueView {
            id: fed_queue(self.tx),
            capacity: queue_capacity(self.tx),
            sent: frames_sent(self.tx),
            closed: found_closed(self.tx),
        }
    }
}

/// Calls `tokio::sync::mpsc::channel`, which does not panic on a capacity within these bounds.
///
/// Claims that the queue is made for that many frames, has taken none and has not been found
/// closed, and that the receiver drains the queue that the sender feeds. What is in the queue at any later time is left unsaid:
/// the client's writer takes frames out concurrently.
#[verifier::external_body]
fn channel(capacity: usize) -> (r: (mpsc::Sender<Vec<u8>>, mpsc::Receiver<Vec<u8>>))
    requires
        0 < capacity <= usize::MAX / 8,
    ensures
        queue_capacity(r.0) == capacity,
        frames_sent(r.0) == Seq::<Seq<u8>>::empty(),
        !found_closed(r.0),
        drained_queue(r.1) == fed_queue(r.0),
{
    mpsc::channel(capacity)
}

/// Calls `tokio::sync::mpsc::Sender::try_send` on the only sender of a queue.
///
/// Claims that the queue takes the frame, after those it took before, when the call succeeds, and
/// does not take it when the call fails; that the queue is full only when it has taken as many
/// frames as it was made for, since each frame takes up one place until it is received; and that
/// a queue which was once found closed is found closed ever after, since it is never opened again.
/// Which of the outcomes comes back is otherwise left unsaid: it depends on how fast the client's
/// writer drains the queue.
#[verifier::external_body]
fn try_send(queue: &mut SendQueue, frame: Vec<u8>) -> (r: SendOutcome)
    ensures
        fed_queue(final(queue).tx) == fed_queue(old(queue).tx),
        queue_capacity(final(queue).tx) == queue_capacity(old(queue).tx),
        r is Sent ==> frames_sent(final(queue).tx) == frames_sent(old(queue).tx).push(frame@),
        r !is Sent ==> frames_sent(final(queue).tx) == frames_sent(old(queue).tx),
        r is Full ==> frames_sent(old(queue).tx).len() >= queue_capacity(old(queue).tx),
        r is Closed <==> found_closed(final(queue).tx),
        found_closed(old(queue).tx) ==> r is Closed,
{
    match queue.tx.try_send(frame) {
        Ok(()) => SendOutcome::Sent,
        Err(mpsc::error::TrySendError::Full(_)) => SendOutcome::Full,
        Err(mpsc::error::TrySendError::Closed(_)) => SendOutcome::Closed,
    }
}

impl SendQueue {
    /// A queue for the given number of frames, and the receiver that drains it.
    pub(crate) fn new(capacity: usize) -> (r: (SendQueue, mpsc::Receiver<Vec<u8>>))
        requires
            0 < capacity <= usize::MAX / 8,
        ensures
            r.0@ == (QueueView {
                id: drained_queue(r.1),
                capacity: capacity as nat,
                sent: Seq::empty(),
                closed: false,
            }),
    {
        let (tx, rx) = channel(capacity);
        (SendQueue { tx }, rx)
    }

    /// Offers a frame to the queue, and says what became of it.
    pub(crate) fn offer(&mut self, frame: Vec<u8>) -> (r: SendOutcome)
        ensures
            final(self)@ == old(self)@.after_send(frame@, r),
            old(self)@.admits(r),
    {
        try_send(self, frame)
    }
}

} // verus!
