//! The queue that carries frames to the encoder, and the way their buffers come back.
//!
//! Each end of a channel keeps, for proofs alone, the history of its exchanges. Only the
//! calls that make an exchange add to it.

use crate::timestamp::Timestamp;
use std::sync::mpsc::{Receiver, SyncSender, TrySendError};
use vstd::prelude::*;

verus! {

/// How many messages wait for the encoder at most.
pub const QUEUE_LEN: usize = 2;

/// What the encoder is told.
#[derive(Debug, PartialEq, Eq)]
pub enum Msg {
    /// Encode one frame. `audio_time` is the audio playback position, `index` the
    /// number of the frame in the video.
    Frame { data: Vec<u8>, audio_time: Timestamp, index: u64 },
    /// There are no more frames.
    End,
}

/// A frame in the abstract.
pub struct FrameView {
    pub data: Seq<u8>,
    pub audio_time: Timestamp,
    pub index: nat,
}

/// A message in the abstract.
pub enum MsgView {
    Frame(FrameView),
    End,
}

impl View for Msg {
    type V = MsgView;

    open spec fn view(&self) -> MsgView {
        match self {
            Msg::Frame { data, audio_time, index } => MsgView::Frame(
                FrameView { data: data@, audio_time: *audio_time, index: *index as nat },
            ),
            Msg::End => MsgView::End,
        }
    }
}

/// What became of a message that was offered to the encoder.
pub enum Offer {
    /// The message is in the queue.
    Accepted,
    /// The queue was full; here is the message.
    Full(Msg),
    /// The encoder is gone; here is the message.
    Disconnected(Msg),
}

/// What became of a message, without the message.
pub enum Outcome {
    Accepted,
    Full,
    Disconnected,
}

/// The outcome that an offer stands for.
pub open spec fn outcome_of(offer: Offer) -> Outcome {
    match offer {
        Offer::Accepted => Outcome::Accepted,
        Offer::Full(_) => Outcome::Full,
        Offer::Disconnected(_) => Outcome::Disconnected,
    }
}

/// A message that was offered, and what became of it.
pub struct Attempt {
    pub message: MsgView,
    pub outcome: Outcome,
}

/// `std::sync::mpsc::SyncSender`, the sending half of a bounded channel.
#[verifier::external_type_specification]
#[verifier::external_body]
#[verifier::reject_recursive_types(T)]
pub struct ExSyncSender<T>(SyncSender<T>);

/// `std::sync::mpsc::Receiver`, the receiving half of a channel.
#[verifier::external_type_specification]
#[verifier::external_body]
#[verifier::reject_recursive_types(T)]
pub struct ExReceiver<T>(Receiver<T>);

/// The queue of messages for the encoder, seen from the recording.
pub struct FrameQueue {
    tx: SyncSender<Msg>,
    history: Ghost<Seq<Attempt>>,
}

impl FrameQueue {
    /// The channel that the queue stands for.
    pub closed spec fn sender(self) -> SyncSender<Msg> {
        self.tx
    }

    /// What was offered through this queue so far, the latest message last.
    pub closed spec fn offered(self) -> Seq<Attempt> {
        self.history@
    }

    /// A queue through which nothing was offered yet.
    pub fn new(tx: SyncSender<Msg>) -> (queue: FrameQueue)
        ensures
            queue.sender() == tx,
            queue.offered() == Seq::<Attempt>::empty(),
    {
        FrameQueue { tx, history: Ghost(Seq::empty()) }
    }

    /// `SyncSender::try_send` puts the message into the channel or, without waiting, hands
    /// it back as it was, because the channel is full or because the receiver is gone. So
    /// each call offers exactly the given message, once. Which outcome it has is up to the
    /// receiving thread, and is not said.
    #[verifier::external_body]
    pub(crate) fn try_send(&mut self, msg: Msg) -> (offer: Offer)
        ensures
            final(self).sender() == old(self).sender(),
            final(self).offered() == old(self).offered().push(
                Attempt { message: msg@, outcome: outcome_of(offer) },
            ),
            match offer {
                Offer::Accepted => true,
                Offer::Full(back) => back == msg,
                Offer::Disconnected(back) => back == msg,
            },
    {
        match self.tx.try_send(msg) {
            Ok(()) => Offer::Accepted,
            Err(TrySendError::Full(back)) => Offer::Full(back),
            Err(TrySendError::Disconnected(back)) => Offer::Disconnected(back),
        }
    }
}

/// The pixels of a buffer that came back, if one did.
pub open spec fn pixels_of(buffer: Option<Vec<u8>>) -> Option<Seq<u8>> {
    match buffer {
        Some(data) => Some(data@),
        None => None,
    }
}

/// The way back of the buffers that the encoder no longer needs.
pub struct ReturnedBuffers {
    rx: Receiver<Vec<u8>>,
    history: Ghost<Seq<Option<Seq<u8>>>>,
}

impl ReturnedBuffers {
    /// The channel that the buffers come through.
    pub closed spec fn receiver(self) -> Receiver<Vec<u8>> {
        self.rx
    }

    /// What each request for a buffer gave so far, the latest last.
    pub closed spec fn given(self) -> Seq<Option<Seq<u8>>> {
        self.history@
    }

    /// No buffer was asked for yet.
    pub fn new(rx: Receiver<Vec<u8>>) -> (buffers: ReturnedBuffers)
        ensures
            buffers.receiver() == rx,
            buffers.given() == Seq::<Option<Seq<u8>>>::empty(),
    {
        ReturnedBuffers { rx, history: Ghost(Seq::empty()) }
    }

    /// `Receiver::try_recv` takes the next value out of the channel, if there is one,
    /// without waiting. The history records what it gave. Which value that is, and whether
    /// there is one, is up to the sending thread, and is not said.
    #[verifier::external_body]
    pub(crate) fn try_recv(&mut self) -> (value: Option<Vec<u8>>)
        ensures
            final(self).receiver() == old(self).receiver(),
            final(self).given() == old(self).given().push(pixels_of(value)),
    {
        self.rx.try_recv().ok()
    }
}

/// A message carries what it was made of.
pub proof fn law_message_carries_its_frame(data: Vec<u8>, audio_time: Timestamp, index: u64)
    ensures
        (Msg::Frame { data, audio_time, index })@ == MsgView::Frame(
            FrameView { data: data@, audio_time, index: index as nat },
        ),
        Msg::End@ == MsgView::End,
{
}

/// An offer stands for its own outcome.
pub proof fn law_offer_has_its_outcome(offer: Offer)
    ensures
        outcome_of(offer) is Accepted <==> offer is Accepted,
        outcome_of(offer) is Full <==> offer is Full,
        outcome_of(offer) is Disconnected <==> offer is Disconnected,
{
}

/// A buffer that came back holds its own pixels.
pub proof fn law_buffer_holds_its_pixels(buffer: Vec<u8>)
    ensures
        pixels_of(Some(buffer)) == Some(buffer@),
        pixels_of(None) is None,
{
}

} // verus!
