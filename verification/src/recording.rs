//! Handing captured frames to the encoder on a constant frame rate.

use crate::channel::{Attempt, FrameQueue, FrameView, Msg, MsgView, Offer, Outcome, ReturnedBuffers};
use crate::timestamp::Timestamp;
use std::sync::mpsc::{Receiver, SyncSender};
use vstd::prelude::*;

verus! {

/// A recording in the abstract.
#[verifier::ext_equal]
pub struct RecordingView {
    pub timestamp: u128,
    pub buffer: Seq<u8>,
    pub first_capture: Option<Timestamp>,
    /// The picture that was captured last, if one was.
    pub last_data: Option<Seq<u8>>,
    pub index: nat,
    /// The channel to the encoder.
    pub to: SyncSender<Msg>,
    /// What was offered to the encoder so far, the latest message last.
    pub offers: Seq<Attempt>,
    /// The channel from the encoder.
    pub from: Receiver<Vec<u8>>,
    /// What each request for a used buffer gave so far, the latest last.
    pub polls: Seq<Option<Seq<u8>>>,
}

impl RecordingView {
    /// A recording without frames.
    pub open spec fn blank(
        to: SyncSender<Msg>,
        from: Receiver<Vec<u8>>,
        timestamp: u128,
    ) -> Self {
        RecordingView {
            timestamp,
            buffer: Seq::empty(),
            first_capture: None,
            last_data: None,
            index: 0,
            to,
            offers: Seq::empty(),
            from,
            polls: Seq::empty(),
        }
    }

    /// After the first capture, at `real_time`, began the timeline.
    pub open spec fn begun(self, real_time: Timestamp) -> Self {
        RecordingView { first_capture: Some(real_time), ..self }
    }

    /// After `data` was offered, once, as the next frame.
    pub open spec fn offered(self, data: Seq<u8>, audio_time: Timestamp, outcome: Outcome) -> Self {
        let message = MsgView::Frame(FrameView { data, audio_time, index: self.index });
        let offers = self.offers.push(Attempt { message, outcome });
        match outcome {
            // The frame is in the video.
            Outcome::Accepted => RecordingView { index: self.index + 1, offers, ..self },
            // The encoder is lagging behind: the frame is dropped, its buffer is kept for reuse.
            Outcome::Full => RecordingView { buffer: data, offers, ..self },
            Outcome::Disconnected => RecordingView { offers, ..self },
        }
    }

    /// After the encoder was asked, once, for a used buffer.
    pub open spec fn polled(self, returned: Option<Seq<u8>>) -> Self {
        RecordingView {
            buffer: kept_buffer(returned, self.buffer),
            polls: self.polls.push(returned),
            ..self
        }
    }

    /// The picture that fills the gap before a capture: the one captured before it, or,
    /// for want of one, its own.
    pub open spec fn filler(self) -> Seq<u8> {
        match self.last_data {
            Some(previous) => previous,
            None => self.buffer,
        }
    }

    /// The picture that frame `index` shows if the picture in the buffer is captured when
    /// the video is due to have `target` frames: the captured picture comes last.
    pub open spec fn picture(self, index: int, target: int) -> Seq<u8> {
        if index + 1 < target {
            self.filler()
        } else {
            self.buffer
        }
    }

    /// After the buffer was taken out to be sent.
    pub open spec fn taken(self) -> Self {
        RecordingView { buffer: Seq::empty(), last_data: Some(self.buffer), ..self }
    }

    /// After the frames that are missing were offered, in their order, one for each of the
    /// outcomes.
    pub open spec fn sent(self, audio_time: Timestamp, target: u64, outcomes: Seq<Outcome>) -> Self
        decreases outcomes.len(),
    {
        if outcomes.len() == 0 {
            self.taken()
        } else {
            let earlier = self.sent(audio_time, target, outcomes.drop_last());
            earlier.offered(
                self.picture(earlier.index as int, target as int),
                audio_time,
                outcomes.last(),
            )
        }
    }
}

/// Whether sending stops where it should: at the target, or at the first frame that was
/// not accepted.
pub open spec fn stops(outcomes: Seq<Outcome>, reached: nat, target: u64) -> bool {
    &&& outcomes.len() > 0
    &&& forall|i: int| 0 <= i < outcomes.len() - 1 ==> (#[trigger] outcomes[i]) is Accepted
    &&& reached < target <==> !(outcomes.last() is Accepted)
    &&& reached <= target
}

/// How the capture of a frame changes a recording, and what it returns: the index of the
/// frame in the video, if it was written. What the encoder did is read off the exchanges
/// that the capture adds to the recording.
pub open spec fn capture_step(
    before: RecordingView,
    after: RecordingView,
    audio_time: Timestamp,
    target: u64,
    result: Option<u64>,
) -> bool {
    if before.index >= target {
        // The game renders faster than the video: the frame is skipped.
        &&& result is None
        &&& after == before.polled(after.polls.last())
    } else {
        let outcomes = outcomes_from(after.offers, before.offers.len() as int);
        // The captured picture is the last that is due.
        &&& result == (if after.index == target {
            Some((target - 1) as u64)
        } else {
            None
        })
        &&& after == before.sent(audio_time, target, outcomes).polled(after.polls.last())
        &&& stops(outcomes, after.index, target)
    }
}

/// What became of the messages that were offered from number `from` on.
pub open spec fn outcomes_from(offers: Seq<Attempt>, from: int) -> Seq<Outcome> {
    Seq::new((offers.len() - from) as nat, |i: int| offers[from + i].outcome)
}

/// The frames in the video: those that the encoder accepted, in the order in which they
/// went into the queue.
pub open spec fn video(offers: Seq<Attempt>) -> Seq<FrameView>
    decreases offers.len(),
{
    if offers.len() == 0 {
        Seq::empty()
    } else {
        match offers.last() {
            Attempt { message: MsgView::Frame(frame), outcome: Outcome::Accepted } => video(
                offers.drop_last(),
            ).push(frame),
            _ => video(offers.drop_last()),
        }
    }
}

/// A recording in progress.
pub struct Recording {
    /// The pixels of the frame to capture next.
    pub buffer: Vec<u8>,
    /// How far the recording has got.
    pub progress: Progress,
}

/// How far a recording has got, and its way to the encoder.
pub struct Progress {
    queue: FrameQueue,
    returned: ReturnedBuffers,
    timestamp: u128,
    first_capture_real: Option<Timestamp>,
    last_data: Option<Vec<u8>>,
    index: u64,
}

impl Progress {
    /// The recording in the abstract, with an empty buffer.
    pub closed spec fn without_buffer(self) -> RecordingView {
        RecordingView {
            timestamp: self.timestamp,
            buffer: Seq::empty(),
            first_capture: self.first_capture_real,
            last_data: crate::channel::pixels_of(self.last_data),
            index: self.index as nat,
            to: self.queue.sender(),
            offers: self.queue.offered(),
            from: self.returned.receiver(),
            polls: self.returned.given(),
        }
    }
}

impl View for Recording {
    type V = RecordingView;

    open spec fn view(&self) -> RecordingView {
        RecordingView { buffer: self.buffer@, ..self.progress.without_buffer() }
    }
}

impl Recording {
    /// A recording without frames. Frames go out through `tx`; the buffers of frames
    /// that are encoded come back through `return_rx`.
    pub fn start(tx: SyncSender<Msg>, return_rx: Receiver<Vec<u8>>, timestamp: u128) -> (recording:
        Recording)
        ensures
            recording@ == RecordingView::blank(tx, return_rx, timestamp),
            recording.buffer@.len() == 0,
    {
        let progress = Progress {
            queue: FrameQueue::new(tx),
            returned: ReturnedBuffers::new(return_rx),
            timestamp,
            first_capture_real: None,
            last_data: None,
            index: 0,
        };
        Recording { buffer: Vec::new(), progress }
    }

    /// Timestamp (milliseconds) shared by this recording's files. Sidecar files
    /// can use it to pair with the recorded video.
    pub fn timestamp(&self) -> (timestamp: u128)
        ensures
            timestamp == self@.timestamp,
    {
        self.progress.timestamp
    }

    /// Offer `data` to the encoder, once, as the next frame.
    fn send_frame(&mut self, data: Vec<u8>, audio_time: Timestamp) -> (sent: Option<u64>)
        requires
            old(self)@.index < u64::MAX,
        ensures
            final(self)@ == old(self)@.offered(
                data@,
                audio_time,
                final(self)@.offers.last().outcome,
            ),
            sent == sent_index(old(self)@.index, final(self)@.offers.last().outcome),
    {
        let ghost before = self@;
        let ghost pixels = data@;
        let index: u64 = self.progress.index;
        let offer = self.progress.queue.try_send(Msg::Frame { data, audio_time, index });
        let ghost outcome = crate::channel::outcome_of(offer);
        let mut buffer: Vec<u8> = Vec::new();
        std::mem::swap(&mut buffer, &mut self.buffer);
        let settled = settle_offer(offer, index, buffer);
        self.progress.index = settled.index;
        self.buffer = settled.buffer;
        assert(self@ =~= before.offered(pixels, audio_time, outcome));
        settled.sent
    }

    /// Take back a buffer that the encoder no longer needs, if there is one.
    fn poll_buffer(&mut self)
        ensures
            final(self)@ == old(self)@.polled(final(self)@.polls.last()),
    {
        let ghost before = self@;
        let returned = self.progress.returned.try_recv();
        let ghost seen = crate::channel::pixels_of(returned);
        let mut buffer: Vec<u8> = Vec::new();
        std::mem::swap(&mut buffer, &mut self.buffer);
        self.buffer = keep_buffer(returned, buffer);
        assert(self@ =~= before.polled(seen));
    }

    /// Capture the frame in the buffer when the video is due to have `due` frames.
    ///
    /// When the video is behind, repeats of the picture captured before fill the gap, and
    /// the frame is sent as the last that is due; when the video is not behind, the frame is
    /// skipped. The first frame is always due. Sending stops at the first frame that the
    /// encoder does not accept. Returns the index of the frame in the video if it was
    /// written.
    pub fn capture_at(&mut self, audio_time: Timestamp, due: u64) -> (sent: Option<u64>)
        ensures
            capture_step(old(self)@, final(self)@, audio_time, target_of(due), sent),
    {
        let target: u64 = if due < 1 { 1 } else { due };
        if self.progress.index >= target {
            self.poll_buffer();
            return None;
        }
        let ghost before = self@;
        let mut data: Vec<u8> = Vec::new();
        std::mem::swap(&mut data, &mut self.buffer);
        let filler: Vec<u8> = match self.progress.last_data.take() {
            Some(previous) => previous,
            None => data.clone(),
        };
        assert(filler@ =~= before.filler());
        let captured: Vec<u8> = data.clone();
        assert(captured@ =~= data@);
        self.progress.last_data = Some(captured);
        assert(self@ =~= before.taken());
        let ghost mut outcomes: Seq<Outcome> = Seq::empty();
        while self.progress.index + 1 < target
            invariant_except_break
                self@ == before.sent(audio_time, target, outcomes),
                filler@ == before.filler(),
                forall|i: int| 0 <= i < outcomes.len() ==> (#[trigger] outcomes[i]) is Accepted,
                self@.index < target,
            ensures
                self@ == before.sent(audio_time, target, outcomes),
                self@.index < target,
                forall|i: int|
                    0 <= i < outcomes.len() - 1 ==> (#[trigger] outcomes[i]) is Accepted,
                self@.index + 1 < target <==> outcomes.len() > 0 && !(outcomes.last() is Accepted),
            decreases target - self.progress.index,
        {
            let repeat: Vec<u8> = filler.clone();
            assert(repeat@ =~= before.filler());
            let accepted = self.send_frame(repeat, audio_time);
            proof {
                let more = outcomes.push(self@.offers.last().outcome);
                assert(more.drop_last() =~= outcomes);
                outcomes = more;
            }
            if accepted.is_none() {
                break;
            }
        }
        if self.progress.index + 1 == target {
            let _ = self.send_frame(data, audio_time);
            proof {
                let more = outcomes.push(self@.offers.last().outcome);
                assert(more.drop_last() =~= outcomes);
                outcomes = more;
            }
        }
        proof {
            lemma_sent(before, audio_time, target, outcomes);
            assert(outcomes_from(self@.offers, before.offers.len() as int) =~= outcomes);
        }
        self.poll_buffer();
        if self.progress.index == target {
            Some(target - 1)
        } else {
            None
        }
    }

    /// Send the filled buffer to the encoder, recording the audio playback position as
    /// the timestamp of this frame. Returns the video frame index if the frame was
    /// written.
    ///
    /// Frames are aligned to a constant timeline in real time, which starts with the
    /// first capture: `frames_between` tells how many frames the video has between two
    /// moments. When the game renders slower than the target rate, repeats of the previous
    /// frame, the one captured before, fill the gap up to the moment of this capture, and
    /// when it renders faster, frames are skipped.
    pub fn capture_frame<F: Fn(Timestamp, Timestamp) -> u64>(
        &mut self,
        audio_time: Timestamp,
        real_time: Timestamp,
        frames_between: F,
    ) -> (sent: Option<u64>)
        requires
            old(self)@.first_capture matches Some(first) ==> call_requires(
                frames_between,
                (first, real_time),
            ),
        ensures
            match old(self)@.first_capture {
                None => capture_step(
                    old(self)@.begun(real_time),
                    final(self)@,
                    audio_time,
                    1,
                    sent,
                ),
                Some(first) => exists|due: u64|
                    call_ensures(frames_between, (first, real_time), due)
                        && #[trigger] capture_step(
                        old(self)@,
                        final(self)@,
                        audio_time,
                        target_of(due),
                        sent,
                    ),
            },
    {
        let ghost before = self@;
        let due: u64 = match self.progress.first_capture_real {
            Some(first) => frames_between(first, real_time),
            None => {
                self.progress.first_capture_real = Some(real_time);
                assert(self@ =~= before.begun(real_time));
                0
            },
        };
        self.capture_at(audio_time, due)
    }
}

/// The buffer for the next frame, after the encoder was asked for a used one.
pub open spec fn kept_buffer(returned: Option<Seq<u8>>, buffer: Seq<u8>) -> Seq<u8> {
    match returned {
        Some(used) => used,
        None => buffer,
    }
}

/// The index of the frame that was offered, if it is in the video.
pub open spec fn sent_index(index: nat, outcome: Outcome) -> Option<u64> {
    match outcome {
        Outcome::Accepted => Some(index as u64),
        _ => None,
    }
}

/// How many frames the video is to have: the first frame is always due.
pub open spec fn target_of(due: u64) -> u64 {
    if due < 1 {
        1
    } else {
        due
    }
}

/// What an offer leaves behind.
pub struct Settled {
    /// The index of the next frame.
    pub index: u64,
    /// The buffer for the next frame.
    pub buffer: Vec<u8>,
    /// The index of the frame that was offered, if it is in the video.
    pub sent: Option<u64>,
}

/// What is left of `index` and `buffer` after frame `index` was offered to the encoder.
pub fn settle_offer(offer: Offer, index: u64, buffer: Vec<u8>) -> (settled: Settled)
    requires
        offer is Accepted ==> index < u64::MAX,
    ensures
        settled.index == index + (if offer is Accepted { 1int } else { 0 }),
        settled.buffer@ == (match offer {
            Offer::Full(Msg::Frame { data, .. }) => data@,
            _ => buffer@,
        }),
        settled.sent == sent_index(index as nat, crate::channel::outcome_of(offer)),
        offer is Accepted ==> settled.sent == Some(index),
        !(offer is Accepted) ==> settled.sent is None,
{
    match offer {
        Offer::Accepted => Settled { index: index + 1, buffer, sent: Some(index) },
        // Encoder is lagging behind; drop the frame and keep the buffer for reuse.
        Offer::Full(Msg::Frame { data, .. }) => Settled { index, buffer: data, sent: None },
        Offer::Full(Msg::End) | Offer::Disconnected(_) => Settled { index, buffer, sent: None },
    }
}

/// The buffer for the next frame: the one that came back from the encoder, if one did.
pub fn keep_buffer(returned: Option<Vec<u8>>, buffer: Vec<u8>) -> (kept: Vec<u8>)
    ensures
        kept@ == kept_buffer(crate::channel::pixels_of(returned), buffer@),
        returned matches Some(used) ==> kept@ == used@,
        returned is None ==> kept@ == buffer@,
{
    match returned {
        Some(used) => used,
        None => buffer,
    }
}

/// Whether the frames of the video are numbered from zero without gaps.
pub open spec fn numbered(view: RecordingView) -> bool {
    &&& view.index == video(view.offers).len()
    &&& forall|i: int|
        0 <= i < video(view.offers).len() ==> (#[trigger] video(view.offers)[i]).index == i
}

/// Whether the encoder accepted all frames that were offered from `before` to `after`.
pub open spec fn nothing_refused(before: RecordingView, after: RecordingView) -> bool {
    forall|i: int|
        before.offers.len() <= i < after.offers.len() ==> (
        #[trigger] after.offers[i]).outcome is Accepted
}

/// `count` frames of the video from where `before` stands: what a capture of the picture in
/// its buffer adds on the way to `target` frames.
pub open spec fn added(
    before: RecordingView,
    audio_time: Timestamp,
    target: u64,
    count: nat,
) -> Seq<FrameView> {
    Seq::new(
        count,
        |i: int|
            FrameView {
                data: before.picture(before.index + i, target as int),
                audio_time,
                index: (before.index + i) as nat,
            },
    )
}

proof fn lemma_sent(
    before: RecordingView,
    audio_time: Timestamp,
    target: u64,
    outcomes: Seq<Outcome>,
)
    ensures
        ({
            let after = before.sent(audio_time, target, outcomes);
            &&& after.last_data == Some(before.buffer)
            &&& after.timestamp == before.timestamp
            &&& after.first_capture == before.first_capture
            &&& after.to == before.to
            &&& after.from == before.from
            &&& after.polls == before.polls
            &&& before.index <= after.index <= before.index + outcomes.len()
            &&& (forall|i: int| 0 <= i < outcomes.len() ==> (#[trigger] outcomes[i]) is Accepted)
                ==> after.index == before.index + outcomes.len()
            &&& after.offers.len() == before.offers.len() + outcomes.len()
            &&& after.offers.take(before.offers.len() as int) == before.offers
            &&& forall|i: int|
                0 <= i < outcomes.len() ==> (
                #[trigger] after.offers[before.offers.len() + i]).outcome == outcomes[i]
            &&& video(after.offers) == video(before.offers) + added(
                before,
                audio_time,
                target,
                (after.index - before.index) as nat,
            )
        }),
    decreases outcomes.len(),
{
    let after = before.sent(audio_time, target, outcomes);
    if outcomes.len() == 0 {
        assert(after.offers.take(before.offers.len() as int) =~= before.offers);
        assert(video(after.offers) =~= video(before.offers) + added(before, audio_time, target, 0));
    } else {
        let fewer = outcomes.drop_last();
        lemma_sent(before, audio_time, target, fewer);
        let earlier = before.sent(audio_time, target, fewer);
        assert(after.offers.drop_last() =~= earlier.offers);
        assert(after.offers.take(before.offers.len() as int) =~= earlier.offers.take(
            before.offers.len() as int,
        ));
        assert forall|i: int| 0 <= i < outcomes.len() implies (
        #[trigger] after.offers[before.offers.len() + i]).outcome == outcomes[i] by {
            if i < fewer.len() {
                assert(after.offers[before.offers.len() + i] == earlier.offers[before.offers.len()
                    + i]);
                assert(fewer[i] == outcomes[i]);
            }
        }
        if forall|i: int| 0 <= i < outcomes.len() ==> (#[trigger] outcomes[i]) is Accepted {
            assert forall|i: int| 0 <= i < fewer.len() implies (
            #[trigger] fewer[i]) is Accepted by {
                assert(fewer[i] == outcomes[i]);
            }
            assert(outcomes[outcomes.len() - 1] is Accepted);
        }
        assert(video(after.offers) =~= video(before.offers) + added(
            before,
            audio_time,
            target,
            (after.index - before.index) as nat,
        ));
    }
}

/// What one capture does to the video, whatever the encoder accepts: offers are only
/// added, and the frames that join the video follow one another. All but the last that is
/// due show the picture captured before.
pub proof fn law_capture_extends_video(
    before: RecordingView,
    after: RecordingView,
    audio_time: Timestamp,
    target: u64,
    sent: Option<u64>,
)
    requires
        capture_step(before, after, audio_time, target, sent),
    ensures
        before.index <= after.index,
        before.offers.len() <= after.offers.len(),
        after.offers.take(before.offers.len() as int) == before.offers,
        video(after.offers) == video(before.offers) + added(
            before,
            audio_time,
            target,
            (after.index - before.index) as nat,
        ),
        after.polls.len() == before.polls.len() + 1,
        after.polls.take(before.polls.len() as int) == before.polls,
        after.to == before.to,
        after.from == before.from,
        after.timestamp == before.timestamp,
        after.first_capture == before.first_capture,
        after.last_data == (if before.index < target {
            Some(before.buffer)
        } else {
            before.last_data
        }),
{
    if before.index >= target {
        assert(after.offers.take(before.offers.len() as int) =~= before.offers);
        assert(video(after.offers) =~= video(before.offers) + added(before, audio_time, target, 0));
    } else {
        lemma_sent(
            before,
            audio_time,
            target,
            outcomes_from(after.offers, before.offers.len() as int),
        );
    }
}

/// The frames of the video stay numbered from zero without gaps.
pub proof fn law_video_stays_numbered(
    before: RecordingView,
    after: RecordingView,
    audio_time: Timestamp,
    target: u64,
    sent: Option<u64>,
)
    requires
        capture_step(before, after, audio_time, target, sent),
        numbered(before),
    ensures
        numbered(after),
{
    law_capture_extends_video(before, after, audio_time, target, sent);
}

/// A recording without frames is numbered.
pub proof fn law_blank_is_numbered(to: SyncSender<Msg>, from: Receiver<Vec<u8>>, timestamp: u128)
    ensures
        numbered(RecordingView::blank(to, from, timestamp)),
{
}

/// A capture returns the index of the frame in the video if the frame was written: that
/// frame is the last of the video, and shows the captured picture at its audio position.
/// Every other frame that joins the video repeats the picture captured before.
pub proof fn law_returned_index_is_the_frame(
    before: RecordingView,
    after: RecordingView,
    audio_time: Timestamp,
    target: u64,
    sent: Option<u64>,
)
    requires
        capture_step(before, after, audio_time, target, sent),
        numbered(before),
    ensures
        sent matches Some(i) ==> {
            &&& before.index <= i
            &&& i == target - 1
            &&& video(after.offers).len() == i + 1
            &&& video(after.offers)[i as int] == (FrameView {
                data: before.buffer,
                audio_time,
                index: i as nat,
            })
        },
        forall|k: int|
            before.index <= k < after.index && sent != Some(k as u64) ==> (
            #[trigger] video(after.offers)[k]).data == before.filler(),
        sent is None && target <= before.index + 1 ==> after.index == before.index,
{
    law_capture_extends_video(before, after, audio_time, target, sent);
    if before.index < target {
        lemma_sent(
            before,
            audio_time,
            target,
            outcomes_from(after.offers, before.offers.len() as int),
        );
    }
}

/// Repeats of the previous frame fill the gaps: of the frames that a capture adds to the
/// video, exactly one shows the captured picture, at the moment of the capture, and its
/// index is returned; those that fill the gap since the capture before show the picture of
/// that one. In between the buffer may be filled.
pub proof fn law_gap_shows_the_previous_picture(
    before1: RecordingView,
    after1: RecordingView,
    audio_time1: Timestamp,
    target1: u64,
    sent1: Option<u64>,
    before2: RecordingView,
    after2: RecordingView,
    audio_time2: Timestamp,
    target2: u64,
    sent2: Option<u64>,
)
    requires
        capture_step(before1, after1, audio_time1, target1, sent1),
        before1.index < target1,
        before2 == (RecordingView { buffer: before2.buffer, ..after1 }),
        capture_step(before2, after2, audio_time2, target2, sent2),
        numbered(before1),
        before2.index < target2,
        nothing_refused(before2, after2),
    ensures
        after2.index == target2,
        sent2 == Some((target2 - 1) as u64),
        video(after2.offers)[target2 - 1].data == before2.buffer,
        forall|k: int|
            before2.index <= k < target2 - 1 ==> (#[trigger] video(after2.offers)[k]).data
                == before1.buffer,
{
    law_capture_extends_video(before1, after1, audio_time1, target1, sent1);
    law_video_stays_numbered(before1, after1, audio_time1, target1, sent1);
    law_capture_extends_video(before2, after2, audio_time2, target2, sent2);
    law_capture_keeps_to_timeline(before2, after2, audio_time2, target2, sent2);
}

/// A capture that the video is not behind offers nothing to the encoder, and changes
/// nothing but the buffer, which becomes the one that came back, if one did.
pub proof fn law_skipped_capture_offers_nothing(
    before: RecordingView,
    after: RecordingView,
    audio_time: Timestamp,
    target: u64,
    sent: Option<u64>,
)
    requires
        capture_step(before, after, audio_time, target, sent),
        before.index >= target,
    ensures
        sent is None,
        after.offers == before.offers,
        after.polls.len() == before.polls.len() + 1,
        after == before.polled(after.polls.last()),
{
}

/// A capture that the video is one frame behind offers exactly one frame: the captured
/// picture as the next frame. So does the first capture, which is never skipped and never
/// padded.
pub proof fn law_capture_in_time_is_one_frame(
    before: RecordingView,
    after: RecordingView,
    audio_time: Timestamp,
    target: u64,
    sent: Option<u64>,
)
    requires
        capture_step(before, after, audio_time, target, sent),
        target == before.index + 1,
    ensures
        after.offers.len() == before.offers.len() + 1,
        after.offers.last().message == MsgView::Frame(
            FrameView { data: before.buffer, audio_time, index: before.index },
        ),
        sent == sent_index(before.index, after.offers.last().outcome),
        after.index == before.index + (if after.offers.last().outcome is Accepted {
            1int
        } else {
            0
        }),
{
    let outcomes = outcomes_from(after.offers, before.offers.len() as int);
    lemma_sent(before, audio_time, target, outcomes);
    if outcomes.len() > 1 {
        let fewer = outcomes.drop_last();
        assert forall|i: int| 0 <= i < fewer.len() implies (#[trigger] fewer[i]) is Accepted by {
            assert(fewer[i] == outcomes[i]);
        }
        lemma_sent(before, audio_time, target, fewer);
        assert(after.index >= before.index + fewer.len());
        assert(outcomes.last() is Accepted);
        assert(after.index == before.index + outcomes.len());
    }
    assert(outcomes.drop_last() =~= Seq::empty());
    assert(before.sent(audio_time, target, outcomes.drop_last()) == before.taken());
}

/// The indices that captures return increase.
pub proof fn law_returned_indices_increase(
    before1: RecordingView,
    after1: RecordingView,
    audio_time1: Timestamp,
    target1: u64,
    sent1: Option<u64>,
    before2: RecordingView,
    after2: RecordingView,
    audio_time2: Timestamp,
    target2: u64,
    sent2: Option<u64>,
)
    requires
        capture_step(before1, after1, audio_time1, target1, sent1),
        capture_step(before2, after2, audio_time2, target2, sent2),
        after1.index <= before2.index,
        sent1 is Some,
        sent2 is Some,
    ensures
        sent1->0 < sent2->0,
{
}

/// The video never runs ahead of its timeline, and has caught up with it after a capture
/// of which the encoder accepted everything.
pub proof fn law_capture_keeps_to_timeline(
    before: RecordingView,
    after: RecordingView,
    audio_time: Timestamp,
    target: u64,
    sent: Option<u64>,
)
    requires
        capture_step(before, after, audio_time, target, sent),
    ensures
        before.index <= after.index <= later(before.index, target as nat),
        nothing_refused(before, after) ==> after.index == later(before.index, target as nat),
{
    law_capture_extends_video(before, after, audio_time, target, sent);
    if before.index < target {
        let outcomes = outcomes_from(after.offers, before.offers.len() as int);
        if after.index < target {
            assert(after.offers[before.offers.len() + (outcomes.len() - 1)].outcome
                == outcomes.last());
        }
    }
}

/// The larger of two frame counts.
pub open spec fn later(a: nat, b: nat) -> nat {
    if a < b {
        b
    } else {
        a
    }
}

/// The most frames that a series of captures asked for.
pub open spec fn furthest(targets: Seq<u64>) -> nat
    decreases targets.len(),
{
    if targets.len() == 0 {
        0
    } else {
        later(furthest(targets.drop_last()), targets.last() as nat)
    }
}

/// Whether a series of captures was made of one recording, from its first frame on.
/// Between two captures the buffer may be filled.
pub open spec fn series(
    before: Seq<RecordingView>,
    after: Seq<RecordingView>,
    audio_times: Seq<Timestamp>,
    targets: Seq<u64>,
    sent: Seq<Option<u64>>,
) -> bool {
    &&& before.len() == targets.len()
    &&& after.len() == targets.len()
    &&& audio_times.len() == targets.len()
    &&& sent.len() == targets.len()
    &&& targets.len() > 0 ==> before[0].index == 0
    &&& forall|i: int|
        0 <= i < targets.len() ==> capture_step(
            #[trigger] before[i],
            after[i],
            audio_times[i],
            targets[i],
            sent[i],
        )
    &&& forall|i: int|
        0 < i < targets.len() ==> (#[trigger] before[i]).index == after[i - 1].index
}

/// Through a series of captures the video never has more frames than the furthest of them
/// asked for, whatever the encoder accepts; it has exactly as many if the encoder accepts
/// everything.
pub proof fn law_series_never_runs_ahead(
    before: Seq<RecordingView>,
    after: Seq<RecordingView>,
    audio_times: Seq<Timestamp>,
    targets: Seq<u64>,
    sent: Seq<Option<u64>>,
)
    requires
        targets.len() > 0,
        series(before, after, audio_times, targets, sent),
    ensures
        after.last().index <= furthest(targets),
        (forall|i: int| 0 <= i < targets.len() ==> nothing_refused(#[trigger] before[i], after[i]))
            ==> after.last().index == furthest(targets),
    decreases targets.len(),
{
    let last = targets.len() - 1;
    law_capture_keeps_to_timeline(
        before[last],
        after[last],
        audio_times[last],
        targets[last],
        sent[last],
    );
    if last > 0 {
        let b = before.drop_last();
        let a = after.drop_last();
        let u = audio_times.drop_last();
        let g = targets.drop_last();
        let r = sent.drop_last();
        assert(series(b, a, u, g, r)) by {
            assert forall|i: int| 0 <= i < last implies capture_step(
                #[trigger] b[i],
                a[i],
                u[i],
                g[i],
                r[i],
            ) by {
                assert(b[i] == before[i]);
            }
            assert forall|i: int| 0 < i < last implies (#[trigger] b[i]).index == a[i
                - 1].index by {
                assert(b[i] == before[i]);
            }
        }
        law_series_never_runs_ahead(b, a, u, g, r);
        assert(before[last].index == after[last - 1].index);
        assert(a.last() == after[last - 1]);
        if forall|i: int| 0 <= i < targets.len() ==> nothing_refused(#[trigger] before[i], after[i]) {
            assert forall|i: int| 0 <= i < g.len() implies nothing_refused(
                #[trigger] b[i],
                a[i],
            ) by {
                assert(b[i] == before[i]);
            }
        }
    } else {
        assert(furthest(targets.drop_last()) == 0);
    }
}

/// The video duration always matches real time: after a capture that is due as late as any
/// before it, and of which the encoder accepted everything, the video has exactly as many
/// frames as are due, though frames may have been dropped earlier.
pub proof fn law_series_keeps_to_timeline(
    before: Seq<RecordingView>,
    after: Seq<RecordingView>,
    audio_times: Seq<Timestamp>,
    targets: Seq<u64>,
    sent: Seq<Option<u64>>,
)
    requires
        targets.len() > 0,
        series(before, after, audio_times, targets, sent),
        furthest(targets) == targets.last(),
        nothing_refused(before.last(), after.last()),
    ensures
        after.last().index == furthest(targets),
{
    let last = targets.len() - 1;
    law_series_never_runs_ahead(before, after, audio_times, targets, sent);
    law_capture_keeps_to_timeline(
        before[last],
        after[last],
        audio_times[last],
        targets[last],
        sent[last],
    );
}

/// A recording begins without frames: nothing was captured, offered or asked for, and the
/// first frame will be frame zero.
pub proof fn law_recording_begins_empty(
    to: SyncSender<Msg>,
    from: Receiver<Vec<u8>>,
    timestamp: u128,
)
    ensures
        ({
            let view = RecordingView::blank(to, from, timestamp);
            &&& view.index == 0
            &&& view.offers.len() == 0
            &&& view.polls.len() == 0
            &&& view.buffer.len() == 0
            &&& view.last_data is None
            &&& view.first_capture is None
            &&& view.timestamp == timestamp
            &&& view.to == to
            &&& view.from == from
        }),
{
}

/// The picture to capture next is what stands in the buffer.
pub proof fn law_buffer_is_the_picture(recording: Recording)
    ensures
        recording@.buffer == recording.buffer@,
{
}

/// The first capture, and only the first, begins the timeline: it notes its own moment,
/// and is offered once, as frame zero.
pub proof fn law_first_capture_begins_the_timeline(
    before: RecordingView,
    after: RecordingView,
    audio_time: Timestamp,
    real_time: Timestamp,
    sent: Option<u64>,
)
    requires
        before.index == 0,
        capture_step(before.begun(real_time), after, audio_time, 1, sent),
    ensures
        after.first_capture == Some(real_time),
        after.offers.len() == before.offers.len() + 1,
        after.offers.last().message == MsgView::Frame(
            FrameView { data: before.buffer, audio_time, index: 0 },
        ),
        sent == (if after.offers.last().outcome is Accepted {
            Some(0u64)
        } else {
            None
        }),
        after.index == (if after.offers.last().outcome is Accepted {
            1int
        } else {
            0
        }),
        after.timestamp == before.timestamp,
        after.to == before.to,
        after.from == before.from,
{
    law_capture_in_time_is_one_frame(before.begun(real_time), after, audio_time, 1, sent);
    law_capture_extends_video(before.begun(real_time), after, audio_time, 1, sent);
}

/// The video has as many frames as are due: a capture of which the encoder accepts
/// everything brings the video to `due` frames, at least one, if it had fewer, and returns
/// the index of the last of them. If the video has that many already, the capture is
/// skipped. Whatever the encoder accepts, no capture takes the video further.
pub proof fn law_capture_reaches_what_is_due(
    before: RecordingView,
    after: RecordingView,
    audio_time: Timestamp,
    due: u64,
    sent: Option<u64>,
)
    requires
        capture_step(before, after, audio_time, target_of(due), sent),
    ensures
        before.index <= after.index,
        after.index <= before.index || after.index <= due || after.index == 1,
        before.index >= 1 && due <= before.index ==> {
            &&& sent is None
            &&& after.index == before.index
            &&& after.offers == before.offers
        },
        due == 0 && before.index == 0 ==> after.offers.len() == before.offers.len() + 1,
        (forall|i: int|
            before.offers.len() <= i < after.offers.len() ==> (
            #[trigger] after.offers[i]).outcome is Accepted) ==> {
            &&& due > before.index ==> after.index == due && sent == Some((due - 1) as u64)
            &&& due == 0 && before.index == 0 ==> after.index == 1 && sent == Some(0u64)
            &&& due > before.index ==> after.offers.len() - before.offers.len() == due
                - before.index
        },
        sent matches Some(index) ==> after.index == index + 1 && (index + 1 == due || (index == 0
            && due == 0)),
{
    law_capture_keeps_to_timeline(before, after, audio_time, target_of(due), sent);
    if before.index < target_of(due) {
        law_capture_offers_what_is_missing(before, after, audio_time, due, sent);
    }
    if due == 0 && before.index == 0 {
        law_capture_in_time_is_one_frame(before, after, audio_time, target_of(due), sent);
    }
}

proof fn lemma_offered_messages(
    before: RecordingView,
    audio_time: Timestamp,
    target: u64,
    outcomes: Seq<Outcome>,
)
    requires
        before.index < target,
        outcomes.len() > 0,
        forall|i: int| 0 <= i < outcomes.len() - 1 ==> (#[trigger] outcomes[i]) is Accepted,
    ensures
        ({
            let after = before.sent(audio_time, target, outcomes);
            &&& after.index == before.index + outcomes.len() - (if outcomes.last() is Accepted {
                0int
            } else {
                1
            })
            &&& after.buffer == (if outcomes.last() is Full {
                before.picture(before.index + outcomes.len() - 1, target as int)
            } else {
                Seq::empty()
            })
            &&& forall|i: int|
                0 <= i < outcomes.len() ==> (
                #[trigger] after.offers[before.offers.len() + i]).message == MsgView::Frame(
                    FrameView {
                        data: before.picture(before.index + i, target as int),
                        audio_time,
                        index: (before.index + i) as nat,
                    },
                )
        }),
    decreases outcomes.len(),
{
    let after = before.sent(audio_time, target, outcomes);
    let fewer = outcomes.drop_last();
    let earlier = before.sent(audio_time, target, fewer);
    assert forall|i: int| 0 <= i < fewer.len() implies (#[trigger] fewer[i]) is Accepted by {
        assert(fewer[i] == outcomes[i]);
    }
    lemma_sent(before, audio_time, target, fewer);
    if fewer.len() > 0 {
        assert(fewer.last() == fewer[fewer.len() - 1]);
        lemma_offered_messages(before, audio_time, target, fewer);
    }
    assert forall|i: int| 0 <= i < outcomes.len() implies (
    #[trigger] after.offers[before.offers.len() + i]).message == MsgView::Frame(
        FrameView {
            data: before.picture(before.index + i, target as int),
            audio_time,
            index: (before.index + i) as nat,
        },
    ) by {
        if i < fewer.len() {
            assert(after.offers[before.offers.len() + i] == earlier.offers[before.offers.len() + i]);
        }
    }
}

/// What a capture offers to the encoder when the video is behind: the missing frames, in
/// their order and with their numbers, all with the audio position of the capture. The
/// last that is due shows the captured picture; the others show the one captured before,
/// or for want of one the same. It stops at the first that is not accepted.
pub proof fn law_capture_offers_what_is_missing(
    before: RecordingView,
    after: RecordingView,
    audio_time: Timestamp,
    due: u64,
    sent: Option<u64>,
)
    requires
        capture_step(before, after, audio_time, target_of(due), sent),
        before.index < due || before.index == 0,
    ensures
        ({
            let count = after.offers.len() - before.offers.len();
            let goal: int = if due == 0 {
                1
            } else {
                due as int
            };
            &&& 0 < count <= goal - before.index
            &&& forall|i: int|
                0 <= i < before.offers.len() ==> #[trigger] after.offers[i] == before.offers[i]
            &&& forall|i: int|
                0 <= i < count ==> (
                #[trigger] after.offers[before.offers.len() + i]).message == MsgView::Frame(
                    FrameView {
                        data: if before.index + i + 1 == goal || before.last_data is None {
                            before.buffer
                        } else {
                            before.last_data->0
                        },
                        audio_time,
                        index: (before.index + i) as nat,
                    },
                )
            &&& forall|i: int|
                0 <= i < count - 1 ==> (
                #[trigger] after.offers[before.offers.len() + i]).outcome is Accepted
            &&& after.offers.last().outcome is Accepted ==> {
                &&& count == goal - before.index
                &&& after.index == goal
                &&& sent == Some((goal - 1) as u64)
            }
            &&& !(after.offers.last().outcome is Accepted) ==> {
                &&& after.index == before.index + count - 1
                &&& sent is None
            }
        }),
{
    let target = target_of(due);
    let outcomes = outcomes_from(after.offers, before.offers.len() as int);
    let before_poll = before.sent(audio_time, target, outcomes);
    lemma_sent(before, audio_time, target, outcomes);
    lemma_offered_messages(before, audio_time, target, outcomes);
    assert(after.offers == before_poll.offers);
    assert(outcomes.last() == after.offers.last().outcome);
    assert forall|i: int| 0 <= i < before.offers.len() implies #[trigger] after.offers[i]
        == before.offers[i] by {
        assert(after.offers.take(before.offers.len() as int)[i] == before.offers[i]);
    }
    assert forall|i: int| 0 <= i < outcomes.len() - 1 implies (
    #[trigger] after.offers[before.offers.len() + i]).outcome is Accepted by {
        assert(outcomes[i] is Accepted);
    }
}

/// What a capture leaves behind: it asks for a used buffer exactly once. If one comes back,
/// that is the next buffer. Else a frame that did not fit leaves its own, and a capture that
/// was skipped leaves the buffer as it was. The captured picture is kept for the next gap,
/// unless the capture was skipped.
pub proof fn law_capture_leaves_a_buffer(
    before: RecordingView,
    after: RecordingView,
    audio_time: Timestamp,
    due: u64,
    sent: Option<u64>,
)
    requires
        capture_step(before, after, audio_time, target_of(due), sent),
    ensures
        after.polls == before.polls.push(after.polls.last()),
        after.polls.last() matches Some(used) ==> after.buffer == used,
        due <= before.index && before.index > 0 ==> {
            &&& after.last_data == before.last_data
            &&& after.polls.last() is None ==> after.buffer == before.buffer
        },
        due > before.index || before.index == 0 ==> {
            &&& after.last_data == Some(before.buffer)
            &&& after.polls.last() is None ==> match after.offers.last().outcome {
                Outcome::Full => after.offers.last().message matches MsgView::Frame(frame)
                    && after.buffer == frame.data,
                _ => after.buffer.len() == 0,
            }
        },
        after.first_capture == before.first_capture,
        after.timestamp == before.timestamp,
        after.to == before.to,
        after.from == before.from,
{
    let target = target_of(due);
    if before.index < target {
        let outcomes = outcomes_from(after.offers, before.offers.len() as int);
        lemma_sent(before, audio_time, target, outcomes);
        lemma_offered_messages(before, audio_time, target, outcomes);
        let last = outcomes.len() - 1;
        assert(after.offers[before.offers.len() + last] == after.offers.last());
        assert(outcomes.last() == after.offers.last().outcome);
    }
}

/// A frame has an index exactly if the encoder accepted it.
pub proof fn law_accepted_frames_have_an_index(index: u64, outcome: Outcome)
    ensures
        outcome is Accepted ==> sent_index(index as nat, outcome) == Some(index),
        !(outcome is Accepted) ==> sent_index(index as nat, outcome) is None,
{
}

proof fn lemma_furthest(targets: Seq<u64>, bound: u64)
    requires
        forall|i: int| 0 <= i < targets.len() ==> #[trigger] targets[i] <= bound,
    ensures
        furthest(targets) <= bound,
        forall|i: int| 0 <= i < targets.len() ==> #[trigger] targets[i] <= furthest(targets),
    decreases targets.len(),
{
    if targets.len() > 0 {
        let fewer = targets.drop_last();
        assert forall|i: int| 0 <= i < fewer.len() implies #[trigger] fewer[i] <= bound by {
            assert(fewer[i] == targets[i]);
        }
        lemma_furthest(fewer, bound);
        assert forall|i: int| 0 <= i < targets.len() implies #[trigger] targets[i] <= furthest(
            targets,
        ) by {
            if i < fewer.len() {
                assert(fewer[i] == targets[i]);
            }
        }
    }
}

/// The video duration always matches real time: if frames become due in increasing number,
/// as they do in the course of time, then after a capture of which the encoder accepts
/// everything the video has exactly as many frames as are due, whatever was dropped before.
pub proof fn law_video_lasts_as_long_as_real_time(
    before: Seq<RecordingView>,
    after: Seq<RecordingView>,
    audio_times: Seq<Timestamp>,
    dues: Seq<u64>,
    sent: Seq<Option<u64>>,
)
    requires
        dues.len() > 0,
        before.len() == dues.len(),
        after.len() == dues.len(),
        audio_times.len() == dues.len(),
        sent.len() == dues.len(),
        before[0].index == 0,
        forall|i: int|
            0 <= i < dues.len() ==> capture_step(
                #[trigger] before[i],
                after[i],
                audio_times[i],
                target_of(dues[i]),
                sent[i],
            ),
        forall|i: int|
            0 < i < dues.len() ==> (#[trigger] before[i]).index == after[i - 1].index,
        forall|i: int| 0 <= i < dues.len() ==> #[trigger] dues[i] <= dues.last(),
        dues.last() >= 1,
        forall|i: int|
            before.last().offers.len() <= i < after.last().offers.len() ==> (
            #[trigger] after.last().offers[i]).outcome is Accepted,
    ensures
        after.last().index == dues.last(),
{
    let targets = Seq::new(dues.len(), |i: int| target_of(dues[i]));
    assert(series(before, after, audio_times, targets, sent)) by {
        assert forall|i: int| 0 <= i < targets.len() implies capture_step(
            #[trigger] before[i],
            after[i],
            audio_times[i],
            targets[i],
            sent[i],
        ) by {}
    }
    assert forall|i: int| 0 <= i < targets.len() implies #[trigger] targets[i] <= dues.last() by {
        assert(dues[i] <= dues.last());
    }
    lemma_furthest(targets, dues.last());
    assert(targets.last() == targets[targets.len() - 1]);
    assert(targets.last() == dues.last());
    law_series_keeps_to_timeline(before, after, audio_times, targets, sent);
}

/// After the timeline has begun, `capture_frame` brings the video to as many frames as
/// `frames_between` counts from the first capture to this one, if it had fewer and the
/// encoder accepts everything, and returns the index of the last; if the video has that
/// many, it returns nothing. The first capture stays the beginning.
pub proof fn law_capture_frame_keeps_to_real_time<F: Fn(Timestamp, Timestamp) -> u64>(
    recording: &mut Recording,
    audio_time: Timestamp,
    real_time: Timestamp,
    frames_between: F,
    sent: Option<u64>,
    first: Timestamp,
    due: u64,
)
    requires
        call_ensures(
            Recording::capture_frame::<F>,
            (recording, audio_time, real_time, frames_between),
            sent,
        ),
        old(recording)@.first_capture == Some(first),
        forall|count: u64|
            call_ensures(frames_between, (first, real_time), count) ==> count == due,
        due >= 1,
        forall|i: int|
            old(recording)@.offers.len() <= i < final(recording)@.offers.len() ==> (
            #[trigger] final(recording)@.offers[i]).outcome is Accepted,
    ensures
        final(recording)@.first_capture == Some(first),
        due > old(recording)@.index ==> {
            &&& final(recording)@.index == due
            &&& sent == Some((due - 1) as u64)
        },
        due <= old(recording)@.index ==> {
            &&& final(recording)@.index == old(recording)@.index
            &&& final(recording)@.offers == old(recording)@.offers
            &&& sent is None
        },
{
    let before = old(recording)@;
    let after = final(recording)@;
    let count = choose|count: u64|
        call_ensures(frames_between, (first, real_time), count) && #[trigger] capture_step(
            before,
            after,
            audio_time,
            target_of(count),
            sent,
        );
    law_capture_reaches_what_is_due(before, after, audio_time, count, sent);
    law_capture_leaves_a_buffer(before, after, audio_time, count, sent);
}

/// `capture_at` brings the video to `due` frames, if it had fewer and the encoder accepts
/// everything: every frame that was missing, in its order, the last with the picture that
/// stood in the buffer.
pub proof fn law_capture_at_adds_what_is_due(
    recording: &mut Recording,
    audio_time: Timestamp,
    due: u64,
    sent: Option<u64>,
)
    requires
        call_ensures(Recording::capture_at, (recording, audio_time, due), sent),
        due > old(recording)@.index,
        forall|i: int|
            old(recording)@.offers.len() <= i < final(recording)@.offers.len() ==> (
            #[trigger] final(recording)@.offers[i]).outcome is Accepted,
    ensures
        sent == Some((due - 1) as u64),
        final(recording)@.index == due,
        final(recording)@.offers.len() == old(recording)@.offers.len() + due
            - old(recording)@.index,
        final(recording)@.offers.last().message == MsgView::Frame(
            FrameView {
                data: old(recording).buffer@,
                audio_time,
                index: (due - 1) as nat,
            },
        ),
        forall|i: int|
            old(recording)@.offers.len() <= i < final(recording)@.offers.len() ==> {
                &&& (#[trigger] final(recording)@.offers[i]).message is Frame
                &&& final(recording)@.offers[i].message->0.index == old(recording)@.index + i
                    - old(recording)@.offers.len()
                &&& final(recording)@.offers[i].message->0.audio_time == audio_time
            },
{
    let before = old(recording)@;
    let after = final(recording)@;
    law_buffer_is_the_picture(*old(recording));
    law_capture_reaches_what_is_due(before, after, audio_time, due, sent);
    law_capture_offers_what_is_missing(before, after, audio_time, due, sent);
    let count = after.offers.len() - before.offers.len();
    assert(after.offers[before.offers.len() + (count - 1)] == after.offers.last());
    assert forall|i: int| before.offers.len() <= i < after.offers.len() implies {
        &&& (#[trigger] after.offers[i]).message is Frame
        &&& after.offers[i].message->0.index == before.index + i - before.offers.len()
        &&& after.offers[i].message->0.audio_time == audio_time
    } by {
        assert(after.offers[before.offers.len() + (i - before.offers.len())] == after.offers[i]);
    }
}

/// A recording keeps the timestamp that it was started with.
pub proof fn law_timestamp_is_kept(
    tx: SyncSender<Msg>,
    return_rx: Receiver<Vec<u8>>,
    timestamp: u128,
    recording: Recording,
    told: u128,
)
    requires
        call_ensures(Recording::start, (tx, return_rx, timestamp), recording),
        call_ensures(Recording::timestamp, (&recording,), told),
    ensures
        told == timestamp,
        recording@.index == 0,
        recording@.first_capture is None,
        recording@.offers.len() == 0,
{
    law_recording_begins_empty(tx, return_rx, timestamp);
}

/// The first call of `capture_frame` begins the timeline at its moment, and offers the
/// picture in the buffer once, as frame zero.
pub proof fn law_first_capture_frame<F: Fn(Timestamp, Timestamp) -> u64>(
    recording: &mut Recording,
    audio_time: Timestamp,
    real_time: Timestamp,
    frames_between: F,
    sent: Option<u64>,
)
    requires
        call_ensures(
            Recording::capture_frame::<F>,
            (recording, audio_time, real_time, frames_between),
            sent,
        ),
        old(recording)@.first_capture is None,
        old(recording)@.index == 0,
    ensures
        final(recording)@.first_capture == Some(real_time),
        final(recording)@.offers.len() == old(recording)@.offers.len() + 1,
        final(recording)@.offers.last().message == MsgView::Frame(
            FrameView { data: old(recording).buffer@, audio_time, index: 0 },
        ),
        final(recording)@.offers.last().outcome is Accepted ==> sent == Some(0u64),
        !(final(recording)@.offers.last().outcome is Accepted) ==> sent is None,
{
    law_first_capture_begins_the_timeline(
        old(recording)@,
        final(recording)@,
        audio_time,
        real_time,
        sent,
    );
}

} // verus!
