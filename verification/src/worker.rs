//! The thread that feeds the encoder and writes the list of audio positions.
//!
//! The worker decides what is done next; its driver does it and reports how it went.

use crate::channel::Msg;
use crate::text::push_decimal;
use crate::timestamp::Timestamp;
use vstd::prelude::*;

verus! {

/// Why a worker gave up.
#[derive(Clone, Copy, Debug, PartialEq, Eq, Structural)]
pub enum WorkerError {
    CreateSidecar,
    WriteHeader,
    WriteSidecar,
}

/// What the driver of a worker does next.
#[derive(Debug, PartialEq, Eq)]
pub enum Action {
    /// Create the sidecar file.
    CreateSidecar,
    /// Write the header of the sidecar.
    WriteHeader,
    /// Wait for the next message.
    Receive,
    /// Write the pixels of the frame to the encoder.
    WriteVideo,
    /// Write the line of a frame into the sidecar.
    WriteSidecar { index: u64, audio_time: Timestamp },
    /// Flush the sidecar.
    Flush,
    /// Give the buffer of the frame back.
    ReturnBuffer(Vec<u8>),
    /// Close the encoder's input and return.
    Stop(Result<(), WorkerError>),
}

/// How an action went.
#[derive(Debug, PartialEq, Eq)]
pub enum Event {
    Done,
    Failed,
    /// The message that came; `None` if no more will come.
    Received(Option<Msg>),
}

/// What a worker waits for: the outcome of one action.
pub enum Stage {
    Creating,
    Heading,
    Receiving,
    Encoding { data: Vec<u8>, audio_time: Timestamp, index: u64 },
    Noting { data: Vec<u8> },
    Flushing { data: Vec<u8> },
    Returning,
    Stopped,
}

/// Whether `event` is an outcome of the action that a worker at `stage` waits for.
pub open spec fn answers(stage: Stage, event: Event) -> bool {
    match stage {
        Stage::Stopped => false,
        Stage::Receiving => event is Received,
        _ => !(event is Received),
    }
}

/// What a worker at `stage` does about `event`: its next stage and its next action.
pub open spec fn reaction(stage: Stage, event: Event) -> (Stage, Action) {
    match (stage, event) {
        (Stage::Creating, Event::Failed) => (
            Stage::Stopped,
            Action::Stop(Err(WorkerError::CreateSidecar)),
        ),
        (Stage::Creating, _) => (Stage::Heading, Action::WriteHeader),
        (Stage::Heading, Event::Failed) => (
            Stage::Stopped,
            Action::Stop(Err(WorkerError::WriteHeader)),
        ),
        (Stage::Heading, _) => (Stage::Receiving, Action::Receive),
        (
            Stage::Receiving,
            Event::Received(Some(Msg::Frame { data, audio_time, index })),
        ) => (Stage::Encoding { data, audio_time, index }, Action::WriteVideo),
        // The recording has ended, or was dropped.
        (Stage::Receiving, _) => (Stage::Stopped, Action::Stop(Ok(()))),
        // The encoder is gone: that is no error of the recording.
        (Stage::Encoding { .. }, Event::Failed) => (Stage::Stopped, Action::Stop(Ok(()))),
        (Stage::Encoding { data, audio_time, index }, _) => (
            Stage::Noting { data },
            Action::WriteSidecar { index, audio_time },
        ),
        (Stage::Noting { .. }, Event::Failed) => (
            Stage::Stopped,
            Action::Stop(Err(WorkerError::WriteSidecar)),
        ),
        (Stage::Noting { data }, _) => (Stage::Flushing { data }, Action::Flush),
        // A flush that fails is tried again with the next frame.
        (Stage::Flushing { data }, _) => (Stage::Returning, Action::ReturnBuffer(data)),
        // Nobody may be left to take the buffer.
        (Stage::Returning, _) => (Stage::Receiving, Action::Receive),
        (Stage::Stopped, _) => (Stage::Stopped, Action::Stop(Ok(()))),
    }
}

/// A worker between two actions.
pub struct Worker {
    stage: Stage,
}

impl Worker {
    pub closed spec fn at(self) -> Stage {
        self.stage
    }

    /// A worker and its first action.
    pub fn start() -> (begun: (Worker, Action))
        ensures
            begun.0.at() == Stage::Creating,
            begun.1 == Action::CreateSidecar,
    {
        (Worker { stage: Stage::Creating }, Action::CreateSidecar)
    }

    /// The pixels of the frame that is being encoded.
    pub fn pixels(&self) -> (pixels: Option<&Vec<u8>>)
        ensures
            pixels == (match self.at() {
                Stage::Encoding { data, .. } => Some(&data),
                _ => None,
            }),
    {
        match &self.stage {
            Stage::Encoding { data, .. } => Some(data),
            _ => None,
        }
    }

    /// Take note of how the last action went, and choose the next one.
    pub fn next(self, event: Event) -> (chosen: (Worker, Action))
        requires
            answers(self.at(), event),
        ensures
            (chosen.0.at(), chosen.1) == reaction(self.at(), event),
    {
        let (stage, action) = match self.stage {
            Stage::Creating => match event {
                Event::Failed => (
                    Stage::Stopped,
                    Action::Stop(Err(WorkerError::CreateSidecar)),
                ),
                _ => (Stage::Heading, Action::WriteHeader),
            },
            Stage::Heading => match event {
                Event::Failed => (Stage::Stopped, Action::Stop(Err(WorkerError::WriteHeader))),
                _ => (Stage::Receiving, Action::Receive),
            },
            Stage::Receiving => match event {
                Event::Received(Some(Msg::Frame { data, audio_time, index })) => (
                    Stage::Encoding { data, audio_time, index },
                    Action::WriteVideo,
                ),
                _ => (Stage::Stopped, Action::Stop(Ok(()))),
            },
            Stage::Encoding { data, audio_time, index } => match event {
                Event::Failed => (Stage::Stopped, Action::Stop(Ok(()))),
                _ => (Stage::Noting { data }, Action::WriteSidecar { index, audio_time }),
            },
            Stage::Noting { data } => match event {
                Event::Failed => (Stage::Stopped, Action::Stop(Err(WorkerError::WriteSidecar))),
                _ => (Stage::Flushing { data }, Action::Flush),
            },
            Stage::Flushing { data } => (Stage::Returning, Action::ReturnBuffer(data)),
            Stage::Returning => (Stage::Receiving, Action::Receive),
            Stage::Stopped => (Stage::Stopped, Action::Stop(Ok(()))),
        };
        (Worker { stage }, action)
    }
}

/// The line of a frame in the sidecar.
pub open spec fn sidecar_text(index: u64, audio_position: Seq<char>) -> Seq<char> {
    crate::text::decimal(index as nat) + ","@ + audio_position + "\n"@
}

/// The header of the sidecar, with its line end.
pub fn sidecar_header() -> (header: &'static str)
    ensures
        header@ == "frame,audio_position\n"@,
{
    "frame,audio_position\n"
}

/// The line of a frame in the sidecar, with its line end: the index of the frame and
/// its audio position, as the caller writes it.
pub fn sidecar_line(index: u64, audio_position: &str) -> (line: String)
    ensures
        line@ == sidecar_text(index, audio_position@),
{
    let mut line: String = String::new();
    push_decimal(&mut line, index as u128);
    line.append(",");
    line.append(audio_position);
    line.append("\n");
    assert(line@ =~= sidecar_text(index, audio_position@));
    line
}

/// The stage of a worker after some events.
pub open spec fn stage_after(events: Seq<Event>) -> Stage
    decreases events.len(),
{
    if events.len() == 0 {
        Stage::Creating
    } else {
        reaction(stage_after(events.drop_last()), events.last()).0
    }
}

/// Whether each event is an outcome of the action that the worker waited for.
pub open spec fn legal(events: Seq<Event>) -> bool
    decreases events.len(),
{
    events.len() == 0 || (legal(events.drop_last()) && answers(
        stage_after(events.drop_last()),
        events.last(),
    ))
}

/// The frames that came in, by index and audio position.
pub open spec fn received(events: Seq<Event>) -> Seq<(u64, Timestamp)>
    decreases events.len(),
{
    if events.len() == 0 {
        Seq::empty()
    } else {
        match events.last() {
            Event::Received(Some(Msg::Frame { audio_time, index, .. })) => received(
                events.drop_last(),
            ).push((index, audio_time)),
            _ => received(events.drop_last()),
        }
    }
}

/// The frames whose line was to be written into the sidecar.
pub open spec fn noted(events: Seq<Event>) -> Seq<(u64, Timestamp)>
    decreases events.len(),
{
    if events.len() == 0 {
        Seq::empty()
    } else {
        match reaction(stage_after(events.drop_last()), events.last()).1 {
            Action::WriteSidecar { index, audio_time } => noted(events.drop_last()).push(
                (index, audio_time),
            ),
            _ => noted(events.drop_last()),
        }
    }
}

/// The pixels of the frames that came in.
pub open spec fn received_pixels(events: Seq<Event>) -> Seq<Seq<u8>>
    decreases events.len(),
{
    if events.len() == 0 {
        Seq::empty()
    } else {
        match events.last() {
            Event::Received(Some(Msg::Frame { data, .. })) => received_pixels(
                events.drop_last(),
            ).push(data@),
            _ => received_pixels(events.drop_last()),
        }
    }
}

/// The pixels that were written to the encoder.
pub open spec fn encoded(events: Seq<Event>) -> Seq<Seq<u8>>
    decreases events.len(),
{
    if events.len() == 0 {
        Seq::empty()
    } else {
        match (stage_after(events.drop_last()), events.last()) {
            (Stage::Encoding { data, .. }, Event::Done) => encoded(events.drop_last()).push(data@),
            _ => encoded(events.drop_last()),
        }
    }
}

/// The buffers that were to be given back.
pub open spec fn given_back(events: Seq<Event>) -> Seq<Seq<u8>>
    decreases events.len(),
{
    if events.len() == 0 {
        Seq::empty()
    } else {
        match reaction(stage_after(events.drop_last()), events.last()).1 {
            Action::ReturnBuffer(data) => given_back(events.drop_last()).push(data@),
            _ => given_back(events.drop_last()),
        }
    }
}

/// A frame is given to the encoder, then listed in the sidecar, then its buffer is given
/// back, and the worker waits for the next one. Neither a flush that fails nor a buffer
/// that nobody takes stops it.
pub proof fn law_frame_goes_through(
    data: Vec<u8>,
    audio_time: Timestamp,
    index: u64,
    flush: Event,
    give: Event,
)
    ensures
        reaction(
            Stage::Receiving,
            Event::Received(Some(Msg::Frame { data, audio_time, index })),
        ) == (Stage::Encoding { data, audio_time, index }, Action::WriteVideo),
        reaction(Stage::Encoding { data, audio_time, index }, Event::Done) == (
            Stage::Noting { data },
            Action::WriteSidecar { index, audio_time },
        ),
        reaction(Stage::Noting { data }, Event::Done) == (
            Stage::Flushing { data },
            Action::Flush,
        ),
        reaction(Stage::Flushing { data }, flush) == (
            Stage::Returning,
            Action::ReturnBuffer(data),
        ),
        reaction(Stage::Returning, give) == (Stage::Receiving, Action::Receive),
{
}

/// The sidecar lists the frames that came in, in their order and without gaps; when the
/// worker waits for another frame, it lists all of them.
pub proof fn law_sidecar_lists_frames(events: Seq<Event>)
    requires
        legal(events),
    ensures
        noted(events).len() <= received(events).len(),
        noted(events) == received(events).take(noted(events).len() as int),
        stage_after(events) is Receiving ==> noted(events) == received(events),
        stage_after(events) matches Stage::Encoding { data, audio_time, index } ==> received(events)
            == noted(events).push((index, audio_time)),
        stage_after(events) is Noting || stage_after(events) is Flushing || stage_after(
            events,
        ) is Returning ==> noted(events) == received(events),
        stage_after(events) is Creating || stage_after(events) is Heading ==> received(
            events,
        ).len() == 0,
    decreases events.len(),
{
    if events.len() > 0 {
        law_sidecar_lists_frames(events.drop_last());
    }
    assert(noted(events) =~= received(events).take(noted(events).len() as int));
}

/// If the frames come in numbered from zero without gaps, line `i` of the sidecar is
/// that of frame `i`.
pub proof fn law_sidecar_is_numbered(events: Seq<Event>)
    requires
        legal(events),
        forall|i: int| 0 <= i < received(events).len() ==> (#[trigger] received(events)[i]).0 == i,
    ensures
        forall|i: int| 0 <= i < noted(events).len() ==> (#[trigger] noted(events)[i]).0 == i,
{
    law_sidecar_lists_frames(events);
    assert forall|i: int| 0 <= i < noted(events).len() implies (#[trigger] noted(events)[i]).0
        == i by {
        assert(noted(events)[i] == received(events)[i]);
    }
}

/// The encoder gets the pixels of the frames that came in, in their order, each once, and
/// the same buffers are given back; when the worker waits for another frame, all of them
/// were written and given back.
pub proof fn law_pixels_go_through(events: Seq<Event>)
    requires
        legal(events),
    ensures
        given_back(events).len() <= encoded(events).len() <= received_pixels(events).len(),
        encoded(events) == received_pixels(events).take(encoded(events).len() as int),
        given_back(events) == received_pixels(events).take(given_back(events).len() as int),
        received_pixels(events).len() == received(events).len(),
        encoded(events).len() == noted(events).len(),
        stage_after(events) is Receiving || stage_after(events) is Returning ==> encoded(events)
            == received_pixels(events) && given_back(events) == received_pixels(events),
        stage_after(events) matches Stage::Encoding { data, audio_time, index } ==> {
            &&& received_pixels(events) == encoded(events).push(data@)
            &&& given_back(events) == encoded(events)
        },
        stage_after(events) matches Stage::Noting { data } ==> {
            &&& encoded(events) == received_pixels(events)
            &&& encoded(events) == given_back(events).push(data@)
        },
        stage_after(events) matches Stage::Flushing { data } ==> {
            &&& encoded(events) == received_pixels(events)
            &&& encoded(events) == given_back(events).push(data@)
        },
        stage_after(events) is Creating || stage_after(events) is Heading ==> received_pixels(
            events,
        ).len() == 0,
    decreases events.len(),
{
    if events.len() > 0 {
        law_pixels_go_through(events.drop_last());
    }
    assert(encoded(events) =~= received_pixels(events).take(encoded(events).len() as int));
    assert(given_back(events) =~= received_pixels(events).take(given_back(events).len() as int));
}

/// The encoder gets the pictures of the video: if the frames come in as a recording put
/// them into the queue, which is what a channel does, picture `i` of the encoder is that of
/// frame `i`.
pub proof fn law_encoder_gets_the_video(view: crate::recording::RecordingView, events: Seq<Event>)
    requires
        legal(events),
        received_pixels(events).len() <= crate::recording::video(view.offers).len(),
        forall|i: int|
            0 <= i < received_pixels(events).len() ==> #[trigger] received_pixels(events)[i]
                == crate::recording::video(view.offers)[i].data,
    ensures
        forall|i: int|
            0 <= i < encoded(events).len() ==> #[trigger] encoded(events)[i]
                == crate::recording::video(view.offers)[i].data,
{
    law_pixels_go_through(events);
    assert forall|i: int| 0 <= i < encoded(events).len() implies #[trigger] encoded(events)[i]
        == crate::recording::video(view.offers)[i].data by {
        assert(encoded(events)[i] == received_pixels(events)[i]);
    }
}

/// The sidecar tells the audio position of every frame of the video: if the frames come in
/// as a numbered recording put them into the queue, which is what a channel does, line `i`
/// of the sidecar tells the audio position of frame `i`.
pub proof fn law_sidecar_matches_video(view: crate::recording::RecordingView, events: Seq<Event>)
    requires
        crate::recording::numbered(view),
        view.index <= u64::MAX,
        legal(events),
        received(events).len() <= crate::recording::video(view.offers).len(),
        forall|i: int|
            0 <= i < received(events).len() ==> {
                let frame = crate::recording::video(view.offers)[i];
                #[trigger] received(events)[i] == (frame.index as u64, frame.audio_time)
            },
    ensures
        forall|i: int|
            0 <= i < noted(events).len() ==> #[trigger] noted(events)[i] == (
                i as u64,
                crate::recording::video(view.offers)[i].audio_time,
            ),
{
    law_sidecar_lists_frames(events);
    assert forall|i: int| 0 <= i < noted(events).len() implies #[trigger] noted(events)[i] == (
        i as u64,
        crate::recording::video(view.offers)[i].audio_time,
    ) by {
        assert(noted(events)[i] == received(events)[i]);
        assert(crate::recording::video(view.offers)[i].index == i);
    }
}

/// A line of the sidecar can be read back: what stands before its first comma is the
/// index of the frame, what stands behind it is the audio position.
pub proof fn law_sidecar_line_reads_back(index: u64, audio_position: Seq<char>, comma: int)
    requires
        0 <= comma < sidecar_text(index, audio_position).len(),
        sidecar_text(index, audio_position)[comma] == ',',
        forall|i: int| 0 <= i < comma ==> #[trigger] sidecar_text(index, audio_position)[i] != ',',
    ensures
        crate::text::number(sidecar_text(index, audio_position).take(comma)) == index,
        sidecar_text(index, audio_position).skip(comma + 1) == audio_position.push('\n'),
{
    let line = sidecar_text(index, audio_position);
    let digits = crate::text::decimal(index as nat);
    crate::text::law_decimal_reads_back(index as nat);
    reveal_strlit(",");
    reveal_strlit("\n");
    assert(line[digits.len() as int] == ',');
    assert(comma == digits.len()) by {
        if comma < digits.len() {
            assert(line[comma] == digits[comma]);
        }
    }
    assert(line.take(comma) =~= digits);
    assert(line.skip(comma + 1) =~= audio_position.push('\n'));
}

/// A worker creates the sidecar, writes its header and then waits for frames. It ends well
/// at the end of the recording, when the recording is gone, and when the encoder is gone.
/// Each step of the sidecar that fails ends it with the error of that step.
pub proof fn law_worker_starts_and_stops(data: Vec<u8>, audio_time: Timestamp, index: u64)
    ensures
        reaction(Stage::Creating, Event::Done) == (Stage::Heading, Action::WriteHeader),
        reaction(Stage::Heading, Event::Done) == (Stage::Receiving, Action::Receive),
        reaction(Stage::Receiving, Event::Received(Some(Msg::End))) == (
            Stage::Stopped,
            Action::Stop(Ok(())),
        ),
        reaction(Stage::Receiving, Event::Received(None)) == (
            Stage::Stopped,
            Action::Stop(Ok(())),
        ),
        reaction(Stage::Encoding { data, audio_time, index }, Event::Failed) == (
            Stage::Stopped,
            Action::Stop(Ok(())),
        ),
        reaction(Stage::Creating, Event::Failed) == (
            Stage::Stopped,
            Action::Stop(Err(WorkerError::CreateSidecar)),
        ),
        reaction(Stage::Heading, Event::Failed) == (
            Stage::Stopped,
            Action::Stop(Err(WorkerError::WriteHeader)),
        ),
        reaction(Stage::Noting { data }, Event::Failed) == (
            Stage::Stopped,
            Action::Stop(Err(WorkerError::WriteSidecar)),
        ),
{
}

/// Every action but waiting for a message is answered by whether it was done; waiting is
/// answered by what came; a worker that has stopped is not answered.
pub proof fn law_every_action_is_answered(stage: Stage, event: Event)
    ensures
        stage is Stopped ==> !answers(stage, event),
        stage is Receiving ==> (answers(stage, event) <==> event is Received),
        !(stage is Stopped || stage is Receiving) ==> (answers(stage, event) <==> event is Done
            || event is Failed),
{
}

/// A line of the sidecar is the index of its frame in decimal notation, a comma, the audio
/// position and the end of the line.
pub proof fn law_sidecar_line_has_two_fields(index: u64, audio_position: Seq<char>)
    ensures
        ({
            let line = sidecar_text(index, audio_position);
            exists|comma: int|
                0 < comma < line.len() - 1 && #[trigger] line[comma] == ',' && line.take(comma)
                    == crate::text::decimal(index as nat) && crate::text::number(line.take(comma))
                    == index && line.subrange(comma + 1, line.len() - 1) == audio_position
                    && forall|i: int|
                    0 <= i < comma ==> '0' <= #[trigger] line[i] <= '9'
        }),
        sidecar_text(index, audio_position).last() == '\n',
{
    let line = sidecar_text(index, audio_position);
    let digits = crate::text::decimal(index as nat);
    let comma = digits.len() as int;
    crate::text::law_decimal_reads_back(index as nat);
    reveal_strlit(",");
    reveal_strlit("\n");
    assert(line[comma] == ',');
    assert(line.take(comma) =~= digits);
    assert(line.subrange(comma + 1, line.len() - 1) =~= audio_position);
    assert forall|i: int| 0 <= i < comma implies '0' <= #[trigger] line[i] <= '9' by {
        assert(line[i] == digits[i]);
    }
}

} // verus!
