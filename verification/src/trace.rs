//! Theoretical ("ghost") finger trace recording.
//!
//! For every recorded video frame the trace lists the virtual fingers that a perfect
//! player would need, and every finger that went down or up. It is derived from the
//! chart itself, not from real input: a note puts a finger down when it starts, a hold
//! keeps that finger down until it ends, and other notes are tapped briefly.

use crate::spans::{build_spans, ChartNote, NoteSpan};
use crate::timestamp::Timestamp;
use std::collections::BTreeMap;
use vstd::prelude::*;

verus! {

/// The magnitude (all bits but the sign) of an infinite binary32 number.
pub const INFINITE_COORDINATE: u32 = 0x7f80_0000;

/// The weight of the sign bit of a binary32 number.
pub const SIGN_OF_COORDINATE: u32 = 0x8000_0000;

/// A point on the normalised screen: the bit patterns of two binary32 numbers, as
/// `f32::to_bits` gives them.
#[derive(Clone, Copy, Debug, PartialEq, Eq, Structural)]
pub struct Position {
    pub x: u32,
    pub y: u32,
}

/// Whether a binary32 pattern is neither infinite nor not-a-number.
pub open spec fn finite_coordinate(bits: u32) -> bool {
    bits % SIGN_OF_COORDINATE < INFINITE_COORDINATE
}

impl Position {
    pub open spec fn finite(self) -> bool {
        finite_coordinate(self.x) && finite_coordinate(self.y)
    }

    /// Whether both coordinates are finite.
    pub fn is_finite(self) -> (answer: bool)
        ensures
            answer == self.finite(),
    {
        self.x % SIGN_OF_COORDINATE < INFINITE_COORDINATE && self.y % SIGN_OF_COORDINATE
            < INFINITE_COORDINATE
    }
}

/// A finger that is down on a frame.
#[derive(Clone, Copy, Debug, PartialEq, Eq, Structural)]
pub struct Finger {
    pub id: u64,
    pub at: Position,
}

/// What happened to a finger.
#[derive(Clone, Copy, Debug, PartialEq, Eq, Structural)]
pub enum Phase {
    Down,
    Up,
}

impl Phase {
    /// The word for the phase in the trace.
    pub fn word(self) -> (word: &'static str)
        ensures
            word@ == (match self {
                Phase::Down => "down"@,
                Phase::Up => "up"@,
            }),
    {
        match self {
            Phase::Down => "down",
            Phase::Up => "up",
        }
    }
}

/// A finger that went down, or up, since the frame before. A finger goes up where it was
/// last seen.
#[derive(Clone, Copy, Debug, PartialEq, Eq, Structural)]
pub struct FingerEvent {
    pub id: u64,
    pub phase: Phase,
    pub at: Position,
}

/// One line of the trace.
#[derive(Debug)]
pub struct Frame {
    /// The audio playback position.
    pub t: Timestamp,
    /// The index of the video frame.
    pub frame: i64,
    pub fingers: Vec<Finger>,
    pub events: Vec<FingerEvent>,
}

/// Where a note stands in the chart.
#[derive(Clone, Copy, Debug, PartialEq, Eq, Structural)]
pub struct NoteRef {
    pub line: usize,
    pub note: usize,
}

/// The first span from `next` on that has not started at `t`.
pub open spec fn cursor_after(spans: Seq<NoteSpan>, next: int, t: Timestamp) -> int
    decreases spans.len() - next,
{
    if 0 <= next < spans.len() && spans[next].start.at_most(t) {
        cursor_after(spans, next + 1, t)
    } else {
        next
    }
}

/// The indices from `lo` up to `hi`.
pub open spec fn index_range(lo: int, hi: int) -> Seq<usize> {
    Seq::new((hi - lo) as nat, |i: int| (lo + i) as usize)
}

/// Whether the indices ascend and all lie below `bound`.
pub open spec fn ascending_below(indices: Seq<usize>, bound: int) -> bool {
    &&& forall|i: int| 0 <= i < indices.len() ==> #[trigger] indices[i] < bound
    &&& forall|i: int, j: int| 0 <= i < j < indices.len() ==> indices[i] < indices[j]
}

/// Whether a span has not ended at `t`.
pub open spec fn not_over(spans: Seq<NoteSpan>, t: Timestamp) -> spec_fn(usize) -> bool {
    |i: usize| t.at_most(spans[i as int].end)
}

/// The spans that hold a finger down at `t`: those that did before and those that
/// have started since, without those that are over.
pub open spec fn active_after(
    spans: Seq<NoteSpan>,
    next: int,
    active: Seq<usize>,
    t: Timestamp,
) -> Seq<usize> {
    (active + index_range(next, cursor_after(spans, next, t))).filter(not_over(spans, t))
}

/// The fingers that are down, by id: one for each active span whose position is finite.
pub open spec fn located(
    spans: Seq<NoteSpan>,
    active: Seq<usize>,
    positions: Seq<Position>,
) -> Map<u64, Position>
    decreases active.len(),
{
    if active.len() == 0 {
        Map::empty()
    } else {
        let rest = located(spans, active.drop_last(), positions.drop_last());
        if positions.last().finite() {
            rest.insert(spans[active.last() as int].id, positions.last())
        } else {
            rest
        }
    }
}

/// Whether `fingers` lists the fingers of `down`, each once, in the order of their ids.
pub open spec fn lists_fingers(fingers: Seq<Finger>, down: Map<u64, Position>) -> bool {
    &&& forall|i: int, j: int| 0 <= i < j < fingers.len() ==> fingers[i].id < fingers[j].id
    &&& forall|i: int|
        0 <= i < fingers.len() ==> down.contains_key((#[trigger] fingers[i]).id)
            && down[fingers[i].id] == fingers[i].at
    &&& forall|id: u64| #[trigger]
        down.contains_key(id) ==> fingers.contains(Finger { id, at: down[id] })
}

/// Whether `event` tells what happened to a finger between two frames.
pub open spec fn tells_change(
    event: FingerEvent,
    before: Map<u64, Position>,
    after: Map<u64, Position>,
) -> bool {
    match event.phase {
        Phase::Up => before.contains_key(event.id) && !after.contains_key(event.id)
            && before[event.id] == event.at,
        Phase::Down => after.contains_key(event.id) && !before.contains_key(event.id)
            && after[event.id] == event.at,
    }
}

/// Whether `a` is listed before `b`: what went up before what went down, then by id.
pub open spec fn event_before(a: FingerEvent, b: FingerEvent) -> bool {
    if a.phase == b.phase {
        a.id < b.id
    } else {
        a.phase is Up
    }
}

/// Whether `events` lists every finger that went up or down between two frames, each once.
pub open spec fn lists_changes(
    events: Seq<FingerEvent>,
    before: Map<u64, Position>,
    after: Map<u64, Position>,
) -> bool {
    &&& forall|i: int, j: int| 0 <= i < j < events.len() ==> event_before(events[i], events[j])
    &&& forall|i: int|
        0 <= i < events.len() ==> tells_change(#[trigger] events[i], before, after)
    &&& forall|event: FingerEvent| #[trigger]
        tells_change(event, before, after) ==> events.contains(event)
}

/// The spans that fell between two frames: those that have started since the earlier one,
/// from `recorded` up to `next`, and are not active any more.
pub open spec fn passed_over(recorded: int, next: int, active: Seq<usize>) -> Seq<usize> {
    index_range(recorded, next).filter(inactive(active))
}

/// Whether a span is not among the active ones.
pub open spec fn inactive(active: Seq<usize>) -> spec_fn(usize) -> bool {
    |i: usize| !active.contains(i)
}

/// The events of fingers that went down and up between two frames: for each span whose
/// position is finite, down and then up.
pub open spec fn tap_events(
    spans: Seq<NoteSpan>,
    passed: Seq<usize>,
    positions: Seq<Position>,
) -> Seq<FingerEvent>
    decreases passed.len(),
{
    if passed.len() == 0 {
        Seq::empty()
    } else {
        let earlier = tap_events(spans, passed.drop_last(), positions.drop_last());
        let id = spans[passed.last() as int].id;
        let at = positions.last();
        if at.finite() {
            earlier.push(FingerEvent { id, phase: Phase::Down, at }).push(
                FingerEvent { id, phase: Phase::Up, at },
            )
        } else {
            earlier
        }
    }
}

/// Whether `events` lists every finger that changed from one frame to the next, and then
/// `taps`, what happened in between.
pub open spec fn lists_events(
    events: Seq<FingerEvent>,
    before: Map<u64, Position>,
    after: Map<u64, Position>,
    taps: Seq<FingerEvent>,
) -> bool {
    let changes = events.len() - taps.len();
    &&& changes >= 0
    &&& lists_changes(events.take(changes), before, after)
    &&& events.skip(changes) == taps
}

/// Follows the fingers of a chart from one recorded frame to the next.
pub struct TraceRecorder {
    down: BTreeMap<u64, Position>,
    spans: Vec<NoteSpan>,
    next: usize,
    active: Vec<usize>,
    recorded: usize,
}

impl TraceRecorder {
    /// The fingers that were down on the last recorded frame.
    pub closed spec fn fingers_down(self) -> Map<u64, Position> {
        self.down@
    }

    pub closed spec fn note_spans(self) -> Seq<NoteSpan> {
        self.spans@
    }

    /// How many spans have been reached.
    pub closed spec fn cursor(self) -> int {
        self.next as int
    }

    /// The spans that hold a finger down, as indices into the spans.
    pub closed spec fn active_spans(self) -> Seq<usize> {
        self.active@
    }

    /// How many spans had been reached when the last frame was recorded.
    pub closed spec fn recorded_cursor(self) -> int {
        self.recorded as int
    }

    /// The spans that started and ended since the last frame was recorded, as indices into
    /// the spans.
    pub open spec fn passed_spans(self) -> Seq<usize> {
        passed_over(self.recorded_cursor(), self.cursor(), self.active_spans())
    }

    pub open spec fn wf(self) -> bool {
        &&& 0 <= self.recorded_cursor() <= self.cursor()
        &&& 0 <= self.cursor() <= self.note_spans().len() <= usize::MAX
        &&& ascending_below(self.active_spans(), self.cursor())
    }

    /// A recorder that has seen no frame yet. `lines` are the lines of the chart, each
    /// with its notes.
    pub fn start(lines: &Vec<Vec<ChartNote>>) -> (recorder: TraceRecorder)
        ensures
            recorder.wf(),
            recorder.note_spans().to_multiset() == crate::spans::chart_spans(lines@).to_multiset(),
            crate::spans::all_starts_known(crate::spans::chart_spans(lines@))
                ==> crate::spans::in_start_order(recorder.note_spans()),
            recorder.cursor() == 0,
            recorder.recorded_cursor() == 0,
            recorder.active_spans().len() == 0,
            recorder.fingers_down() == Map::<u64, Position>::empty(),
    {
        let spans = build_spans(lines);
        assert(spans.len() <= usize::MAX);
        TraceRecorder { down: BTreeMap::new(), spans, next: 0, active: Vec::new(), recorded: 0 }
    }

    /// Move on to chart time `chart_t`. Frames are recorded in increasing chart time,
    /// so a single forward cursor is enough.
    pub fn advance(&mut self, chart_t: Timestamp)
        requires
            old(self).wf(),
        ensures
            final(self).wf(),
            final(self).note_spans() == old(self).note_spans(),
            final(self).fingers_down() == old(self).fingers_down(),
            final(self).recorded_cursor() == old(self).recorded_cursor(),
            final(self).cursor() == cursor_after(
                old(self).note_spans(),
                old(self).cursor(),
                chart_t,
            ),
            final(self).active_spans() == active_after(
                old(self).note_spans(),
                old(self).cursor(),
                old(self).active_spans(),
                chart_t,
            ),
    {
        while self.next < self.spans.len() && self.spans[self.next].start.is_at_most(chart_t)
            invariant
                self.next <= self.spans.len(),
                ascending_below(self.active@, self.next as int),
                self.spans == old(self).spans,
                self.down == old(self).down,
                self.recorded == old(self).recorded,
                old(self).next <= self.next,
                cursor_after(self.spans@, self.next as int, chart_t) == cursor_after(
                    old(self).spans@,
                    old(self).next as int,
                    chart_t,
                ),
                self.active@ == old(self).active@ + index_range(
                    old(self).next as int,
                    self.next as int,
                ),
            decreases self.spans.len() - self.next,
        {
            self.active.push(self.next);
            self.next = self.next + 1;
            assert(self.active@ =~= old(self).active@ + index_range(
                old(self).next as int,
                self.next as int,
            ));
        }
        let mut kept: Vec<usize> = Vec::new();
        let mut i: usize = 0;
        let ghost holds = not_over(self.spans@, chart_t);
        while i < self.active.len()
            invariant
                self.next <= self.spans.len(),
                ascending_below(self.active@, self.next as int),
                i <= self.active.len(),
                holds == not_over(self.spans@, chart_t),
                kept@ == self.active@.take(i as int).filter(holds),
                forall|k: int| 0 <= k < kept.len() ==> self.active@.take(i as int).contains(#[trigger] kept[k]),
                ascending_below(kept@, self.next as int),
            decreases self.active.len() - i,
        {
            let index: usize = self.active[i];
            proof {
                let head = self.active@.take(i as int);
                assert(self.active@.take(i + 1) =~= head.push(index));
                head.lemma_filter_push(index, holds);
                assert forall|k: int| 0 <= k < kept.len() implies kept[k] < index by {
                    assert(head.contains(kept[k]));
                }
                assert forall|x: usize| head.contains(x) implies head.push(index).contains(x) by {
                    let at = choose|at: int| 0 <= at < head.len() && head[at] == x;
                    assert(head.push(index)[at] == x);
                }
                assert(head.push(index)[i as int] == index);
            }
            assert(index < self.next);
            if chart_t.is_at_most(self.spans[index].end) {
                kept.push(index);
            }
            i = i + 1;
        }
        assert(self.active@.take(i as int) =~= self.active@);
        self.active = kept;
    }

    /// The notes that hold a finger down, in the order in which `record_frame` expects
    /// their positions.
    pub fn active_notes(&self) -> (notes: Vec<NoteRef>)
        requires
            self.wf(),
        ensures
            notes@ == notes_of(self.note_spans(), self.active_spans()),
            notes@.len() == self.active_spans().len(),
            forall|i: int|
                0 <= i < notes@.len() ==> {
                    let span = self.note_spans()[self.active_spans()[i] as int];
                    &&& (#[trigger] notes@[i]).line == span.line
                    &&& notes@[i].note == span.note
                },
    {
        let mut notes: Vec<NoteRef> = Vec::new();
        let mut i: usize = 0;
        while i < self.active.len()
            invariant
                self.wf(),
                i <= self.active.len(),
                notes@ == notes_of(self.spans@, self.active@.take(i as int)),
            decreases self.active.len() - i,
        {
            let index: usize = self.active[i];
            assert(self.active@[i as int] < self.next);
            notes.push(NoteRef { line: self.spans[index].line, note: self.spans[index].note });
            i = i + 1;
            assert(notes@ =~= notes_of(self.spans@, self.active@.take(i as int)));
        }
        assert(self.active@.take(i as int) =~= self.active@);
        notes
    }

    /// Whether the span holds a finger down.
    fn is_active(&self, index: usize) -> (answer: bool)
        ensures
            answer == self.active_spans().contains(index),
    {
        let mut i: usize = 0;
        while i < self.active.len()
            invariant
                i <= self.active.len(),
                !self.active@.take(i as int).contains(index),
            decreases self.active.len() - i,
        {
            if self.active[i] == index {
                assert(self.active@[i as int] == index);
                return true;
            }
            proof {
                let head = self.active@.take(i as int);
                let longer = self.active@.take(i + 1);
                if longer.contains(index) {
                    let at = choose|at: int| 0 <= at < longer.len() && longer[at] == index;
                    assert(head[at] == index);
                }
            }
            i = i + 1;
        }
        assert(self.active@.take(i as int) =~= self.active@);
        false
    }

    /// The spans that started and ended since the last frame was recorded.
    fn passed(&self) -> (passed: Vec<usize>)
        requires
            self.wf(),
        ensures
            passed@ == self.passed_spans(),
            forall|k: int| 0 <= k < passed.len() ==> #[trigger] passed@[k] < self.cursor(),
    {
        let mut passed: Vec<usize> = Vec::new();
        let mut i: usize = self.recorded;
        let ghost over = inactive(self.active@);
        assert(index_range(self.recorded as int, i as int) =~= Seq::empty());
        assert(index_range(self.recorded as int, i as int).filter(over) =~= Seq::empty()) by {
            reveal(Seq::filter);
        }
        while i < self.next
            invariant
                self.recorded <= i <= self.next,
                over == inactive(self.active@),
                passed@ == index_range(self.recorded as int, i as int).filter(over),
                forall|k: int| 0 <= k < passed.len() ==> #[trigger] passed@[k] < self.next,
            decreases self.next - i,
        {
            proof {
                let head = index_range(self.recorded as int, i as int);
                assert(index_range(self.recorded as int, i + 1) =~= head.push(i));
                head.lemma_filter_push(i, over);
            }
            if !self.is_active(i) {
                passed.push(i);
            }
            i = i + 1;
        }
        passed
    }

    /// The notes that were tapped since the last frame was recorded, and are over, in the
    /// order in which `record_frame` expects their positions.
    pub fn passed_notes(&self) -> (notes: Vec<NoteRef>)
        requires
            self.wf(),
        ensures
            notes@ == notes_of(self.note_spans(), self.passed_spans()),
            notes@.len() == self.passed_spans().len(),
            forall|i: int|
                0 <= i < notes@.len() ==> {
                    let span = self.note_spans()[self.passed_spans()[i] as int];
                    &&& (#[trigger] notes@[i]).line == span.line
                    &&& notes@[i].note == span.note
                },
    {
        let passed = self.passed();
        let mut notes: Vec<NoteRef> = Vec::new();
        let mut i: usize = 0;
        while i < passed.len()
            invariant
                self.wf(),
                i <= passed.len(),
                forall|k: int| 0 <= k < passed.len() ==> #[trigger] passed@[k] < self.next,
                notes@ == notes_of(self.spans@, passed@.take(i as int)),
            decreases passed.len() - i,
        {
            let index: usize = passed[i];
            assert(passed@[i as int] < self.next);
            notes.push(NoteRef { line: self.spans[index].line, note: self.spans[index].note });
            i = i + 1;
            assert(notes@ =~= notes_of(self.spans@, passed@.take(i as int)));
        }
        assert(passed@.take(i as int) =~= passed@);
        notes
    }

    /// Record one video frame.
    ///
    /// `audio_t` is the audio playback position, `frame` is the video frame index,
    /// `positions` are the screen positions of the active notes and `passed_positions`
    /// those of the notes that were tapped since the last recorded frame.
    pub fn record_frame(
        &mut self,
        audio_t: Timestamp,
        frame: i64,
        positions: &Vec<Position>,
        passed_positions: &Vec<Position>,
    ) -> (line: Frame)
        requires
            old(self).wf(),
            positions@.len() == old(self).active_spans().len(),
            passed_positions@.len() == old(self).passed_spans().len(),
        ensures
            final(self).wf(),
            final(self).note_spans() == old(self).note_spans(),
            final(self).cursor() == old(self).cursor(),
            final(self).active_spans() == old(self).active_spans(),
            final(self).recorded_cursor() == old(self).cursor(),
            final(self).fingers_down() == located(
                old(self).note_spans(),
                old(self).active_spans(),
                positions@,
            ),
            line.t == audio_t,
            line.frame == frame,
            lists_fingers(line.fingers@, final(self).fingers_down()),
            lists_events(
                line.events@,
                old(self).fingers_down(),
                final(self).fingers_down(),
                tap_events(
                    old(self).note_spans(),
                    old(self).passed_spans(),
                    passed_positions@,
                ),
            ),
    {
        let mut current: BTreeMap<u64, Position> = BTreeMap::new();
        let mut i: usize = 0;
        while i < self.active.len()
            invariant
                self.wf(),
                i <= self.active.len(),
                positions@.len() == self.active@.len(),
                current@ == located(self.spans@, self.active@.take(i as int), positions@.take(i as int)),
            decreases self.active.len() - i,
        {
            proof {
                assert(self.active@.take(i + 1).drop_last() =~= self.active@.take(i as int));
                assert(positions@.take(i + 1).drop_last() =~= positions@.take(i as int));
                assert(self.active@[i as int] < self.next);
            }
            let at: Position = positions[i];
            if at.is_finite() {
                current.insert(self.spans[self.active[i]].id, at);
            }
            i = i + 1;
        }
        proof {
            assert(self.active@.take(i as int) =~= self.active@);
            assert(positions@.take(i as int) =~= positions@);
        }
        let fingers = list_fingers(&current);
        let passed = self.passed();
        let mut taps = list_taps(&self.spans, &passed, passed_positions);
        let mut events = list_changes(&self.down, &current);
        let ghost changes = events@;
        let ghost tapped = taps@;
        events.append(&mut taps);
        proof {
            assert(events@ =~= changes + tapped);
            assert(events@.take(changes.len() as int) =~= changes);
            assert(events@.skip(changes.len() as int) =~= tapped);
        }
        self.down = current;
        self.recorded = self.next;
        Frame { t: audio_t, frame, fingers, events }
    }
}

/// The notes of some spans.
pub open spec fn notes_of(spans: Seq<NoteSpan>, indices: Seq<usize>) -> Seq<NoteRef> {
    Seq::new(
        indices.len(),
        |i: int|
            NoteRef {
                line: spans[indices[i] as int].line,
                note: spans[indices[i] as int].note,
            },
    )
}

/// The fingers of a map, in the order of their ids.
fn list_fingers(down: &BTreeMap<u64, Position>) -> (fingers: Vec<Finger>)
    ensures
        lists_fingers(fingers@, down@),
{
    broadcast use vstd::std_specs::btree::group_btree_axioms;

    let entries = down.iter();
    let ghost all = vstd::std_specs::iter::IteratorSpec::remaining(&entries);
    let mut fingers: Vec<Finger> = Vec::new();
    for entry in it: entries
        invariant
            it.seq() == all,
            fingers.len() == it.index(),
            forall|k: int|
                0 <= k < fingers.len() ==> #[trigger] fingers[k] == (Finger {
                    id: *all[k].0,
                    at: *all[k].1,
                }),
    {
        fingers.push(Finger { id: *entry.0, at: *entry.1 });
    }
    proof {
        let ids = all.map_values(|entry: (&u64, &Position)| *entry.0);
        assert forall|i: int, j: int| 0 <= i < j < fingers.len() implies fingers[i].id
            < fingers[j].id by {
            assert(vstd::std_specs::cmp::OrdSpec::cmp_spec(&ids[i], &ids[j]) is Less);
        }
        assert forall|id: u64| #[trigger] down@.contains_key(id) implies fingers@.contains(
            Finger { id, at: down@[id] },
        ) by {
            assert(all.contains((&id, &down@[id])));
            let k = choose|k: int| 0 <= k < all.len() && all[k] == (&id, &down@[id]);
            assert(fingers@[k] == Finger { id, at: down@[id] });
        }
    }
    fingers
}

/// One event for each of the fingers that `others` lacks.
fn events_without(fingers: &Vec<Finger>, others: &BTreeMap<u64, Position>, phase: Phase) -> (events:
    Vec<FingerEvent>)
    requires
        forall|i: int, j: int| 0 <= i < j < fingers.len() ==> fingers[i].id < fingers[j].id,
    ensures
        forall|i: int, j: int| 0 <= i < j < events.len() ==> events[i].id < events[j].id,
        forall|i: int|
            0 <= i < events.len() ==> (#[trigger] events[i]).phase == phase && !others@.contains_key(
                events[i].id,
            ) && fingers@.contains(Finger { id: events[i].id, at: events[i].at }),
        forall|k: int|
            0 <= k < fingers.len() && !others@.contains_key((#[trigger] fingers[k]).id)
                ==> events@.contains(
                FingerEvent { id: fingers[k].id, phase, at: fingers[k].at },
            ),
{
    let mut events: Vec<FingerEvent> = Vec::new();
    let mut i: usize = 0;
    while i < fingers.len()
        invariant
            i <= fingers.len(),
            forall|i: int, j: int| 0 <= i < j < fingers.len() ==> fingers[i].id < fingers[j].id,
            forall|k: int, j: int| 0 <= k < events.len() && i <= j < fingers.len() ==> events[k].id < fingers[j].id,
            forall|i: int, j: int| 0 <= i < j < events.len() ==> events[i].id < events[j].id,
            forall|i: int|
                0 <= i < events.len() ==> (#[trigger] events[i]).phase == phase
                    && !others@.contains_key(events[i].id) && fingers@.contains(
                    Finger { id: events[i].id, at: events[i].at },
                ),
            forall|k: int|
                0 <= k < i && !others@.contains_key((#[trigger] fingers[k]).id) ==> events@.contains(
                    FingerEvent { id: fingers[k].id, phase, at: fingers[k].at },
                ),
        decreases fingers.len() - i,
    {
        let finger: Finger = fingers[i];
        let ghost listed = events@;
        if !others.contains_key(&finger.id) {
            let event = FingerEvent { id: finger.id, phase, at: finger.at };
            events.push(event);
            proof {
                assert(events@[listed.len() as int] == event);
                assert(fingers@[i as int] == Finger { id: event.id, at: event.at });
                assert forall|e: FingerEvent| listed.contains(e) implies events@.contains(e) by {
                    let k = choose|k: int| 0 <= k < listed.len() && listed[k] == e;
                    assert(events@[k] == e);
                }
            }
        }
        i = i + 1;
    }
    events
}

/// What happened to the fingers between two frames.
fn list_changes(before: &BTreeMap<u64, Position>, after: &BTreeMap<u64, Position>) -> (events: Vec<
    FingerEvent,
>)
    ensures
        lists_changes(events@, before@, after@),
{
    let were = list_fingers(before);
    let are = list_fingers(after);
    let mut events = events_without(&were, after, Phase::Up);
    let mut downs = events_without(&are, before, Phase::Down);
    let ghost went_up = events@;
    let ghost went_down = downs@;
    events.append(&mut downs);
    proof {
        assert forall|i: int| 0 <= i < events.len() implies tells_change(
            #[trigger] events[i],
            before@,
            after@,
        ) by {
            let event = events@[i];
            let finger = Finger { id: event.id, at: event.at };
            if i < went_up.len() {
                assert(event == went_up[i]);
                assert(were@.contains(finger));
            } else {
                assert(event == went_down[i - went_up.len()]);
                assert(are@.contains(finger));
            }
        }
        assert forall|i: int, j: int| 0 <= i < j < events.len() implies event_before(
            events[i],
            events[j],
        ) by {
            if j < went_up.len() {
                assert(events@[i] == went_up[i] && events@[j] == went_up[j]);
            } else if i >= went_up.len() {
                assert(events@[i] == went_down[i - went_up.len()]);
                assert(events@[j] == went_down[j - went_up.len()]);
            } else {
                assert(events@[i] == went_up[i] && events@[j] == went_down[j - went_up.len()]);
            }
        }
        assert forall|event: FingerEvent| #[trigger] tells_change(
            event,
            before@,
            after@,
        ) implies events@.contains(event) by {
            let finger = Finger { id: event.id, at: event.at };
            match event.phase {
                Phase::Up => {
                    assert(were@.contains(finger));
                    let k = choose|k: int| 0 <= k < were.len() && were@[k] == finger;
                    assert(went_up.contains(event));
                    let m = choose|m: int| 0 <= m < went_up.len() && went_up[m] == event;
                    assert(events@[m] == event);
                },
                Phase::Down => {
                    assert(are@.contains(finger));
                    let k = choose|k: int| 0 <= k < are.len() && are@[k] == finger;
                    assert(went_down.contains(event));
                    let m = choose|m: int| 0 <= m < went_down.len() && went_down[m] == event;
                    assert(events@[went_up.len() + m] == event);
                },
            }
        }
    }
    events
}

/// The events of fingers that went down and up between two frames.
fn list_taps(spans: &Vec<NoteSpan>, passed: &Vec<usize>, positions: &Vec<Position>) -> (events: Vec<
    FingerEvent,
>)
    requires
        positions.len() == passed.len(),
        forall|k: int| 0 <= k < passed.len() ==> #[trigger] passed@[k] < spans.len(),
    ensures
        events@ == tap_events(spans@, passed@, positions@),
{
    let mut events: Vec<FingerEvent> = Vec::new();
    let mut i: usize = 0;
    while i < passed.len()
        invariant
            i <= passed.len(),
            positions.len() == passed.len(),
            forall|k: int| 0 <= k < passed.len() ==> #[trigger] passed@[k] < spans.len(),
            events@ == tap_events(spans@, passed@.take(i as int), positions@.take(i as int)),
        decreases passed.len() - i,
    {
        proof {
            assert(passed@.take(i + 1).drop_last() =~= passed@.take(i as int));
            assert(positions@.take(i + 1).drop_last() =~= positions@.take(i as int));
            assert(passed@[i as int] < spans.len());
        }
        let at: Position = positions[i];
        if at.is_finite() {
            let id: u64 = spans[passed[i]].id;
            events.push(FingerEvent { id, phase: Phase::Down, at });
            events.push(FingerEvent { id, phase: Phase::Up, at });
        }
        i = i + 1;
    }
    proof {
        assert(passed@.take(i as int) =~= passed@);
        assert(positions@.take(i as int) =~= positions@);
    }
    events
}

/// Whether the recorder stands at chart time `t`: the cursor is behind exactly the
/// spans that have started, and exactly the spans that have started and are not over
/// are active.
pub open spec fn in_step(spans: Seq<NoteSpan>, next: int, active: Seq<usize>, t: Timestamp) -> bool {
    &&& 0 <= next <= spans.len()
    &&& forall|k: int|
        0 <= k < spans.len() ==> (k < next <==> (#[trigger] spans[k]).start.at_most(t))
    &&& forall|k: usize| #[trigger]
        active.contains(k) <==> k < spans.len() && held(spans[k as int], t)
}

/// Whether a span holds its finger down at `t`.
pub open spec fn held(span: NoteSpan, t: Timestamp) -> bool {
    span.start.at_most(t) && t.at_most(span.end)
}

/// Whether `events` says that the finger `id` went into `phase`.
pub open spec fn goes(events: Seq<FingerEvent>, id: u64, phase: Phase) -> bool {
    exists|i: int|
        0 <= i < events.len() && (#[trigger] events[i]).id == id && events[i].phase == phase
}

proof fn lemma_cursor_after(spans: Seq<NoteSpan>, next: int, t: Timestamp)
    requires
        0 <= next <= spans.len(),
    ensures
        next <= cursor_after(spans, next, t) <= spans.len(),
        forall|k: int|
            next <= k < cursor_after(spans, next, t) ==> (#[trigger] spans[k]).start.at_most(t),
        cursor_after(spans, next, t) < spans.len() ==> !spans[cursor_after(
            spans,
            next,
            t,
        )].start.at_most(t),
    decreases spans.len() - next,
{
    if next < spans.len() && spans[next].start.at_most(t) {
        lemma_cursor_after(spans, next + 1, t);
    }
}

/// Moving on from a state that has dropped nothing that is still held at `t`.
proof fn lemma_advance_in_step(spans: Seq<NoteSpan>, next: int, active: Seq<usize>, t: Timestamp)
    requires
        crate::spans::all_starts_known(spans),
        crate::spans::in_start_order(spans),
        spans.len() <= usize::MAX,
        !t.nan(),
        0 <= next <= spans.len(),
        forall|k: int| 0 <= k < next ==> (#[trigger] spans[k]).start.at_most(t),
        forall|k: usize| #[trigger] active.contains(k) ==> k < next,
        forall|k: usize| k < next && t.at_most((#[trigger] spans[k as int]).end) ==> active.contains(k),
    ensures
        in_step(spans, cursor_after(spans, next, t), active_after(spans, next, active, t), t),
{
    lemma_cursor_after(spans, next, t);
    let end = cursor_after(spans, next, t);
    let reached = active + index_range(next, end);
    let now = active_after(spans, next, active, t);
    let pred = not_over(spans, t);
    assert forall|k: int| 0 <= k < spans.len() implies (k < end <==> (
    #[trigger] spans[k]).start.at_most(t)) by {
        if k > end {
            assert(crate::spans::starts_before(spans[end], spans[k]));
            assert(!spans[end].start.nan());
        }
    }
    assert forall|k: usize| #[trigger] now.contains(k) <==> k < spans.len() && held(
        spans[k as int],
        t,
    ) by {
        if now.contains(k) {
            reached.lemma_filter_contains_rev(pred, k);
            let i = choose|i: int| 0 <= i < now.len() && now[i] == k;
            reached.lemma_filter_pred(pred, i);
            let j = choose|j: int| 0 <= j < reached.len() && reached[j] == k;
            if j < active.len() {
                assert(active[j] == k);
                assert(active.contains(k));
            }
            assert(k < end);
            assert(spans[k as int].start.at_most(t));
        }
        if k < spans.len() && held(spans[k as int], t) {
            assert(k < end);
            if k < next {
                assert(active.contains(k));
                let j = choose|j: int| 0 <= j < active.len() && active[j] == k;
                assert(reached[j] == k);
                reached.lemma_filter_contains(pred, j);
            } else {
                let j = active.len() + (k - next);
                assert(reached[j] == k);
                reached.lemma_filter_contains(pred, j);
            }
        }
    }
}

/// On the first frame exactly the notes that have started and are not over hold a finger.
pub proof fn law_first_frame_in_step(spans: Seq<NoteSpan>, t: Timestamp)
    requires
        crate::spans::all_starts_known(spans),
        crate::spans::in_start_order(spans),
        spans.len() <= usize::MAX,
        !t.nan(),
    ensures
        in_step(
            spans,
            cursor_after(spans, 0, t),
            active_after(spans, 0, Seq::empty(), t),
            t,
        ),
{
    lemma_advance_in_step(spans, 0, Seq::empty(), t);
}

/// A single forward cursor is enough: if frames are recorded in increasing chart time,
/// on each of them exactly the notes that have started and are not over hold a finger.
pub proof fn law_later_frame_in_step(
    spans: Seq<NoteSpan>,
    next: int,
    active: Seq<usize>,
    earlier: Timestamp,
    t: Timestamp,
)
    requires
        crate::spans::all_starts_known(spans),
        crate::spans::in_start_order(spans),
        spans.len() <= usize::MAX,
        in_step(spans, next, active, earlier),
        earlier.at_most(t),
    ensures
        in_step(spans, cursor_after(spans, next, t), active_after(spans, next, active, t), t),
{
    assert forall|k: usize| #[trigger] active.contains(k) implies k < next by {
        assert(spans[k as int].start.at_most(earlier));
    }
    assert forall|k: usize| k < next && t.at_most((#[trigger] spans[k as int]).end) implies active.contains(
        k,
    ) by {
        assert(spans[k as int].start.at_most(earlier));
        assert(held(spans[k as int], earlier));
    }
    lemma_advance_in_step(spans, next, active, t);
}

proof fn lemma_passed_over(recorded: int, next: int, active: Seq<usize>, k: usize)
    requires
        0 <= recorded <= next <= usize::MAX,
    ensures
        passed_over(recorded, next, active).contains(k) <==> recorded <= k < next
            && !active.contains(k),
{
    let all = index_range(recorded, next);
    let pred = inactive(active);
    let passed = all.filter(pred);
    if passed.contains(k) {
        all.lemma_filter_contains_rev(pred, k);
        let i = choose|i: int| 0 <= i < passed.len() && passed[i] == k;
        all.lemma_filter_pred(pred, i);
    }
    if recorded <= k < next && !active.contains(k) {
        assert(all[k - recorded] == k);
        all.lemma_filter_contains(pred, k - recorded);
    }
}

/// Before the first frame, exactly the notes that have started and are over were passed.
pub proof fn law_passed_before_first_frame(
    spans: Seq<NoteSpan>,
    next: int,
    active: Seq<usize>,
    t: Timestamp,
    k: usize,
)
    requires
        spans.len() <= usize::MAX,
        in_step(spans, next, active, t),
        k < spans.len(),
    ensures
        passed_over(0, next, active).contains(k) <==> spans[k as int].start.at_most(t)
            && !t.at_most(spans[k as int].end),
{
    lemma_passed_over(0, next, active, k);
    assert(active.contains(k) <==> held(spans[k as int], t));
}

/// No note is lost between two frames: exactly the notes that start after the earlier
/// frame, and are over on the later one, are passed.
pub proof fn law_passed_between_frames(
    spans: Seq<NoteSpan>,
    recorded: int,
    earlier_active: Seq<usize>,
    earlier: Timestamp,
    next: int,
    active: Seq<usize>,
    t: Timestamp,
    k: usize,
)
    requires
        spans.len() <= usize::MAX,
        in_step(spans, recorded, earlier_active, earlier),
        in_step(spans, next, active, t),
        recorded <= next,
        k < spans.len(),
    ensures
        passed_over(recorded, next, active).contains(k) <==> !spans[k as int].start.at_most(earlier)
            && spans[k as int].start.at_most(t) && !t.at_most(spans[k as int].end),
{
    lemma_passed_over(recorded, next, active, k);
    assert(active.contains(k) <==> held(spans[k as int], t));
}

/// Whether, right after event number `i`, which puts the finger `id` down, the same finger
/// goes up.
pub open spec fn taps_at(events: Seq<FingerEvent>, i: int, id: u64, at: Position) -> bool {
    &&& 0 <= i < events.len() - 1
    &&& events[i] == (FingerEvent { id, phase: Phase::Down, at })
    &&& events[i + 1] == (FingerEvent { id, phase: Phase::Up, at })
}

/// Whether `events` says that the finger `id` went down at a position and up again.
pub open spec fn taps(events: Seq<FingerEvent>, id: u64, at: Position) -> bool {
    exists|i: int| taps_at(events, i, id, at)
}

/// Whether some note that was passed, and had a finite position, is tapped with the
/// finger `id`.
pub open spec fn tapped(
    spans: Seq<NoteSpan>,
    passed: Seq<usize>,
    positions: Seq<Position>,
    id: u64,
) -> bool {
    exists|a: int|
        0 <= a < passed.len() && spans[(#[trigger] passed[a]) as int].id == id
            && positions[a].finite()
}

proof fn lemma_tap_events(
    spans: Seq<NoteSpan>,
    passed: Seq<usize>,
    positions: Seq<Position>,
)
    requires
        positions.len() == passed.len(),
    ensures
        forall|a: int|
            0 <= a < passed.len() && positions[a].finite() ==> taps(
                tap_events(spans, passed, positions),
                spans[(#[trigger] passed[a]) as int].id,
                positions[a],
            ),
        forall|i: int|
            0 <= i < tap_events(spans, passed, positions).len() ==> tapped(
                spans,
                passed,
                positions,
                (#[trigger] tap_events(spans, passed, positions)[i]).id,
            ),
        forall|i: int|
            0 <= i < tap_events(spans, passed, positions).len() && (#[trigger] tap_events(
                spans,
                passed,
                positions,
            )[i]).phase is Down ==> taps_at(
                tap_events(spans, passed, positions),
                i,
                tap_events(spans, passed, positions)[i].id,
                tap_events(spans, passed, positions)[i].at,
            ),
    decreases passed.len(),
{
    if passed.len() > 0 {
        let fewer = passed.drop_last();
        let known = positions.drop_last();
        let last = passed.len() - 1;
        lemma_tap_events(spans, fewer, known);
        let earlier = tap_events(spans, fewer, known);
        let events = tap_events(spans, passed, positions);
        assert forall|a: int| 0 <= a < passed.len() && positions[a].finite() implies taps(
            events,
            spans[(#[trigger] passed[a]) as int].id,
            positions[a],
        ) by {
            if a < last {
                assert(fewer[a] == passed[a] && known[a] == positions[a]);
                let i = choose|i: int| taps_at(earlier, i, spans[fewer[a] as int].id, known[a]);
                assert(taps_at(events, i, spans[passed[a] as int].id, positions[a]));
            } else {
                assert(taps_at(
                    events,
                    earlier.len() as int,
                    spans[passed[a] as int].id,
                    positions[a],
                ));
            }
        }
        assert forall|i: int| 0 <= i < events.len() implies tapped(
            spans,
            passed,
            positions,
            (#[trigger] events[i]).id,
        ) by {
            if i < earlier.len() {
                assert(earlier[i] == events[i]);
                let a = choose|a: int|
                    0 <= a < fewer.len() && spans[(#[trigger] fewer[a]) as int].id == earlier[i].id
                        && known[a].finite();
                assert(passed[a] == fewer[a] && positions[a] == known[a]);
            } else {
                assert(spans[passed[last] as int].id == events[i].id);
            }
        }
        assert forall|i: int|
            0 <= i < events.len() && (#[trigger] events[i]).phase is Down implies taps_at(
            events,
            i,
            events[i].id,
            events[i].at,
        ) by {
            if i < earlier.len() {
                assert(earlier[i] == events[i]);
                assert(taps_at(earlier, i, earlier[i].id, earlier[i].at));
            }
        }
    }
}

/// Every note that was passed between two frames is in the trace: if its position is
/// finite, its finger goes down there and then up, at that position.
pub proof fn law_passed_note_is_tapped(
    spans: Seq<NoteSpan>,
    passed: Seq<usize>,
    positions: Seq<Position>,
    events: Seq<FingerEvent>,
    before: Map<u64, Position>,
    after: Map<u64, Position>,
    a: int,
)
    requires
        positions.len() == passed.len(),
        lists_events(events, before, after, tap_events(spans, passed, positions)),
        0 <= a < passed.len(),
        positions[a].finite(),
    ensures
        taps(events, spans[passed[a] as int].id, positions[a]),
{
    let listed = tap_events(spans, passed, positions);
    let changes = events.len() - listed.len();
    let id = spans[passed[a] as int].id;
    lemma_tap_events(spans, passed, positions);
    let i = choose|i: int| taps_at(listed, i, id, positions[a]);
    assert(events.skip(changes)[i] == events[changes + i]);
    assert(events.skip(changes)[i + 1] == events[changes + i + 1]);
    assert(taps_at(events, changes + i, id, positions[a]));
}

/// Whether the finger `id` is down after `events`, if `was_down` says so of the time before.
pub open spec fn down_after(events: Seq<FingerEvent>, id: u64, was_down: bool) -> bool
    decreases events.len(),
{
    if events.len() == 0 {
        was_down
    } else if events.last().id == id {
        events.last().phase is Down
    } else {
        down_after(events.drop_last(), id, was_down)
    }
}

proof fn lemma_changes_explain_fingers(
    events: Seq<FingerEvent>,
    before: Map<u64, Position>,
    after: Map<u64, Position>,
    id: u64,
)
    requires
        lists_changes(events, before, after),
    ensures
        after.contains_key(id) <==> goes(events, id, Phase::Down) || (before.contains_key(id)
            && !goes(events, id, Phase::Up)),
        !(goes(events, id, Phase::Down) && goes(events, id, Phase::Up)),
        goes(events, id, Phase::Down) ==> !before.contains_key(id),
        goes(events, id, Phase::Up) ==> before.contains_key(id),
{
    if before.contains_key(id) && !after.contains_key(id) {
        let event = FingerEvent { id, phase: Phase::Up, at: before[id] };
        assert(tells_change(event, before, after));
        let i = choose|i: int| 0 <= i < events.len() && events[i] == event;
        assert(events[i].id == id);
    }
    if after.contains_key(id) && !before.contains_key(id) {
        let event = FingerEvent { id, phase: Phase::Down, at: after[id] };
        assert(tells_change(event, before, after));
        let i = choose|i: int| 0 <= i < events.len() && events[i] == event;
        assert(events[i].id == id);
    }
}

proof fn lemma_down_after(events: Seq<FingerEvent>, id: u64, was_down: bool)
    ensures
        !goes(events, id, Phase::Down) && !goes(events, id, Phase::Up) ==> down_after(
            events,
            id,
            was_down,
        ) == was_down,
        !goes(events, id, Phase::Up) && goes(events, id, Phase::Down) ==> down_after(
            events,
            id,
            was_down,
        ),
        !goes(events, id, Phase::Down) && goes(events, id, Phase::Up) ==> !down_after(
            events,
            id,
            was_down,
        ),
    decreases events.len(),
{
    if events.len() > 0 {
        let fewer = events.drop_last();
        let last = events.last();
        assert(events[events.len() - 1] == last);
        assert forall|phase: Phase| #[trigger] goes(fewer, id, phase) implies goes(
            events,
            id,
            phase,
        ) by {
            let i = choose|i: int|
                0 <= i < fewer.len() && (#[trigger] fewer[i]).id == id && fewer[i].phase == phase;
            assert(events[i] == fewer[i]);
        }
        assert forall|phase: Phase| last.id != id && #[trigger] goes(events, id, phase) implies goes(
            fewer,
            id,
            phase,
        ) by {
            let i = choose|i: int|
                0 <= i < events.len() && (#[trigger] events[i]).id == id && events[i].phase
                    == phase;
            assert(fewer[i] == events[i]);
        }
        lemma_down_after(fewer, id, was_down);
    }
}

proof fn lemma_down_after_both(
    first: Seq<FingerEvent>,
    second: Seq<FingerEvent>,
    id: u64,
    was_down: bool,
)
    ensures
        down_after(first + second, id, was_down) == down_after(
            second,
            id,
            down_after(first, id, was_down),
        ),
    decreases second.len(),
{
    if second.len() == 0 {
        assert(first + second =~= first);
    } else {
        assert((first + second).drop_last() =~= first + second.drop_last());
        lemma_down_after_both(first, second.drop_last(), id, was_down);
    }
}

proof fn lemma_taps_end_up(
    spans: Seq<NoteSpan>,
    passed: Seq<usize>,
    positions: Seq<Position>,
    id: u64,
    was_down: bool,
)
    requires
        positions.len() == passed.len(),
    ensures
        down_after(tap_events(spans, passed, positions), id, was_down) == (was_down && !tapped(
            spans,
            passed,
            positions,
            id,
        )),
    decreases passed.len(),
{
    if passed.len() > 0 {
        let fewer = passed.drop_last();
        let known = positions.drop_last();
        let last = passed.len() - 1;
        let earlier = tap_events(spans, fewer, known);
        let events = tap_events(spans, passed, positions);
        lemma_taps_end_up(spans, fewer, known, id, was_down);
        if tapped(spans, fewer, known, id) {
            let a = choose|a: int|
                0 <= a < fewer.len() && spans[(#[trigger] fewer[a]) as int].id == id
                    && known[a].finite();
            assert(passed[a] == fewer[a] && positions[a] == known[a]);
        }
        if tapped(spans, passed, positions, id) && !tapped(spans, fewer, known, id) {
            let a = choose|a: int|
                0 <= a < passed.len() && spans[(#[trigger] passed[a]) as int].id == id
                    && positions[a].finite();
            if a < last {
                assert(fewer[a] == passed[a] && known[a] == positions[a]);
            }
        }
        if positions.last().finite() {
            let own = spans[passed[last] as int].id;
            let half = events.drop_last();
            assert(half =~= earlier.push(
                FingerEvent { id: own, phase: Phase::Down, at: positions.last() },
            ));
            assert(half.drop_last() =~= earlier);
            assert(events.last().id == own && events.last().phase is Up);
            if own != id {
                assert(down_after(half, id, was_down) == down_after(earlier, id, was_down));
            }
        }
    }
}

/// The events of a frame, read in their order, turn the fingers that were down into those
/// that are down. A finger that was not tapped in between goes down at most if it was not
/// down, goes up at most if it was, and does not do both.
pub proof fn law_events_explain_fingers(
    spans: Seq<NoteSpan>,
    active: Seq<usize>,
    positions: Seq<Position>,
    passed: Seq<usize>,
    passed_positions: Seq<Position>,
    before: Map<u64, Position>,
    events: Seq<FingerEvent>,
    id: u64,
)
    requires
        crate::spans::distinct_fingers(spans),
        ascending_below(active, spans.len() as int),
        positions.len() == active.len(),
        passed_positions.len() == passed.len(),
        forall|a: int|
            0 <= a < passed.len() ==> (#[trigger] passed[a]) < spans.len() && !active.contains(
                passed[a],
            ),
        lists_events(
            events,
            before,
            located(spans, active, positions),
            tap_events(spans, passed, passed_positions),
        ),
    ensures
        down_after(events, id, before.contains_key(id)) == located(
            spans,
            active,
            positions,
        ).contains_key(id),
        !tapped(spans, passed, passed_positions, id) ==> {
            &&& !(goes(events, id, Phase::Down) && goes(events, id, Phase::Up))
            &&& goes(events, id, Phase::Down) ==> !before.contains_key(id)
            &&& goes(events, id, Phase::Up) ==> before.contains_key(id)
        },
{
    let after = located(spans, active, positions);
    let taps = tap_events(spans, passed, passed_positions);
    let changes = events.take(events.len() - taps.len());
    let was = before.contains_key(id);
    assert(events =~= changes + taps);
    lemma_changes_explain_fingers(changes, before, after, id);
    lemma_down_after(changes, id, was);
    lemma_down_after_both(changes, taps, id, was);
    lemma_taps_end_up(spans, passed, passed_positions, id, after.contains_key(id));
    lemma_tap_events(spans, passed, passed_positions);
    law_fingers_follow_notes(spans, active, positions);
    if tapped(spans, passed, passed_positions, id) && after.contains_key(id) {
        let a = choose|a: int|
            0 <= a < passed.len() && spans[(#[trigger] passed[a]) as int].id == id
                && passed_positions[a].finite();
        let b = choose|b: int|
            0 <= b < active.len() && spans[(#[trigger] active[b]) as int].id == id
                && positions[b].finite();
        assert(active.contains(active[b]));
        assert(passed[a] != active[b]);
    }
    assert forall|phase: Phase|
        !tapped(spans, passed, passed_positions, id) && #[trigger] goes(events, id, phase) implies goes(
        changes,
        id,
        phase,
    ) by {
        let i = choose|i: int|
            0 <= i < events.len() && (#[trigger] events[i]).id == id && events[i].phase == phase;
        if i < changes.len() {
            assert(changes[i] == events[i]);
        } else {
            assert(taps[i - changes.len()] == events[i]);
        }
    }
}

/// Every active note has a finger of its own, at the position that the note has on
/// this frame; a note whose position is not finite has none, and there are no others.
pub proof fn law_fingers_follow_notes(
    spans: Seq<NoteSpan>,
    active: Seq<usize>,
    positions: Seq<Position>,
)
    requires
        crate::spans::distinct_fingers(spans),
        ascending_below(active, spans.len() as int),
        positions.len() == active.len(),
    ensures
        forall|a: int|
            0 <= a < active.len() ==> {
                let id = spans[(#[trigger] active[a]) as int].id;
                &&& located(spans, active, positions).contains_key(id) <==> positions[a].finite()
                &&& positions[a].finite() ==> located(spans, active, positions)[id] == positions[a]
            },
        forall|id: u64| #[trigger]
            located(spans, active, positions).contains_key(id) ==> exists|a: int|
                0 <= a < active.len() && spans[(#[trigger] active[a]) as int].id == id
                    && positions[a].finite(),
    decreases active.len(),
{
    let down = located(spans, active, positions);
    if active.len() > 0 {
        let fewer = active.drop_last();
        let known = positions.drop_last();
        let rest = located(spans, fewer, known);
        let last = active.len() - 1;
        law_fingers_follow_notes(spans, fewer, known);
        let last_id = spans[active[last] as int].id;
        assert forall|a: int| 0 <= a < last implies spans[(#[trigger] active[a]) as int].id
            != last_id by {
            assert(active[a] < active[last]);
        }
        assert forall|a: int| 0 <= a < last implies fewer[a] == #[trigger] active[a] && known[a]
            == positions[a] by {}
        assert(!rest.contains_key(last_id)) by {
            if rest.contains_key(last_id) {
                let a = choose|a: int|
                    0 <= a < fewer.len() && spans[(#[trigger] fewer[a]) as int].id == last_id
                        && known[a].finite();
                assert(active[a] == fewer[a]);
            }
        }
        assert forall|a: int| 0 <= a < active.len() implies {
            let id = spans[(#[trigger] active[a]) as int].id;
            &&& down.contains_key(id) <==> positions[a].finite()
            &&& positions[a].finite() ==> down[id] == positions[a]
        } by {
            if a < last {
                assert(fewer[a] == active[a]);
            }
        }
        assert forall|id: u64| #[trigger] down.contains_key(id) implies exists|a: int|
            0 <= a < active.len() && spans[(#[trigger] active[a]) as int].id == id
                && positions[a].finite() by {
            if rest.contains_key(id) {
                let a = choose|a: int|
                    0 <= a < fewer.len() && spans[(#[trigger] fewer[a]) as int].id == id
                        && known[a].finite();
                assert(active[a] == fewer[a]);
            } else {
                assert(spans[active[last] as int].id == id);
            }
        }
    }
}

/// A note holds its finger down from its start to its end and at no other time: it is
/// active exactly then, and its finger is on the frame exactly if it is active and its
/// position is finite.
pub proof fn law_finger_is_down_while_held(
    spans: Seq<NoteSpan>,
    next: int,
    active: Seq<usize>,
    t: Timestamp,
    positions: Seq<Position>,
    k: int,
)
    requires
        crate::spans::distinct_fingers(spans),
        spans.len() <= usize::MAX,
        in_step(spans, next, active, t),
        ascending_below(active, next),
        positions.len() == active.len(),
        0 <= k < spans.len(),
    ensures
        held(spans[k], t) <==> active.contains(k as usize),
        located(spans, active, positions).contains_key(spans[k].id) <==> exists|a: int|
            0 <= a < active.len() && #[trigger] active[a] == k && positions[a].finite(),
{
    law_fingers_follow_notes(spans, active, positions);
    let down = located(spans, active, positions);
    if down.contains_key(spans[k].id) {
        let a = choose|a: int|
            0 <= a < active.len() && spans[(#[trigger] active[a]) as int].id == spans[k].id
                && positions[a].finite();
        assert(active.contains(active[a]));
        assert(active[a] == k) by {
            if active[a] < k {
                assert(spans[active[a] as int].id != spans[k].id);
            } else if active[a] > k {
                assert(spans[k].id != spans[active[a] as int].id);
            }
        }
    }
    if exists|a: int| 0 <= a < active.len() && #[trigger] active[a] == k && positions[a].finite() {
        let a = choose|a: int|
            0 <= a < active.len() && #[trigger] active[a] == k && positions[a].finite();
        assert(spans[active[a] as int] == spans[k]);
    }
}

/// Every finger that goes down or up is listed: the finger of a note goes down in the line
/// of the first frame from its start on, whether the note is still held there or was
/// already over, and up in the line of the first frame after its end. Where the note has no
/// finite position it has no finger.
pub proof fn law_every_change_is_listed(
    spans: Seq<NoteSpan>,
    recorded: int,
    earlier_active: Seq<usize>,
    earlier_positions: Seq<Position>,
    earlier: Timestamp,
    next: int,
    active: Seq<usize>,
    positions: Seq<Position>,
    passed_positions: Seq<Position>,
    t: Timestamp,
    events: Seq<FingerEvent>,
    k: int,
)
    requires
        crate::spans::distinct_fingers(spans),
        spans.len() <= usize::MAX,
        in_step(spans, recorded, earlier_active, earlier),
        in_step(spans, next, active, t),
        recorded <= next,
        ascending_below(earlier_active, recorded),
        ascending_below(active, next),
        earlier_positions.len() == earlier_active.len(),
        positions.len() == active.len(),
        passed_positions.len() == passed_over(recorded, next, active).len(),
        lists_events(
            events,
            located(spans, earlier_active, earlier_positions),
            located(spans, active, positions),
            tap_events(spans, passed_over(recorded, next, active), passed_positions),
        ),
        0 <= k < spans.len(),
    ensures
        !spans[k].start.at_most(earlier) && spans[k].start.at_most(t) ==> {
            ||| exists|a: int|
                0 <= a < active.len() && #[trigger] active[a] == k && !positions[a].finite()
            ||| exists|a: int|
                0 <= a < passed_over(recorded, next, active).len() && #[trigger] passed_over(
                    recorded,
                    next,
                    active,
                )[a] == k && !passed_positions[a].finite()
            ||| goes(events, spans[k].id, Phase::Down)
        },
        held(spans[k], earlier) && !t.at_most(spans[k].end) ==> {
            ||| exists|a: int|
                0 <= a < earlier_active.len() && #[trigger] earlier_active[a] == k
                    && !earlier_positions[a].finite()
            ||| goes(events, spans[k].id, Phase::Up)
        },
        !spans[k].start.at_most(earlier) && spans[k].start.at_most(t) && !t.at_most(spans[k].end)
            ==> {
            ||| exists|a: int|
                0 <= a < passed_over(recorded, next, active).len() && #[trigger] passed_over(
                    recorded,
                    next,
                    active,
                )[a] == k && !passed_positions[a].finite()
            ||| goes(events, spans[k].id, Phase::Up)
        },
{
    let before = located(spans, earlier_active, earlier_positions);
    let after = located(spans, active, positions);
    let passed = passed_over(recorded, next, active);
    let taps_listed = tap_events(spans, passed, passed_positions);
    let changes = events.take(events.len() - taps_listed.len());
    let id = spans[k].id;
    law_finger_is_down_while_held(
        spans,
        recorded,
        earlier_active,
        earlier,
        earlier_positions,
        k,
    );
    law_finger_is_down_while_held(spans, next, active, t, positions, k);
    lemma_changes_explain_fingers(changes, before, after, id);
    assert forall|phase: Phase| #[trigger] goes(changes, id, phase) implies goes(
        events,
        id,
        phase,
    ) by {
        let i = choose|i: int|
            0 <= i < changes.len() && (#[trigger] changes[i]).id == id && changes[i].phase == phase;
        assert(events[i] == changes[i]);
    }
    if before.contains_key(id) {
        let a = choose|a: int|
            0 <= a < earlier_active.len() && #[trigger] earlier_active[a] == k
                && earlier_positions[a].finite();
        assert(earlier_active.contains(k as usize));
    }
    if after.contains_key(id) {
        let a = choose|a: int|
            0 <= a < active.len() && #[trigger] active[a] == k && positions[a].finite();
        assert(active.contains(k as usize));
    }
    if !spans[k].start.at_most(earlier) && spans[k].start.at_most(t) {
        if t.at_most(spans[k].end) {
            let a = choose|a: int| 0 <= a < active.len() && active[a] == k as usize;
            assert(active[a] == k);
        } else {
            law_passed_between_frames(
                spans,
                recorded,
                earlier_active,
                earlier,
                next,
                active,
                t,
                k as usize,
            );
            let a = choose|a: int| 0 <= a < passed.len() && passed[a] == k as usize;
            assert(passed[a] == k);
            if passed_positions[a].finite() {
                law_passed_note_is_tapped(
                    spans,
                    passed,
                    passed_positions,
                    events,
                    before,
                    after,
                    a,
                );
                let i = choose|i: int| taps_at(events, i, id, passed_positions[a]);
                assert(events[i].id == id);
                assert(events[i + 1].id == id);
            }
        }
    }
    if held(spans[k], earlier) && !t.at_most(spans[k].end) {
        let a = choose|a: int|
            0 <= a < earlier_active.len() && earlier_active[a] == k as usize;
        assert(earlier_active[a] == k);
    }
}

/// A coordinate is finite unless its exponent bits are all set.
pub proof fn law_finite_bits(at: Position)
    ensures
        at.finite() <==> at.x & 0x7f80_0000 != 0x7f80_0000 && at.y & 0x7f80_0000 != 0x7f80_0000,
{
    let x = at.x;
    let y = at.y;
    assert(x % 0x8000_0000 < 0x7f80_0000 <==> x & 0x7f80_0000 != 0x7f80_0000) by (bit_vector);
    assert(y % 0x8000_0000 < 0x7f80_0000 <==> y & 0x7f80_0000 != 0x7f80_0000) by (bit_vector);
}

/// Moving on passes every span that has started, up to the first that has not.
pub proof fn law_cursor_stops_at_what_is_to_come(spans: Seq<NoteSpan>, next: int, t: Timestamp)
    requires
        0 <= next <= spans.len(),
    ensures
        next <= cursor_after(spans, next, t) <= spans.len(),
        forall|k: int|
            next <= k < cursor_after(spans, next, t) ==> (#[trigger] spans[k]).start.at_most(t),
        cursor_after(spans, next, t) < spans.len() ==> !spans[cursor_after(
            spans,
            next,
            t,
        )].start.at_most(t),
{
    lemma_cursor_after(spans, next, t);
}

proof fn lemma_filter_ascends(indices: Seq<usize>, pred: spec_fn(usize) -> bool)
    requires
        forall|i: int, j: int| 0 <= i < j < indices.len() ==> indices[i] < indices[j],
    ensures
        forall|i: int, j: int|
            0 <= i < j < indices.filter(pred).len() ==> indices.filter(pred)[i] < indices.filter(
                pred,
            )[j],
        forall|i: int|
            0 <= i < indices.filter(pred).len() ==> indices.contains(
                #[trigger] indices.filter(pred)[i],
            ),
    decreases indices.len(),
{
    if indices.len() == 0 {
        assert(indices.filter(pred).len() == 0) by {
            reveal(Seq::filter);
        }
    } else {
        let fewer = indices.drop_last();
        let last = indices.last();
        lemma_filter_ascends(fewer, pred);
        assert(indices =~= fewer.push(last));
        fewer.lemma_filter_push(last, pred);
        let kept = indices.filter(pred);
        let rest = fewer.filter(pred);
        assert forall|i: int| 0 <= i < rest.len() implies (#[trigger] rest[i]) < last
            && indices.contains(rest[i]) by {
            assert(fewer.contains(rest[i]));
            let k = choose|k: int| 0 <= k < fewer.len() && fewer[k] == rest[i];
            assert(indices[k] == rest[i]);
        }
        assert(indices[indices.len() - 1] == last);
        assert forall|i: int| 0 <= i < kept.len() implies indices.contains(#[trigger] kept[i]) by {
            if i < rest.len() {
                assert(kept[i] == rest[i]);
            }
        }
    }
}

/// After moving on exactly those spans are active that were active or have been reached,
/// and are not over; they stand in their order.
pub proof fn law_active_spans_are_not_over(
    spans: Seq<NoteSpan>,
    next: int,
    active: Seq<usize>,
    t: Timestamp,
    k: usize,
)
    requires
        0 <= next <= spans.len() <= usize::MAX,
        forall|i: int| 0 <= i < active.len() ==> #[trigger] active[i] < next,
        forall|i: int, j: int| 0 <= i < j < active.len() ==> active[i] < active[j],
    ensures
        active_after(spans, next, active, t).contains(k) <==> (active.contains(k) || next <= k
            < cursor_after(spans, next, t)) && t.at_most(spans[k as int].end),
        forall|i: int, j: int|
            0 <= i < j < active_after(spans, next, active, t).len() ==> active_after(
                spans,
                next,
                active,
                t,
            )[i] < active_after(spans, next, active, t)[j],
{
    lemma_cursor_after(spans, next, t);
    let end = cursor_after(spans, next, t);
    let reached = active + index_range(next, end);
    let now = active_after(spans, next, active, t);
    let pred = not_over(spans, t);
    lemma_filter_ascends(reached, pred);
    if now.contains(k) {
        let i = choose|i: int| 0 <= i < now.len() && now[i] == k;
        reached.lemma_filter_pred(pred, i);
        reached.lemma_filter_contains_rev(pred, k);
        let j = choose|j: int| 0 <= j < reached.len() && reached[j] == k;
        if j < active.len() {
            assert(active[j] == k);
        }
    }
    if (active.contains(k) || next <= k < end) && t.at_most(spans[k as int].end) {
        if active.contains(k) {
            let j = choose|j: int| 0 <= j < active.len() && active[j] == k;
            assert(reached[j] == k);
            reached.lemma_filter_contains(pred, j);
        } else {
            let j = active.len() + (k - next);
            assert(reached[j] == k);
            reached.lemma_filter_contains(pred, j);
        }
    }
}

/// Exactly those spans were passed that have been reached since the last frame and are not
/// active; they stand in their order.
pub proof fn law_passed_spans_are_not_active(
    recorded: int,
    next: int,
    active: Seq<usize>,
    k: usize,
)
    requires
        0 <= recorded <= next <= usize::MAX,
    ensures
        passed_over(recorded, next, active).contains(k) <==> recorded <= k < next
            && !active.contains(k),
        forall|i: int, j: int|
            0 <= i < j < passed_over(recorded, next, active).len() ==> passed_over(
                recorded,
                next,
                active,
            )[i] < passed_over(recorded, next, active)[j],
{
    lemma_passed_over(recorded, next, active, k);
    lemma_filter_ascends(index_range(recorded, next), inactive(active));
}

/// The note that is named for a span is the note that owns its finger: the position that is
/// asked for is that of this note, and no two spans name the same one.
pub proof fn law_named_note_owns_the_finger(
    lines: Seq<Vec<ChartNote>>,
    spans: Seq<NoteSpan>,
    indices: Seq<usize>,
    i: int,
)
    requires
        lines.len() <= usize::MAX,
        forall|l: int| 0 <= l < lines.len() ==> (#[trigger] lines[l])@.len() <= usize::MAX,
        spans.to_multiset() == crate::spans::chart_spans(lines).to_multiset(),
        forall|k: int| 0 <= k < indices.len() ==> #[trigger] indices[k] < spans.len(),
        0 <= i < indices.len(),
    ensures
        notes_of(spans, indices).len() == indices.len(),
        ({
            let note = notes_of(spans, indices)[i];
            let span = spans[indices[i] as int];
            let info = lines[note.line as int]@[note.note as int];
            &&& note.line < lines.len()
            &&& note.note < lines[note.line as int]@.len()
            &&& note.line == span.line
            &&& note.note == span.note
            &&& span.id == (note.line as u64) << 32 | (note.note as u64)
            &&& span.start == info.time
            &&& span.end == (if info.hold_end is Some {
                info.hold_end->0
            } else {
                info.tap_end
            })
        }),
        forall|j: int|
            0 <= j < indices.len() && indices[j] != indices[i] ==> (#[trigger] notes_of(
                spans,
                indices,
            )[j]).line != notes_of(spans, indices)[i].line || notes_of(spans, indices)[j].note
                != notes_of(spans, indices)[i].note,
{
    let own = indices[i] as int;
    crate::spans::law_span_tells_its_note(lines, spans, own);
    crate::spans::law_no_note_has_two_spans(lines, spans);
    assert forall|j: int| 0 <= j < indices.len() && indices[j] != indices[i] implies (
    #[trigger] notes_of(spans, indices)[j]).line != notes_of(spans, indices)[i].line || notes_of(
        spans,
        indices,
    )[j].note != notes_of(spans, indices)[i].note by {
        let other = indices[j] as int;
        assert(spans[own].line != spans[other].line || spans[own].note != spans[other].note) by {
            if own < other {
                assert(spans[own].line != spans[other].line || spans[own].note
                    != spans[other].note);
            } else {
                assert(spans[other].line != spans[own].line || spans[other].note
                    != spans[own].note);
            }
        }
    }
}

/// The trace follows the chart: on a frame at chart time `t` the finger of a note is down
/// only from the time of the note until its end, which is that of the hold or else that of
/// the tap. In that time the position of the note is asked for, and if it is finite the
/// finger is down exactly there.
pub proof fn law_finger_follows_its_note(
    lines: Seq<Vec<ChartNote>>,
    spans: Seq<NoteSpan>,
    next: int,
    active: Seq<usize>,
    t: Timestamp,
    positions: Seq<Position>,
    line: int,
    note: int,
)
    requires
        lines.len() <= usize::MAX,
        forall|l: int| 0 <= l < lines.len() ==> (#[trigger] lines[l])@.len() <= usize::MAX,
        lines.len() <= 0x1_0000_0000,
        forall|l: int| 0 <= l < lines.len() ==> (#[trigger] lines[l])@.len() <= 0x1_0000_0000,
        spans.to_multiset() == crate::spans::chart_spans(lines).to_multiset(),
        spans.len() <= usize::MAX,
        in_step(spans, next, active, t),
        ascending_below(active, next),
        positions.len() == active.len(),
        0 <= line < lines.len(),
        0 <= note < lines[line]@.len(),
    ensures
        ({
            let info = lines[line]@[note];
            let end = if info.hold_end is Some {
                info.hold_end->0
            } else {
                info.tap_end
            };
            let id = (line * 0x1_0000_0000 + note) as u64;
            let down = located(spans, active, positions);
            &&& down.contains_key(id) ==> info.time.at_most(t) && t.at_most(end)
            &&& info.time.at_most(t) && t.at_most(end) ==> exists|a: int|
                0 <= a < positions.len() && (#[trigger] notes_of(spans, active)[a]).line == line
                    && notes_of(spans, active)[a].note == note && (down.contains_key(id)
                    <==> positions[a].finite()) && (positions[a].finite() ==> down[id]
                    == positions[a])
        }),
{
    crate::spans::law_every_note_has_a_span(lines, spans, line, note);
    crate::spans::law_each_note_has_its_own_finger(lines, spans);
    let k = choose|k: int|
        0 <= k < spans.len() && (#[trigger] spans[k]).line == line && spans[k].note == note;
    crate::spans::law_span_tells_its_note(lines, spans, k);
    assert(lines[line]@.len() <= 0x1_0000_0000);
    law_finger_is_down_while_held(spans, next, active, t, positions, k);
    law_fingers_follow_notes(spans, active, positions);
    let id = spans[k].id;
    assert(id == line * 0x1_0000_0000 + note);
    if located(spans, active, positions).contains_key(id) {
        let a = choose|a: int|
            0 <= a < active.len() && #[trigger] active[a] == k && positions[a].finite();
        assert(active.contains(k as usize));
    }
    if held(spans[k], t) {
        let a = choose|a: int| 0 <= a < active.len() && active[a] == k as usize;
        assert(spans[active[a] as int].id == id);
        assert(notes_of(spans, active)[a].line == line);
    }
}

/// The line of a frame lists the finger of every active note that has a finite position, at
/// that position, and no other, each once and in the order of the ids.
pub proof fn law_line_lists_the_fingers(
    spans: Seq<NoteSpan>,
    active: Seq<usize>,
    positions: Seq<Position>,
    fingers: Seq<Finger>,
)
    requires
        crate::spans::distinct_fingers(spans),
        ascending_below(active, spans.len() as int),
        positions.len() == active.len(),
        lists_fingers(fingers, located(spans, active, positions)),
    ensures
        forall|i: int, j: int| 0 <= i < j < fingers.len() ==> fingers[i].id < fingers[j].id,
        forall|a: int|
            0 <= a < active.len() && positions[a].finite() ==> fingers.contains(
                Finger { id: spans[(#[trigger] active[a]) as int].id, at: positions[a] },
            ),
        forall|i: int|
            0 <= i < fingers.len() ==> (#[trigger] fingers[i]).at.finite() && exists|a: int|
                0 <= a < active.len() && spans[(#[trigger] active[a]) as int].id == fingers[i].id
                    && positions[a] == fingers[i].at,
{
    let down = located(spans, active, positions);
    law_fingers_follow_notes(spans, active, positions);
    assert forall|a: int| 0 <= a < active.len() && positions[a].finite() implies fingers.contains(
        Finger { id: spans[(#[trigger] active[a]) as int].id, at: positions[a] },
    ) by {
        let id = spans[active[a] as int].id;
        assert(down.contains_key(id));
        assert(fingers.contains(Finger { id, at: down[id] }));
    }
    assert forall|i: int| 0 <= i < fingers.len() implies (#[trigger] fingers[i]).at.finite()
        && exists|a: int|
        0 <= a < active.len() && spans[(#[trigger] active[a]) as int].id == fingers[i].id
            && positions[a] == fingers[i].at by {
        assert(down.contains_key(fingers[i].id));
        let a = choose|a: int|
            0 <= a < active.len() && spans[(#[trigger] active[a]) as int].id == fingers[i].id
                && positions[a].finite();
        assert(down[fingers[i].id] == positions[a]);
    }
}

/// The line of a frame tells where things happened: a finger goes up where it was on the
/// frame before, and down where it is on this one. All such changes are listed, what went up
/// first, each in the order of the ids; the taps in between follow.
pub proof fn law_events_tell_where(
    events: Seq<FingerEvent>,
    before: Map<u64, Position>,
    after: Map<u64, Position>,
    taps_between: Seq<FingerEvent>,
)
    requires
        lists_events(events, before, after, taps_between),
    ensures
        ({
            let changes = events.len() - taps_between.len();
            &&& 0 <= changes
            &&& forall|i: int|
                0 <= i < changes && (#[trigger] events[i]).phase is Up ==> before.contains_key(
                    events[i].id,
                ) && !after.contains_key(events[i].id) && events[i].at == before[events[i].id]
            &&& forall|i: int|
                0 <= i < changes && (#[trigger] events[i]).phase is Down ==> after.contains_key(
                    events[i].id,
                ) && !before.contains_key(events[i].id) && events[i].at == after[events[i].id]
            &&& forall|id: u64| #[trigger]
                before.contains_key(id) && !after.contains_key(id) ==> exists|i: int|
                    0 <= i < changes && (#[trigger] events[i]).id == id && events[i].phase is Up
            &&& forall|id: u64| #[trigger]
                after.contains_key(id) && !before.contains_key(id) ==> exists|i: int|
                    0 <= i < changes && (#[trigger] events[i]).id == id && events[i].phase is Down
            &&& forall|i: int, j: int|
                0 <= i < j < changes ==> ((#[trigger] events[i]).phase is Up && (
                #[trigger] events[j]).phase is Down) || (events[i].phase == events[j].phase
                    && events[i].id < events[j].id)
            &&& forall|j: int|
                0 <= j < taps_between.len() ==> events[changes + j] == #[trigger] taps_between[j]
        }),
{
    let changes = events.len() - taps_between.len();
    let list = events.take(changes);
    assert forall|i: int| 0 <= i < changes implies tells_change(
        #[trigger] events[i],
        before,
        after,
    ) by {
        assert(list[i] == events[i]);
    }
    assert forall|id: u64| #[trigger]
        before.contains_key(id) && !after.contains_key(id) implies exists|i: int|
        0 <= i < changes && (#[trigger] events[i]).id == id && events[i].phase is Up by {
        let event = FingerEvent { id, phase: Phase::Up, at: before[id] };
        assert(tells_change(event, before, after));
        let i = choose|i: int| 0 <= i < list.len() && list[i] == event;
        assert(events[i].id == id && events[i].phase is Up);
    }
    assert forall|id: u64| #[trigger]
        after.contains_key(id) && !before.contains_key(id) implies exists|i: int|
        0 <= i < changes && (#[trigger] events[i]).id == id && events[i].phase is Down by {
        let event = FingerEvent { id, phase: Phase::Down, at: after[id] };
        assert(tells_change(event, before, after));
        let i = choose|i: int| 0 <= i < list.len() && list[i] == event;
        assert(events[i].id == id && events[i].phase is Down);
    }
    assert forall|i: int, j: int| 0 <= i < j < changes implies ((#[trigger] events[i]).phase is Up
        && (#[trigger] events[j]).phase is Down) || (events[i].phase == events[j].phase
        && events[i].id < events[j].id) by {
        assert(event_before(list[i], list[j]));
    }
    assert forall|j: int| 0 <= j < taps_between.len() implies events[changes + j]
        == #[trigger] taps_between[j] by {
        assert(events.skip(changes)[j] == events[changes + j]);
    }
}

/// A note that was passed is tapped with its own finger, at its own position, down and then
/// up; one without a finite position is not tapped.
pub proof fn law_single_tap(spans: Seq<NoteSpan>, k: usize, at: Position)
    ensures
        at.finite() ==> tap_events(spans, seq![k], seq![at]) == seq![
            FingerEvent { id: spans[k as int].id, phase: Phase::Down, at },
            FingerEvent { id: spans[k as int].id, phase: Phase::Up, at },
        ],
        !at.finite() ==> tap_events(spans, seq![k], seq![at]).len() == 0,
{
    assert(seq![k].drop_last() =~= Seq::empty());
    let earlier = tap_events(spans, seq![k].drop_last(), seq![at].drop_last());
    assert(earlier =~= Seq::empty());
    assert(seq![k].last() == k && seq![at].last() == at);
    if at.finite() {
        assert(tap_events(spans, seq![k], seq![at]) =~= seq![
            FingerEvent { id: spans[k as int].id, phase: Phase::Down, at },
            FingerEvent { id: spans[k as int].id, phase: Phase::Up, at },
        ]);
    }
}

/// Notes that were passed one after the other are tapped one after the other.
pub proof fn law_taps_follow_one_another(
    spans: Seq<NoteSpan>,
    passed1: Seq<usize>,
    positions1: Seq<Position>,
    passed2: Seq<usize>,
    positions2: Seq<Position>,
)
    requires
        positions1.len() == passed1.len(),
        positions2.len() == passed2.len(),
    ensures
        tap_events(spans, passed1 + passed2, positions1 + positions2) == tap_events(
            spans,
            passed1,
            positions1,
        ) + tap_events(spans, passed2, positions2),
    decreases passed2.len(),
{
    if passed2.len() == 0 {
        assert(passed1 + passed2 =~= passed1);
        assert(positions1 + positions2 =~= positions1);
        assert(tap_events(spans, passed2, positions2) =~= Seq::empty());
        assert(tap_events(spans, passed1, positions1) + Seq::<FingerEvent>::empty() =~= tap_events(
            spans,
            passed1,
            positions1,
        ));
    } else {
        let passed = passed1 + passed2;
        let positions = positions1 + positions2;
        assert(passed.drop_last() =~= passed1 + passed2.drop_last());
        assert(positions.drop_last() =~= positions1 + positions2.drop_last());
        law_taps_follow_one_another(
            spans,
            passed1,
            positions1,
            passed2.drop_last(),
            positions2.drop_last(),
        );
        assert(tap_events(spans, passed, positions) =~= tap_events(spans, passed1, positions1)
            + tap_events(spans, passed2, positions2));
    }
}

/// `active_notes` names, for each span that holds a finger down, the note that the finger
/// belongs to: the finger is that of the line and the note that are named.
pub proof fn law_active_notes_own_their_fingers(
    recorder: &TraceRecorder,
    lines: Seq<Vec<ChartNote>>,
    notes: Vec<NoteRef>,
    i: int,
)
    requires
        call_ensures(TraceRecorder::active_notes, (recorder,), notes),
        recorder.wf(),
        lines.len() <= usize::MAX,
        forall|l: int| 0 <= l < lines.len() ==> (#[trigger] lines[l])@.len() <= usize::MAX,
        recorder.note_spans().to_multiset() == crate::spans::chart_spans(lines).to_multiset(),
        0 <= i < recorder.active_spans().len(),
    ensures
        notes@.len() == recorder.active_spans().len(),
        ({
            let span = recorder.note_spans()[recorder.active_spans()[i] as int];
            let named = notes@[i];
            &&& named.line < lines.len()
            &&& named.note < lines[named.line as int]@.len()
            &&& span.start == lines[named.line as int]@[named.note as int].time
            &&& span.id == (named.line as u64) << 32 | (named.note as u64)
        }),
        forall|j: int|
            0 <= j < notes@.len() && j != i ==> (#[trigger] notes@[j]).line != notes@[i].line
                || notes@[j].note != notes@[i].note,
{
    let active = recorder.active_spans();
    law_named_note_owns_the_finger(lines, recorder.note_spans(), active, i);
    assert forall|j: int| 0 <= j < notes@.len() && j != i implies (#[trigger] notes@[j]).line
        != notes@[i].line || notes@[j].note != notes@[i].note by {
        assert(active[j] != active[i]) by {
            if i < j {
                assert(active[i] < active[j]);
            } else {
                assert(active[j] < active[i]);
            }
        }
        assert(notes_of(recorder.note_spans(), active)[j] == notes@[j]);
    }
}

/// `passed_notes` names, for each span that was passed, the note that the finger belongs
/// to: the finger is that of the line and the note that are named.
pub proof fn law_passed_notes_own_their_fingers(
    recorder: &TraceRecorder,
    lines: Seq<Vec<ChartNote>>,
    notes: Vec<NoteRef>,
    i: int,
)
    requires
        call_ensures(TraceRecorder::passed_notes, (recorder,), notes),
        recorder.wf(),
        lines.len() <= usize::MAX,
        forall|l: int| 0 <= l < lines.len() ==> (#[trigger] lines[l])@.len() <= usize::MAX,
        recorder.note_spans().to_multiset() == crate::spans::chart_spans(lines).to_multiset(),
        0 <= i < recorder.passed_spans().len(),
    ensures
        notes@.len() == recorder.passed_spans().len(),
        ({
            let span = recorder.note_spans()[recorder.passed_spans()[i] as int];
            let named = notes@[i];
            &&& named.line < lines.len()
            &&& named.note < lines[named.line as int]@.len()
            &&& span.start == lines[named.line as int]@[named.note as int].time
            &&& span.id == (named.line as u64) << 32 | (named.note as u64)
        }),
        forall|j: int|
            0 <= j < notes@.len() && j != i ==> (#[trigger] notes@[j]).line != notes@[i].line
                || notes@[j].note != notes@[i].note,
{
    let passed = recorder.passed_spans();
    let (recorded, next) = (recorder.recorded_cursor(), recorder.cursor());
    lemma_filter_ascends(index_range(recorded, next), inactive(recorder.active_spans()));
    assert forall|k: int| 0 <= k < passed.len() implies #[trigger] passed[k]
        < recorder.note_spans().len() by {
        assert(index_range(recorded, next).contains(passed[k]));
    }
    law_named_note_owns_the_finger(lines, recorder.note_spans(), passed, i);
    assert forall|j: int| 0 <= j < notes@.len() && j != i implies (#[trigger] notes@[j]).line
        != notes@[i].line || notes@[j].note != notes@[i].note by {
        assert(passed[j] != passed[i]) by {
            if i < j {
                assert(passed[i] < passed[j]);
            } else {
                assert(passed[j] < passed[i]);
            }
        }
        assert(notes_of(recorder.note_spans(), passed)[j] == notes@[j]);
    }
}

/// `record_frame` writes a line for the given frame that holds the finger of every active
/// note with a finite position, at that position, and no other; and it taps every passed
/// note with a finite position.
pub proof fn law_recorded_line_tells_the_frame(
    recorder: &mut TraceRecorder,
    audio_t: Timestamp,
    frame: i64,
    positions: &Vec<Position>,
    passed_positions: &Vec<Position>,
    line: Frame,
)
    requires
        call_ensures(
            TraceRecorder::record_frame,
            (recorder, audio_t, frame, positions, passed_positions),
            line,
        ),
        old(recorder).wf(),
        crate::spans::distinct_fingers(old(recorder).note_spans()),
        positions@.len() == old(recorder).active_spans().len(),
        passed_positions@.len() == old(recorder).passed_spans().len(),
    ensures
        line.t == audio_t,
        line.frame == frame,
        forall|i: int, j: int|
            0 <= i < j < line.fingers@.len() ==> line.fingers@[i].id < line.fingers@[j].id,
        forall|a: int|
            0 <= a < positions@.len() && (#[trigger] positions@[a]).finite()
                ==> line.fingers@.contains(
                Finger {
                    id: old(recorder).note_spans()[old(recorder).active_spans()[a] as int].id,
                    at: positions@[a],
                },
            ),
        forall|i: int|
            0 <= i < line.fingers@.len() ==> (#[trigger] line.fingers@[i]).at.finite()
                && exists|a: int|
                0 <= a < positions@.len() && #[trigger] positions@[a] == line.fingers@[i].at
                    && old(recorder).note_spans()[old(recorder).active_spans()[a] as int].id
                    == line.fingers@[i].id,
        forall|a: int|
            0 <= a < passed_positions@.len() && (#[trigger] passed_positions@[a]).finite() ==> taps(
                line.events@,
                old(recorder).note_spans()[old(recorder).passed_spans()[a] as int].id,
                passed_positions@[a],
            ),
{
    let spans = old(recorder).note_spans();
    let active = old(recorder).active_spans();
    let passed = old(recorder).passed_spans();
    law_line_lists_the_fingers(spans, active, positions@, line.fingers@);
    assert forall|a: int| 0 <= a < positions@.len() && (
    #[trigger] positions@[a]).finite() implies line.fingers@.contains(
        Finger { id: spans[active[a] as int].id, at: positions@[a] },
    ) by {}
    assert forall|i: int| 0 <= i < line.fingers@.len() implies (
    #[trigger] line.fingers@[i]).at.finite() && exists|a: int|
        0 <= a < positions@.len() && #[trigger] positions@[a] == line.fingers@[i].at
            && spans[active[a] as int].id == line.fingers@[i].id by {
        let a = choose|a: int|
            0 <= a < active.len() && spans[(#[trigger] active[a]) as int].id == line.fingers@[i].id
                && positions@[a] == line.fingers@[i].at;
        assert(positions@[a] == line.fingers@[i].at);
    }
    assert forall|a: int| 0 <= a < passed_positions@.len() && (
    #[trigger] passed_positions@[a]).finite() implies taps(
        line.events@,
        spans[passed[a] as int].id,
        passed_positions@[a],
    ) by {
        law_passed_note_is_tapped(
            spans,
            passed,
            passed_positions@,
            line.events@,
            old(recorder).fingers_down(),
            final(recorder).fingers_down(),
            a,
        );
    }
}

/// `advance` reaches every span up to the first that is still to come. Of those that were
/// active or are reached, it keeps exactly those that are not over.
pub proof fn law_advance_keeps_what_is_not_over(
    recorder: &mut TraceRecorder,
    chart_t: Timestamp,
    k: usize,
)
    requires
        call_ensures(TraceRecorder::advance, (recorder, chart_t), ()),
        old(recorder).wf(),
    ensures
        final(recorder).note_spans() == old(recorder).note_spans(),
        final(recorder).fingers_down() == old(recorder).fingers_down(),
        final(recorder).recorded_cursor() == old(recorder).recorded_cursor(),
        ({
            let spans = old(recorder).note_spans();
            let next = final(recorder).cursor();
            &&& old(recorder).cursor() <= next <= spans.len()
            &&& forall|i: int|
                old(recorder).cursor() <= i < next ==> (#[trigger] spans[i]).start.at_most(chart_t)
            &&& next < spans.len() ==> !spans[next].start.at_most(chart_t)
            &&& final(recorder).active_spans().contains(k) <==> (
            old(recorder).active_spans().contains(k) || old(recorder).cursor() <= k < next)
                && chart_t.at_most(spans[k as int].end)
        }),
{
    let spans = old(recorder).note_spans();
    lemma_cursor_after(spans, old(recorder).cursor(), chart_t);
    law_active_spans_are_not_over(
        spans,
        old(recorder).cursor(),
        old(recorder).active_spans(),
        chart_t,
        k,
    );
}

} // verus!
