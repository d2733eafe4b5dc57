//! When each note of a chart holds a virtual finger down.

use crate::timestamp::Timestamp;
use vstd::prelude::*;

verus! {

/// What the finger trace needs to know of a note.
#[derive(Clone, Copy, Debug, PartialEq, Eq, Structural)]
pub struct ChartNote {
    /// When the note is hit.
    pub time: Timestamp,
    /// When a finger that only taps the note leaves it.
    pub tap_end: Timestamp,
    /// When a hold note is let go; `None` for every other kind of note.
    pub hold_end: Option<Timestamp>,
}

/// The stretch of chart time in which a note holds its finger down.
#[derive(Clone, Copy, Debug, PartialEq, Eq, Structural)]
pub struct NoteSpan {
    pub start: Timestamp,
    pub end: Timestamp,
    /// The line of the note, as an index into the chart.
    pub line: usize,
    /// The note, as an index into its line.
    pub note: usize,
    /// The finger that belongs to the note.
    pub id: u64,
}

/// The finger of a note: the line in the upper half, the note in the lower half.
pub open spec fn finger_id_of(line: usize, note: usize) -> u64 {
    (line as u64) << 32 | (note as u64)
}

/// The span of one note of a chart.
pub open spec fn span_of(line: usize, note: usize, info: ChartNote) -> NoteSpan {
    NoteSpan {
        start: info.time,
        end: match info.hold_end {
            Some(end_time) => end_time,
            None => info.tap_end,
        },
        line,
        note,
        id: finger_id_of(line, note),
    }
}

/// The spans of one line, in the order of its notes.
pub open spec fn line_spans(line: usize, notes: Seq<ChartNote>) -> Seq<NoteSpan> {
    Seq::new(notes.len(), |i: int| span_of(line, i as usize, notes[i]))
}

/// The spans of all lines, line by line.
pub open spec fn chart_spans(lines: Seq<Vec<ChartNote>>) -> Seq<NoteSpan>
    decreases lines.len(),
{
    if lines.len() == 0 {
        Seq::empty()
    } else {
        chart_spans(lines.drop_last()) + line_spans(
            (lines.len() - 1) as usize,
            lines.last()@,
        )
    }
}

/// Whether the note of `a` stands before that of `b` in the chart.
pub open spec fn listed_before(a: NoteSpan, b: NoteSpan) -> bool {
    a.line < b.line || (a.line == b.line && a.note < b.note)
}

/// Whether `a` starts before `b`, or with it and stands before it in the chart.
pub open spec fn starts_before(a: NoteSpan, b: NoteSpan) -> bool {
    a.start.value() < b.start.value() || (a.start.value() == b.start.value() && listed_before(a, b))
}

/// Whether all spans start at a number.
pub open spec fn all_starts_known(spans: Seq<NoteSpan>) -> bool {
    forall|i: int| 0 <= i < spans.len() ==> !(#[trigger] spans[i]).start.nan()
}

/// Whether the spans stand in the order of their starts, those that start together
/// in the order of the chart.
pub open spec fn in_start_order(spans: Seq<NoteSpan>) -> bool {
    forall|i: int, j: int| 0 <= i < j < spans.len() ==> starts_before(spans[i], spans[j])
}

/// Whether no two spans share a finger.
pub open spec fn distinct_fingers(spans: Seq<NoteSpan>) -> bool {
    forall|i: int, j: int| 0 <= i < j < spans.len() ==> spans[i].id != spans[j].id
}

spec fn in_list_order(spans: Seq<NoteSpan>) -> bool {
    forall|i: int, j: int| 0 <= i < j < spans.len() ==> listed_before(spans[i], spans[j])
}

spec fn all_listed_before(left: Seq<NoteSpan>, right: Seq<NoteSpan>) -> bool {
    forall|i: int, j: int|
        0 <= i < left.len() && 0 <= j < right.len() ==> listed_before(left[i], right[j])
}

/// The finger that a note holds down.
pub fn finger_id(line: usize, note: usize) -> (id: u64)
    ensures
        id == finger_id_of(line, note),
        id == (line as u64) << 32 | (note as u64),
{
    (line as u64) << 32 | (note as u64)
}

/// The spans of all notes of a chart, in the order of their starts; notes that start
/// together keep the order of the chart. A start that is not a number compares to no
/// other, and leaves the order open.
pub fn build_spans(lines: &Vec<Vec<ChartNote>>) -> (spans: Vec<NoteSpan>)
    ensures
        spans@.to_multiset() == chart_spans(lines@).to_multiset(),
        all_starts_known(chart_spans(lines@)) ==> in_start_order(spans@),
        forall|i: int|
            0 <= i < spans@.len() ==> {
                let span = #[trigger] spans@[i];
                let info = lines@[span.line as int]@[span.note as int];
                &&& span.line < lines@.len()
                &&& span.note < lines@[span.line as int]@.len()
                &&& span.start == info.time
                &&& info.hold_end matches Some(end_time) ==> span.end == end_time
                &&& info.hold_end is None ==> span.end == info.tap_end
                &&& span.id == (span.line as u64) << 32 | (span.note as u64)
            },
        forall|line: int, note: int|
            #![trigger lines@[line]@[note]]
            0 <= line < lines@.len() && 0 <= note < lines@[line]@.len() ==> exists|i: int|
                0 <= i < spans@.len() && (#[trigger] spans@[i]).line == line && spans@[i].note
                    == note && spans@[i].start == lines@[line]@[note].time,
        forall|i: int, j: int|
            0 <= i < j < spans@.len() ==> spans@[i].line != spans@[j].line || spans@[i].note
                != spans@[j].note,
        (forall|line: int, note: int|
            #![trigger lines@[line]@[note]]
            0 <= line < lines@.len() && 0 <= note < lines@[line]@.len()
                ==> !lines@[line]@[note].time.nan()) ==> forall|i: int, j: int|
            0 <= i < j < spans@.len() ==> {
                let (a, b) = (#[trigger] spans@[i], #[trigger] spans@[j]);
                &&& a.start.at_most(b.start)
                &&& b.start.at_most(a.start) ==> a.line < b.line || (a.line == b.line && a.note
                    < b.note)
            },
{
    let mut spans: Vec<NoteSpan> = Vec::new();
    let mut line: usize = 0;
    while line < lines.len()
        invariant
            line <= lines.len(),
            spans@ == chart_spans(lines@.take(line as int)),
            in_list_order(spans@),
            forall|k: int| 0 <= k < spans.len() ==> (#[trigger] spans[k]).line < line,
        decreases lines.len() - line,
    {
        let notes = &lines[line];
        let ghost before = spans@;
        let mut note: usize = 0;
        while note < notes.len()
            invariant
                note <= notes.len(),
                in_list_order(before),
                forall|k: int| 0 <= k < before.len() ==> (#[trigger] before[k]).line < line,
                spans@ == before + line_spans(line, notes@).take(note as int),
            decreases notes.len() - note,
        {
            let info: ChartNote = notes[note];
            let end: Timestamp = match info.hold_end {
                Some(end_time) => end_time,
                None => info.tap_end,
            };
            spans.push(NoteSpan { start: info.time, end, line, note, id: finger_id(line, note) });
            note = note + 1;
            assert(spans@ =~= before + line_spans(line, notes@).take(note as int));
        }
        assert(line_spans(line, notes@).take(note as int) =~= line_spans(line, notes@));
        line = line + 1;
        proof {
            let upto = lines@.take(line as int);
            assert(upto.drop_last() =~= lines@.take(line - 1));
            assert(upto.last() == lines@[line - 1]);
        }
    }
    assert(lines@.take(line as int) =~= lines@);
    let sorted = sort_range(&spans, 0, spans.len());
    assert(spans@.subrange(0, spans@.len() as int) =~= spans@);
    proof {
        assert forall|l: int| 0 <= l < lines@.len() implies (#[trigger] lines@[l])@.len()
            <= usize::MAX by {
            assert(lines@[l].len() <= usize::MAX);
        }
        assert(lines.len() <= usize::MAX);
        assert forall|i: int| 0 <= i < sorted@.len() implies {
            let span = #[trigger] sorted@[i];
            let info = lines@[span.line as int]@[span.note as int];
            &&& span.line < lines@.len()
            &&& span.note < lines@[span.line as int]@.len()
            &&& span.start == info.time
            &&& info.hold_end matches Some(end_time) ==> span.end == end_time
            &&& info.hold_end is None ==> span.end == info.tap_end
            &&& span.id == (span.line as u64) << 32 | (span.note as u64)
        } by {
            law_span_tells_its_note(lines@, sorted@, i);
        }
        assert forall|line: int, note: int|
            #![trigger lines@[line]@[note]]
            0 <= line < lines@.len() && 0 <= note < lines@[line]@.len() implies exists|i: int|
            0 <= i < sorted@.len() && (#[trigger] sorted@[i]).line == line && sorted@[i].note
                == note && sorted@[i].start == lines@[line]@[note].time by {
            law_every_note_has_a_span(lines@, sorted@, line, note);
            let i = choose|i: int|
                0 <= i < sorted@.len() && (#[trigger] sorted@[i]).line == line && sorted@[i].note
                    == note;
            assert(sorted@[i].start == lines@[line]@[note].time);
        }
        law_no_note_has_two_spans(lines@, sorted@);
        if forall|line: int, note: int|
            #![trigger lines@[line]@[note]]
            0 <= line < lines@.len() && 0 <= note < lines@[line]@.len()
                ==> !lines@[line]@[note].time.nan() {
            law_starts_are_known(lines@, sorted@);
            assert forall|i: int, j: int| 0 <= i < j < sorted@.len() implies {
                let (a, b) = (#[trigger] sorted@[i], #[trigger] sorted@[j]);
                &&& a.start.at_most(b.start)
                &&& b.start.at_most(a.start) ==> a.line < b.line || (a.line == b.line && a.note
                    < b.note)
            } by {
                law_spans_stand_in_order(sorted@, i, j);
            }
        }
    }
    sorted
}

/// The spans from `lo` up to `hi`, in the order of their starts.
fn sort_range(spans: &Vec<NoteSpan>, lo: usize, hi: usize) -> (sorted: Vec<NoteSpan>)
    requires
        lo <= hi <= spans.len(),
        in_list_order(spans@),
    ensures
        sorted@.to_multiset() == spans@.subrange(lo as int, hi as int).to_multiset(),
        all_starts_known(spans@.subrange(lo as int, hi as int)) ==> in_start_order(sorted@),
    decreases hi - lo,
{
    let ghost range = spans@.subrange(lo as int, hi as int);
    if hi - lo <= 1 {
        let mut sorted: Vec<NoteSpan> = Vec::new();
        if lo < hi {
            sorted.push(spans[lo]);
        }
        assert(sorted@ =~= range);
        return sorted;
    }
    let mid: usize = lo + (hi - lo) / 2;
    let left = sort_range(spans, lo, mid);
    let right = sort_range(spans, mid, hi);
    proof {
        let first = spans@.subrange(lo as int, mid as int);
        let second = spans@.subrange(mid as int, hi as int);
        assert(range =~= first + second);
        vstd::seq_lib::lemma_multiset_commutative(first, second);
        assert forall|i: int| 0 <= i < left.len() implies first.contains(#[trigger] left[i]) by {
            lemma_same_members(left@, first, i);
        }
        assert forall|i: int| 0 <= i < right.len() implies second.contains(#[trigger] right[i]) by {
            lemma_same_members(right@, second, i);
        }
        if all_starts_known(range) {
            assert forall|i: int| 0 <= i < first.len() implies !(#[trigger] first[i]).start.nan() by {
                assert(first[i] == range[i]);
            }
            assert forall|i: int| 0 <= i < second.len() implies !(
            #[trigger] second[i]).start.nan() by {
                assert(second[i] == range[first.len() + i]);
            }
        }
    }
    merge(&left, &right)
}

proof fn lemma_same_members(a: Seq<NoteSpan>, b: Seq<NoteSpan>, i: int)
    requires
        a.to_multiset() == b.to_multiset(),
        0 <= i < a.len(),
    ensures
        b.contains(a[i]),
{
    broadcast use vstd::seq_lib::group_to_multiset_ensures;

    assert(a.contains(a[i]));
    assert(a.to_multiset().count(a[i]) > 0);
}

/// The spans of both lists in the order of their starts, those of `left` first where
/// two start together.
fn merge(left: &Vec<NoteSpan>, right: &Vec<NoteSpan>) -> (merged: Vec<NoteSpan>)
    requires
        all_listed_before(left@, right@),
    ensures
        merged@.to_multiset() == left@.to_multiset().add(right@.to_multiset()),
        all_starts_known(left@) && all_starts_known(right@) && in_start_order(left@)
            && in_start_order(right@) ==> in_start_order(merged@),
{
    let ghost ordered = all_starts_known(left@) && all_starts_known(right@) && in_start_order(left@)
        && in_start_order(right@);
    let mut merged: Vec<NoteSpan> = Vec::new();
    let mut i: usize = 0;
    let mut j: usize = 0;
    assert(merged@.to_multiset() =~= left@.take(0).to_multiset().add(right@.take(0).to_multiset()))
        by {
        broadcast use vstd::seq_lib::group_to_multiset_ensures;

        assert(left@.take(0) =~= merged@);
        assert(right@.take(0) =~= merged@);
        assert(merged@.to_multiset().len() == 0);
    }
    while i < left.len() || j < right.len()
        invariant
            i <= left.len(),
            j <= right.len(),
            all_listed_before(left@, right@),
            ordered == (all_starts_known(left@) && all_starts_known(right@) && in_start_order(left@)
                && in_start_order(right@)),
            merged@.to_multiset() == left@.take(i as int).to_multiset().add(
                right@.take(j as int).to_multiset(),
            ),
            ordered ==> in_start_order(merged@),
            ordered ==> forall|m: int, k: int|
                0 <= m < merged.len() && i <= k < left.len() ==> starts_before(merged[m], left[k]),
            ordered ==> forall|m: int, k: int|
                0 <= m < merged.len() && j <= k < right.len() ==> starts_before(merged[m], right[k]),
        decreases left.len() - i + right.len() - j,
    {
        broadcast use vstd::seq_lib::group_to_multiset_ensures;

        let take_left: bool = j >= right.len() || (i < left.len() && !right[j].start.is_below(
            left[i].start,
        ));
        if take_left {
            let span: NoteSpan = left[i];
            merged.push(span);
            assert(left@.take(i + 1) =~= left@.take(i as int).push(span));
            proof {
                if ordered {
                    assert forall|k: int| j <= k < right.len() implies starts_before(
                        span,
                        #[trigger] right[k],
                    ) by {
                        assert(k == j || starts_before(right[j as int], right[k]));
                        assert(listed_before(span, right[k]));
                    }
                }
            }
            i = i + 1;
        } else {
            let span: NoteSpan = right[j];
            merged.push(span);
            assert(right@.take(j + 1) =~= right@.take(j as int).push(span));
            proof {
                if ordered {
                    assert forall|k: int| i <= k < left.len() implies starts_before(
                        span,
                        #[trigger] left[k],
                    ) by {
                        assert(k == i || starts_before(left[i as int], left[k]));
                    }
                }
            }
            j = j + 1;
        }
        assert(merged@.to_multiset() =~= left@.take(i as int).to_multiset().add(
            right@.take(j as int).to_multiset(),
        ));
    }
    assert(left@.take(i as int) =~= left@);
    assert(right@.take(j as int) =~= right@);
    merged
}

/// Each note has a finger of its own: the finger of a note tells its line and its
/// place in the line.
pub proof fn law_fingers_are_distinct(line1: usize, note1: usize, line2: usize, note2: usize)
    requires
        line1 <= u32::MAX,
        note1 <= u32::MAX,
        line2 <= u32::MAX,
        note2 <= u32::MAX,
    ensures
        finger_id_of(line1, note1) == line1 * 0x1_0000_0000 + note1,
        finger_id_of(line1, note1) == finger_id_of(line2, note2) ==> line1 == line2 && note1 == note2,
{
    lemma_finger_id_parts(line1 as u64, note1 as u64);
    lemma_finger_id_parts(line2 as u64, note2 as u64);
}

proof fn lemma_finger_id_parts(line: u64, note: u64)
    by (bit_vector)
    requires
        line <= 0xffff_ffff,
        note <= 0xffff_ffff,
    ensures
        (line << 32 | note) == line * 0x1_0000_0000 + note,
{
}

/// Whether `span` is the span of a note of the chart.
pub open spec fn belongs_to(span: NoteSpan, lines: Seq<Vec<ChartNote>>) -> bool {
    &&& span.line < lines.len()
    &&& span.note < lines[span.line as int]@.len()
    &&& span == span_of(span.line, span.note, lines[span.line as int]@[span.note as int])
}

proof fn lemma_chart_spans(lines: Seq<Vec<ChartNote>>)
    requires
        lines.len() <= usize::MAX,
        forall|l: int| 0 <= l < lines.len() ==> (#[trigger] lines[l])@.len() <= usize::MAX,
    ensures
        in_list_order(chart_spans(lines)),
        forall|i: int|
            0 <= i < chart_spans(lines).len() ==> belongs_to(#[trigger] chart_spans(lines)[i], lines),
        forall|line: int, note: int|
            0 <= line < lines.len() && 0 <= note < lines[line]@.len() ==> chart_spans(
                lines,
            ).contains(#[trigger] span_of(line as usize, note as usize, lines[line]@[note])),
    decreases lines.len(),
{
    if lines.len() > 0 {
        let fewer = lines.drop_last();
        assert forall|l: int| 0 <= l < fewer.len() implies (#[trigger] fewer[l])@.len()
            <= usize::MAX by {
            assert(fewer[l] == lines[l]);
        }
        lemma_chart_spans(fewer);
        let last = lines.len() - 1;
        let rest = chart_spans(fewer);
        let own = line_spans(last as usize, lines.last()@);
        let all = chart_spans(lines);
        assert(all == rest + own);
        assert forall|i: int| 0 <= i < all.len() implies belongs_to(#[trigger] all[i], lines) by {
            if i < rest.len() {
                assert(all[i] == rest[i]);
                assert(belongs_to(rest[i], fewer));
                assert(fewer[rest[i].line as int] == lines[rest[i].line as int]);
            } else {
                assert(all[i] == own[i - rest.len()]);
            }
        }
        assert forall|i: int, j: int| 0 <= i < j < all.len() implies listed_before(
            all[i],
            all[j],
        ) by {
            if i < rest.len() {
                assert(all[i] == rest[i]);
                assert(belongs_to(rest[i], fewer));
                if j < rest.len() {
                    assert(all[j] == rest[j]);
                } else {
                    assert(all[j] == own[j - rest.len()]);
                }
            } else {
                assert(all[i] == own[i - rest.len()]);
                assert(all[j] == own[j - rest.len()]);
            }
        }
        assert forall|line: int, note: int|
            0 <= line < lines.len() && 0 <= note < lines[line]@.len() implies all.contains(
            #[trigger] span_of(line as usize, note as usize, lines[line]@[note]),
        ) by {
            let span = span_of(line as usize, note as usize, lines[line]@[note]);
            if line < last {
                assert(fewer[line] == lines[line]);
                assert(rest.contains(span_of(line as usize, note as usize, fewer[line]@[note])));
                let i = choose|i: int| 0 <= i < rest.len() && rest[i] == span;
                assert(all[i] == span);
            } else {
                assert(own[note] == span);
                assert(all[rest.len() + note] == span);
            }
        }
    }
}

/// Every note of the chart has a span, and every span is that of a note.
pub proof fn law_spans_are_the_notes(lines: Seq<Vec<ChartNote>>, spans: Seq<NoteSpan>)
    requires
        lines.len() <= usize::MAX,
        forall|l: int| 0 <= l < lines.len() ==> (#[trigger] lines[l])@.len() <= usize::MAX,
        spans.to_multiset() == chart_spans(lines).to_multiset(),
    ensures
        forall|i: int| 0 <= i < spans.len() ==> belongs_to(#[trigger] spans[i], lines),
        forall|line: int, note: int|
            0 <= line < lines.len() && 0 <= note < lines[line]@.len() ==> spans.contains(
                #[trigger] span_of(line as usize, note as usize, lines[line]@[note]),
            ),
{
    lemma_chart_spans(lines);
    let all = chart_spans(lines);
    assert forall|i: int| 0 <= i < spans.len() implies belongs_to(#[trigger] spans[i], lines) by {
        lemma_same_members(spans, all, i);
        let k = choose|k: int| 0 <= k < all.len() && all[k] == spans[i];
        assert(belongs_to(all[k], lines));
    }
    assert forall|line: int, note: int|
        0 <= line < lines.len() && 0 <= note < lines[line]@.len() implies spans.contains(
        #[trigger] span_of(line as usize, note as usize, lines[line]@[note]),
    ) by {
        let span = span_of(line as usize, note as usize, lines[line]@[note]);
        assert(all.contains(span));
        let k = choose|k: int| 0 <= k < all.len() && all[k] == span;
        lemma_same_members(all, spans, k);
    }
}

/// Each note gets its own finger, so simultaneous notes produce simultaneous fingers:
/// no two spans of a chart share one.
pub proof fn law_each_note_has_its_own_finger(lines: Seq<Vec<ChartNote>>, spans: Seq<NoteSpan>)
    requires
        lines.len() <= usize::MAX,
        forall|l: int| 0 <= l < lines.len() ==> (#[trigger] lines[l])@.len() <= usize::MAX,
        lines.len() <= 0x1_0000_0000,
        forall|l: int| 0 <= l < lines.len() ==> (#[trigger] lines[l])@.len() <= 0x1_0000_0000,
        spans.to_multiset() == chart_spans(lines).to_multiset(),
    ensures
        distinct_fingers(spans),
{
    law_spans_are_the_notes(lines, spans);
    law_no_note_has_two_spans(lines, spans);
    assert forall|i: int, j: int| 0 <= i < j < spans.len() implies spans[i].id != spans[j].id by {
        let a = spans[i];
        let b = spans[j];
        assert(belongs_to(a, lines) && belongs_to(b, lines));
        assert(lines[a.line as int]@.len() <= 0x1_0000_0000);
        assert(lines[b.line as int]@.len() <= 0x1_0000_0000);
        law_fingers_are_distinct(a.line, a.note, b.line, b.note);
    }
}

/// A span tells of one note of the chart: it starts when the note is hit, and ends when a
/// hold is let go or, for every other note, when the tap is over. Its finger has the line
/// in the upper half of its id and the note in the lower half.
pub proof fn law_span_tells_its_note(lines: Seq<Vec<ChartNote>>, spans: Seq<NoteSpan>, i: int)
    requires
        lines.len() <= usize::MAX,
        forall|l: int| 0 <= l < lines.len() ==> (#[trigger] lines[l])@.len() <= usize::MAX,
        spans.to_multiset() == chart_spans(lines).to_multiset(),
        0 <= i < spans.len(),
    ensures
        spans[i].line < lines.len(),
        spans[i].note < lines[spans[i].line as int]@.len(),
        ({
            let span = spans[i];
            let info = lines[span.line as int]@[span.note as int];
            &&& span.start == info.time
            &&& info.hold_end matches Some(end_time) ==> span.end == end_time
            &&& info.hold_end is None ==> span.end == info.tap_end
            &&& span.id == (span.line as u64) << 32 | (span.note as u64)
            &&& span.line <= u32::MAX && span.note <= u32::MAX ==> span.id == span.line
                * 0x1_0000_0000 + span.note
        }),
{
    law_spans_are_the_notes(lines, spans);
    let span = spans[i];
    assert(belongs_to(span, lines));
    if span.line <= u32::MAX && span.note <= u32::MAX {
        lemma_finger_id_parts(span.line as u64, span.note as u64);
    }
}

/// No note of the chart is left out.
pub proof fn law_every_note_has_a_span(
    lines: Seq<Vec<ChartNote>>,
    spans: Seq<NoteSpan>,
    line: int,
    note: int,
)
    requires
        lines.len() <= usize::MAX,
        forall|l: int| 0 <= l < lines.len() ==> (#[trigger] lines[l])@.len() <= usize::MAX,
        spans.to_multiset() == chart_spans(lines).to_multiset(),
        0 <= line < lines.len(),
        0 <= note < lines[line]@.len(),
    ensures
        exists|i: int|
            0 <= i < spans.len() && (#[trigger] spans[i]).line == line && spans[i].note == note,
{
    law_spans_are_the_notes(lines, spans);
    let span = span_of(line as usize, note as usize, lines[line]@[note]);
    assert(spans.contains(span));
    let i = choose|i: int| 0 <= i < spans.len() && spans[i] == span;
    assert(spans[i].line == line);
}

/// No note of the chart has more than one span.
pub proof fn law_no_note_has_two_spans(lines: Seq<Vec<ChartNote>>, spans: Seq<NoteSpan>)
    requires
        lines.len() <= usize::MAX,
        forall|l: int| 0 <= l < lines.len() ==> (#[trigger] lines[l])@.len() <= usize::MAX,
        spans.to_multiset() == chart_spans(lines).to_multiset(),
    ensures
        forall|i: int, j: int|
            0 <= i < j < spans.len() ==> spans[i].line != spans[j].line || spans[i].note
                != spans[j].note,
{
    broadcast use vstd::multiset::group_multiset_axioms;

    lemma_chart_spans(lines);
    law_spans_are_the_notes(lines, spans);
    let all = chart_spans(lines);
    assert(all.no_duplicates()) by {
        assert forall|i: int, j: int| 0 <= i < all.len() && 0 <= j < all.len() && i
            != j implies all[i] != all[j] by {
            if i < j {
                assert(listed_before(all[i], all[j]));
            } else {
                assert(listed_before(all[j], all[i]));
            }
        }
    }
    all.lemma_multiset_has_no_duplicates();
    spans.lemma_multiset_has_no_duplicates_conv();
    assert forall|i: int, j: int| 0 <= i < j < spans.len() implies spans[i].line != spans[j].line
        || spans[i].note != spans[j].note by {
        assert(belongs_to(spans[i], lines) && belongs_to(spans[j], lines));
        assert(spans[i] != spans[j]);
    }
}

/// Of two spans the one that starts first comes first, and of two that start together the
/// one whose note stands first in the chart: on an earlier line, or earlier on the same one.
pub proof fn law_spans_stand_in_order(spans: Seq<NoteSpan>, i: int, j: int)
    requires
        in_start_order(spans),
        all_starts_known(spans),
        0 <= i < spans.len(),
        0 <= j < spans.len(),
    ensures
        i < j ==> spans[i].start.at_most(spans[j].start),
        i < j && spans[j].start.at_most(spans[i].start) ==> spans[i].line < spans[j].line || (
        spans[i].line == spans[j].line && spans[i].note < spans[j].note),
        !spans[j].start.at_most(spans[i].start) ==> i < j,
{
    if i > j {
        assert(starts_before(spans[j], spans[i]));
    } else if i < j {
        assert(starts_before(spans[i], spans[j]));
    }
}

/// If every note of a chart is hit at a number, all spans start at one, so that the order
/// of the spans is known.
pub proof fn law_starts_are_known(lines: Seq<Vec<ChartNote>>, spans: Seq<NoteSpan>)
    requires
        lines.len() <= usize::MAX,
        forall|l: int| 0 <= l < lines.len() ==> (#[trigger] lines[l])@.len() <= usize::MAX,
        spans.to_multiset() == chart_spans(lines).to_multiset(),
        forall|line: int, note: int|
            #![trigger lines[line]@[note]]
            0 <= line < lines.len() && 0 <= note < lines[line]@.len()
                ==> !lines[line]@[note].time.nan(),
    ensures
        all_starts_known(chart_spans(lines)),
        all_starts_known(spans),
{
    let all = chart_spans(lines);
    assert forall|i: int| 0 <= i < all.len() implies !(#[trigger] all[i]).start.nan() by {
        law_span_tells_its_note(lines, all, i);
        assert(!lines[all[i].line as int]@[all[i].note as int].time.nan());
    }
    assert forall|i: int| 0 <= i < spans.len() implies !(#[trigger] spans[i]).start.nan() by {
        law_span_tells_its_note(lines, spans, i);
        assert(!lines[spans[i].line as int]@[spans[i].note as int].time.nan());
    }
}

/// `build_spans` gives each note of the chart one span: from the time of the note to the
/// end of the hold or, for every other note, to the end of the tap.
pub proof fn law_build_spans_holds_every_note(
    lines: &Vec<Vec<ChartNote>>,
    spans: Vec<NoteSpan>,
    line: int,
    note: int,
)
    requires
        call_ensures(build_spans, (lines,), spans),
        0 <= line < lines@.len(),
        0 <= note < lines@[line]@.len(),
    ensures
        exists|i: int|
            0 <= i < spans@.len() && (#[trigger] spans@[i]).line == line && spans@[i].note == note
                && spans@[i].start == lines@[line]@[note].time && (lines@[line]@[note].hold_end
                is Some ==> Some(spans@[i].end) == lines@[line]@[note].hold_end) && (
            lines@[line]@[note].hold_end is None ==> spans@[i].end == lines@[line]@[note].tap_end),
        forall|i: int, j: int|
            0 <= i < j < spans@.len() ==> spans@[i].line != spans@[j].line || spans@[i].note
                != spans@[j].note,
{
    let info = lines@[line]@[note];
    let i = choose|i: int|
        0 <= i < spans@.len() && (#[trigger] spans@[i]).line == line && spans@[i].note == note
            && spans@[i].start == lines@[line]@[note].time;
    assert(spans@[i].line == line);
}

} // verus!
