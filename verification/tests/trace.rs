use prpr_recorder::spans::{build_spans, finger_id, ChartNote, NoteSpan};
use prpr_recorder::timestamp::Timestamp;
use prpr_recorder::trace::{Finger, FingerEvent, NoteRef, Phase, Position, TraceRecorder};

fn at(seconds: f64) -> Timestamp {
    Timestamp { bits: seconds.to_bits() }
}

fn tap(time: f64) -> ChartNote {
    ChartNote { time: at(time), tap_end: at(time + 0.06), hold_end: None }
}

fn hold(time: f64, end: f64) -> ChartNote {
    ChartNote { time: at(time), tap_end: at(time + 0.06), hold_end: Some(at(end)) }
}

fn pos(x: f32, y: f32) -> Position {
    Position { x: x.to_bits(), y: y.to_bits() }
}

fn finger(id: u64, x: f32) -> Finger {
    Finger { id, at: pos(x, 0.5) }
}

fn event(id: u64, phase: Phase, x: f32) -> FingerEvent {
    FingerEvent { id, phase, at: pos(x, 0.5) }
}

#[test]
fn fingers_have_distinct_ids() {
    assert_eq!(finger_id(0, 0), 0);
    assert_eq!(finger_id(0, 7), 7);
    assert_eq!(finger_id(3, 5), (3u64 << 32) | 5);
    assert_ne!(finger_id(1, 0), finger_id(0, 1));
}

#[test]
fn spans_are_ordered_by_start_and_keep_the_order_of_the_chart() {
    let lines = vec![
        vec![tap(2.0), tap(1.0), hold(1.0, 3.5)],
        vec![],
        vec![tap(1.0), tap(-0.0), tap(0.0), tap(-1.5)],
    ];
    let spans = build_spans(&lines);
    let order: Vec<(usize, usize)> = spans.iter().map(|s| (s.line, s.note)).collect();
    assert_eq!(order, [(2, 3), (2, 1), (2, 2), (0, 1), (0, 2), (2, 0), (0, 0)]);
    assert_eq!(
        spans[4],
        NoteSpan { start: at(1.0), end: at(3.5), line: 0, note: 2, id: 2 }
    );
    assert_eq!(spans[5].end, at(1.06));
    assert_eq!(spans[5].id, 2 << 32);
    assert!(build_spans(&vec![]).is_empty());
}

#[test]
fn spans_sort_as_the_standard_library_does() {
    let mut seed = 12345u64;
    for len in [1usize, 2, 3, 17, 64, 500] {
        let mut line = Vec::new();
        for _ in 0..len {
            seed = seed.wrapping_mul(6364136223846793005).wrapping_add(1442695040888963407);
            line.push(tap(((seed >> 33) % 40) as f64 / 8.0 - 2.0));
        }
        let lines = vec![line.clone(), line];
        let mut expected: Vec<(f64, usize, usize)> = Vec::new();
        for (l, notes) in lines.iter().enumerate() {
            for (n, note) in notes.iter().enumerate() {
                expected.push((f64::from_bits(note.time.bits), l, n));
            }
        }
        expected.sort_by(|a, b| a.0.partial_cmp(&b.0).unwrap());
        let spans = build_spans(&lines);
        let got: Vec<(f64, usize, usize)> =
            spans.iter().map(|s| (f64::from_bits(s.start.bits), s.line, s.note)).collect();
        assert_eq!(got, expected);
    }
}

#[test]
fn starts_that_are_not_numbers_lose_no_span() {
    let lines = vec![vec![tap(f64::NAN), tap(1.0), tap(0.0)]];
    let mut notes: Vec<usize> = build_spans(&lines).iter().map(|s| s.note).collect();
    notes.sort();
    assert_eq!(notes, [0, 1, 2]);
}

#[test]
fn fingers_go_down_follow_their_notes_and_go_up() {
    let lines = vec![vec![hold(1.0, 2.0)], vec![tap(1.5)]];
    let mut trace = TraceRecorder::start(&lines);
    let other = 1u64 << 32;

    trace.advance(at(0.5));
    assert_eq!(trace.active_notes(), []);
    let line = trace.record_frame(at(0.4), 0, &vec![], &vec![]);
    assert_eq!((line.t, line.frame), (at(0.4), 0));
    assert_eq!(line.fingers, []);
    assert_eq!(line.events, []);

    trace.advance(at(1.0));
    assert_eq!(trace.active_notes(), [NoteRef { line: 0, note: 0 }]);
    let line = trace.record_frame(at(0.9), 1, &vec![pos(0.1, 0.5)], &vec![]);
    assert_eq!(line.fingers, [finger(0, 0.1)]);
    assert_eq!(line.events, [event(0, Phase::Down, 0.1)]);

    trace.advance(at(1.5));
    assert_eq!(trace.active_notes(), [NoteRef { line: 0, note: 0 }, NoteRef { line: 1, note: 0 }]);
    let line = trace.record_frame(at(1.4), 2, &vec![pos(0.2, 0.5), pos(0.9, 0.5)], &vec![]);
    assert_eq!(line.fingers, [finger(0, 0.2), finger(other, 0.9)]);
    assert_eq!(line.events, [event(other, Phase::Down, 0.9)]);

    trace.advance(at(2.0));
    assert_eq!(trace.active_notes(), [NoteRef { line: 0, note: 0 }]);
    let line = trace.record_frame(at(1.9), -3, &vec![pos(0.3, 0.5)], &vec![]);
    assert_eq!(line.frame, -3);
    assert_eq!(line.fingers, [finger(0, 0.3)]);
    assert_eq!(line.events, [event(other, Phase::Up, 0.9)]);

    trace.advance(at(2.0001));
    assert_eq!(trace.active_notes(), []);
    let line = trace.record_frame(at(2.0), 4, &vec![], &vec![]);
    assert_eq!(line.fingers, []);
    assert_eq!(line.events, [event(0, Phase::Up, 0.3)]);
}

#[test]
fn what_goes_up_is_listed_before_what_goes_down() {
    let lines = vec![vec![tap(0.0), tap(1.0), tap(1.0), tap(0.0)]];
    let mut trace = TraceRecorder::start(&lines);
    trace.advance(at(0.0));
    let line = trace.record_frame(at(0.0), 0, &vec![pos(0.0, 0.5), pos(0.3, 0.5)], &vec![]);
    assert_eq!(line.events, [event(0, Phase::Down, 0.0), event(3, Phase::Down, 0.3)]);
    trace.advance(at(1.0));
    let line = trace.record_frame(at(1.0), 1, &vec![pos(0.1, 0.5), pos(0.2, 0.5)], &vec![]);
    assert_eq!(
        line.events,
        [
            event(0, Phase::Up, 0.0),
            event(3, Phase::Up, 0.3),
            event(1, Phase::Down, 0.1),
            event(2, Phase::Down, 0.2),
        ]
    );
}

#[test]
fn notes_without_a_finite_position_have_no_finger() {
    let lines = vec![vec![hold(0.0, 9.0), hold(0.0, 9.0), hold(0.0, 9.0)]];
    let mut trace = TraceRecorder::start(&lines);
    trace.advance(at(1.0));
    let line =
        trace.record_frame(at(1.0), 0, &vec![pos(f32::NAN, 0.5), pos(0.5, 0.5), pos(0.1, f32::NEG_INFINITY)], &vec![]);
    assert_eq!(line.fingers, [finger(1, 0.5)]);
    trace.advance(at(2.0));
    let line = trace.record_frame(at(2.0), 1, &vec![pos(0.2, 0.5), pos(f32::INFINITY, 0.5), pos(f32::MAX, 0.5)], &vec![]);
    assert_eq!(line.fingers, [finger(0, 0.2), finger(2, f32::MAX)]);
    assert_eq!(
        line.events,
        [event(1, Phase::Up, 0.5), event(0, Phase::Down, 0.2), event(2, Phase::Down, f32::MAX)]
    );
}

#[test]
fn finite_positions_are_those_of_binary32() {
    for value in [0.0f32, -0.0, 1.5, f32::MIN, f32::MAX, 1e-45, f32::INFINITY, f32::NEG_INFINITY, f32::NAN, -f32::NAN] {
        assert_eq!(pos(value, 0.0).is_finite(), value.is_finite());
        assert_eq!(pos(0.0, value).is_finite(), value.is_finite());
    }
}

#[test]
fn a_tap_between_two_frames_goes_down_and_up() {
    let mut trace = TraceRecorder::start(&vec![vec![tap(1.0), tap(1.0), hold(1.01, 9.0), tap(1.02)]]);
    trace.advance(at(0.9));
    assert_eq!(trace.passed_notes(), []);
    let line = trace.record_frame(at(0.9), 0, &vec![], &vec![]);
    assert_eq!(line.events, []);
    trace.advance(at(1.1));
    assert_eq!(trace.active_notes(), [NoteRef { line: 0, note: 2 }]);
    let passed = [0, 1, 3].map(|note| NoteRef { line: 0, note });
    assert_eq!(trace.passed_notes(), passed);
    // The second has no finite position, so it has no finger.
    let taps = vec![pos(0.1, 0.5), pos(f32::NAN, 0.5), pos(0.4, 0.5)];
    let line = trace.record_frame(at(1.1), 1, &vec![pos(0.3, 0.5)], &taps);
    assert_eq!(line.fingers, [finger(2, 0.3)]);
    assert_eq!(
        line.events,
        [
            event(2, Phase::Down, 0.3),
            event(0, Phase::Down, 0.1),
            event(0, Phase::Up, 0.1),
            event(3, Phase::Down, 0.4),
            event(3, Phase::Up, 0.4),
        ]
    );
    // They are listed once.
    trace.advance(at(1.2));
    assert_eq!(trace.passed_notes(), []);
    let line = trace.record_frame(at(1.2), 2, &vec![pos(0.3, 0.5)], &vec![]);
    assert_eq!(line.events, []);
}

#[test]
fn notes_wait_for_the_next_recorded_frame() {
    let mut trace = TraceRecorder::start(&vec![vec![tap(1.0), tap(5.0), tap(0.2)]]);
    // What is over before the first frame is listed on it.
    trace.advance(at(0.9));
    assert_eq!(trace.passed_notes(), [NoteRef { line: 0, note: 2 }]);
    // A note that was held in between, while no frame was recorded, is not lost.
    trace.advance(at(1.0));
    assert_eq!(trace.active_notes(), [NoteRef { line: 0, note: 0 }]);
    trace.advance(at(1.1));
    assert_eq!(trace.active_notes(), []);
    assert_eq!(trace.passed_notes(), [NoteRef { line: 0, note: 2 }, NoteRef { line: 0, note: 0 }]);
    let line = trace.record_frame(at(1.1), 0, &vec![], &vec![pos(0.7, 0.5), pos(0.6, 0.5)]);
    assert_eq!(
        line.events,
        [
            event(2, Phase::Down, 0.7),
            event(2, Phase::Up, 0.7),
            event(0, Phase::Down, 0.6),
            event(0, Phase::Up, 0.6),
        ]
    );
    trace.advance(at(5.0));
    assert_eq!(trace.active_notes(), [NoteRef { line: 0, note: 1 }]);
    assert_eq!(trace.passed_notes(), []);
    // A moment that is not a number ends everything.
    trace.advance(at(f64::NAN));
    assert_eq!(trace.active_notes(), []);
    assert_eq!(trace.passed_notes(), [NoteRef { line: 0, note: 1 }]);
}

#[test]
fn every_note_goes_down_once_and_up_once() {
    let lines = vec![vec![hold(0.5, 1.5), tap(1.0), hold(1.0, 0.5), tap(1.02)], vec![hold(0.0, 3.0), tap(2.0)]];
    for stride in [0.01, 0.05, 0.11, 0.4, 1.7] {
        let mut trace = TraceRecorder::start(&lines);
        let mut seen: Vec<(u64, Phase)> = Vec::new();
        let mut t = 0.0;
        while t < 6.0 {
            trace.advance(at(t));
            let held = vec![pos(0.0, 0.0); trace.active_notes().len()];
            let passed = vec![pos(0.0, 0.0); trace.passed_notes().len()];
            let line = trace.record_frame(at(t), 0, &held, &passed);
            for event in line.events {
                if event.phase == Phase::Up {
                    assert!(seen.contains(&(event.id, Phase::Down)));
                }
                assert!(!seen.contains(&(event.id, event.phase)));
                seen.push((event.id, event.phase));
            }
            t += stride;
        }
        assert_eq!(seen.len(), 12);
    }
}

#[test]
fn every_frame_holds_exactly_the_notes_that_are_held() {
    let lines = vec![vec![hold(0.5, 1.5), tap(1.0), hold(1.0, 0.5)], vec![hold(0.0, 3.0), tap(2.0)]];
    let mut trace = TraceRecorder::start(&lines);
    for step in 0..200 {
        let t = step as f64 * 0.02;
        trace.advance(at(t));
        let mut expected: Vec<(usize, usize)> = Vec::new();
        for (l, notes) in lines.iter().enumerate() {
            for (n, note) in notes.iter().enumerate() {
                let start = f64::from_bits(note.time.bits);
                let end = f64::from_bits(note.hold_end.unwrap_or(note.tap_end).bits);
                if start <= t && t <= end {
                    expected.push((l, n));
                }
            }
        }
        let notes = trace.active_notes();
        let mut got: Vec<(usize, usize)> = notes.iter().map(|n| (n.line, n.note)).collect();
        got.sort();
        assert_eq!(got, expected);
        let passed = vec![pos(0.0, 0.0); trace.passed_notes().len()];
        let line = trace.record_frame(at(t), step, &vec![pos(0.0, 0.0); notes.len()], &passed);
        let ids: Vec<u64> = line.fingers.iter().map(|f| f.id).collect();
        let held: Vec<u64> = expected.iter().map(|&(l, n)| finger_id(l, n)).collect();
        assert_eq!(ids, held);
    }
}

#[test]
fn phases_have_words() {
    assert_eq!(Phase::Down.word(), "down");
    assert_eq!(Phase::Up.word(), "up");
}

#[test]
fn events_turn_one_frame_into_the_next() {
    let lines = vec![vec![hold(0.1, 0.9), tap(0.3), hold(0.5, 2.0)], vec![tap(0.3), hold(0.2, 0.4)]];
    let mut trace = TraceRecorder::start(&lines);
    let mut down: Vec<u64> = Vec::new();
    for step in 0..60 {
        let t = step as f64 * 0.07;
        trace.advance(at(t));
        let count = trace.active_notes().len();
        let positions = (0..count).map(|i| if (i + step) % 5 == 0 { pos(f32::NAN, 0.0) } else { pos(0.0, 0.0) });
        let passed = vec![pos(0.0, 0.0); trace.passed_notes().len()];
        let line = trace.record_frame(at(t), step as i64, &positions.collect(), &passed);
        for event in &line.events {
            match event.phase {
                Phase::Up => {
                    assert!(down.contains(&event.id));
                    down.retain(|id| *id != event.id);
                }
                Phase::Down => {
                    assert!(!down.contains(&event.id));
                    down.push(event.id);
                }
            }
        }
        down.sort();
        assert_eq!(down, line.fingers.iter().map(|f| f.id).collect::<Vec<u64>>());
    }
}
