use prpr_recorder::channel::{Msg, Offer, QUEUE_LEN};
use prpr_recorder::encoder::RECORD_FPS;
use prpr_recorder::names::{sidecar_file_name, video_file_name};
use prpr_recorder::recording::{keep_buffer, settle_offer, Recording};
use prpr_recorder::timestamp::Timestamp;
use prpr_recorder::worker::{sidecar_header, sidecar_line, Action, Event, Worker, WorkerError};
use std::sync::mpsc::{channel, sync_channel, Receiver, Sender};

fn at(seconds: f64) -> Timestamp {
    Timestamp { bits: seconds.to_bits() }
}

fn frames_between(first: Timestamp, now: Timestamp) -> u64 {
    ((f64::from_bits(now.bits) - f64::from_bits(first.bits)) * RECORD_FPS as f64).round() as u64
}

fn frame(data: &[u8], audio: f64, index: u64) -> Msg {
    Msg::Frame { data: data.to_vec(), audio_time: at(audio), index }
}

fn recording(queue: usize) -> (Recording, Receiver<Msg>, Sender<Vec<u8>>) {
    let (tx, rx) = sync_channel(queue);
    let (return_tx, return_rx) = channel();
    (Recording::start(tx, return_rx, 77), rx, return_tx)
}

#[test]
fn the_timestamp_is_kept() {
    let (rec, _rx, _ret) = recording(QUEUE_LEN);
    assert_eq!(rec.timestamp(), 77);
    assert!(rec.buffer.is_empty());
    assert_eq!(QUEUE_LEN, 2);
}

#[test]
fn the_first_frame_is_always_due() {
    let (mut rec, rx, _ret) = recording(8);
    rec.buffer = vec![1, 2];
    assert_eq!(rec.capture_frame(at(0.5), at(100.0), frames_between), Some(0));
    assert_eq!(rx.try_recv().unwrap(), frame(&[1, 2], 0.5, 0));
    assert!(rx.try_recv().is_err());
    assert!(rec.buffer.is_empty());
}

#[test]
fn the_first_capture_is_one_frame_at_any_time() {
    for time in [0.0, -3.0, 1e300, f64::INFINITY, f64::NEG_INFINITY, f64::NAN] {
        let (mut rec, rx, _ret) = recording(8);
        rec.buffer = vec![4];
        assert_eq!(rec.capture_frame(at(0.25), at(time), frames_between), Some(0));
        assert_eq!(rx.try_iter().collect::<Vec<_>>(), [frame(&[4], 0.25, 0)]);
        // Nothing more is due at the same moment.
        rec.buffer = vec![5];
        assert_eq!(rec.capture_frame(at(0.25), at(time), frames_between), None);
        assert_eq!(rx.try_iter().count(), 0);
        assert_eq!(rec.buffer, [5]);
    }
}

#[test]
fn a_padded_capture_returns_the_index_of_its_picture() {
    let (mut rec, rx, _ret) = recording(64);
    rec.buffer = vec![7];
    assert_eq!(rec.capture_frame(at(0.0), at(0.0), frames_between), Some(0));
    rec.buffer = vec![9];
    assert_eq!(rec.capture_frame(at(0.1), at(0.1), frames_between), Some(5));
    let mut expected = vec![frame(&[7], 0.0, 0)];
    for index in 1..5 {
        expected.push(frame(&[7], 0.1, index));
    }
    expected.push(frame(&[9], 0.1, 5));
    assert_eq!(rx.try_iter().collect::<Vec<_>>(), expected);
    rec.buffer = vec![8];
    assert_eq!(rec.capture_at(at(0.2), 7), Some(6));
    assert_eq!(rx.try_iter().collect::<Vec<_>>(), [frame(&[8], 0.2, 6)]);
}

#[test]
fn a_full_queue_keeps_what_it_holds() {
    let (mut rec, rx, _ret) = recording(QUEUE_LEN);
    rec.buffer = vec![1];
    assert_eq!(rec.capture_at(at(0.0), 1), Some(0));
    rec.buffer = vec![2];
    assert_eq!(rec.capture_at(at(0.1), 2), Some(1));
    rec.buffer = vec![3];
    assert_eq!(rec.capture_at(at(0.2), 3), None);
    assert_eq!(rec.buffer, [3]);
    assert_eq!(rx.try_iter().collect::<Vec<_>>(), [frame(&[1], 0.0, 0), frame(&[2], 0.1, 1)]);
    assert_eq!(rec.capture_at(at(0.3), 3), Some(2));
    assert_eq!(rx.try_iter().collect::<Vec<_>>(), [frame(&[3], 0.3, 2)]);
}

#[test]
fn a_skipped_capture_takes_the_oldest_used_buffer() {
    let (mut rec, rx, ret) = recording(8);
    rec.buffer = vec![1];
    assert_eq!(rec.capture_at(at(0.0), 1), Some(0));
    assert_eq!(rx.try_iter().count(), 1);
    ret.send(vec![10]).unwrap();
    ret.send(vec![20]).unwrap();
    assert_eq!(rec.capture_at(at(0.1), 1), None);
    assert_eq!(rec.buffer, [10]);
    assert_eq!(rec.capture_at(at(0.1), 1), None);
    assert_eq!(rec.buffer, [20]);
    assert_eq!(rec.capture_at(at(0.1), 1), None);
    assert_eq!(rec.buffer, [20]);
    assert_eq!(rx.try_iter().count(), 0);
}

#[test]
fn used_buffers_are_kept() {
    assert_eq!(keep_buffer(Some(vec![1, 2]), vec![3]), [1, 2]);
    assert_eq!(keep_buffer(Some(vec![]), vec![3]), [0u8; 0]);
    assert_eq!(keep_buffer(None, vec![3]), [3]);
}

#[test]
fn repeats_fill_the_gaps_of_a_slow_game() {
    let (mut rec, rx, _ret) = recording(100);
    rec.buffer = vec![1];
    assert_eq!(rec.capture_frame(at(0.0), at(10.0), frames_between), Some(0));
    rec.buffer = vec![2];
    assert_eq!(rec.capture_frame(at(0.1), at(10.1), frames_between), Some(5));
    let got: Vec<Msg> = rx.try_iter().collect();
    assert_eq!(got.len(), 6);
    assert_eq!(got[0], frame(&[1], 0.0, 0));
    for i in 1..5 {
        assert_eq!(got[i], frame(&[1], 0.1, i as u64));
    }
    assert_eq!(got[5], frame(&[2], 0.1, 5));
    // A skipped frame leaves nothing behind: the gap shows the frame that was sent.
    rec.buffer = vec![3];
    assert_eq!(rec.capture_frame(at(0.1), at(10.1), frames_between), None);
    rec.buffer = vec![4];
    assert_eq!(rec.capture_frame(at(0.15), at(10.15), frames_between), Some(8));
    assert_eq!(
        rx.try_iter().collect::<Vec<_>>(),
        [frame(&[2], 0.15, 6), frame(&[2], 0.15, 7), frame(&[4], 0.15, 8)]
    );
}

#[test]
fn frames_of_a_fast_game_are_skipped() {
    let (mut rec, rx, ret) = recording(100);
    rec.buffer = vec![1];
    assert_eq!(rec.capture_at(at(0.0), 3), Some(2));
    let all: Vec<Msg> = (0..3).map(|index| frame(&[1], 0.0, index)).collect();
    assert_eq!(rx.try_iter().collect::<Vec<_>>(), all);
    rec.buffer = vec![2];
    assert_eq!(rec.capture_at(at(0.1), 3), None);
    assert_eq!(rec.capture_at(at(0.1), 0), None);
    assert_eq!(rx.try_iter().count(), 0);
    assert_eq!(rec.buffer, [2]);
    ret.send(vec![9, 9]).unwrap();
    assert_eq!(rec.capture_at(at(0.1), 2), None);
    assert_eq!(rec.buffer, [9, 9]);
}

#[test]
fn frames_that_do_not_fit_are_dropped_and_caught_up() {
    let (mut rec, rx, ret) = recording(QUEUE_LEN);
    rec.buffer = vec![1];
    // The third frame does not fit; its buffer is kept.
    assert_eq!(rec.capture_at(at(0.0), 10), None);
    assert_eq!(rec.buffer, [1]);
    rec.buffer = vec![2];
    assert_eq!(rec.capture_at(at(0.1), 11), None);
    assert_eq!(rec.buffer, [1]);
    assert_eq!(rx.try_iter().collect::<Vec<_>>(), [frame(&[1], 0.0, 0), frame(&[1], 0.0, 1)]);
    rec.buffer = vec![3];
    ret.send(vec![7]).unwrap();
    // The gap shows the frame captured before, though that one was dropped.
    assert_eq!(rec.capture_at(at(0.2), 12), None);
    assert_eq!(rec.buffer, [7]);
    assert_eq!(rx.try_iter().collect::<Vec<_>>(), [frame(&[2], 0.2, 2), frame(&[2], 0.2, 3)]);
    // Once the queue keeps up, the video is as long as is due.
    rec.buffer = vec![4];
    assert_eq!(rec.capture_at(at(0.3), 6), Some(5));
    assert_eq!(rx.try_iter().collect::<Vec<_>>(), [frame(&[3], 0.3, 4), frame(&[4], 0.3, 5)]);
}

#[test]
fn the_video_catches_up_after_frames_were_dropped() {
    let (mut rec, rx, _ret) = recording(4);
    rec.buffer = vec![1];
    assert_eq!(rec.capture_at(at(0.0), 6), None);
    assert_eq!(rx.try_iter().count(), 4);
    rec.buffer = vec![2];
    assert_eq!(rec.capture_at(at(0.1), 7), Some(6));
    assert_eq!(
        rx.try_iter().collect::<Vec<_>>(),
        [frame(&[1], 0.1, 4), frame(&[1], 0.1, 5), frame(&[2], 0.1, 6)]
    );
}

#[test]
fn a_lost_encoder_takes_nothing() {
    let (mut rec, rx, ret) = recording(QUEUE_LEN);
    drop(rx);
    rec.buffer = vec![1];
    assert_eq!(rec.capture_at(at(0.0), 5), None);
    assert!(rec.buffer.is_empty());
    ret.send(vec![4]).unwrap();
    rec.buffer = vec![2];
    assert_eq!(rec.capture_at(at(0.0), 5), None);
    assert_eq!(rec.buffer, [4]);
}

#[test]
fn offers_are_settled() {
    let kept = settle_offer(Offer::Accepted, 4, vec![1]);
    assert_eq!((kept.index, kept.buffer, kept.sent), (5, vec![1], Some(4)));
    let kept = settle_offer(Offer::Full(frame(&[8], 0.0, 4)), 4, vec![1]);
    assert_eq!((kept.index, kept.buffer, kept.sent), (4, vec![8], None));
    let kept = settle_offer(Offer::Full(Msg::End), 4, vec![1]);
    assert_eq!((kept.index, kept.buffer, kept.sent), (4, vec![1], None));
    let kept = settle_offer(Offer::Disconnected(frame(&[8], 0.0, 4)), u64::MAX, vec![1]);
    assert_eq!((kept.index, kept.buffer, kept.sent), (u64::MAX, vec![1], None));
}

#[test]
fn the_video_keeps_up_with_the_timeline() {
    let (mut rec, rx, _ret) = recording(1000);
    let mut furthest = 0;
    let mut count = 0;
    for due in [0u64, 1, 4, 4, 2, 90, 91, 300] {
        rec.buffer = vec![due as u8];
        rec.capture_at(at(0.0), due);
        furthest = furthest.max(due.max(1));
        for msg in rx.try_iter() {
            assert!(matches!(msg, Msg::Frame { index, .. } if index == count));
            count += 1;
        }
        assert_eq!(count, furthest);
    }
}

/// Drives a worker until it waits in vain or stops; what it writes goes into memory.
struct Driver {
    worker: Option<Worker>,
    action: Option<Action>,
    video: Vec<u8>,
    sidecar: String,
    fail: Option<Action>,
    result: Option<Result<(), WorkerError>>,
}

impl Driver {
    fn new(fail: Option<Action>) -> Driver {
        let (worker, action) = Worker::start();
        Driver { worker: Some(worker), action: Some(action), video: Vec::new(), sidecar: String::new(), fail, result: None }
    }

    fn run(&mut self, rx: &Receiver<Msg>, ret: &Sender<Vec<u8>>) {
        while self.result.is_none() {
            let worker = self.worker.take().unwrap();
            let action = self.action.take().unwrap();
            let fails = self.fail.as_ref() == Some(&action);
            let mut event = if fails { Event::Failed } else { Event::Done };
            match action {
                Action::CreateSidecar | Action::Flush => {}
                Action::WriteHeader => {
                    if !fails {
                        self.sidecar.push_str(sidecar_header());
                    }
                }
                Action::Receive => match rx.try_recv() {
                    Ok(msg) => event = Event::Received(Some(msg)),
                    Err(std::sync::mpsc::TryRecvError::Disconnected) => event = Event::Received(None),
                    Err(std::sync::mpsc::TryRecvError::Empty) => {
                        self.worker = Some(worker);
                        self.action = Some(Action::Receive);
                        return;
                    }
                },
                Action::WriteVideo => {
                    if !fails {
                        self.video.extend_from_slice(worker.pixels().unwrap());
                    }
                }
                Action::WriteSidecar { index, audio_time } => {
                    if !fails {
                        let position = f64::from_bits(audio_time.bits).to_string();
                        self.sidecar.push_str(&sidecar_line(index, &position));
                    }
                }
                Action::ReturnBuffer(data) => ret.send(data).unwrap(),
                Action::Stop(result) => {
                    self.result = Some(result);
                    return;
                }
            }
            let (worker, action) = worker.next(event);
            self.worker = Some(worker);
            self.action = Some(action);
        }
    }
}

#[test]
fn records_video_and_sidecar_in_memory() {
    assert!(video_file_name(77).ends_with(".mp4"));
    assert!(sidecar_file_name(77).ends_with(".csv"));
    let (mut rec, rx, ret) = recording(QUEUE_LEN);
    let mut driver = Driver::new(None);
    // Simulate a slow game (10 captures over ~1s of real time): the recorder should pad
    // the video to a constant 60 fps timeline.
    for i in 0..10 {
        rec.buffer = vec![(i * 20) as u8; 16 * 16 * 4];
        rec.capture_frame(at(i as f64 / 10.0), at(i as f64 / 10.0), frames_between);
        driver.run(&rx, &ret);
    }
    drop(rec);
    driver.run(&rx, &ret);
    assert_eq!(driver.result, Some(Ok(())));
    let mut lines = driver.sidecar.lines();
    assert_eq!(lines.next(), Some("frame,audio_position"));
    let mut count = 0;
    for (frame, line) in lines.enumerate() {
        let mut it = line.split(',');
        assert_eq!(it.next().unwrap(), frame.to_string());
        let audio: f64 = it.next().unwrap().parse().unwrap();
        assert!((0.0..=1.0).contains(&audio));
        count += 1;
    }
    assert!(count >= 10, "expected padded frames, got {count}");
    assert_eq!(driver.video.len(), count * 16 * 16 * 4);
}

#[test]
fn buffers_come_back() {
    let (mut rec, rx, ret) = recording(QUEUE_LEN);
    let mut driver = Driver::new(Some(Action::Flush));
    rec.buffer = vec![5, 6];
    assert_eq!(rec.capture_at(at(0.25), 1), Some(0));
    driver.run(&rx, &ret);
    assert_eq!(driver.video, [5, 6]);
    assert_eq!(driver.sidecar, "frame,audio_position\n0,0.25\n");
    assert_eq!(rec.capture_at(at(0.25), 1), None);
    assert_eq!(rec.buffer, [5, 6]);
}

#[test]
fn the_encoder_gets_every_picture_once() {
    let (tx, rx) = sync_channel(8);
    let (ret, back) = channel();
    for i in 0..4u8 {
        tx.send(frame(&[i, 10 + i], i as f64, i as u64)).unwrap();
    }
    let mut driver = Driver::new(None);
    driver.run(&rx, &ret);
    assert_eq!(driver.video, [0, 10, 1, 11, 2, 12, 3, 13]);
    assert_eq!(back.try_iter().collect::<Vec<_>>(), [[0, 10], [1, 11], [2, 12], [3, 13]]);
    assert_eq!(driver.sidecar, "frame,audio_position\n0,0\n1,1\n2,2\n3,3\n");
}

#[test]
fn the_worker_stops_at_the_end() {
    let (tx, rx) = sync_channel(4);
    let (ret, _back) = channel();
    tx.send(frame(&[1], 1.5, 0)).unwrap();
    tx.send(Msg::End).unwrap();
    tx.send(frame(&[2], 2.5, 1)).unwrap();
    let mut driver = Driver::new(None);
    driver.run(&rx, &ret);
    assert_eq!(driver.result, Some(Ok(())));
    assert_eq!(driver.video, [1]);
    assert_eq!(driver.sidecar, "frame,audio_position\n0,1.5\n");
}

#[test]
fn the_worker_reports_what_failed() {
    let cases = [
        (Action::CreateSidecar, Err(WorkerError::CreateSidecar), ""),
        (Action::WriteHeader, Err(WorkerError::WriteHeader), ""),
        (
            Action::WriteSidecar { index: 1, audio_time: at(2.0) },
            Err(WorkerError::WriteSidecar),
            "frame,audio_position\n0,1\n",
        ),
        (Action::WriteVideo, Ok(()), "frame,audio_position\n"),
    ];
    for (fail, result, sidecar) in cases {
        let (tx, rx) = sync_channel(4);
        let (ret, _back) = channel();
        tx.send(frame(&[1], 1.0, 0)).unwrap();
        tx.send(frame(&[2], 2.0, 1)).unwrap();
        let mut driver = Driver::new(Some(fail));
        driver.run(&rx, &ret);
        assert_eq!(driver.result, Some(result));
        assert_eq!(driver.sidecar, sidecar);
    }
}

#[test]
fn sidecar_lines_read_back() {
    assert_eq!(sidecar_line(0, "0.1"), "0,0.1\n");
    assert_eq!(sidecar_line(u64::MAX, "-3"), "18446744073709551615,-3\n");
}
