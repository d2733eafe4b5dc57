use prpr_recorder::encoder::{encoder_args, RECORD_FPS};
use prpr_recorder::framebuffer::prepare_read;
use prpr_recorder::text::push_decimal;

#[test]
fn encoder_gets_size_and_rate() {
    let expected = [
        "-nostdin", "-y", "-loglevel", "error", "-f", "rawvideo", "-pix_fmt", "rgba", "-video_size", "1920x1080",
        "-framerate", "60", "-i", "pipe:0", "-vf", "vflip,scale=trunc(iw/2)*2:trunc(ih/2)*2", "-c:v", "libx264",
        "-preset", "veryfast", "-crf", "23", "-pix_fmt", "yuv420p",
    ];
    assert_eq!(encoder_args(1920, 1080), expected);
    assert_eq!(encoder_args(0, u32::MAX)[9], "0x4294967295");
    assert_eq!(RECORD_FPS, 60);
}

#[test]
fn decimals_match_display() {
    for value in [0u128, 7, 9, 10, 11, 99, 100, 12345678901234567890, u128::MAX] {
        let mut text = String::from(">");
        push_decimal(&mut text, value);
        assert_eq!(text, format!(">{value}"));
        assert_eq!(text[1..].parse::<u128>().unwrap(), value);
    }
}

#[test]
fn rows_are_counted_from_the_bottom() {
    let mut buf = vec![1u8, 2, 3];
    assert_eq!(prepare_read((10, 20, 2, 3), 100, &mut buf), Some(77));
    assert_eq!(buf.len(), 24);
    assert_eq!(&buf[..5], &[1, 2, 3, 0, 0]);
    assert_eq!(prepare_read((0, 0, 1, 1), 1, &mut buf), Some(0));
    assert_eq!(buf, [1, 2, 3, 0]);
    // A viewport that reaches below the framebuffer is read from its last row.
    assert_eq!(prepare_read((0, 50, 1, 100), 100, &mut buf), Some(0));
    assert_eq!(prepare_read((0, 0, 0, 5), 10, &mut buf), Some(5));
    assert!(buf.is_empty());
}

#[test]
fn viewports_out_of_range_are_refused() {
    let mut buf = vec![9u8];
    assert_eq!(prepare_read((0, 0, 40000, 40000), 100, &mut buf), None);
    assert_eq!(prepare_read((0, 0, 65536, 8192), 100, &mut buf), None);
    assert_eq!(prepare_read((0, 0, -1, 1), 100, &mut buf), None);
    assert_eq!(prepare_read((0, i32::MIN, 1, 1), 100, &mut buf), None);
    assert_eq!(prepare_read((0, 2, 1, i32::MAX), i32::MIN + 5, &mut buf), None);
    assert_eq!(buf, [9]);
    assert_eq!(prepare_read((0, 0, -1, -2), 100, &mut buf), Some(102));
    assert_eq!(buf.len(), 8);
}
