use prpr_recorder::names::{
    default_record_dir_name, record_dir, sanitize_name, set_record_dir, sidecar_file_name, video_file_name, RecordDir,
};
use std::path::PathBuf;

#[test]
fn replaces_reserved_characters() {
    assert_eq!(sanitize_name("a<b>c:d\"e/f\\g|h?i*j"), "a_b_c_d_e_f_g_h_i_j");
    assert_eq!(sanitize_name("tab\tnew\nline\u{7f}\u{85}"), "tab_new_line__");
    assert_eq!(sanitize_name("曲名 (feat. 歌手)"), "曲名 (feat. 歌手)");
}

#[test]
fn trims_dots_and_spaces_at_the_end_only() {
    assert_eq!(sanitize_name(" .name. . "), " .name");
    assert_eq!(sanitize_name("..."), "");
    assert_eq!(sanitize_name(""), "");
    assert_eq!(sanitize_name("a/."), "a_");
}

#[test]
fn keeps_the_first_characters() {
    let long = "é".repeat(130);
    assert_eq!(sanitize_name(&long), "é".repeat(120));
    assert_eq!(sanitize_name(&"x".repeat(120)), "x".repeat(120));
    // What is cut off is not looked at again.
    let cut = format!("{}. y", "x".repeat(119));
    assert_eq!(sanitize_name(&cut), format!("{}.", "x".repeat(119)));
    assert_eq!(sanitize_name(&sanitize_name(&cut)), "x".repeat(119));
}

#[test]
fn control_characters_are_those_of_unicode() {
    for code in 0..=0x10ffffu32 {
        if let Some(ch) = char::from_u32(code) {
            let text = format!("{ch}!");
            let replaced = ch.is_control() || "<>:\"/\\|?*".contains(ch);
            let expected = if replaced { "_!".to_string() } else { text.clone() };
            if code < 0x3000 || code % 0x101 == 0 || ch.is_control() {
                assert_eq!(sanitize_name(&text), expected);
            }
        }
    }
}

#[test]
fn clean_names_are_kept() {
    for name in ["test chart", "a.b.c", ".hidden", "_", "名前"] {
        assert_eq!(sanitize_name(name), name);
    }
}

#[test]
fn first_record_dir_wins() {
    let fallback = PathBuf::from("/tmp").join(default_record_dir_name());
    let mut slot: RecordDir<PathBuf> = RecordDir::unset();
    assert_eq!(record_dir(&slot, &fallback), &PathBuf::from("/tmp/phira-recordings"));
    set_record_dir(&mut slot, PathBuf::from("/cache"));
    assert_eq!(record_dir(&slot, &fallback), &PathBuf::from("/cache"));
    set_record_dir(&mut slot, PathBuf::from("/other"));
    assert_eq!(record_dir(&slot, &fallback), &PathBuf::from("/cache"));
}

#[test]
fn files_share_the_timestamp() {
    assert_eq!(video_file_name(1700000000123), "recording-1700000000123.mp4");
    assert_eq!(sidecar_file_name(1700000000123), "recording-1700000000123.csv");
    assert_eq!(video_file_name(0), "recording-0.mp4");
    assert_eq!(sidecar_file_name(u128::MAX), format!("recording-{}.csv", u128::MAX));
    let base = PathBuf::from("dir").join(format!("recording-{}", 42));
    assert_eq!(PathBuf::from("dir").join(video_file_name(42)), base.with_extension("mp4"));
    assert_eq!(PathBuf::from("dir").join(sidecar_file_name(42)), base.with_extension("csv"));
}
