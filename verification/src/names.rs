//! Where recordings are saved and what their files are called.

use crate::text::push_decimal;
use vstd::prelude::*;

verus! {

/// The most characters that a cleaned name keeps.
pub const MAX_NAME_LEN: usize = 120;

/// The control characters: the code points of the general category Cc.
pub open spec fn control(ch: char) -> bool {
    (ch as u32) < 0x20 || 0x7f <= (ch as u32) <= 0x9f
}

/// The characters that some file system gives a meaning of its own.
pub open spec fn reserved(ch: char) -> bool {
    ch == '<' || ch == '>' || ch == ':' || ch == '"' || ch == '/' || ch == '\\' || ch == '|' || ch
        == '?' || ch == '*'
}

/// The characters that a name must not end with.
pub open spec fn trailing(ch: char) -> bool {
    ch == '.' || ch == ' '
}

pub open spec fn clean_char(ch: char) -> char {
    if reserved(ch) || control(ch) {
        '_'
    } else {
        ch
    }
}

/// `text` without the dots and spaces at its end.
pub open spec fn trim_end(text: Seq<char>) -> Seq<char>
    decreases text.len(),
{
    if text.len() > 0 && trailing(text.last()) {
        trim_end(text.drop_last())
    } else {
        text
    }
}

/// The first characters of `text`, at most `count` of them.
pub open spec fn at_most_first(text: Seq<char>, count: int) -> Seq<char> {
    if text.len() > count {
        text.take(count)
    } else {
        text
    }
}

pub open spec fn clean_chars(name: Seq<char>) -> Seq<char> {
    Seq::new(name.len(), |i: int| clean_char(name[i]))
}

/// What a name becomes: each reserved or control character is replaced by an
/// underscore, then dots and spaces are taken off the end, then all but the first
/// characters are dropped.
pub open spec fn sanitized(name: Seq<char>) -> Seq<char> {
    at_most_first(trim_end(clean_chars(name)), MAX_NAME_LEN as int)
}

/// Clean a string so it is safe to use as part of a file path.
pub fn sanitize_name(name: &str) -> (out: String)
    ensures
        out@ == sanitized(name@),
{
    let mut kept: Vec<char> = Vec::new();
    for ch in it: name.chars()
        invariant
            it.seq() == name@,
            kept@ == clean_chars(name@.take(it.index() as int)),
    {
        kept.push(cleaned(ch));
        assert(kept@ =~= clean_chars(name@.take(it.index() + 1)));
    }
    assert(name@.take(name@.len() as int) =~= name@);
    while kept.len() > 0 && is_trailing(kept[kept.len() - 1])
        invariant
            trim_end(kept@) == trim_end(clean_chars(name@)),
        decreases kept.len(),
    {
        assert(kept@.drop_last() =~= kept@.subrange(0, kept@.len() - 1));
        kept.pop();
    }
    let mut out: String = String::new();
    let mut i: usize = 0;
    while i < kept.len() && i < MAX_NAME_LEN
        invariant
            i <= kept.len(),
            i <= MAX_NAME_LEN,
            out@ == kept@.take(i as int),
        decreases kept.len() - i,
    {
        out.push(kept[i]);
        i = i + 1;
        assert(out@ =~= kept@.take(i as int));
    }
    assert(kept@.take(kept@.len() as int) =~= kept@);
    out
}

fn is_trailing(ch: char) -> (answer: bool)
    ensures
        answer == trailing(ch),
{
    ch == '.' || ch == ' '
}

fn cleaned(ch: char) -> (out: char)
    ensures
        out == clean_char(ch),
{
    let code: u32 = ch as u32;
    if ch == '<' || ch == '>' || ch == ':' || ch == '"' || ch == '/' || ch == '\\' || ch == '|'
        || ch == '?' || ch == '*' || code < 0x20 || (0x7f <= code && code <= 0x9f) {
        '_'
    } else {
        ch
    }
}

/// The directory that recordings are saved under, once one has been chosen. `P` is
/// the type of a path.
pub struct RecordDir<P> {
    dir: Option<P>,
}

impl<P> RecordDir<P> {
    pub closed spec fn chosen(self) -> Option<P> {
        self.dir
    }

    /// No directory has been chosen yet.
    pub fn unset() -> (out: RecordDir<P>)
        ensures
            out.chosen() is None,
    {
        RecordDir { dir: None }
    }
}

/// The choice after one more request for `dir`: the first request is kept.
pub open spec fn choice_after<P>(chosen: Option<P>, dir: P) -> Option<P> {
    match chosen {
        Some(first) => Some(first),
        None => Some(dir),
    }
}

/// Set the directory where recordings are written (e.g. the app cache dir). Only
/// the first call for a slot has an effect.
pub fn set_record_dir<P>(slot: &mut RecordDir<P>, dir: P)
    ensures
        final(slot).chosen() == choice_after(old(slot).chosen(), dir),
        old(slot).chosen() is Some ==> final(slot).chosen() == old(slot).chosen(),
        old(slot).chosen() is None ==> final(slot).chosen() == Some(dir),
{
    if slot.dir.is_none() {
        slot.dir = Some(dir);
    }
}

/// The root directory recordings are saved under: the chosen one, else `default`.
pub fn record_dir<'a, P>(slot: &'a RecordDir<P>, default: &'a P) -> (dir: &'a P)
    ensures
        *dir == (match slot.chosen() {
            Some(first) => first,
            None => *default,
        }),
{
    match &slot.dir {
        Some(first) => first,
        None => default,
    }
}

/// What the files of a recording share: its timestamp in milliseconds.
pub open spec fn file_stem(timestamp: u128) -> Seq<char> {
    "recording-"@ + crate::text::decimal(timestamp as nat)
}

fn recording_file_name(timestamp: u128, extension: &str) -> (name: String)
    ensures
        name@ == file_stem(timestamp) + extension@,
{
    let mut name: String = "recording-".to_owned();
    push_decimal(&mut name, timestamp);
    name.append(extension);
    name
}

/// The name of the video of a recording.
pub fn video_file_name(timestamp: u128) -> (name: String)
    ensures
        name@ == file_stem(timestamp) + ".mp4"@,
        name@ == "recording-"@ + crate::text::decimal(timestamp as nat) + ".mp4"@,
{
    recording_file_name(timestamp, ".mp4")
}

/// The name of the list of audio positions of a recording.
pub fn sidecar_file_name(timestamp: u128) -> (name: String)
    ensures
        name@ == file_stem(timestamp) + ".csv"@,
        name@ == "recording-"@ + crate::text::decimal(timestamp as nat) + ".csv"@,
{
    recording_file_name(timestamp, ".csv")
}

/// The name of the directory for recordings in the directory for temporary files, for
/// want of a chosen one.
pub fn default_record_dir_name() -> (name: &'static str)
    ensures
        name@ == "phira-recordings"@,
{
    "phira-recordings"
}

/// Files of recordings with different timestamps have different names.
pub proof fn law_file_names_are_distinct(timestamp1: u128, timestamp2: u128)
    ensures
        file_stem(timestamp1) == file_stem(timestamp2) ==> timestamp1 == timestamp2,
        file_stem(timestamp1) + ".mp4"@ != file_stem(timestamp2) + ".csv"@,
        file_stem(timestamp1) + ".mp4"@ == file_stem(timestamp2) + ".mp4"@ ==> timestamp1
            == timestamp2,
        file_stem(timestamp1) + ".csv"@ == file_stem(timestamp2) + ".csv"@ ==> timestamp1
            == timestamp2,
{
    let digits1 = crate::text::decimal(timestamp1 as nat);
    let digits2 = crate::text::decimal(timestamp2 as nat);
    let stem1 = file_stem(timestamp1);
    let stem2 = file_stem(timestamp2);
    crate::text::law_decimal_reads_back(timestamp1 as nat);
    crate::text::law_decimal_reads_back(timestamp2 as nat);
    reveal_strlit("recording-");
    reveal_strlit(".mp4");
    reveal_strlit(".csv");
    if stem1 == stem2 {
        assert(digits1 =~= stem1.skip("recording-"@.len() as int));
        assert(digits2 =~= stem2.skip("recording-"@.len() as int));
    }
    let mp4 = stem1 + ".mp4"@;
    let csv = stem2 + ".csv"@;
    assert(mp4.last() == '4');
    assert(csv.last() == 'v');
    if stem1 + ".mp4"@ == stem2 + ".mp4"@ {
        assert(stem1 =~= (stem1 + ".mp4"@).take(stem1.len() as int));
        assert(stem2 =~= (stem2 + ".mp4"@).take(stem2.len() as int));
        assert(stem1.len() == stem2.len());
    }
    if stem1 + ".csv"@ == stem2 + ".csv"@ {
        assert(stem1 =~= (stem1 + ".csv"@).take(stem1.len() as int));
        assert(stem2 =~= (stem2 + ".csv"@).take(stem2.len() as int));
        assert(stem1.len() == stem2.len());
    }
}

/// Only the first request for a directory counts.
pub proof fn law_first_choice_stays<P>(chosen: Option<P>, dir: P, later: P)
    ensures
        choice_after(choice_after(chosen, dir), later) == choice_after(chosen, dir),
        choice_after(None, dir) == Some(dir),
        chosen is Some ==> choice_after(chosen, dir) == chosen,
{
}

proof fn lemma_trim_end(text: Seq<char>)
    ensures
        trim_end(text).len() <= text.len(),
        trim_end(text) == text.take(trim_end(text).len() as int),
        trim_end(text).len() > 0 ==> !trailing(trim_end(text).last()),
        forall|i: int| trim_end(text).len() <= i < text.len() ==> trailing(#[trigger] text[i]),
    decreases text.len(),
{
    if text.len() > 0 && trailing(text.last()) {
        let fewer = text.drop_last();
        lemma_trim_end(fewer);
        assert(text.take(trim_end(text).len() as int) =~= fewer.take(trim_end(text).len() as int));
        assert forall|i: int| trim_end(text).len() <= i < text.len() implies trailing(
            #[trigger] text[i],
        ) by {
            if i < fewer.len() {
                assert(fewer[i] == text[i]);
            }
        }
    } else {
        assert(text.take(text.len() as int) =~= text);
    }
}

/// A cleaned name is safe to use as part of a file path: it is short, holds no character
/// that a file system gives a meaning of its own, and stands neither for the current
/// nor for the parent directory.
pub proof fn law_clean_name_is_safe(name: Seq<char>)
    ensures
        sanitized(name).len() <= MAX_NAME_LEN,
        sanitized(name).len() <= name.len(),
        forall|i: int|
            0 <= i < sanitized(name).len() ==> !reserved(#[trigger] sanitized(name)[i]) && !control(
                sanitized(name)[i],
            ),
        sanitized(name) != "."@,
        sanitized(name) != ".."@,
{
    lemma_trim_end(clean_chars(name));
    reveal_strlit(".");
    reveal_strlit("..");
    let trimmed = trim_end(clean_chars(name));
    assert forall|i: int| 0 <= i < sanitized(name).len() implies !reserved(
        #[trigger] sanitized(name)[i],
    ) && !control(sanitized(name)[i]) by {
        assert(sanitized(name)[i] == clean_char(name[i]));
    }
    if sanitized(name) == "."@ || sanitized(name) == ".."@ {
        assert(sanitized(name) == trimmed);
        assert(trimmed.last() == '.');
    }
}

/// A cleaned name does not end with a dot or a space, unless it was cut off there.
pub proof fn law_clean_name_end(name: Seq<char>)
    requires
        trim_end(clean_chars(name)).len() <= MAX_NAME_LEN,
    ensures
        sanitized(name).len() > 0 ==> !trailing(sanitized(name).last()),
{
    lemma_trim_end(clean_chars(name));
}

/// Cleaning leaves a name alone that is clean already: short, without reserved or control
/// characters and without a dot or a space at its end.
pub proof fn law_clean_name_is_kept(name: Seq<char>)
    requires
        name.len() <= MAX_NAME_LEN,
        forall|i: int| 0 <= i < name.len() ==> !reserved(#[trigger] name[i]) && !control(name[i]),
        name.len() > 0 ==> !trailing(name.last()),
    ensures
        sanitized(name) == name,
{
    assert(clean_chars(name) =~= name);
}

/// Cleaning a name twice is cleaning it once, unless it was cut off behind a dot or a space.
pub proof fn law_cleaning_is_idempotent(name: Seq<char>)
    requires
        sanitized(name).len() > 0 ==> !trailing(sanitized(name).last()),
    ensures
        sanitized(sanitized(name)) == sanitized(name),
{
    law_clean_name_is_safe(name);
    law_clean_name_is_kept(sanitized(name));
}

/// The files of a recording are paired by their names, which tell its timestamp: behind
/// `recording-` stands the timestamp in decimal notation, and nothing else.
pub proof fn law_file_names_tell_the_timestamp(timestamp: u128)
    ensures
        file_stem(timestamp).take(10) == "recording-"@,
        crate::text::number(file_stem(timestamp).skip(10)) == timestamp,
        file_stem(timestamp).skip(10) == crate::text::decimal(timestamp as nat),
{
    reveal_strlit("recording-");
    crate::text::law_decimal_reads_back(timestamp as nat);
    assert(file_stem(timestamp).take(10) =~= "recording-"@);
    assert(file_stem(timestamp).skip(10) =~= crate::text::decimal(timestamp as nat));
}

/// Cleaning keeps every character in its place, but for those that a file system gives a
/// meaning of its own and for control characters: in their place stands an underscore.
pub proof fn law_cleaning_keeps_every_character(name: Seq<char>, i: int)
    requires
        0 <= i < sanitized(name).len(),
    ensures
        i < name.len(),
        ({
            let ch = name[i];
            let code = ch as u32;
            sanitized(name)[i] == (if ch == '<' || ch == '>' || ch == ':' || ch == '"' || ch == '/'
                || ch == '\\' || ch == '|' || ch == '?' || ch == '*' || code < 0x20 || 0x7f <= code
                <= 0x9f {
                '_'
            } else {
                ch
            })
        }),
{
    lemma_trim_end(clean_chars(name));
}

/// Cleaning drops nothing but dots and spaces at the end, as many as there are, and what
/// then stands behind the first 120 characters.
pub proof fn law_cleaning_drops_only_the_end(name: Seq<char>)
    ensures
        ({
            let count = sanitized(name).len();
            &&& count <= 120
            &&& count <= name.len()
            // Nothing was cut off: what is missing are dots and spaces, all of them.
            &&& count < 120 ==> forall|i: int|
                count <= i < name.len() ==> #[trigger] name[i] == '.' || name[i] == ' '
            &&& 0 < count < 120 ==> name[count - 1] != '.' && name[count - 1] != ' '
            // The rest was cut off: it did not consist of dots and spaces alone.
            &&& count == 120 ==> exists|i: int|
                119 <= i < name.len() && #[trigger] name[i] != '.' && name[i] != ' '
        }),
{
    let chars = clean_chars(name);
    let trimmed = trim_end(chars);
    let count = sanitized(name).len() as int;
    lemma_trim_end(chars);
    assert forall|i: int| 0 <= i < name.len() implies (trailing(#[trigger] name[i]) <==> trailing(
        chars[i],
    )) by {
        assert(chars[i] == clean_char(name[i]));
    }
    if count < 120 {
        assert(sanitized(name) == trimmed);
        assert forall|i: int| count <= i < name.len() implies #[trigger] name[i] == '.' || name[i]
            == ' ' by {
            assert(trailing(chars[i]));
        }
        if count > 0 {
            assert(trimmed.last() == chars[count - 1]);
            assert(!trailing(name[count - 1]));
        }
    } else {
        let end = trimmed.len() - 1;
        assert(trimmed.last() == chars[end]);
        assert(!trailing(name[end]));
    }
}

/// Names that differ where cleaning changes and drops nothing stay different.
pub proof fn law_cleaning_keeps_names_apart(name1: Seq<char>, name2: Seq<char>, i: int)
    requires
        0 <= i < sanitized(name1).len(),
        0 <= i < sanitized(name2).len(),
        name1[i] != name2[i],
        !reserved(name1[i]) && !control(name1[i]) && name1[i] != '_',
    ensures
        sanitized(name1) != sanitized(name2),
{
    law_cleaning_keeps_every_character(name1, i);
    law_cleaning_keeps_every_character(name2, i);
}

/// What `sanitize_name` returns is the name itself, from its first character on, with an
/// underscore for each character that is not safe in a path. Only dots and spaces at the end
/// are missing, and what then stands behind the first 120 characters.
pub proof fn law_sanitize_name_keeps_the_name(name: &str, out: String)
    requires
        call_ensures(sanitize_name, (name,), out),
    ensures
        out@.len() <= 120,
        out@.len() <= name@.len(),
        forall|i: int|
            0 <= i < out@.len() ==> {
                let ch = name@[i];
                let code = ch as u32;
                #[trigger] out@[i] == (if ch == '<' || ch == '>' || ch == ':' || ch == '"' || ch
                    == '/' || ch == '\\' || ch == '|' || ch == '?' || ch == '*' || code < 0x20
                    || 0x7f <= code <= 0x9f {
                    '_'
                } else {
                    ch
                })
            },
        forall|i: int|
            out@.len() <= i < name@.len() && out@.len() < 120 ==> #[trigger] name@[i] == '.'
                || name@[i] == ' ',
        0 < out@.len() < 120 ==> out@.last() != '.' && out@.last() != ' ',
{
    law_cleaning_drops_only_the_end(name@);
    assert forall|i: int| 0 <= i < out@.len() implies {
        let ch = name@[i];
        let code = ch as u32;
        #[trigger] out@[i] == (if ch == '<' || ch == '>' || ch == ':' || ch == '"' || ch == '/'
            || ch == '\\' || ch == '|' || ch == '?' || ch == '*' || code < 0x20 || 0x7f <= code
            <= 0x9f {
            '_'
        } else {
            ch
        })
    } by {
        law_cleaning_keeps_every_character(name@, i);
    }
    if 0 < out@.len() < 120 {
        law_cleaning_keeps_every_character(name@, out@.len() - 1);
    }
}

/// The video and the sidecar of a recording differ in nothing but their extensions, and
/// both tell its timestamp.
pub proof fn law_files_of_a_recording_are_paired(timestamp: u128, video: String, sidecar: String)
    requires
        call_ensures(video_file_name, (timestamp,), video),
        call_ensures(sidecar_file_name, (timestamp,), sidecar),
    ensures
        video@.len() == sidecar@.len() > 14,
        ({
            let stem = video@.take(video@.len() - 4);
            &&& video@ == stem + seq!['.', 'm', 'p', '4']
            &&& sidecar@ == stem + seq!['.', 'c', 's', 'v']
            &&& stem.take(10) == "recording-"@
            &&& crate::text::number(stem.skip(10)) == timestamp
        }),
{
    law_file_names_tell_the_timestamp(timestamp);
    crate::text::law_decimal_reads_back(timestamp as nat);
    reveal_strlit("recording-");
    reveal_strlit(".mp4");
    reveal_strlit(".csv");
    let stem = file_stem(timestamp);
    assert(".mp4"@ =~= seq!['.', 'm', 'p', '4']);
    assert(".csv"@ =~= seq!['.', 'c', 's', 'v']);
    assert(video@.take(video@.len() - 4) =~= stem);
}

/// The first directory that is set is the one that recordings are saved under, whatever is
/// set later; before any is set, it is the default.
pub proof fn law_recordings_go_to_the_first_directory<P>(
    slot: &mut RecordDir<P>,
    dir: P,
    default: &P,
    earlier: &P,
    later: &P,
)
    requires
        call_ensures(record_dir, (old(slot), default), earlier),
        call_ensures(set_record_dir, (slot, dir), ()),
        call_ensures(record_dir, (final(slot), default), later),
    ensures
        old(slot).chosen() is None ==> *earlier == *default && *later == dir,
        old(slot).chosen() is Some ==> *later == *earlier,
        final(slot).chosen() is Some,
{
}

} // verus!
