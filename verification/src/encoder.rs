//! What the video encoder is asked to do.

use crate::text::push_decimal;
use vstd::prelude::*;

verus! {

/// The frames per second of a recorded video.
pub const RECORD_FPS: u64 = 60;

/// The size of a picture, as the encoder takes it.
pub open spec fn size_text(width: u32, height: u32) -> Seq<char> {
    crate::text::decimal(width as nat) + "x"@ + crate::text::decimal(height as nat)
}

/// The arguments for the encoder, without the path of the video: raw RGBA frames from
/// the standard input, bottom row first, become a video whose sides are even.
pub open spec fn encoder_arguments(width: u32, height: u32) -> Seq<Seq<char>> {
    seq![
        "-nostdin"@,
        "-y"@,
        "-loglevel"@,
        "error"@,
        "-f"@,
        "rawvideo"@,
        "-pix_fmt"@,
        "rgba"@,
        "-video_size"@,
        size_text(width, height),
        "-framerate"@,
        crate::text::decimal(RECORD_FPS as nat),
        "-i"@,
        "pipe:0"@,
        "-vf"@,
        "vflip,scale=trunc(iw/2)*2:trunc(ih/2)*2"@,
        "-c:v"@,
        "libx264"@,
        "-preset"@,
        "veryfast"@,
        "-crf"@,
        "23"@,
        "-pix_fmt"@,
        "yuv420p"@,
    ]
}

/// The contents of some strings.
pub open spec fn texts(strings: Seq<String>) -> Seq<Seq<char>> {
    Seq::new(strings.len(), |i: int| strings[i]@)
}

fn push_text(args: &mut Vec<String>, text: &str)
    ensures
        texts(final(args)@) == texts(old(args)@).push(text@),
{
    let ghost before = args@;
    args.push(text.to_owned());
    assert(texts(args@) =~= texts(before).push(text@));
}

/// The arguments for `ffmpeg` to encode frames of the given size, all but the path of
/// the video, which comes last.
pub fn encoder_args(width: u32, height: u32) -> (args: Vec<String>)
    ensures
        texts(args@) == encoder_arguments(width, height),
        args@.len() == encoder_arguments(width, height).len(),
        forall|i: int|
            0 <= i < args@.len() ==> (#[trigger] args@[i])@ == encoder_arguments(width, height)[i],
{
    let mut size: String = String::new();
    push_decimal(&mut size, width as u128);
    size.append("x");
    push_decimal(&mut size, height as u128);
    assert(size@ =~= size_text(width, height));
    let mut rate: String = String::new();
    push_decimal(&mut rate, RECORD_FPS as u128);
    assert(rate@ =~= crate::text::decimal(RECORD_FPS as nat));
    let mut args: Vec<String> = Vec::new();
    push_text(&mut args, "-nostdin");
    push_text(&mut args, "-y");
    push_text(&mut args, "-loglevel");
    push_text(&mut args, "error");
    push_text(&mut args, "-f");
    push_text(&mut args, "rawvideo");
    push_text(&mut args, "-pix_fmt");
    push_text(&mut args, "rgba");
    push_text(&mut args, "-video_size");
    push_text(&mut args, size.as_str());
    push_text(&mut args, "-framerate");
    push_text(&mut args, rate.as_str());
    push_text(&mut args, "-i");
    push_text(&mut args, "pipe:0");
    push_text(&mut args, "-vf");
    push_text(&mut args, "vflip,scale=trunc(iw/2)*2:trunc(ih/2)*2");
    push_text(&mut args, "-c:v");
    push_text(&mut args, "libx264");
    push_text(&mut args, "-preset");
    push_text(&mut args, "veryfast");
    push_text(&mut args, "-crf");
    push_text(&mut args, "23");
    push_text(&mut args, "-pix_fmt");
    push_text(&mut args, "yuv420p");
    assert(texts(args@) =~= encoder_arguments(width, height));
    assert forall|i: int| 0 <= i < args@.len() implies (#[trigger] args@[i])@
        == encoder_arguments(width, height)[i] by {
        assert(texts(args@)[i] == args@[i]@);
    }
    args
}

/// The encoder is told the size of the pictures: the argument behind `-video_size` is two
/// numbers in decimal notation with an `x` between them, first the width and then the
/// height.
pub proof fn law_size_reads_back(width: u32, height: u32)
    ensures
        encoder_arguments(width, height)[8] == "-video_size"@,
        ({
            let size = encoder_arguments(width, height)[9];
            exists|x: int|
                0 < x < size.len() - 1 && #[trigger] size[x] == 'x' && crate::text::number(
                    size.take(x),
                ) == width && crate::text::number(size.skip(x + 1)) == height && size.take(x)
                    == crate::text::decimal(width as nat) && size.skip(x + 1)
                    == crate::text::decimal(height as nat) && forall|i: int|
                    0 <= i < size.len() && i != x ==> '0' <= #[trigger] size[i] <= '9'
        }),
{
    let size = encoder_arguments(width, height)[9];
    let w = crate::text::decimal(width as nat);
    let h = crate::text::decimal(height as nat);
    let x = w.len() as int;
    crate::text::law_decimal_reads_back(width as nat);
    crate::text::law_decimal_reads_back(height as nat);
    reveal_strlit("x");
    assert(size.len() == w.len() + 1 + h.len());
    assert(size[x] == 'x');
    assert(size.take(x) =~= w);
    assert(size.skip(x + 1) =~= h);
    assert forall|i: int| 0 <= i < size.len() && i != x implies '0' <= #[trigger] size[i]
        <= '9' by {
        if i < x {
            assert(size[i] == w[i]);
        } else {
            assert(size[i] == h[i - x - 1]);
        }
    }
}

/// Pictures of different sizes are announced differently, and nothing else that the encoder
/// is told depends on their size.
pub proof fn law_only_the_size_differs(width1: u32, height1: u32, width2: u32, height2: u32)
    ensures
        encoder_arguments(width1, height1).len() == encoder_arguments(width2, height2).len(),
        forall|i: int|
            0 <= i < encoder_arguments(width1, height1).len() && i != 9 ==> #[trigger] encoder_arguments(
                width1,
                height1,
            )[i] == encoder_arguments(width2, height2)[i],
        encoder_arguments(width1, height1)[9] == encoder_arguments(width2, height2)[9] ==> width1
            == width2 && height1 == height2,
{
    let size1 = encoder_arguments(width1, height1)[9];
    let size2 = encoder_arguments(width2, height2)[9];
    law_size_reads_back(width1, height1);
    law_size_reads_back(width2, height2);
    if size1 == size2 {
        let x1 = choose|x: int|
            0 < x < size1.len() - 1 && #[trigger] size1[x] == 'x' && crate::text::number(
                size1.take(x),
            ) == width1 && crate::text::number(size1.skip(x + 1)) == height1 && size1.take(x)
                == crate::text::decimal(width1 as nat) && size1.skip(x + 1)
                == crate::text::decimal(height1 as nat) && forall|i: int|
                0 <= i < size1.len() && i != x ==> '0' <= #[trigger] size1[i] <= '9';
        let x2 = choose|x: int|
            0 < x < size2.len() - 1 && #[trigger] size2[x] == 'x' && crate::text::number(
                size2.take(x),
            ) == width2 && crate::text::number(size2.skip(x + 1)) == height2 && size2.take(x)
                == crate::text::decimal(width2 as nat) && size2.skip(x + 1)
                == crate::text::decimal(height2 as nat) && forall|i: int|
                0 <= i < size2.len() && i != x ==> '0' <= #[trigger] size2[i] <= '9';
        assert(size1[x1] == 'x' && size1[x2] == 'x');
        assert(x1 == x2);
    }
}

/// The encoder reads sixty raw RGBA frames a second from its standard input, turns them
/// upside down, since their bottom row comes first, and writes a video of even sides.
pub proof fn law_encoder_reads_raw_frames(width: u32, height: u32)
    ensures
        ({
            let args = encoder_arguments(width, height);
            &&& args.len() == 24
            // It asks nothing, replaces the file and tells of errors only.
            &&& args[0] == "-nostdin"@ && args[1] == "-y"@
            &&& args[2] == "-loglevel"@ && args[3] == "error"@
            // What comes in.
            &&& args[4] == "-f"@ && args[5] == "rawvideo"@
            &&& args[6] == "-pix_fmt"@ && args[7] == "rgba"@
            &&& args[8] == "-video_size"@
            &&& args[10] == "-framerate"@ && crate::text::number(args[11]) == 60 && args[11]
                == seq!['6', '0']
            &&& args[12] == "-i"@ && args[13] == "pipe:0"@
            // What comes out.
            &&& args[14] == "-vf"@ && args[15] == "vflip,scale=trunc(iw/2)*2:trunc(ih/2)*2"@
            &&& args[16] == "-c:v"@ && args[17] == "libx264"@
            &&& args[18] == "-preset"@ && args[19] == "veryfast"@
            &&& args[20] == "-crf"@ && args[21] == "23"@
            &&& args[22] == "-pix_fmt"@ && args[23] == "yuv420p"@
        }),
{
    let rate = crate::text::decimal(60);
    crate::text::law_decimal_reads_back(60);
    assert(crate::text::decimal(6) =~= seq!['6']);
    assert(rate =~= seq!['6', '0']);
}

/// What `encoder_args` returns tells the encoder the size of the pictures: behind
/// `-video_size` the width stands before the `x` and the height behind it.
pub proof fn law_encoder_args_tell_the_size(width: u32, height: u32, args: Vec<String>, x: int)
    requires
        call_ensures(encoder_args, (width, height), args),
        0 <= x < args@[9]@.len(),
        args@[9]@[x] == 'x',
    ensures
        args@.len() == 24,
        args@[8]@ == "-video_size"@,
        crate::text::number(args@[9]@.take(x)) == width,
        crate::text::number(args@[9]@.skip(x + 1)) == height,
{
    law_encoder_reads_raw_frames(width, height);
    law_size_reads_back(width, height);
    let size = encoder_arguments(width, height)[9];
    assert(args@[9]@ == size);
    let at = choose|at: int|
        0 < at < size.len() - 1 && #[trigger] size[at] == 'x' && crate::text::number(size.take(at))
            == width && crate::text::number(size.skip(at + 1)) == height && size.take(at)
            == crate::text::decimal(width as nat) && size.skip(at + 1) == crate::text::decimal(
            height as nat,
        ) && forall|i: int|
            0 <= i < size.len() && i != at ==> '0' <= #[trigger] size[i] <= '9';
    assert(x == at);
    assert(args@[8]@ == encoder_arguments(width, height)[8]);
}

} // verus!
