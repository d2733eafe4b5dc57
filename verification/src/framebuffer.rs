//! Which part of the framebuffer a frame is read from.

use vstd::prelude::*;

verus! {

/// Whether a number fits the coordinates of the framebuffer.
pub open spec fn in_range(value: int) -> bool {
    i32::MIN <= value <= i32::MAX
}

/// Whether a viewport can be read: the number of its bytes and its lower edge can be
/// computed in the coordinates of the framebuffer, and the former is not negative.
pub open spec fn readable(viewport: (i32, i32, i32, i32), framebuffer_height: i32) -> bool {
    let (x, y, w, h) = viewport;
    &&& in_range(framebuffer_height - y)
    &&& in_range(framebuffer_height - y - h)
    &&& in_range(w * h)
    &&& in_range(w * h * 4)
    &&& 0 <= w * h * 4
}

/// Make room in `buf` for the RGBA bytes of a viewport, and tell the row of the
/// framebuffer from which they are read.
///
/// `viewport` is `(x, y, w, h)` with a top-left origin, while the rows of the
/// framebuffer are counted from the bottom. Returns `None`, with `buf` unchanged, if
/// the viewport is not readable.
pub fn prepare_read(
    viewport: (i32, i32, i32, i32),
    framebuffer_height: i32,
    buf: &mut Vec<u8>,
) -> (row: Option<i32>)
    ensures
        row is Some <==> readable(viewport, framebuffer_height),
        row matches Some(row) ==> {
            let (x, y, w, h) = viewport;
            let below = framebuffer_height - y - h;
            &&& row == (if below < 0 { 0int } else { below })
            &&& final(buf)@.len() == w * h * 4
            &&& forall|i: int|
                0 <= i < final(buf)@.len() ==> #[trigger] final(buf)@[i] == (if i < old(buf)@.len() {
                    old(buf)@[i]
                } else {
                    0u8
                })
        },
        row is None ==> final(buf)@ == old(buf)@,
{
    let (_, y, w, h) = viewport;
    let above: Option<i32> = framebuffer_height.checked_sub(y);
    let below: Option<i32> = match above {
        Some(rows) => rows.checked_sub(h),
        None => None,
    };
    let pixels: Option<i32> = w.checked_mul(h);
    let bytes: Option<i32> = match pixels {
        Some(count) => count.checked_mul(4),
        None => None,
    };
    match (below, bytes) {
        (Some(below), Some(bytes)) => {
            if bytes < 0 {
                return None;
            }
            let ghost before = buf@;
            buf.resize(bytes as usize, 0);
            proof {
                assert forall|i: int| 0 <= i < buf@.len() implies #[trigger] buf@[i] == (if i
                    < before.len() {
                    before[i]
                } else {
                    0u8
                }) by {
                    if before.len() < bytes && i < before.len() {
                        assert(buf@.subrange(0, before.len() as int)[i] == before[i]);
                    }
                }
            }
            Some(if below < 0 { 0 } else { below })
        },
        _ => None,
    }
}

/// A viewport is readable exactly if nothing that is computed of it leaves the range of
/// 32 bits, and it does not have a negative number of pixels.
pub proof fn law_readable_is_in_range(viewport: (i32, i32, i32, i32), framebuffer_height: i32)
    ensures
        ({
            let (x, y, w, h) = viewport;
            readable(viewport, framebuffer_height) <==> -0x8000_0000 <= framebuffer_height - y
                <= 0x7fff_ffff && -0x8000_0000 <= framebuffer_height - y - h <= 0x7fff_ffff && 0
                <= w * h * 4 <= 0x7fff_ffff
        }),
{
    let (x, y, w, h) = viewport;
    assert(0 <= w * h * 4 <= 0x7fff_ffff ==> 0 <= w * h <= 0x7fff_ffff);
}

/// The rows of the framebuffer are counted from the bottom: a viewport that lies inside the
/// framebuffer is readable, and above the rows that are read stand as many as the viewport
/// has above it. Each of its pixels has room for four bytes.
pub proof fn law_rows_are_counted_from_the_bottom(
    viewport: (i32, i32, i32, i32),
    framebuffer_height: i32,
    buf: &mut Vec<u8>,
    row: Option<i32>,
)
    requires
        call_ensures(prepare_read, (viewport, framebuffer_height, buf), row),
        viewport.1 >= 0,
        viewport.2 >= 0,
        viewport.3 >= 0,
        viewport.1 + viewport.3 <= framebuffer_height,
        viewport.2 * viewport.3 * 4 <= 0x7fff_ffff,
    ensures
        row is Some,
        row->0 >= 0,
        row->0 + viewport.3 + viewport.1 == framebuffer_height,
        final(buf)@.len() == viewport.2 * viewport.3 * 4,
{
    let (x, y, w, h) = viewport;
    assert(0 <= w * h) by (nonlinear_arith)
        requires
            w >= 0,
            h >= 0,
    ;
    law_readable_is_in_range(viewport, framebuffer_height);
}

/// A viewport that reaches below the framebuffer is read from the lowest row. What the
/// buffer held stays where there is room for it, and the rest is zero.
pub proof fn law_read_starts_at_the_lowest_row(
    viewport: (i32, i32, i32, i32),
    framebuffer_height: i32,
    buf: &mut Vec<u8>,
    row: Option<i32>,
)
    requires
        call_ensures(prepare_read, (viewport, framebuffer_height, buf), row),
    ensures
        row is Some && viewport.1 + viewport.3 >= framebuffer_height ==> row->0 == 0,
        row is Some && viewport.1 + viewport.3 <= framebuffer_height ==> row->0 + viewport.1
            + viewport.3 == framebuffer_height,
        row is Some ==> final(buf)@.len() == viewport.2 * viewport.3 * 4,
        row is Some ==> forall|i: int|
            0 <= i < final(buf)@.len() ==> #[trigger] final(buf)@[i] == (if i < old(buf)@.len() {
                old(buf)@[i]
            } else {
                0u8
            }),
        row is None ==> final(buf)@ == old(buf)@,
{
}

} // verus!
