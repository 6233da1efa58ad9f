//! Pixels on their way to a window: packing colours into the words that a
//! frame buffer holds, and the pixels that a mark on the frame covers.

use vstd::prelude::*;
use crate::img::{Pt, Rect};

verus! {

/// The frame-buffer word of a colour: red, green and blue in the three low
/// bytes, red highest.
pub open spec fn packed(r: u8, g: u8, b: u8) -> int {
    r * 65536 + g * 256 + b
}

/// The frame-buffer word of a colour.
pub fn pack_rgb(r: u8, g: u8, b: u8) -> (word: u32)
    ensures
        word == packed(r, g, b),
{
    let red: u32 = r as u32;
    let green: u32 = g as u32;
    let blue: u32 = b as u32;
    blue + 256 * green + 65536 * red
}

/// Fills `buffer` with the words of the pixels in `rgb`, which holds three
/// bytes for each pixel, red first, in the order of the buffer.
pub fn pack_frame(rgb: &[u8], buffer: &mut Vec<u32>)
    requires
        rgb@.len() == 3 * old(buffer)@.len(),
    ensures
        final(buffer)@.len() == old(buffer)@.len(),
        forall|i: int|
            0 <= i < final(buffer)@.len() ==> #[trigger] final(buffer)@[i] == packed(
                rgb@[3 * i],
                rgb@[3 * i + 1],
                rgb@[3 * i + 2],
            ),
{
    let n: usize = buffer.len();
    let bytes: usize = rgb.len();
    let mut i: usize = 0;
    while i < n
        invariant
            i <= n,
            n == buffer@.len(),
            bytes == rgb@.len(),
            bytes == 3 * n,
            forall|j: int|
                0 <= j < i ==> #[trigger] buffer@[j] == packed(
                    rgb@[3 * j],
                    rgb@[3 * j + 1],
                    rgb@[3 * j + 2],
                ),
        decreases n - i,
    {
        let at: usize = 3 * i;
        buffer.set(i, pack_rgb(rgb[at], rgb[at + 1], rgb[at + 2]));
        i = i + 1;
    }
}

/// `v` where it lies within `bound` pixels, else the last of them.
pub open spec fn within(v: int, bound: int) -> int {
    if v < bound {
        v
    } else {
        bound - 1
    }
}

fn keep_within(v: u32, step: u32, bound: u32) -> (r: u32)
    requires
        bound > 0,
    ensures
        r == within(v + step, bound as int),
{
    let moved: u64 = v as u64 + step as u64;
    if moved < bound as u64 {
        moved as u32
    } else {
        bound - 1
    }
}

/// The four pixels of the dot that marks `point` on a frame of `bounds`:
/// the point, its right neighbour, the pixel below that one, and the pixel
/// below the point, each moved onto the frame where it lies off it.
pub fn marker(point: Pt, bounds: (u32, u32)) -> (dots: [(u32, u32); 4])
    requires
        bounds.0 > 0,
        bounds.1 > 0,
    ensures
        dots@[0] == (within(point.x as int, bounds.0 as int) as u32, within(
            point.y as int,
            bounds.1 as int,
        ) as u32),
        dots@[1] == (within(point.x + 1, bounds.0 as int) as u32, within(
            point.y as int,
            bounds.1 as int,
        ) as u32),
        dots@[2] == (within(point.x + 1, bounds.0 as int) as u32, within(
            point.y + 1,
            bounds.1 as int,
        ) as u32),
        dots@[3] == (within(point.x as int, bounds.0 as int) as u32, within(
            point.y + 1,
            bounds.1 as int,
        ) as u32),
{
    let x0: u32 = keep_within(point.x, 0, bounds.0);
    let x1: u32 = keep_within(point.x, 1, bounds.0);
    let y0: u32 = keep_within(point.y, 0, bounds.1);
    let y1: u32 = keep_within(point.y, 1, bounds.1);
    [(x0, y0), (x1, y0), (x1, y1), (x0, y1)]
}

/// The pixels of the frame drawn for `rect`, in the order in which they are
/// painted: for each column of the rectangle the pixel on its top row and
/// the one on the row below its last; then for each row the pixel in its
/// left column and the one in the column right of its last.
pub open spec fn outline(rect: Rect) -> Seq<(u32, u32)> {
    Seq::new(
        2 * rect.w as nat,
        |i: int|
            (
                (rect.x + i / 2) as u32,
                if i % 2 == 0 {
                    rect.y
                } else {
                    (rect.y + rect.h) as u32
                },
            ),
    ) + Seq::new(
        2 * rect.h as nat,
        |i: int|
            (
                if i % 2 == 0 {
                    rect.x
                } else {
                    (rect.x + rect.w) as u32
                },
                (rect.y + i / 2) as u32,
            ),
    )
}

/// The pixels to paint for the frame of `rect`.
pub fn frame_pixels(rect: Rect) -> (dots: Vec<(u32, u32)>)
    requires
        rect.x + rect.w <= u32::MAX,
        rect.y + rect.h <= u32::MAX,
    ensures
        dots@ == outline(rect),
{
    let right: u32 = rect.x + rect.w;
    let below: u32 = rect.y + rect.h;
    let mut dots: Vec<(u32, u32)> = Vec::new();
    let mut x: u32 = rect.x;
    while x < right
        invariant
            rect.x <= x <= right,
            right == rect.x + rect.w,
            below == rect.y + rect.h,
            dots@ == outline(rect).take(2 * (x - rect.x)),
        decreases right - x,
    {
        dots.push((x, rect.y));
        dots.push((x, below));
        assert(dots@ =~= outline(rect).take(2 * (x + 1 - rect.x)));
        x = x + 1;
    }
    let mut y: u32 = rect.y;
    while y < below
        invariant
            rect.y <= y <= below,
            right == rect.x + rect.w,
            below == rect.y + rect.h,
            dots@ == outline(rect).take(2 * rect.w + 2 * (y - rect.y)),
        decreases below - y,
    {
        dots.push((rect.x, y));
        dots.push((right, y));
        assert(dots@ =~= outline(rect).take(2 * rect.w + 2 * (y + 1 - rect.y)));
        y = y + 1;
    }
    assert(dots@ =~= outline(rect));
    dots
}

/// The image that shows the brightness of a packed YUYV frame: three equal
/// bytes for each pixel of `width * height`, which are the pixel's
/// brightness where `yuyv` holds it, two bytes a pixel with the brightness
/// first, and zero beyond the end of `yuyv`.
pub open spec fn grey(yuyv: Seq<u8>, width: nat, height: nat) -> Seq<u8> {
    Seq::new(
        3 * (width * height),
        |i: int|
            if i / 3 < yuyv.len() / 2 {
                yuyv[2 * (i / 3)]
            } else {
                0u8
            },
    )
}

/// The grey image of a YUYV frame, as the bytes of its pixels, red first.
/// `None` where an image of `width * height` pixels is too large to hold.
pub fn image_from_yuyv(yuyv: &[u8], width: u32, height: u32) -> (image: Option<Vec<u8>>)
    ensures
        image is Some <==> 3 * (width * height) <= usize::MAX,
        image matches Some(bytes) ==> bytes@ == grey(yuyv@, width as nat, height as nat),
{
    assert(0 <= width * height <= 0xffff_ffff * 0xffff_ffff) by (nonlinear_arith)
        requires
            0 <= width <= 0xffff_ffff,
            0 <= height <= 0xffff_ffff,
    ;
    let pixels: u128 = width as u128 * height as u128;
    if 3 * pixels > usize::MAX as u128 {
        return None;
    }
    let n: usize = pixels as usize;
    let known: usize = yuyv.len() / 2;
    let mut bytes: Vec<u8> = Vec::new();
    let mut i: usize = 0;
    while i < n
        invariant
            i <= n,
            n == width * height,
            3 * n <= usize::MAX,
            known == yuyv@.len() / 2,
            bytes@ == grey(yuyv@, width as nat, height as nat).take(3 * i),
        decreases n - i,
    {
        let p: u8 = if i < known {
            yuyv[2 * i]
        } else {
            0
        };
        bytes.push(p);
        bytes.push(p);
        bytes.push(p);
        assert(bytes@ =~= grey(yuyv@, width as nat, height as nat).take(3 * (i + 1)));
        i = i + 1;
    }
    assert(bytes@ =~= grey(yuyv@, width as nat, height as nat));
    Some(bytes)
}

} // verus!
