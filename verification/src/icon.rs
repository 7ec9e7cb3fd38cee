//! Pixel conversion for the application icon.

use vstd::prelude::*;

verus! {

/// A colour channel without the alpha that was multiplied into it: the
/// channel times 255 over alpha, rounded to nearest and held at 255; 0 for
/// a pixel that is fully transparent.
pub open spec fn unpremultiplied(c: u8, a: u8) -> u8 {
    if a == 0 {
        0
    } else {
        let v = (c as int * 255 + a as int / 2) / (a as int);
        if v > 255 {
            255u8
        } else {
            v as u8
        }
    }
}

fn unpremultiply(c: u8, a: u8) -> (r: u8)
    requires
        a != 0,
    ensures
        r == unpremultiplied(c, a),
{
    let v: u32 = (c as u32 * 255 + a as u32 / 2) / (a as u32);
    if v > 255 {
        255
    } else {
        v as u8
    }
}

/// Turns RGBA pixels with premultiplied alpha into plain RGBA, four
/// bytes per pixel; bytes behind the last whole pixel are dropped.
pub fn premultiplied_to_unmultiplied_rgba(src: &[u8]) -> (out: Vec<u8>)
    ensures
        out.len() == 4 * (src.len() / 4),
        forall|p: int|
            #![trigger src@[4 * p + 3]]
            0 <= p < src.len() / 4 ==> {
                let a = src@[4 * p + 3];
                &&& out@[4 * p] == unpremultiplied(src@[4 * p], a)
                &&& out@[4 * p + 1] == unpremultiplied(src@[4 * p + 1], a)
                &&& out@[4 * p + 2] == unpremultiplied(src@[4 * p + 2], a)
                &&& out@[4 * p + 3] == a
            },
{
    let pixels: usize = src.len() / 4;
    let mut out: Vec<u8> = Vec::new();
    let mut p: usize = 0;
    while p < pixels
        invariant
            p <= pixels,
            pixels == src.len() / 4,
            out.len() == 4 * p,
            forall|q: int|
                #![trigger src@[4 * q + 3]]
                0 <= q < p ==> {
                    let a = src@[4 * q + 3];
                    &&& out@[4 * q] == unpremultiplied(src@[4 * q], a)
                    &&& out@[4 * q + 1] == unpremultiplied(src@[4 * q + 1], a)
                    &&& out@[4 * q + 2] == unpremultiplied(src@[4 * q + 2], a)
                    &&& out@[4 * q + 3] == a
                },
        decreases pixels - p,
    {
        let i: usize = 4 * p;
        let a = src[i + 3];
        if a == 0 {
            out.push(0);
            out.push(0);
            out.push(0);
            out.push(0);
        } else {
            out.push(unpremultiply(src[i], a));
            out.push(unpremultiply(src[i + 1], a));
            out.push(unpremultiply(src[i + 2], a));
            out.push(a);
        }
        p += 1;
    }
    out
}

} // verus!
