use crate::format::sprites::RgbaFrame;
use vstd::prelude::*;

verus! {

/// One channel scaled by alpha: `channel * alpha / 255`, rounded down.
pub open spec fn scaled(channel: u8, alpha: u8) -> u8 {
    ((channel as nat * alpha as nat) / 255) as u8
}

/// Premultiplied BGRA bytes for RGBA bytes: each pixel `(r, g, b, a)` becomes
/// `(b * a / 255, g * a / 255, r * a / 255, a)`.
pub open spec fn premultiplied(rgba: Seq<u8>) -> Seq<u8> {
    Seq::new(rgba.len(), |i: int| {
        let p = i - i % 4;
        let a = rgba[p + 3];
        if i % 4 == 0 {
            scaled(rgba[p + 2], a)
        } else if i % 4 == 1 {
            scaled(rgba[p + 1], a)
        } else if i % 4 == 2 {
            scaled(rgba[p], a)
        } else {
            a
        }
    })
}

fn scale(channel: u8, alpha: u8) -> (s: u8)
    ensures
        s == scaled(channel, alpha),
{
    let c = channel as u32;
    let a = alpha as u32;
    assert(c * a <= 255 * 255) by (nonlinear_arith)
        requires
            c <= 255,
            a <= 255,
    ;
    let product = c * a;
    assert(product / 255 <= 255);
    (product / 255) as u8
}

/// Converts RGBA to premultiplied BGRA, the layout a 32-bit top-down bitmap with
/// per-pixel alpha uses.
pub fn premultiply(img: &RgbaFrame) -> (out: Vec<u8>)
    requires
        img.wf(),
    ensures
        out@ == premultiplied(img.bytes()),
{
    let data = img.as_raw();
    let n = data.len();
    let mut out: Vec<u8> = Vec::new();
    let mut i: usize = 0;
    assert(n % 4 == 0);
    while i < n
        invariant
            n == data@.len(),
            data@ == img.bytes(),
            n % 4 == 0,
            i % 4 == 0,
            i <= n,
            out@ == premultiplied(data@).take(i as int),
        decreases n - i,
    {
        let r = data[i];
        let g = data[i + 1];
        let b = data[i + 2];
        let a = data[i + 3];
        out.push(scale(b, a));
        out.push(scale(g, a));
        out.push(scale(r, a));
        out.push(a);
        proof {
            let want = premultiplied(data@);
            assert((i + 1) % 4 == 1 && (i + 2) % 4 == 2 && (i + 3) % 4 == 3);
            assert((i + 1) - (i + 1) % 4 == i && (i + 2) - (i + 2) % 4 == i && (i + 3) - (i + 3) % 4 == i);
            assert(out@ =~= want.take(i + 4));
        }
        i = i + 4;
    }
    assert(out@ =~= premultiplied(data@));
    out
}

} // verus!
