//! Bringing a captured screen frame into the byte order that images use.

use vstd::prelude::*;

verus! {

/// Whether `rgba` holds the first `pixels` pixels of `bgra` with blue and
/// red exchanged and full opacity, four bytes to the pixel.
pub open spec fn is_rgba_of(rgba: Seq<u8>, bgra: Seq<u8>, pixels: int) -> bool {
    &&& rgba.len() == 4 * pixels
    &&& forall|p: int|
        #![trigger rgba[4 * p]]
        0 <= p < pixels ==> {
            &&& rgba[4 * p] == bgra[4 * p + 2]
            &&& rgba[4 * p + 1] == bgra[4 * p + 1]
            &&& rgba[4 * p + 2] == bgra[4 * p]
            &&& rgba[4 * p + 3] == 255
        }
}

/// Converts a frame of `w` by `h` pixels from blue, green, red, alpha to
/// red, green, blue, alpha, and makes every pixel opaque. The frame must
/// hold all of the pixels; bytes beyond them are left out.
pub fn rgba_from_bgra(w: usize, h: usize, frame: &[u8]) -> (rgba: Vec<u8>)
    requires
        w * h * 4 <= frame.len(),
    ensures
        is_rgba_of(rgba@, frame@, (w * h) as int),
{
    let pixels: usize = w * h;
    let mut rgba: Vec<u8> = Vec::with_capacity(pixels * 4);
    let mut p: usize = 0;
    while p < pixels
        invariant
            p <= pixels,
            pixels * 4 <= frame.len(),
            is_rgba_of(rgba@, frame@, p as int),
        decreases pixels - p,
    {
        let i = p * 4;
        let ghost before = rgba@;
        rgba.push(frame[i + 2]);
        rgba.push(frame[i + 1]);
        rgba.push(frame[i]);
        rgba.push(255);
        proof {
            assert forall|q: int| 0 <= q < p + 1 implies {
                &&& #[trigger] rgba@[4 * q] == frame@[4 * q + 2]
                &&& rgba@[4 * q + 1] == frame@[4 * q + 1]
                &&& rgba@[4 * q + 2] == frame@[4 * q]
                &&& rgba@[4 * q + 3] == 255
            } by {
                if q < p {
                    assert(before[4 * q] == frame@[4 * q + 2]);
                }
            }
        }
        p += 1;
    }
    rgba
}

} // verus!
