//! Unpacking the pixel rows of an 8-bit model texture.
use vstd::prelude::*;

verus! {

/// One pixel: its column, its row and its red, green, blue and alpha values.
pub type Pixel = (u32, u32, [u8; 4]);

/// Channel `c` of pixel `i`, where the pixel has it; channels past
/// `channels` are zero, alpha included.
pub open spec fn channel(bytes: Seq<u8>, channels: nat, i: int, c: int) -> u8 {
    if c < channels {
        bytes[i * channels + c]
    } else {
        0
    }
}

/// Pixel `i` of a row-major image `width` pixels wide, read from `bytes` that
/// hold `channels` one-byte channels per pixel.
pub open spec fn pixel_at(bytes: Seq<u8>, width: nat, channels: nat, i: int) -> Pixel {
    (
        (i % (width as int)) as u32,
        (i / (width as int)) as u32,
        [
            channel(bytes, channels, i, 0),
            channel(bytes, channels, i, 1),
            channel(bytes, channels, i, 2),
            channel(bytes, channels, i, 3),
        ],
    )
}

/// Splits `bytes` into whole pixels of `channels` one-byte channels, left to
/// right and top to bottom in rows of `width`; bytes after the last whole
/// pixel are left out.
pub fn pixels_to_rgba(bytes: &Vec<u8>, width: u32, channels: u8) -> (r: Vec<Pixel>)
    requires
        1 <= channels <= 4,
        width >= 1,
        (bytes@.len() as int) / (channels as int) <= u32::MAX,
    ensures
        r@.len() == (bytes@.len() as int) / (channels as int),
        forall|i: int| 0 <= i < r@.len() ==> r@[i] == pixel_at(bytes@, width as nat, channels as nat, i),
{
    let cc: usize = channels as usize;
    let count: usize = bytes.len() / cc;
    let mut out: Vec<Pixel> = Vec::new();
    let mut x: u32 = 0;
    let mut y: u32 = 0;
    let mut i: usize = 0;
    while i < count
        invariant
            1 <= cc <= 4,
            cc == channels as usize,
            width >= 1,
            count == (bytes@.len() as int) / (cc as int),
            count <= u32::MAX,
            bytes@.len() <= usize::MAX,
            i <= count,
            x < width,
            i == y as int * (width as int) + x as int,
            out@.len() == i,
            forall|j: int| 0 <= j < i ==> out@[j] == pixel_at(bytes@, width as nat, channels as nat, j),
        decreases count - i,
    {
        proof {
            assert(i * cc + cc <= bytes@.len()) by (nonlinear_arith)
                requires
                    i < count,
                    count == (bytes@.len() as int) / (cc as int),
                    cc >= 1,
            {
                assert(count * cc <= bytes@.len());
                assert((i + 1) * cc <= count * cc);
            }
        }
        assert(i * cc <= bytes@.len());
        let base: usize = i * cc;
        let mut rgba: [u8; 4] = [0, 0, 0, 0];
        let mut c: usize = 0;
        while c < cc
            invariant
                1 <= cc <= 4,
                c <= cc,
                base + cc <= bytes@.len(),
                bytes@.len() <= usize::MAX,
                forall|d: int| 0 <= d < c ==> rgba@[d] == bytes@[base + d],
                forall|d: int| c <= d < 4 ==> rgba@[d] == 0,
            decreases cc - c,
        {
            rgba.set(c, bytes[base + c]);
            c = c + 1;
        }
        proof {
            vstd::arithmetic::div_mod::lemma_fundamental_div_mod_converse(i as int, width as int, y as int, x as int);
            let p = pixel_at(bytes@, width as nat, channels as nat, i as int);
            assert(base == i as int * (channels as int));
            assert forall|d: int| 0 <= d < 4 implies rgba@[d] == p.2@[d] by {
                if d < channels {
                    assert(rgba@[d] == bytes@[base + d]);
                }
            }
            assert(rgba@ =~= p.2@);
        }
        out.push((x, y, rgba));
        i = i + 1;
        if x + 1 >= width {
            proof {
                assert(y as int * (width as int) + width <= count) by (nonlinear_arith)
                    requires
                        x + 1 == width,
                        i == y as int * (width as int) + x as int + 1,
                        i <= count,
                ;
                assert(y as int + 1 <= count) by (nonlinear_arith)
                    requires
                        y as int * (width as int) + width <= count,
                        width >= 1,
                ;
            }
            x = 0;
            y = y + 1;
            assert(i == y as int * (width as int) + x as int) by (nonlinear_arith)
                requires
                    x == 0,
                    i == (y as int - 1) * (width as int) + width,
            ;
        } else {
            x = x + 1;
        }
    }
    out
}

} // verus!
