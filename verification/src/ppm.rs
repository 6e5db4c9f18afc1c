//! Plain pixel-map encoding, specified byte by byte: a three-line header
//! (magic, dimensions, channel maximum) followed by one decimal color
//! triple per pixel in row-major order.

use crate::vec3::Pixel;
use vstd::prelude::*;

verus! {

/// Decimal digits of `n`, most significant first, as ASCII bytes.
pub open spec fn dec_spec(n: nat) -> Seq<u8>
    decreases n,
{
    if n < 10 {
        seq![(48 + n) as u8]
    } else {
        dec_spec(n / 10).push((48 + n % 10) as u8)
    }
}

/// One pixel's line: `r g b` and a newline.
pub open spec fn triple_spec(p: Pixel) -> Seq<u8> {
    dec_spec(p.r as nat) + seq![32u8] + dec_spec(p.g as nat) + seq![32u8] + dec_spec(p.b as nat)
        + seq![10u8]
}

pub open spec fn pixels_spec(pixels: Seq<Pixel>) -> Seq<u8>
    decreases pixels.len(),
{
    if pixels.len() == 0 {
        Seq::empty()
    } else {
        pixels_spec(pixels.drop_last()) + triple_spec(pixels.last())
    }
}

/// `P3`, the dimensions, and the channel maximum 255, one line each.
pub open spec fn header_spec(width: int, height: int) -> Seq<u8> {
    seq![80u8, 51u8, 10u8] + dec_spec(width as nat) + seq![32u8] + dec_spec(height as nat)
        + seq![10u8] + dec_spec(255) + seq![10u8]
}

pub open spec fn ppm_spec(width: int, height: int, pixels: Seq<Pixel>) -> Seq<u8> {
    header_spec(width, height) + pixels_spec(pixels)
}

/// Append the decimal digits of `n`.
fn push_decimal(out: &mut Vec<u8>, n: u32)
    ensures
        final(out)@ == old(out)@ + dec_spec(n as nat),
    decreases n,
{
    if n < 10 {
        out.push(48 + (n as u8));
        proof {
            assert(out@ =~= old(out)@ + dec_spec(n as nat));
        }
    } else {
        push_decimal(out, n / 10);
        out.push(48 + ((n % 10) as u8));
        proof {
            assert(out@ =~= old(out)@ + dec_spec(n as nat));
        }
    }
}

/// Encode a row-major pixel grid as a complete pixel-map byte stream.
pub fn ppm_from_pixels(width: i32, height: i32, pixels: &Vec<Pixel>) -> (out: Vec<u8>)
    requires
        0 <= width,
        0 <= height,
        pixels@.len() == width * height,
    ensures
        out@ == ppm_spec(width as int, height as int, pixels@),
{
    let mut out: Vec<u8> = Vec::new();
    out.push(80);
    out.push(51);
    out.push(10);
    push_decimal(&mut out, width as u32);
    out.push(32);
    push_decimal(&mut out, height as u32);
    out.push(10);
    push_decimal(&mut out, 255);
    out.push(10);
    proof {
        assert(out@ =~= header_spec(width as int, height as int));
        assert(pixels@.take(0) =~= Seq::<Pixel>::empty());
        assert(out@ =~= header_spec(width as int, height as int) + pixels_spec(pixels@.take(0)));
    }

    let mut k: usize = 0;
    while k < pixels.len()
        invariant
            k <= pixels@.len(),
            out@ == header_spec(width as int, height as int) + pixels_spec(
                pixels@.take(k as int),
            ),
        decreases pixels@.len() - k,
    {
        let p = pixels[k];
        push_decimal(&mut out, p.r as u32);
        out.push(32);
        push_decimal(&mut out, p.g as u32);
        out.push(32);
        push_decimal(&mut out, p.b as u32);
        out.push(10);
        proof {
            assert(pixels@.take(k as int + 1).drop_last() =~= pixels@.take(k as int));
            assert(pixels@.take(k as int + 1).last() == pixels@[k as int]);
            assert(out@ =~= header_spec(width as int, height as int) + pixels_spec(
                pixels@.take(k as int + 1),
            ));
        }
        k = k + 1;
    }
    proof {
        assert(pixels@.take(k as int) =~= pixels@);
    }
    out
}

} // verus!
