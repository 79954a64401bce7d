//! Binary pixel-dump encoding.
//!
//! The file is a fixed ASCII header, `P6`, a newline, the decimal width, a
//! space, the decimal height, a newline, `255`, a newline — then one raw
//! byte triplet per pixel, row-major, top row first. Each byte is the color
//! component clamped to [0, 1] and quantized to 0..=255, rounding to
//! nearest; components above 1 saturate at 255, and only here, never
//! earlier in the shading math.
use vstd::prelude::*;

verus! {

use crate::vec3::Vec3;
use vstd::arithmetic::div_mod::{lemma_div_is_ordered, lemma_div_pos_is_pos};

/// The byte a color component quantizes to: clamp to [0, 1], scale by 255,
/// round to nearest.
pub open spec fn quant_s(c: int) -> int {
    if c <= 0 {
        0
    } else if c >= 65536 {
        255
    } else {
        (c * 255 + 32768) / 65536
    }
}

/// Quantize one color component to a byte. A component at or above 1 gives
/// exactly 255; at or below 0, exactly 0.
pub fn quantize(c: i64) -> (r: u8)
    ensures
        r == quant_s(c as int),
        c >= 65536 ==> r == 255,
        c <= 0 ==> r == 0,
{
    if c <= 0 {
        0
    } else if c >= 65536 {
        255
    } else {
        proof {
            assert(c * 255 + 32768 <= 65535 * 255 + 32768) by (nonlinear_arith)
                requires
                    c <= 65535;
            assert(c * 255 >= 0) by (nonlinear_arith)
                requires
                    c >= 0;
            lemma_div_pos_is_pos(c * 255 + 32768, 65536);
            lemma_div_is_ordered(c * 255 + 32768, 65535int * 255 + 32768, 65536);
            assert((65535int * 255 + 32768) / 65536 == 255);
        }
        let n: i64 = c * 255 + 32768;
        ((n as u64) / 65536) as u8
    }
}

/// The decimal digits of `n`, most significant first, as ASCII bytes.
pub open spec fn dec_s(n: nat) -> Seq<u8>
    decreases n,
{
    if n < 10 {
        seq![(48 + n) as u8]
    } else {
        dec_s(n / 10).push((48 + n % 10) as u8)
    }
}

/// Append the decimal digits of `n`.
fn push_dec(n: usize, out: &mut Vec<u8>)
    ensures
        final(out)@ == old(out)@ + dec_s(n as nat),
    decreases n,
{
    if n >= 10 {
        proof {
            assert(n / 10 < n) by (nonlinear_arith)
                requires
                    n >= 10;
        }
        push_dec(n / 10, out);
    }
    let d: u8 = (n % 10) as u8 + 48;
    out.push(d);
    proof {
        assert(out@ =~= old(out)@ + dec_s(n as nat));
    }
}

/// The header bytes: `P6\n<width> <height>\n255\n`.
pub open spec fn header_s(w: nat, h: nat) -> Seq<u8> {
    seq![80u8, 54u8, 10u8] + dec_s(w) + seq![32u8] + dec_s(h) + seq![10u8, 50u8, 53u8, 53u8, 10u8]
}

/// Build the header for an image of the given size.
pub fn header_bytes(width: usize, height: usize) -> (r: Vec<u8>)
    ensures
        r@ == header_s(width as nat, height as nat),
{
    let mut out: Vec<u8> = Vec::new();
    out.push(80);
    out.push(54);
    out.push(10);
    push_dec(width, &mut out);
    out.push(32);
    push_dec(height, &mut out);
    out.push(10);
    out.push(50);
    out.push(53);
    out.push(53);
    out.push(10);
    proof {
        assert(out@ =~= header_s(width as nat, height as nat));
    }
    out
}

/// The three bytes one pixel encodes to.
pub open spec fn pixel_bytes_s(c: (int, int, int)) -> Seq<u8> {
    seq![quant_s(c.0) as u8, quant_s(c.1) as u8, quant_s(c.2) as u8]
}

/// The byte run of a pixel sequence.
pub open spec fn pixels_flat_s(px: Seq<(int, int, int)>) -> Seq<u8>
    decreases px.len(),
{
    if px.len() == 0 {
        Seq::empty()
    } else {
        pixels_flat_s(px.drop_last()) + pixel_bytes_s(px.last())
    }
}

/// Encode a framebuffer: the header followed by the quantized byte
/// triplets of every pixel in order.
pub fn encode_image(width: usize, height: usize, pixels: &Vec<Vec3>) -> (r: Vec<u8>)
    requires
        pixels@.len() == width * height,
    ensures
        r@ == header_s(width as nat, height as nat) + pixels_flat_s(
            pixels@.map_values(|v: Vec3| v@),
        ),
{
    let ghost all = pixels@.map_values(|v: Vec3| v@);
    let mut out = header_bytes(width, height);
    let mut i: usize = 0;
    while i < pixels.len()
        invariant
            0 <= i <= pixels@.len(),
            all == pixels@.map_values(|v: Vec3| v@),
            out@ == header_s(width as nat, height as nat) + pixels_flat_s(all.take(i as int)),
        decreases pixels@.len() - i,
    {
        let p = pixels[i];
        out.push(quantize(p.x));
        out.push(quantize(p.y));
        out.push(quantize(p.z));
        proof {
            assert(all.take(i + 1).drop_last() =~= all.take(i as int));
            assert(all.take(i + 1).last() == p@);
            assert(out@ =~= header_s(width as nat, height as nat) + pixels_flat_s(
                all.take(i + 1),
            ));
        }
        i = i + 1;
    }
    proof {
        assert(all.take(pixels@.len() as int) =~= all);
    }
    out
}

} // verus!
