//! The text of a plain PPM image (`P3`).
//!
//! A document is the header, then one record for each pixel in row-major
//! order from the top left. The header and every record are followed by an
//! empty line.

use vstd::prelude::*;

verus! {

/// One pixel: three channels of eight bits.
#[derive(Clone, Copy, Debug, PartialEq, Eq, Structural)]
pub struct Rgb {
    pub r: u8,
    pub g: u8,
    pub b: u8,
}

/// The ASCII code of a decimal digit.
pub open spec fn digit(d: nat) -> u8 {
    (48 + d) as u8
}

/// The decimal digits of `n` in ASCII, without leading zeros.
pub open spec fn decimal(n: nat) -> Seq<u8>
    decreases n,
{
    if n < 10 {
        seq![digit(n)]
    } else {
        decimal(n / 10).push(digit(n % 10))
    }
}

/// The header: `P3`, the width and the height, the largest channel value
/// `255`, and an empty line.
pub open spec fn header(width: nat, height: nat) -> Seq<u8> {
    seq![0x50u8, 0x33u8, 0x0au8] + decimal(width) + seq![0x20u8] + decimal(height) + seq![
        0x0au8,
        0x32u8,
        0x35u8,
        0x35u8,
        0x0au8,
        0x0au8,
    ]
}

/// The record of one pixel: its three channels separated by spaces, and an
/// empty line.
pub open spec fn pixel_text(pixel: Rgb) -> Seq<u8> {
    decimal(pixel.r as nat) + seq![0x20u8] + decimal(pixel.g as nat) + seq![0x20u8] + decimal(
        pixel.b as nat,
    ) + seq![0x0au8, 0x0au8]
}

/// The records of the pixels, one after the other.
pub open spec fn pixels_text(pixels: Seq<Rgb>) -> Seq<u8>
    decreases pixels.len(),
{
    if pixels.len() == 0 {
        Seq::empty()
    } else {
        pixels_text(pixels.drop_last()) + pixel_text(pixels.last())
    }
}

/// The whole document.
pub open spec fn document(width: nat, height: nat, pixels: Seq<Rgb>) -> Seq<u8> {
    header(width, height) + pixels_text(pixels)
}

/// Appends the decimal digits of `n`.
pub fn push_decimal(out: &mut Vec<u8>, n: u64)
    ensures
        final(out)@ == old(out)@ + decimal(n as nat),
    decreases n,
{
    if n >= 10 {
        push_decimal(out, n / 10);
    }
    out.push(48 + (n % 10) as u8);
    proof {
        if n >= 10 {
            assert(final(out)@ == old(out)@ + decimal(n as nat / 10).push(digit(n as nat % 10)));
        } else {
            assert(final(out)@ == old(out)@ + seq![digit(n as nat)]);
        }
    }
}

/// Appends the header of an image of the given size.
pub fn push_header(out: &mut Vec<u8>, width: u64, height: u64)
    ensures
        final(out)@ == old(out)@ + header(width as nat, height as nat),
{
    out.push(0x50);
    out.push(0x33);
    out.push(0x0a);
    push_decimal(out, width);
    out.push(0x20);
    push_decimal(out, height);
    out.push(0x0a);
    out.push(0x32);
    out.push(0x35);
    out.push(0x35);
    out.push(0x0a);
    out.push(0x0a);
    proof {
        assert(final(out)@ == old(out)@ + header(width as nat, height as nat));
    }
}

/// Appends the record of one pixel.
pub fn push_pixel(out: &mut Vec<u8>, pixel: Rgb)
    ensures
        final(out)@ == old(out)@ + pixel_text(pixel),
{
    push_decimal(out, pixel.r as u64);
    out.push(0x20);
    push_decimal(out, pixel.g as u64);
    out.push(0x20);
    push_decimal(out, pixel.b as u64);
    out.push(0x0a);
    out.push(0x0a);
    proof {
        assert(final(out)@ == old(out)@ + pixel_text(pixel));
    }
}

} // verus!
