//! The text form of numbers and vectors.
//!
//! A number is written in decimal and in full: an optional minus sign, the
//! whole part, and, where there is a fraction, a point and the digits of the
//! fraction, which are at most 32. A vector is written as `(x, y, z)`.

use crate::fixed::{magnitude_of, Fixed, SCALE};
use crate::ppm::{decimal, digit, push_decimal};
use crate::vector::Vector3;
use vstd::prelude::*;

verus! {

/// The most digits that the fraction of a number has.
pub const FRACTION_DIGITS: u32 = 32;

/// The decimal digits of the fraction `f / 2^32`, as far as `left` digits
/// go; none once nothing is left of the fraction.
pub open spec fn fraction_digits(f: nat, left: nat) -> Seq<u8>
    decreases left,
{
    if f == 0 || left == 0 {
        Seq::empty()
    } else {
        seq![digit((f * 10) / (SCALE as nat))] + fraction_digits(
            (f * 10) % (SCALE as nat),
            (left - 1) as nat,
        )
    }
}

/// The text of the number with the given raw value.
pub open spec fn fixed_text(raw: int) -> Seq<u8> {
    let m = magnitude_of(raw) as nat;
    let sign = if raw < 0 {
        seq![0x2du8]
    } else {
        Seq::empty()
    };
    let fraction = if m % (SCALE as nat) == 0 {
        Seq::empty()
    } else {
        seq![0x2eu8] + fraction_digits(m % (SCALE as nat), FRACTION_DIGITS as nat)
    };
    sign + decimal(m / (SCALE as nat)) + fraction
}

/// The text of a vector: its components in parentheses, separated by a
/// comma and a space.
pub open spec fn vector_text(v: Vector3) -> Seq<u8> {
    seq![0x28u8] + fixed_text(v.x@) + seq![0x2cu8, 0x20u8] + fixed_text(v.y@) + seq![
        0x2cu8,
        0x20u8,
    ] + fixed_text(v.z@) + seq![0x29u8]
}

/// True where every byte is an ASCII character.
pub open spec fn is_ascii(bytes: Seq<u8>) -> bool {
    forall|i: int| 0 <= i < bytes.len() ==> #[trigger] bytes[i] < 128
}

/// The characters of ASCII bytes.
pub open spec fn chars_of(bytes: Seq<u8>) -> Seq<char> {
    bytes.map_values(|b: u8| b as char)
}

/// Decimal digits are ASCII.
pub proof fn lemma_decimal_is_ascii(n: nat)
    ensures
        is_ascii(decimal(n)),
    decreases n,
{
    if n >= 10 {
        lemma_decimal_is_ascii(n / 10);
    }
}

/// The digits of a fraction are ASCII.
pub proof fn lemma_fraction_is_ascii(f: nat, left: nat)
    requires
        f < SCALE,
    ensures
        is_ascii(fraction_digits(f, left)),
    decreases left,
{
    if f != 0 && left != 0 {
        let s = SCALE as nat;
        assert((f * 10) / s < 10) by (nonlinear_arith)
            requires
                f < s,
                s == 4294967296,
        ;
        assert((f * 10) % s < s) by (nonlinear_arith)
            requires
                s == 4294967296,
        ;
        lemma_fraction_is_ascii((f * 10) % s, (left - 1) as nat);
    }
}

/// Appends the digits of the fraction `f / 2^32`.
fn push_fraction(out: &mut Vec<u8>, f: u64, left: u32)
    requires
        f < SCALE,
    ensures
        final(out)@ == old(out)@ + fraction_digits(f as nat, left as nat),
    decreases left,
{
    if f == 0 || left == 0 {
        assert(final(out)@ =~= old(out)@ + fraction_digits(f as nat, left as nat));
        return ;
    }
    let scaled: u64 = f * 10;
    let d: u64 = scaled / 4294967296;
    let rest: u64 = scaled % 4294967296;
    out.push(48 + d as u8);
    push_fraction(out, rest, left - 1);
    proof {
        assert(final(out)@ =~= old(out)@ + (seq![digit(d as nat)] + fraction_digits(
            rest as nat,
            (left - 1) as nat,
        )));
    }
}

/// Appends the text of a number.
pub fn push_fixed(out: &mut Vec<u8>, x: Fixed)
    ensures
        final(out)@ == old(out)@ + fixed_text(x@),
        is_ascii(fixed_text(x@)),
{
    let negative = x.raw < 0;
    let m: u64 = if negative {
        if x.raw == -9223372036854775807 - 1 {
            9223372036854775808
        } else {
            (-x.raw) as u64
        }
    } else {
        x.raw as u64
    };
    if negative {
        out.push(0x2d);
    }
    push_decimal(out, m / 4294967296);
    let f: u64 = m % 4294967296;
    if f != 0 {
        out.push(0x2e);
        push_fraction(out, f, FRACTION_DIGITS);
    }
    proof {
        lemma_decimal_is_ascii((m / 4294967296) as nat);
        lemma_fraction_is_ascii(f as nat, FRACTION_DIGITS as nat);
        assert(final(out)@ =~= old(out)@ + fixed_text(x@));
    }
}

/// Appends the text of a vector.
pub fn push_vector(out: &mut Vec<u8>, v: &Vector3)
    ensures
        final(out)@ == old(out)@ + vector_text(*v),
        is_ascii(vector_text(*v)),
{
    out.push(0x28);
    push_fixed(out, v.x);
    out.push(0x2c);
    out.push(0x20);
    push_fixed(out, v.y);
    out.push(0x2c);
    out.push(0x20);
    push_fixed(out, v.z);
    out.push(0x29);
    proof {
        assert(final(out)@ =~= old(out)@ + vector_text(*v));
    }
}

/// The string of ASCII bytes.
///
/// Trusted: calls `String::from_utf8`, which hands back the bytes as a
/// string where they are valid UTF-8, and an error otherwise. ASCII bytes
/// are valid UTF-8, and each of them is the character with its code.
#[verifier::external_body]
fn string_of(bytes: Vec<u8>) -> (r: Option<String>)
    ensures
        is_ascii(bytes@) ==> r is Some && r->Some_0@ == chars_of(bytes@),
{
    match String::from_utf8(bytes) {
        Ok(s) => Some(s),
        Err(_) => None,
    }
}

impl Fixed {
    /// The number in decimal and in full, such as `-2.25`.
    pub fn to_text(&self) -> (r: String)
        ensures
            r@ == chars_of(fixed_text(self@)),
    {
        let mut out: Vec<u8> = Vec::new();
        push_fixed(&mut out, *self);
        assert(out@ =~= fixed_text(self@));
        match string_of(out) {
            Some(s) => s,
            None => String::new(),
        }
    }
}

impl Vector3 {
    /// The vector as `(x, y, z)`, its components in decimal and in full.
    pub fn to_text(&self) -> (r: String)
        ensures
            r@ == chars_of(vector_text(*self)),
    {
        let mut out: Vec<u8> = Vec::new();
        push_vector(&mut out, self);
        assert(out@ =~= vector_text(*self));
        match string_of(out) {
            Some(s) => s,
            None => String::new(),
        }
    }
}

} // verus!
