//! Saturating fixed-point numbers with 32 fractional bits.
//!
//! A [`Fixed`] with raw value `r` stands for the rational number `r / 2^32`.
//! Contracts are stated over raw values as mathematical integers.

use std::ops::{Add, Div, Mul, Neg, Sub};
use vstd::prelude::*;
use vstd::std_specs::ops::{AddSpecImpl, DivSpecImpl, MulSpecImpl, NegSpecImpl, SubSpecImpl};

verus! {

/// Raw value of the number one: `2^32`.
pub const SCALE: i64 = 4294967296;

/// Largest raw value; results saturate to `[-MAX_RAW, MAX_RAW]`.
pub const MAX_RAW: i64 = 9223372036854775807;

/// A signed fixed-point number: `raw / 2^32`.
#[derive(Clone, Copy, Debug, PartialEq, Eq, Structural)]
pub struct Fixed {
    pub raw: i64,
}

/// Brings an integer into the symmetric range `[-MAX_RAW, MAX_RAW]`.
pub open spec fn clamp(v: int) -> int {
    if v > MAX_RAW {
        MAX_RAW as int
    } else if v < -MAX_RAW {
        -MAX_RAW
    } else {
        v
    }
}

/// Quotient rounded toward zero. Meaningful for `d != 0`.
pub open spec fn trunc_div(n: int, d: int) -> int {
    if n >= 0 && d > 0 {
        n / d
    } else if n >= 0 {
        -(n / (-d))
    } else if d > 0 {
        -((-n) / d)
    } else {
        (-n) / (-d)
    }
}

/// Raw value of the saturating sum.
pub open spec fn add_raw(a: int, b: int) -> int {
    clamp(a + b)
}

/// Raw value of the saturating difference.
pub open spec fn sub_raw(a: int, b: int) -> int {
    clamp(a - b)
}

/// Raw value of the saturating negation.
pub open spec fn neg_raw(a: int) -> int {
    clamp(-a)
}

/// Raw value of the saturating absolute value.
pub open spec fn abs_raw(a: int) -> int {
    if a < 0 {
        clamp(-a)
    } else {
        clamp(a)
    }
}

/// Raw value of the product: the exact product of the two numbers, rounded
/// toward zero to a multiple of `2^-32`, then saturated.
pub open spec fn mul_raw(a: int, b: int) -> int {
    clamp(trunc_div(a * b, SCALE as int))
}

/// Raw value of the quotient: the exact quotient rounded toward zero to a
/// multiple of `2^-32`, then saturated. A zero divisor gives the largest
/// magnitude with the sign of the dividend, and zero for `0 / 0`.
pub open spec fn div_raw(a: int, b: int) -> int {
    if b == 0 {
        if a > 0 {
            MAX_RAW as int
        } else if a < 0 {
            -MAX_RAW
        } else {
            0
        }
    } else {
        clamp(trunc_div(a * SCALE, b))
    }
}

/// `s` is the integer square root of `n`: the largest `s` with `s * s <= n`.
pub open spec fn is_isqrt(n: int, s: int) -> bool {
    0 <= s && s * s <= n < (s + 1) * (s + 1)
}

/// Integer square root of a non-negative integer.
pub open spec fn isqrt(n: int) -> int {
    choose|s: int| is_isqrt(n, s)
}

/// Raw value of the square root, rounded down to a multiple of `2^-32`.
/// Zero for arguments that are not positive.
pub open spec fn sqrt_raw(a: int) -> int {
    if a <= 0 {
        0
    } else {
        isqrt(a * SCALE)
    }
}

/// Two integer square roots of one number are equal.
pub proof fn lemma_isqrt_unique(n: int, s: int, t: int)
    requires
        is_isqrt(n, s),
        is_isqrt(n, t),
    ensures
        s == t,
{
    if s < t {
        assert((s + 1) * (s + 1) <= t * t) by (nonlinear_arith)
            requires
                0 <= s,
                s + 1 <= t,
        ;
    } else if t < s {
        assert((t + 1) * (t + 1) <= s * s) by (nonlinear_arith)
            requires
                0 <= t,
                t + 1 <= s,
        ;
    }
}

/// A witness of the integer square root is the integer square root.
pub proof fn lemma_isqrt_is(n: int, s: int)
    requires
        is_isqrt(n, s),
    ensures
        isqrt(n) == s,
{
    lemma_isqrt_unique(n, s, isqrt(n));
}

impl View for Fixed {
    type V = int;

    open spec fn view(&self) -> int {
        self.raw as int
    }
}

impl Fixed {
    /// The value with the given raw integer, which must fit in 64 bits.
    pub open spec fn of(raw: int) -> Fixed {
        Fixed { raw: raw as i64 }
    }

    /// True where the raw value lies in the symmetric range that every
    /// operation of this type produces.
    pub open spec fn is_symmetric(self) -> bool {
        self.raw > -MAX_RAW - 1
    }

    /// True where the number lies strictly inside the range of the type.
    /// Results beyond the range saturate to one of its two ends, so the
    /// result of an operation that is in range is one that did not
    /// saturate: it is the exact result, rounded toward zero.
    pub open spec fn in_range(self) -> bool {
        -MAX_RAW < self@ < MAX_RAW
    }

    /// The saturating sum; this is what `+` computes.
    pub open spec fn add_spec(self, other: Fixed) -> Fixed {
        Fixed::of(add_raw(self@, other@))
    }

    /// The saturating difference; this is what `-` computes.
    pub open spec fn sub_spec(self, other: Fixed) -> Fixed {
        Fixed::of(sub_raw(self@, other@))
    }

    /// The saturating negation; this is what the unary `-` computes.
    pub open spec fn neg_spec(self) -> Fixed {
        Fixed::of(neg_raw(self@))
    }

    /// The rounded and saturated product; this is what `*` computes.
    pub open spec fn mul_spec(self, other: Fixed) -> Fixed {
        Fixed::of(mul_raw(self@, other@))
    }

    /// The rounded and saturated quotient; this is what `/` computes.
    pub open spec fn div_spec(self, other: Fixed) -> Fixed {
        Fixed::of(div_raw(self@, other@))
    }

    /// The saturating absolute value.
    pub open spec fn abs_spec(self) -> Fixed {
        Fixed::of(abs_raw(self@))
    }

    /// The square root, rounded down; zero where `self` is not positive.
    pub open spec fn sqrt_spec(self) -> Fixed {
        Fixed::of(sqrt_raw(self@))
    }

    /// The number with the given raw value.
    pub fn from_raw(raw: i64) -> (r: Fixed)
        ensures
            r@ == raw,
    {
        Fixed { raw }
    }

    /// Zero.
    pub fn zero() -> (r: Fixed)
        ensures
            r@ == 0,
    {
        Fixed { raw: 0 }
    }

    /// One.
    pub fn one() -> (r: Fixed)
        ensures
            r@ == SCALE,
    {
        Fixed { raw: SCALE }
    }

    /// One half.
    pub fn half() -> (r: Fixed)
        ensures
            r@ == SCALE / 2,
    {
        Fixed { raw: 2147483648 }
    }

    /// The largest number; it stands in for positive infinity.
    pub fn max_value() -> (r: Fixed)
        ensures
            r@ == MAX_RAW,
    {
        Fixed { raw: MAX_RAW }
    }

    /// The smallest number that operations produce; it stands in for
    /// negative infinity.
    pub fn min_value() -> (r: Fixed)
        ensures
            r@ == -MAX_RAW,
    {
        Fixed { raw: -MAX_RAW }
    }

    /// The whole number `n`.
    pub fn from_int(n: i32) -> (r: Fixed)
        ensures
            r@ == clamp(n * SCALE),
    {
        assert(-0x8000_0000 * 0x1_0000_0000 <= n * SCALE <= 0x8000_0000 * 0x1_0000_0000)
            by (nonlinear_arith)
            requires
                -0x8000_0000 <= n <= 0x8000_0000,
                SCALE == 0x1_0000_0000,
        ;
        let wide: i128 = (n as i128) * (SCALE as i128);
        saturate(wide)
    }

    /// The ratio `num / den`, rounded toward zero to a multiple of `2^-32`.
    pub fn ratio(num: i64, den: i64) -> (r: Fixed)
        ensures
            r@ == div_raw(num as int, den as int),
    {
        Fixed { raw: num } / Fixed { raw: den }
    }

    /// Saturating absolute value.
    pub fn abs(self) -> (r: Fixed)
        ensures
            r == self.abs_spec(),
    {
        if self.raw < 0 {
            saturate(-(self.raw as i128))
        } else {
            self
        }
    }

    /// Square root, rounded down to a multiple of `2^-32`; zero for
    /// arguments that are not positive.
    pub fn sqrt(self) -> (r: Fixed)
        ensures
            r == self.sqrt_spec(),
    {
        if self.raw <= 0 {
            return Fixed { raw: 0 };
        }
        assert(0 < self.raw * SCALE <= 0x7fff_ffff_ffff_ffff * 0x1_0000_0000) by (nonlinear_arith)
            requires
                0 < self.raw <= 0x7fff_ffff_ffff_ffff,
                SCALE == 0x1_0000_0000,
        ;
        let n: u128 = (self.raw as u128) * (SCALE as u128);
        let mut low: u128 = 0;
        let mut high: u128 = 0x1_0000_0000_0000;
        assert(0x1_0000_0000_0000int * 0x1_0000_0000_0000int > 0x7fff_ffff_ffff_ffff
            * 0x1_0000_0000) by (nonlinear_arith);
        while high - low > 1
            invariant
                low < high <= 0x1_0000_0000_0000,
                low * low <= n < high * high,
            decreases high - low,
        {
            let mid: u128 = low + (high - low) / 2;
            assert(mid * mid < 0x1_0000_0000_0000 * 0x1_0000_0000_0000) by (nonlinear_arith)
                requires
                    mid < 0x1_0000_0000_0000,
            ;
            if mid * mid <= n {
                low = mid;
            } else {
                high = mid;
            }
        }
        proof {
            lemma_isqrt_is(n as int, low as int);
        }
        Fixed { raw: low as i64 }
    }

    /// Integer part, rounded toward zero.
    pub fn trunc(self) -> (r: i64)
        ensures
            r == trunc_div(self@, SCALE as int),
    {
        if self.raw >= 0 {
            self.raw / SCALE
        } else {
            let m: u128 = magnitude(self.raw);
            let q: u128 = m / (SCALE as u128);
            assert(q <= 0x8000_0000) by (nonlinear_arith)
                requires
                    q == m / 0x1_0000_0000,
                    m <= 0x8000_0000_0000_0000,
            ;
            -(q as i64)
        }
    }

    /// True where the number lies strictly inside the range of the type.
    pub fn is_in_range(self) -> (r: bool)
        ensures
            r == self.in_range(),
    {
        -MAX_RAW < self.raw && self.raw < MAX_RAW
    }

    /// True where `self` is strictly below `other`.
    pub fn lt(self, other: Fixed) -> (r: bool)
        ensures
            r == (self@ < other@),
    {
        self.raw < other.raw
    }

    /// True where `self` is at most `other`.
    pub fn le(self, other: Fixed) -> (r: bool)
        ensures
            r == (self@ <= other@),
    {
        self.raw <= other.raw
    }
}

impl Add for Fixed {
    type Output = Fixed;

    /// Saturating sum.
    fn add(self, other: Fixed) -> (r: Fixed)
        ensures
            r@ == add_raw(self@, other@),
    {
        saturate(self.raw as i128 + other.raw as i128)
    }
}

impl AddSpecImpl for Fixed {
    open spec fn obeys_add_spec() -> bool {
        true
    }

    open spec fn add_req(self, other: Fixed) -> bool {
        true
    }

    open spec fn add_spec(self, other: Fixed) -> Fixed {
        Fixed::of(add_raw(self@, other@))
    }
}

impl Sub for Fixed {
    type Output = Fixed;

    /// Saturating difference.
    fn sub(self, other: Fixed) -> (r: Fixed)
        ensures
            r@ == sub_raw(self@, other@),
    {
        saturate(self.raw as i128 - other.raw as i128)
    }
}

impl SubSpecImpl for Fixed {
    open spec fn obeys_sub_spec() -> bool {
        true
    }

    open spec fn sub_req(self, other: Fixed) -> bool {
        true
    }

    open spec fn sub_spec(self, other: Fixed) -> Fixed {
        Fixed::of(sub_raw(self@, other@))
    }
}

impl Neg for Fixed {
    type Output = Fixed;

    /// Saturating negation.
    fn neg(self) -> (r: Fixed)
        ensures
            r@ == neg_raw(self@),
    {
        saturate(-(self.raw as i128))
    }
}

impl NegSpecImpl for Fixed {
    open spec fn obeys_neg_spec() -> bool {
        true
    }

    open spec fn neg_req(self) -> bool {
        true
    }

    open spec fn neg_spec(self) -> Fixed {
        Fixed::of(neg_raw(self@))
    }
}

impl Mul for Fixed {
    type Output = Fixed;

    /// Product, rounded toward zero and saturated.
    fn mul(self, other: Fixed) -> (r: Fixed)
        ensures
            r@ == mul_raw(self@, other@),
    {
        let ma: u128 = magnitude(self.raw);
        let mb: u128 = magnitude(other.raw);
        proof {
            lemma_product_of_magnitudes(self.raw as int, other.raw as int);
            assert(ma * mb <= 0x8000_0000_0000_0000 * 0x8000_0000_0000_0000) by (nonlinear_arith)
                requires
                    ma <= 0x8000_0000_0000_0000,
                    mb <= 0x8000_0000_0000_0000,
            ;
        }
        let q: u128 = (ma * mb) / (SCALE as u128);
        let negative: bool = (self.raw < 0) != (other.raw < 0);
        signed_saturate(q, negative)
    }
}

impl MulSpecImpl for Fixed {
    open spec fn obeys_mul_spec() -> bool {
        true
    }

    open spec fn mul_req(self, other: Fixed) -> bool {
        true
    }

    open spec fn mul_spec(self, other: Fixed) -> Fixed {
        Fixed::of(mul_raw(self@, other@))
    }
}

impl Div for Fixed {
    type Output = Fixed;

    /// Quotient, rounded toward zero and saturated; total on a zero divisor.
    fn div(self, other: Fixed) -> (r: Fixed)
        ensures
            r@ == div_raw(self@, other@),
    {
        if other.raw == 0 {
            if self.raw > 0 {
                Fixed { raw: MAX_RAW }
            } else if self.raw < 0 {
                Fixed { raw: -MAX_RAW }
            } else {
                Fixed { raw: 0 }
            }
        } else {
            let ma: u128 = magnitude(self.raw);
            let mb: u128 = magnitude(other.raw);
            assert(ma * SCALE <= 0x8000_0000_0000_0000 * 0x1_0000_0000) by (nonlinear_arith)
                requires
                    ma <= 0x8000_0000_0000_0000,
                    SCALE == 0x1_0000_0000,
            ;
            let q: u128 = (ma * (SCALE as u128)) / mb;
            let negative: bool = (self.raw < 0) != (other.raw < 0);
            proof {
                lemma_quotient_of_magnitudes(self.raw as int, other.raw as int);
            }
            signed_saturate(q, negative)
        }
    }
}

impl DivSpecImpl for Fixed {
    open spec fn obeys_div_spec() -> bool {
        true
    }

    open spec fn div_req(self, other: Fixed) -> bool {
        true
    }

    open spec fn div_spec(self, other: Fixed) -> Fixed {
        Fixed::of(div_raw(self@, other@))
    }
}

/// Rounding toward zero commutes with negation.
pub proof fn lemma_trunc_div_neg(n: int, d: int)
    requires
        d != 0,
    ensures
        trunc_div(-n, d) == -trunc_div(n, d),
{
    if n == 0 {
        assert(0int / d == 0) by (nonlinear_arith)
            requires
                d != 0,
        ;
        assert(0int / (-d) == 0) by (nonlinear_arith)
            requires
                d != 0,
        ;
    }
}

/// Rounding toward zero keeps the order of the dividends, for a positive
/// divisor.
pub proof fn lemma_trunc_div_monotone(n1: int, n2: int, d: int)
    requires
        n1 <= n2,
        d > 0,
    ensures
        trunc_div(n1, d) <= trunc_div(n2, d),
{
    if n1 >= 0 {
        vstd::arithmetic::div_mod::lemma_div_is_ordered(n1, n2, d);
    } else if n2 >= 0 {
        vstd::arithmetic::div_mod::lemma_div_pos_is_pos(-n1, d);
        vstd::arithmetic::div_mod::lemma_div_pos_is_pos(n2, d);
    } else {
        vstd::arithmetic::div_mod::lemma_div_is_ordered(-n2, -n1, d);
    }
}

/// A product with a negated factor is the negated product.
pub proof fn lemma_mul_neg(a: int, b: int)
    ensures
        mul_raw(a, -b) == -mul_raw(a, b),
        mul_raw(-a, b) == -mul_raw(a, b),
{
    assert(a * (-b) == -(a * b)) by (nonlinear_arith);
    assert((-a) * b == -(a * b)) by (nonlinear_arith);
    lemma_trunc_div_neg(a * b, SCALE as int);
}

/// One is the unit of multiplication.
pub proof fn lemma_mul_by_one(a: int)
    requires
        -MAX_RAW <= a <= MAX_RAW,
    ensures
        mul_raw(a, SCALE as int) == a,
        mul_raw(SCALE as int, a) == a,
{
    assert(SCALE * a == a * SCALE) by (nonlinear_arith);
    lemma_trunc_div_cancels(a, SCALE as int);
}

/// A product with zero is zero.
pub proof fn lemma_mul_by_zero(a: int)
    ensures
        mul_raw(a, 0) == 0,
        mul_raw(0, a) == 0,
{
    assert(a * 0 == 0 && 0 * a == 0) by (nonlinear_arith);
}

/// A number divided by itself is one, and its negation divided by it is
/// minus one.
pub proof fn lemma_div_by_self(a: int)
    requires
        a != 0,
    ensures
        div_raw(a, a) == SCALE,
        div_raw(-a, a) == -SCALE,
{
    assert(a * SCALE == SCALE * a) by (nonlinear_arith);
    assert((-a) * SCALE == -(SCALE * a)) by (nonlinear_arith);
    lemma_trunc_div_cancels(SCALE as int, a);
    lemma_trunc_div_neg(SCALE * a, a);
}

/// Rounding toward zero gives back a factor of an exact multiple.
pub proof fn lemma_trunc_div_cancels(q: int, d: int)
    requires
        d != 0,
    ensures
        trunc_div(q * d, d) == q,
{
    let n = q * d;
    let md = magnitude_of(d);
    let mq = magnitude_of(q);
    assert(magnitude_of(n) == md * mq) by (nonlinear_arith)
        requires
            n == q * d,
            md == magnitude_of(d),
            mq == magnitude_of(q),
    ;
    assert((n >= 0) == ((q >= 0) == (d > 0)) || q == 0) by (nonlinear_arith)
        requires
            n == q * d,
            d != 0,
    ;
    assert(q == 0 ==> n == 0) by (nonlinear_arith)
        requires
            n == q * d,
    ;
    vstd::arithmetic::div_mod::lemma_div_multiples_vanish(mq, md);
}

/// The square of a multiple of `2^-16` is exact, and its square root gives
/// the number back.
pub proof fn lemma_square_of_multiple(k: int)
    requires
        0 <= k <= 0x8000_0000,
    ensures
        mul_raw(k * 0x1_0000, k * 0x1_0000) == k * k,
        0 <= k * k <= 0x4000_0000_0000_0000,
        sqrt_raw(k * k) == k * 0x1_0000,
{
    let r = k * 0x1_0000;
    assert(r * r == (k * k) * SCALE) by (nonlinear_arith)
        requires
            r == k * 0x1_0000,
            SCALE == 0x1_0000_0000,
    ;
    assert(0 <= k * k <= 0x4000_0000_0000_0000) by (nonlinear_arith)
        requires
            0 <= k <= 0x8000_0000,
    ;
    lemma_trunc_div_cancels(k * k, SCALE as int);
    if k > 0 {
        assert(k * k > 0) by (nonlinear_arith)
            requires
                k > 0,
        ;
        assert((r + 1) * (r + 1) > r * r) by (nonlinear_arith)
            requires
                r >= 0,
        ;
        lemma_isqrt_is((k * k) * SCALE, r);
    }
}

/// The integer square root exists for every non-negative integer.
pub proof fn lemma_isqrt_exists(n: int)
    requires
        n >= 0,
    ensures
        is_isqrt(n, isqrt(n)),
    decreases n,
{
    if n == 0 {
        assert(is_isqrt(0, 0));
    } else {
        lemma_isqrt_exists(n - 1);
        let s = isqrt(n - 1);
        if (s + 1) * (s + 1) <= n {
            assert((s + 2) * (s + 2) > (s + 1) * (s + 1)) by (nonlinear_arith)
                requires
                    s >= 0,
            ;
            assert(is_isqrt(n, s + 1));
        } else {
            assert(is_isqrt(n, s));
        }
    }
}

/// A square root is never negative, and the square root of a
/// representable number is representable.
pub proof fn lemma_sqrt_bounds(a: int)
    requires
        a <= MAX_RAW,
    ensures
        0 <= sqrt_raw(a) < 0x1_0000_0000_0000,
        a > 0 ==> is_isqrt(a * SCALE, sqrt_raw(a)),
{
    if a > 0 {
        assert(0 <= a * SCALE < 0x1_0000_0000_0000int * 0x1_0000_0000_0000int) by (nonlinear_arith)
            requires
                0 < a <= 0x7fff_ffff_ffff_ffff,
                SCALE == 0x1_0000_0000,
        ;
        lemma_isqrt_exists(a * SCALE);
        let s = sqrt_raw(a);
        if s >= 0x1_0000_0000_0000 {
            assert(s * s >= 0x1_0000_0000_0000int * 0x1_0000_0000_0000int) by (nonlinear_arith)
                requires
                    s >= 0x1_0000_0000_0000,
            ;
        }
    }
}

/// Absolute value of an integer.
pub open spec fn magnitude_of(v: int) -> int {
    if v < 0 {
        -v
    } else {
        v
    }
}

/// The product of two integers, rounded toward zero, is the rounded-down
/// product of their magnitudes with the sign of the exact product.
pub proof fn lemma_product_of_magnitudes(a: int, b: int)
    ensures
        magnitude_of(a) * magnitude_of(b) == magnitude_of(a * b),
        (a < 0) != (b < 0) ==> trunc_div(a * b, SCALE as int) == -((magnitude_of(a)
            * magnitude_of(b)) / (SCALE as int)),
        (a < 0) == (b < 0) ==> trunc_div(a * b, SCALE as int) == (magnitude_of(a) * magnitude_of(
            b,
        )) / (SCALE as int),
{
    let ma = magnitude_of(a);
    let mb = magnitude_of(b);
    assert(ma * mb == magnitude_of(a * b)) by (nonlinear_arith)
        requires
            ma == magnitude_of(a),
            mb == magnitude_of(b),
    ;
    if (a < 0) != (b < 0) {
        assert(a * b <= 0) by (nonlinear_arith)
            requires
                (a < 0) != (b < 0),
        ;
        if a * b == 0 {
            assert(ma * mb == 0);
        }
    } else {
        assert(a * b >= 0) by (nonlinear_arith)
            requires
                (a < 0) == (b < 0),
        ;
    }
}

/// The quotient of two integers, rounded toward zero, is the rounded-down
/// quotient of their magnitudes with the sign of the exact quotient.
pub proof fn lemma_quotient_of_magnitudes(a: int, b: int)
    requires
        b != 0,
    ensures
        magnitude_of(a) * SCALE == magnitude_of(a * SCALE),
        (a < 0) != (b < 0) ==> trunc_div(a * SCALE, b) == -((magnitude_of(a) * SCALE)
            / magnitude_of(b)),
        (a < 0) == (b < 0) ==> trunc_div(a * SCALE, b) == (magnitude_of(a) * SCALE) / magnitude_of(
            b,
        ),
{
    if a == 0 {
        assert(0int / magnitude_of(b) == 0) by (nonlinear_arith)
            requires
                magnitude_of(b) > 0,
        ;
    }
}

/// Magnitude of a 64-bit integer.
fn magnitude(v: i64) -> (m: u128)
    ensures
        m == magnitude_of(v as int),
        m <= 0x8000_0000_0000_0000,
{
    if v < 0 {
        (-(v as i128)) as u128
    } else {
        v as u128
    }
}

/// The number whose raw value is `v` brought into range.
fn saturate(v: i128) -> (r: Fixed)
    ensures
        r@ == clamp(v as int),
{
    if v > MAX_RAW as i128 {
        Fixed { raw: MAX_RAW }
    } else if v < -(MAX_RAW as i128) {
        Fixed { raw: -MAX_RAW }
    } else {
        Fixed { raw: v as i64 }
    }
}

/// The number with magnitude `m` and the given sign, brought into range.
fn signed_saturate(m: u128, negative: bool) -> (r: Fixed)
    ensures
        r@ == clamp(
            if negative {
                -(m as int)
            } else {
                m as int
            },
        ),
{
    if m > MAX_RAW as u128 {
        if negative {
            Fixed { raw: -MAX_RAW }
        } else {
            Fixed { raw: MAX_RAW }
        }
    } else if negative {
        Fixed { raw: -(m as i64) }
    } else {
        Fixed { raw: m as i64 }
    }
}

} // verus!
