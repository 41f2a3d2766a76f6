//! Arithmetic on numbers wider than the number type, for sums of products
//! that leave its range.
//!
//! A wide number is a raw value in 128 bits: it stands for `raw / 2^32` as
//! the raw value of a `Fixed` does, and never saturates here.

use crate::fixed::{
    is_isqrt, lemma_isqrt_is, lemma_product_of_magnitudes, magnitude_of, sqrt_raw, trunc_div, Fixed,
    MAX_RAW, SCALE,
};
use crate::interval::Interval;
use vstd::prelude::*;

verus! {

/// The bound of the number type as a wide number: `2^63`.
pub const LIMIT: i128 = 0x8000_0000_0000_0000;

/// True where the wide number has the magnitude of a number of the number
/// type.
pub open spec fn fits(v: int) -> bool {
    -LIMIT < v < LIMIT
}

/// `2^k`.
pub open spec fn two_to(k: nat) -> int
    decreases k,
{
    if k == 0 {
        1
    } else {
        2 * two_to((k - 1) as nat)
    }
}

/// The coefficients `h` and `c` of a quadratic `a t^2 - 2 h t + c = 0`,
/// brought to where both fit: `h` is halved and `c` is quartered, both
/// rounded toward zero, as often as it takes. With `t = 2^k u` the
/// quadratic `a u^2 - 2 (h / 2^k) u + c / 4^k = 0` has the same roots,
/// and `k` is the third part of the result.
pub open spec fn reduced(h: int, c: int) -> (int, int, nat)
    decreases magnitude_of(h) + magnitude_of(c),
{
    if fits(h) && fits(c) {
        (h, c, 0)
    } else {
        let further = reduced(trunc_div(h, 2), trunc_div(c, 4));
        (further.0, further.1, further.2 + 1)
    }
}

/// The discriminant of the reduced quadratic: `h^2 - a c`.
pub open spec fn discriminant(a: int, h: int, c: int) -> int {
    trunc_div(h * h, SCALE as int) - trunc_div(a * c, SCALE as int)
}

/// The coefficients `a` and `h` of a quadratic `a t^2 - 2 h t + c = 0`,
/// brought to where `a` fits: `a` is quartered and `h` is halved, both
/// rounded toward zero, as often as it takes. With `t = u / 2^j` the
/// quadratic `(a / 4^j) u^2 - 2 (h / 2^j) u + c = 0` has the same roots,
/// and `j` is the third part of the result.
pub open spec fn reduced_lead(a: int, h: int) -> (int, int, nat)
    decreases magnitude_of(a),
{
    if fits(a) {
        (a, h, 0)
    } else {
        let further = reduced_lead(trunc_div(a, 4), trunc_div(h, 2));
        (further.0, further.1, further.2 + 1)
    }
}

/// The quotient with the numerator `n 2^k` and the denominator `a 2^j`.
pub open spec fn quotient(n: int, k: nat, j: nat, a: int) -> int {
    if k >= j {
        trunc_div((n * two_to((k - j) as nat)) * SCALE, a)
    } else {
        trunc_div(n * SCALE, a * two_to((j - k) as nat))
    }
}

/// The root `n 2^k / (a 2^j)`, where it is a number of the number type
/// that is in range.
pub open spec fn root_from(n: int, k: nat, j: nat, a: int) -> Option<Fixed> {
    if (k >= j ==> -0x4000_0000_0000_0000_0000_0000 < n * two_to((k - j) as nat)
        < 0x4000_0000_0000_0000_0000_0000) && -MAX_RAW < quotient(n, k, j, a) < MAX_RAW {
        Some(Fixed::of(quotient(n, k, j, a)))
    } else {
        None
    }
}

/// The square root of the discriminant of the quadratic, once it is
/// reduced.
pub open spec fn root_of_discriminant(a: int, h: int, c: int) -> int {
    let l = reduced_lead(a, h);
    let r = reduced(l.1, c);
    sqrt_raw(discriminant(l.0, r.0, r.1))
}

/// The near root of the quadratic, `(h - sqrt(h^2 - a c)) / a`, where it
/// is a number that is in range.
pub open spec fn near_root(a: int, h: int, c: int) -> Option<Fixed> {
    let l = reduced_lead(a, h);
    let r = reduced(l.1, c);
    root_from(r.0 - root_of_discriminant(a, h, c), r.2, l.2, l.0)
}

/// The far root of the quadratic, `(h + sqrt(h^2 - a c)) / a`, where it is
/// a number that is in range.
pub open spec fn far_root(a: int, h: int, c: int) -> Option<Fixed> {
    let l = reduced_lead(a, h);
    let r = reduced(l.1, c);
    root_from(r.0 + root_of_discriminant(a, h, c), r.2, l.2, l.0)
}

/// True where the wide number is below `2^80` in magnitude, as every sum
/// of a few products of numbers of the number type is.
pub open spec fn bounded(v: int) -> bool {
    -0x1_0000_0000_0000_0000_0000_0000_0000 < v < 0x1_0000_0000_0000_0000_0000_0000_0000
}

/// True where the quadratic has roots that can be computed: `a` is
/// positive, the coefficients are bounded, and the discriminant is not
/// negative.
pub open spec fn solvable(a: int, h: int, c: int) -> bool {
    let l = reduced_lead(a, h);
    let r = reduced(l.1, c);
    0 < a && bounded(a) && bounded(h) && bounded(c) && discriminant(l.0, r.0, r.1) >= 0
}

/// The root that counts: the near root where it lies strictly inside
/// `ray_t`, else the far root where that one does.
pub open spec fn root_in(a: int, h: int, c: int, ray_t: Interval) -> Option<Fixed> {
    if !solvable(a, h, c) {
        None
    } else if near_root(a, h, c) is Some && ray_t.surrounds_spec(near_root(a, h, c)->Some_0) {
        near_root(a, h, c)
    } else if far_root(a, h, c) is Some && ray_t.surrounds_spec(far_root(a, h, c)->Some_0) {
        far_root(a, h, c)
    } else {
        None
    }
}

/// Powers of two are positive and grow.
pub proof fn lemma_two_to_grows(i: nat, k: nat)
    requires
        i <= k,
    ensures
        0 < two_to(i) <= two_to(k),
    decreases k,
{
    if k == 0 {
    } else if i == k {
        lemma_two_to_grows(0, (k - 1) as nat);
        lemma_two_to_grows((k - 1) as nat, (k - 1) as nat);
    } else {
        lemma_two_to_grows(i, (k - 1) as nat);
    }
}

/// Where both roots are numbers, the near root is not beyond the far root.
pub proof fn lemma_roots_ordered(a: int, h: int, c: int)
    requires
        solvable(a, h, c),
        near_root(a, h, c) is Some,
        far_root(a, h, c) is Some,
    ensures
        near_root(a, h, c)->Some_0@ <= far_root(a, h, c)->Some_0@,
{
    let l = reduced_lead(a, h);
    let r = reduced(l.1, c);
    let s = root_of_discriminant(a, h, c);
    lemma_reduced_lead_fits(a, h);
    lemma_sqrt_nonnegative(discriminant(l.0, r.0, r.1));
    let k = r.2;
    let j = l.2;
    if k >= j {
        lemma_two_to_grows(0, (k - j) as nat);
        let p = two_to((k - j) as nat);
        let m_near = (r.0 - s) * p;
        let m_far = (r.0 + s) * p;
        assert(m_near * SCALE <= m_far * SCALE) by (nonlinear_arith)
            requires
                m_near == (r.0 - s) * p,
                m_far == (r.0 + s) * p,
                s >= 0,
                p > 0,
                SCALE > 0,
        ;
        crate::fixed::lemma_trunc_div_monotone(m_near * SCALE, m_far * SCALE, l.0);
    } else {
        lemma_two_to_grows(0, (j - k) as nat);
        let p = two_to((j - k) as nat);
        let d = l.0 * p;
        assert(d > 0) by (nonlinear_arith)
            requires
                d == l.0 * p,
                l.0 > 0,
                p > 0,
        ;
        assert((r.0 - s) * SCALE <= (r.0 + s) * SCALE) by (nonlinear_arith)
            requires
                s >= 0,
                SCALE > 0,
        ;
        crate::fixed::lemma_trunc_div_monotone((r.0 - s) * SCALE, (r.0 + s) * SCALE, d);
    }
}

/// The leading coefficient, once reduced, fits, and is positive where it
/// was.
pub proof fn lemma_reduced_lead_fits(a: int, h: int)
    ensures
        fits(reduced_lead(a, h).0),
        a > 0 ==> reduced_lead(a, h).0 > 0,
    decreases magnitude_of(a),
{
    if !fits(a) {
        lemma_reduced_lead_fits(trunc_div(a, 4), trunc_div(h, 2));
    }
}

/// A square root is never negative.
pub proof fn lemma_sqrt_nonnegative(a: int)
    ensures
        sqrt_raw(a) >= 0,
        a > 0 ==> is_isqrt(a * SCALE, sqrt_raw(a)),
{
    if a > 0 {
        assert(a * SCALE >= 0) by (nonlinear_arith)
            requires
                a > 0,
                SCALE > 0,
        ;
        crate::fixed::lemma_isqrt_exists(a * SCALE);
    }
}

/// Lowering the end of the search window keeps the chosen root where it
/// still lies inside, and chooses no other.
pub proof fn lemma_root_narrowed(a: int, h: int, c: int, ray_t: Interval, limit: Fixed)
    requires
        limit@ <= ray_t.max@,
    ensures
        root_in(a, h, c, Interval { min: ray_t.min, max: limit }) == (match root_in(
            a,
            h,
            c,
            ray_t,
        ) {
            Some(t) => if t@ < limit@ {
                Some(t)
            } else {
                None
            },
            None => None,
        }),
{
    if solvable(a, h, c) && near_root(a, h, c) is Some && far_root(a, h, c) is Some {
        lemma_roots_ordered(a, h, c);
    }
}

/// What is reduced fits, and the discriminant of what fits is below
/// `2^95` in magnitude.
pub proof fn lemma_reduced_fits(h: int, c: int)
    ensures
        fits(reduced(h, c).0),
        fits(reduced(h, c).1),
    decreases magnitude_of(h) + magnitude_of(c),
{
    if !(fits(h) && fits(c)) {
        lemma_reduced_fits(trunc_div(h, 2), trunc_div(c, 4));
    }
}

/// Magnitude of a wide number.
fn magnitude(v: i128) -> (m: u128)
    requires
        v > -0x4000_0000_0000_0000_0000_0000_0000_0000,
    ensures
        m == magnitude_of(v as int),
{
    if v < 0 {
        (-v) as u128
    } else {
        v as u128
    }
}

/// The product of two numbers of up to 65 bits as a wide number: the exact
/// product, rounded toward zero to a multiple of `2^-32`.
pub fn product(a: i128, b: i128) -> (r: i128)
    requires
        -0x1_0000_0000_0000_0000 < a < 0x1_0000_0000_0000_0000,
        -0x1_0000_0000_0000_0000 < b < 0x1_0000_0000_0000_0000,
    ensures
        r == trunc_div(a * b, SCALE as int),
        -0x1_0000_0000_0000_0000_0000_0000 <= r <= 0x1_0000_0000_0000_0000_0000_0000,
        magnitude_of(r as int) * SCALE <= magnitude_of(a as int) * magnitude_of(b as int),
{
    let ma: u128 = magnitude(a);
    let mb: u128 = magnitude(b);
    proof {
        lemma_product_of_magnitudes(a as int, b as int);
        assert(ma * mb <= 0xffff_ffff_ffff_ffff * 0xffff_ffff_ffff_ffff) by (nonlinear_arith)
            requires
                ma <= 0xffff_ffff_ffff_ffff,
                mb <= 0xffff_ffff_ffff_ffff,
        ;
    }
    let q: u128 = (ma * mb) / 4294967296;
    let negative: bool = (a < 0) != (b < 0);
    if negative {
        -(q as i128)
    } else {
        q as i128
    }
}

/// Half of a wide number, rounded toward zero.
fn half_of(v: i128) -> (r: i128)
    requires
        v > -0x4000_0000_0000_0000_0000_0000_0000_0000,
    ensures
        r == trunc_div(v as int, 2),
{
    if v >= 0 {
        v / 2
    } else {
        -((-v) / 2)
    }
}

/// A quarter of a wide number, rounded toward zero.
fn quarter_of(v: i128) -> (r: i128)
    requires
        v > -0x4000_0000_0000_0000_0000_0000_0000_0000,
    ensures
        r == trunc_div(v as int, 4),
{
    if v >= 0 {
        v / 4
    } else {
        -((-v) / 4)
    }
}

/// The coefficients `h` and `c`, brought to where both fit.
pub fn reduce(h: i128, c: i128) -> (r: (i128, i128, u32))
    requires
        -0x1_0000_0000_0000_0000_0000_0000_0000 < h < 0x1_0000_0000_0000_0000_0000_0000_0000,
        -0x1_0000_0000_0000_0000_0000_0000_0000 < c < 0x1_0000_0000_0000_0000_0000_0000_0000,
    ensures
        r.0 == reduced(h as int, c as int).0,
        r.1 == reduced(h as int, c as int).1,
        r.2 == reduced(h as int, c as int).2,
        r.2 <= 64,
{
    let mut hs = h;
    let mut cs = c;
    let mut k: u32 = 0;
    while !(-LIMIT < hs && hs < LIMIT && -LIMIT < cs && cs < LIMIT)
        invariant
            k <= 64,
            -0x1_0000_0000_0000_0000_0000_0000_0000 < h < 0x1_0000_0000_0000_0000_0000_0000_0000,
            -0x1_0000_0000_0000_0000_0000_0000_0000 < c < 0x1_0000_0000_0000_0000_0000_0000_0000,
            magnitude_of(hs as int) * two_to(k as nat) <= magnitude_of(h as int),
            magnitude_of(cs as int) * two_to(k as nat) <= magnitude_of(c as int),
            -0x1_0000_0000_0000_0000_0000_0000_0000 < hs < 0x1_0000_0000_0000_0000_0000_0000_0000,
            -0x1_0000_0000_0000_0000_0000_0000_0000 < cs < 0x1_0000_0000_0000_0000_0000_0000_0000,
            reduced(h as int, c as int).0 == reduced(hs as int, cs as int).0,
            reduced(h as int, c as int).1 == reduced(hs as int, cs as int).1,
            reduced(h as int, c as int).2 == reduced(hs as int, cs as int).2 + k,
        decreases magnitude_of(hs as int) + magnitude_of(cs as int),
    {
        proof {
            lemma_two_to_grows(0, k as nat);
            if k == 64 {
                lemma_two_to_64();
                let p = two_to(64);
                let mh = magnitude_of(hs as int);
                let mc = magnitude_of(cs as int);
                let bh = magnitude_of(h as int);
                let bc = magnitude_of(c as int);
                assert(mh < LIMIT && mc < LIMIT) by (nonlinear_arith)
                    requires
                        mh * p <= bh,
                        mc * p <= bc,
                        bh <= 0x1_0000_0000_0000_0000_0000_0000_0000,
                        bc <= 0x1_0000_0000_0000_0000_0000_0000_0000,
                        p == 0x1_0000_0000_0000_0000,
                        mh >= 0,
                        mc >= 0,
                ;
            }
            let p = two_to(k as nat);
            let mh = magnitude_of(hs as int);
            let mc = magnitude_of(cs as int);
            let mh2 = magnitude_of(trunc_div(hs as int, 2));
            let mc2 = magnitude_of(trunc_div(cs as int, 4));
            assert(mh2 * (2 * p) <= mh * p && mc2 * (2 * p) <= mc * p) by (nonlinear_arith)
                requires
                    2 * mh2 <= mh,
                    2 * mc2 <= mc,
                    mh2 >= 0,
                    mc2 >= 0,
                    p > 0,
            ;
        }
        hs = half_of(hs);
        cs = quarter_of(cs);
        k = k + 1;
    }
    (hs, cs, k)
}

/// `2^64`.
proof fn lemma_two_to_64()
    ensures
        two_to(64) == 0x1_0000_0000_0000_0000,
{
    reveal_with_fuel(two_to, 65);
}

/// The integer square root of a wide number that is not negative.
pub fn square_root(n: u128) -> (r: u128)
    requires
        n < 0x8000_0000_0000_0000_0000_0000_0000_0000,
    ensures
        is_isqrt(n as int, r as int),
        r < 0x1_0000_0000_0000_0000,
{
    let mut low: u128 = 0;
    let mut high: u128 = 0x1_0000_0000_0000_0000;
    assert(0x1_0000_0000_0000_0000int * 0x1_0000_0000_0000_0000int
        > 0x8000_0000_0000_0000_0000_0000_0000_0000) by (nonlinear_arith);
    while high - low > 1
        invariant
            low < high <= 0x1_0000_0000_0000_0000,
            low * low <= n < high * high,
        decreases high - low,
    {
        let mid: u128 = low + (high - low) / 2;
        assert(mid * mid <= 0xffff_ffff_ffff_ffff * 0xffff_ffff_ffff_ffff) by (nonlinear_arith)
            requires
                mid <= 0xffff_ffff_ffff_ffff,
        ;
        if mid * mid <= n {
            low = mid;
        } else {
            high = mid;
        }
    }
    low
}

/// The coefficients `a` and `h`, brought to where `a` fits.
pub fn reduce_lead(a: i128, h: i128) -> (r: (i128, i128, u32))
    requires
        0 < a < 0x1_0000_0000_0000_0000_0000_0000_0000,
        -0x1_0000_0000_0000_0000_0000_0000_0000 < h < 0x1_0000_0000_0000_0000_0000_0000_0000,
    ensures
        r.0 == reduced_lead(a as int, h as int).0,
        r.1 == reduced_lead(a as int, h as int).1,
        r.2 == reduced_lead(a as int, h as int).2,
        r.2 <= 64,
        -0x1_0000_0000_0000_0000_0000_0000_0000 < r.1 < 0x1_0000_0000_0000_0000_0000_0000_0000,
{
    let mut al = a;
    let mut hl = h;
    let mut j: u32 = 0;
    while !(al < LIMIT)
        invariant
            j <= 64,
            0 < a < 0x1_0000_0000_0000_0000_0000_0000_0000,
            0 < al < 0x1_0000_0000_0000_0000_0000_0000_0000,
            al * two_to(j as nat) <= a,
            -0x1_0000_0000_0000_0000_0000_0000_0000 < hl < 0x1_0000_0000_0000_0000_0000_0000_0000,
            reduced_lead(a as int, h as int).0 == reduced_lead(al as int, hl as int).0,
            reduced_lead(a as int, h as int).1 == reduced_lead(al as int, hl as int).1,
            reduced_lead(a as int, h as int).2 == reduced_lead(al as int, hl as int).2 + j,
        decreases al,
    {
        proof {
            lemma_two_to_grows(0, j as nat);
            if j == 64 {
                lemma_two_to_64();
                let p = two_to(64);
                assert(al < LIMIT) by (nonlinear_arith)
                    requires
                        al * p <= a,
                        a <= 0x1_0000_0000_0000_0000_0000_0000_0000,
                        p == 0x1_0000_0000_0000_0000,
                        al >= 0,
                ;
            }
            let p = two_to(j as nat);
            let a4 = trunc_div(al as int, 4);
            assert(a4 * (2 * p) <= al * p) by (nonlinear_arith)
                requires
                    4 * a4 <= al,
                    a4 >= 0,
                    p > 0,
            ;
        }
        al = quarter_of(al);
        hl = half_of(hl);
        j = j + 1;
    }
    (al, hl, j)
}

/// The root `n 2^k / (a 2^j)`, where it is a number that is in range.
pub fn root_of(n: i128, k: u32, j: u32, a: i128) -> (r: Option<Fixed>)
    requires
        -0x4_0000_0000_0000_0000 < n < 0x4_0000_0000_0000_0000,
        0 < a < LIMIT,
        k <= 64,
        j <= 64,
    ensures
        r == root_from(n as int, k as nat, j as nat, a as int),
{
    let mut m = n;
    let mut d = a;
    if k >= j {
        let up: u32 = k - j;
        let mut i: u32 = 0;
        while i < up
            invariant
                i <= up,
                k >= j,
                up == k - j,
                d == a,
                m == n * two_to(i as nat),
                -0x4000_0000_0000_0000_0000_0000 < m < 0x4000_0000_0000_0000_0000_0000,
            decreases up - i,
        {
            if m >= 0x2000_0000_0000_0000_0000_0000 || m <= -0x2000_0000_0000_0000_0000_0000 {
                proof {
                    lemma_two_to_grows((i + 1) as nat, up as nat);
                    let p = two_to(i as nat);
                    let q = two_to(up as nat);
                    assert(magnitude_of(n * q) >= 0x4000_0000_0000_0000_0000_0000)
                        by (nonlinear_arith)
                        requires
                            magnitude_of(n * p) >= 0x2000_0000_0000_0000_0000_0000,
                            q >= 2 * p,
                            p > 0,
                    ;
                    assert((k as nat - j as nat) as nat == up as nat);
                    assert(root_from(n as int, k as nat, j as nat, a as int) is None);
                }
                return None;
            }
            proof {
                let p = two_to(i as nat);
                assert(n * (2 * p) == (n * p) * 2) by (nonlinear_arith);
            }
            m = m * 2;
            i = i + 1;
        }
    } else {
        let down: u32 = j - k;
        let mut i: u32 = 0;
        while i < down
            invariant
                i <= down,
                down <= 64,
                k < j,
                down == j - k,
                m == n,
                -0x4_0000_0000_0000_0000 < n < 0x4_0000_0000_0000_0000,
                0 < a < LIMIT,
                d == a * two_to(i as nat),
                0 < d,
                i < 64 ==> d < 0x4000_0000_0000_0000_0000_0000_0000_0000,
            decreases down - i,
        {
            proof {
                let p = two_to(i as nat);
                assert(a * (2 * p) == (a * p) * 2) by (nonlinear_arith);
                lemma_two_to_grows(i as nat, 63);
                lemma_two_to_63();
                if i + 1 < 64 {
                    lemma_two_to_grows((i + 1) as nat, 63);
                    let q = two_to((i + 1) as nat);
                    assert(a * q < 0x4000_0000_0000_0000_0000_0000_0000_0000) by (nonlinear_arith)
                        requires
                            0 < a < 0x8000_0000_0000_0000,
                            0 < q <= 0x8000_0000_0000_0000,
                    ;
                }
                assert(a * p < 0x4000_0000_0000_0000_0000_0000_0000_0000) by (nonlinear_arith)
                    requires
                        0 < a < 0x8000_0000_0000_0000,
                        0 < p <= 0x8000_0000_0000_0000,
                ;
            }
            d = d * 2;
            i = i + 1;
        }
    }
    let mm: u128 = magnitude(m);
    assert(mm * SCALE < 0x4000_0000_0000_0000_0000_0000 * 0x1_0000_0000) by (nonlinear_arith)
        requires
            mm < 0x4000_0000_0000_0000_0000_0000,
            SCALE == 0x1_0000_0000,
    ;
    let q: u128 = (mm * 4294967296) / (d as u128);
    proof {
        lemma_quotient_signed(m as int, d as int);
    }
    if q >= MAX_RAW as u128 {
        None
    } else if m < 0 {
        Some(Fixed { raw: -(q as i64) })
    } else {
        Some(Fixed { raw: q as i64 })
    }
}

/// `2^63`.
proof fn lemma_two_to_63()
    ensures
        two_to(63) == 0x8000_0000_0000_0000,
{
    reveal_with_fuel(two_to, 64);
}

/// The quotient of a number by a positive number, rounded toward zero, is
/// the rounded-down quotient of its magnitude, with its sign.
proof fn lemma_quotient_signed(m: int, a: int)
    requires
        a > 0,
    ensures
        m >= 0 ==> trunc_div(m * SCALE, a) == (magnitude_of(m) * SCALE) / a,
        m < 0 ==> trunc_div(m * SCALE, a) == -((magnitude_of(m) * SCALE) / a),
        (magnitude_of(m) * SCALE) / a >= 0,
{
    let mm = magnitude_of(m);
    assert(mm * SCALE >= 0) by (nonlinear_arith)
        requires
            mm >= 0,
            SCALE > 0,
    ;
    vstd::arithmetic::div_mod::lemma_div_pos_is_pos(mm * SCALE, a);
    if m < 0 {
        assert(m * SCALE == -(mm * SCALE) && m * SCALE < 0) by (nonlinear_arith)
            requires
                mm == -m,
                m < 0,
                SCALE > 0,
        ;
    } else {
        assert(m * SCALE >= 0) by (nonlinear_arith)
            requires
                m >= 0,
                SCALE > 0,
        ;
    }
}

/// Solves the quadratic `a t^2 - 2 h t + c = 0` for the root that counts.
pub fn solve(a: i128, h: i128, c: i128, ray_t: Interval) -> (r: Option<Fixed>)
    ensures
        r == root_in(a as int, h as int, c as int, ray_t),
{
    let ghost old_a = a;
    if a <= 0 || a >= 0x1_0000_0000_0000_0000_0000_0000_0000 {
        return None;
    }
    if h <= -0x1_0000_0000_0000_0000_0000_0000_0000 || h >= 0x1_0000_0000_0000_0000_0000_0000_0000
        || c <= -0x1_0000_0000_0000_0000_0000_0000_0000 || c
        >= 0x1_0000_0000_0000_0000_0000_0000_0000 {
        return None;
    }
    let (a, h_lead, j) = reduce_lead(a, h);
    let (hs, cs, k) = reduce(h_lead, c);
    proof {
        lemma_reduced_lead_fits(old_a as int, h as int);
        lemma_reduced_fits(h_lead as int, c as int);
    }
    let h_squared = product(hs, hs);
    let a_c = product(a, cs);
    proof {
        let mh = magnitude_of(hs as int);
        let mc = magnitude_of(cs as int);
        let x = magnitude_of(h_squared as int);
        let y = magnitude_of(a_c as int);
        assert(x < 0x4000_0000_0000_0000_0000_0000 && y < 0x4000_0000_0000_0000_0000_0000)
            by (nonlinear_arith)
            requires
                x * SCALE <= mh * mh,
                y * SCALE <= a * mc,
                0 <= mh < 0x8000_0000_0000_0000,
                0 <= mc < 0x8000_0000_0000_0000,
                0 < a < 0x8000_0000_0000_0000,
                SCALE == 0x1_0000_0000,
                x >= 0,
                y >= 0,
        ;
    }
    let disc = h_squared - a_c;
    if disc < 0 {
        return None;
    }
    assert(disc * SCALE < 0x8000_0000_0000_0000_0000_0000 * 0x1_0000_0000) by (nonlinear_arith)
        requires
            0 <= disc < 0x8000_0000_0000_0000_0000_0000,
            SCALE == 0x1_0000_0000,
    ;
    let radicand: u128 = (disc as u128) * 4294967296;
    let sqrt_d = square_root(radicand) as i128;
    proof {
        assert(radicand as int == disc * SCALE);
        if disc > 0 {
            lemma_isqrt_is(disc * SCALE, sqrt_d as int);
        } else {
            assert(sqrt_d == 0) by (nonlinear_arith)
                requires
                    sqrt_d >= 0,
                    sqrt_d * sqrt_d <= 0,
            ;
        }
        assert(sqrt_d == sqrt_raw(disc as int));
    }
    let near = root_of(hs - sqrt_d, k, j, a);
    if let Some(root) = near {
        if ray_t.surrounds(root) {
            return Some(root);
        }
    }
    let far = root_of(hs + sqrt_d, k, j, a);
    if let Some(root) = far {
        if ray_t.surrounds(root) {
            return Some(root);
        }
    }
    None
}

} // verus!
