//! How close to length one a vector divided by its length comes.

use crate::fixed::{clamp, div_raw, magnitude_of, mul_raw, trunc_div, SCALE};
use crate::vector::{unit_vector_spec, Vector3};
use vstd::prelude::*;

verus! {

/// Raw value of the least squared length of a vector that is divided by its
/// length: `2^-16`, the square of `2^-8`.
pub const MIN_LENGTH_SQUARED_RAW: i64 = 65536;

/// Raw bound on how far the squared length of a vector that was divided by
/// its length lies from one: `2^-13`.
pub const UNIT_TOLERANCE_RAW: i64 = 524288;

/// Raw value of the greatest squared length for which the bound on a
/// vector that is divided by its length is stated: `2^30`, the square of
/// 32768.
pub const MAX_LENGTH_SQUARED_RAW: i64 = 0x4000_0000_0000_0000;

/// True where the squared length of the vector lies between the least and
/// the greatest squared length: the vector is between `2^-8` and 32768
/// long, and dividing it by its length gives a vector of length one,
/// within the tolerance.
pub open spec fn can_be_normalised(v: Vector3) -> bool {
    MIN_LENGTH_SQUARED_RAW <= v.length_squared_spec()@ <= MAX_LENGTH_SQUARED_RAW
}

/// The quotient and the remainder of a division by a positive number.
proof fn lemma_quotient(a: int, d: int)
    requires
        a >= 0,
        d > 0,
    ensures
        0 <= a / d,
        (a / d) * d <= a < (a / d) * d + d,
{
    vstd::arithmetic::div_mod::lemma_fundamental_div_mod(a, d);
    vstd::arithmetic::div_mod::lemma_mod_bound(a, d);
    vstd::arithmetic::div_mod::lemma_div_pos_is_pos(a, d);
    assert(d * (a / d) == (a / d) * d) by (nonlinear_arith);
}

/// The square of a quotient `v = x s / l`, and of its successor, against
/// the square of `x`.
proof fn lemma_quotient_squared(x: int, l: int, s: int, v: int)
    requires
        x >= 0,
        l > 0,
        s > 0,
        v >= 0,
        v * l <= x * s < v * l + l,
    ensures
        (v * v) * (l * l) <= (x * x) * (s * s),
        (x * x) * (s * s) < (v * v + 2 * v + 1) * (l * l),
{
    let a = v * l;
    let b = x * s;
    assert(0 <= a) by (nonlinear_arith)
        requires
            a == v * l,
            v >= 0,
            l > 0,
    ;
    assert(a * a <= b * b) by (nonlinear_arith)
        requires
            0 <= a <= b,
    ;
    assert(a * a == (v * v) * (l * l)) by (nonlinear_arith)
        requires
            a == v * l,
    ;
    assert(b * b == (x * x) * (s * s)) by (nonlinear_arith)
        requires
            b == x * s,
    ;
    let c = a + l;
    assert(b * b < c * c) by (nonlinear_arith)
        requires
            0 <= b < c,
    ;
    assert(c * c == (v * v + 2 * v + 1) * (l * l)) by (nonlinear_arith)
        requires
            c == v * l + l,
    ;
}

/// The heart of the bound, over the magnitudes of the components: where
/// the squared length `n` of `(x, y, z)` lies between the least and the
/// greatest squared length, and `l` is its square root, the vector of the
/// quotients
/// `x / l`, `y / l`, `z / l` has a squared length within the tolerance of
/// one, and no quotient is above two.
pub proof fn lemma_quotients_near_one(x: int, y: int, z: int, l: int)
    requires
        x >= 0,
        y >= 0,
        z >= 0,
        l >= 0,
        MIN_LENGTH_SQUARED_RAW <= (x * x) / (SCALE as int) + (y * y) / (SCALE as int) + (z * z) / (
        SCALE as int) <= MAX_LENGTH_SQUARED_RAW,
        l * l <= ((x * x) / (SCALE as int) + (y * y) / (SCALE as int) + (z * z) / (SCALE as int))
            * SCALE < (l + 1) * (l + 1),
    ensures
        l > 0,
        0 <= (x * SCALE) / l <= 2 * SCALE,
        0 <= (y * SCALE) / l <= 2 * SCALE,
        0 <= (z * SCALE) / l <= 2 * SCALE,
        ({
            let vx = (x * SCALE) / l;
            let vy = (y * SCALE) / l;
            let vz = (z * SCALE) / l;
            SCALE - 15 <= (vx * vx) / (SCALE as int) + (vy * vy) / (SCALE as int) + (vz * vz) / (
            SCALE as int) <= SCALE + UNIT_TOLERANCE_RAW
        }),
{
    let s = SCALE as int;
    let n = (x * x) / s + (y * y) / s + (z * z) / s;
    assert(x * x >= 0 && y * y >= 0 && z * z >= 0) by (nonlinear_arith);
    lemma_quotient(x * x, s);
    lemma_quotient(y * y, s);
    lemma_quotient(z * z, s);
    let q = x * x + y * y + z * z;
    assert(n * s <= q < (n + 3) * s) by (nonlinear_arith)
        requires
            n == (x * x) / s + (y * y) / s + (z * z) / s,
            q == x * x + y * y + z * z,
            ((x * x) / s) * s <= x * x < ((x * x) / s) * s + s,
            ((y * y) / s) * s <= y * y < ((y * y) / s) * s + s,
            ((z * z) / s) * s <= z * z < ((z * z) / s) * s + s,
    ;
    // The root is positive, and its square is close to `n`: it is above
    // `(n - c) s`, with `c` two for a vector shorter than one and 65537
    // for a longer one.
    assert(l > 0) by (nonlinear_arith)
        requires
            l >= 0,
            n * s < (l + 1) * (l + 1),
            n >= 65536,
            s == 4294967296,
    ;
    let c: int = if n < s {
        2
    } else {
        65537
    };
    let ll = l * l;
    if n < s {
        assert(l < s) by (nonlinear_arith)
            requires
                l >= 0,
                l * l <= n * s,
                n < s,
                s > 0,
        ;
        assert(ll > (n - 2) * s) by (nonlinear_arith)
            requires
                ll == l * l,
                n * s < (l + 1) * (l + 1),
                0 <= l < s,
        ;
    } else {
        assert(l <= 32768 * s) by (nonlinear_arith)
            requires
                l >= 0,
                l * l <= n * s,
                n <= 0x4000_0000 * s,
                s == 4294967296,
        ;
        assert(ll > (n - 65537) * s) by (nonlinear_arith)
            requires
                ll == l * l,
                n * s < (l + 1) * (l + 1),
                0 <= l <= 32768 * s,
                s == 4294967296,
        ;
    }
    assert(ll > 0) by (nonlinear_arith)
        requires
            ll == l * l,
            l > 0,
    ;
    let vx = (x * s) / l;
    let vy = (y * s) / l;
    let vz = (z * s) / l;
    assert(x * s >= 0 && y * s >= 0 && z * s >= 0) by (nonlinear_arith)
        requires
            x >= 0,
            y >= 0,
            z >= 0,
            s > 0,
    ;
    lemma_quotient(x * s, l);
    lemma_quotient(y * s, l);
    lemma_quotient(z * s, l);
    lemma_quotient_squared(x, l, s, vx);
    lemma_quotient_squared(y, l, s, vy);
    lemma_quotient_squared(z, l, s, vz);
    let ss = s * s;
    let w = vx * vx + vy * vy + vz * vz;
    let ax = (x * x) * ss;
    let ay = (y * y) * ss;
    let az = (z * z) * ss;
    assert(q * ss == ax + ay + az) by (nonlinear_arith)
        requires
            q == x * x + y * y + z * z,
            ax == (x * x) * ss,
            ay == (y * y) * ss,
            az == (z * z) * ss,
    ;
    let bx = (vx * vx) * ll;
    let by = (vy * vy) * ll;
    let bz = (vz * vz) * ll;
    assert(w * ll == bx + by + bz) by (nonlinear_arith)
        requires
            w == vx * vx + vy * vy + vz * vz,
            bx == (vx * vx) * ll,
            by == (vy * vy) * ll,
            bz == (vz * vz) * ll,
    ;
    assert(w * ll <= q * ss);
    let cx = (vx * vx + 2 * vx + 1) * ll;
    let cy = (vy * vy + 2 * vy + 1) * ll;
    let cz = (vz * vz + 2 * vz + 1) * ll;
    let m = w + 2 * (vx + vy + vz) + 3;
    assert(m * ll == cx + cy + cz) by (nonlinear_arith)
        requires
            m == (vx * vx + 2 * vx + 1) + (vy * vy + 2 * vy + 1) + (vz * vz + 2 * vz + 1),
            cx == (vx * vx + 2 * vx + 1) * ll,
            cy == (vy * vy + 2 * vy + 1) * ll,
            cz == (vz * vz + 2 * vz + 1) * ll,
    ;
    assert(q * ss < m * ll);
    let top = (n + 3) * s;
    assert(q * ss < top * ss) by (nonlinear_arith)
        requires
            q < top,
            ss == s * s,
            s > 0,
    ;
    // No quotient is above two.
    lemma_quotient_at_most_two(vx, w, ll, n, s, top, c);
    lemma_quotient_at_most_two(vy, w, ll, n, s, top, c);
    lemma_quotient_at_most_two(vz, w, ll, n, s, top, c);
    // From above.
    assert(vx * vx >= 0 && vy * vy >= 0 && vz * vz >= 0) by (nonlinear_arith);
    lemma_quotient(vx * vx, s);
    lemma_quotient(vy * vy, s);
    lemma_quotient(vz * vz, s);
    let r = (vx * vx) / s + (vy * vy) / s + (vz * vz) / s;
    assert(r * s <= w < r * s + 3 * s) by (nonlinear_arith)
        requires
            r == (vx * vx) / s + (vy * vy) / s + (vz * vz) / s,
            w == vx * vx + vy * vy + vz * vz,
            ((vx * vx) / s) * s <= vx * vx < ((vx * vx) / s) * s + s,
            ((vy * vy) / s) * s <= vy * vy < ((vy * vy) / s) * s + s,
            ((vz * vz) / s) * s <= vz * vz < ((vz * vz) / s) * s + s,
    ;
    lemma_from_above(r, w, ll, n, s, top, c);
    // From below.
    assert(n * s * ss >= ll * ss) by (nonlinear_arith)
        requires
            ll <= n * s,
            ss == s * s,
    ;
    assert(q * ss >= n * s * ss) by (nonlinear_arith)
        requires
            q >= n * s,
            ss == s * s,
    ;
    assert(m > ss) by (nonlinear_arith)
        requires
            ll * ss < m * ll,
            ll > 0,
    ;
    assert(r * s > ss - 15 * s - 3) by (nonlinear_arith)
        requires
            m > ss,
            m == w + 2 * (vx + vy + vz) + 3,
            vx <= 2 * s,
            vy <= 2 * s,
            vz <= 2 * s,
            w < r * s + 3 * s,
    ;
    assert(r >= s - 15) by (nonlinear_arith)
        requires
            r * s > ss - 15 * s - 3,
            ss == s * s,
            s == 4294967296,
    ;
}

/// A quotient whose square, times `ll`, stays below `top s^2` is at most
/// two, where `ll` is above `(n - c) s`.
proof fn lemma_quotient_at_most_two(v: int, w: int, ll: int, n: int, s: int, top: int, c: int)
    requires
        v >= 0,
        v * v <= w,
        w * ll <= top * (s * s),
        top == (n + 3) * s,
        ll > (n - c) * s,
        ll > 0,
        n >= 65536,
        c == 2 || (c == 65537 && n >= s),
        s == 4294967296,
    ensures
        v <= 2 * s,
{
    if v > 2 * s {
        let vv = v * v;
        assert(vv > 4 * (s * s)) by (nonlinear_arith)
            requires
                vv == v * v,
                v > 2 * s,
                s > 0,
        ;
        assert(vv * ll <= w * ll) by (nonlinear_arith)
            requires
                vv <= w,
                ll > 0,
        ;
        let low = (n - c) * s;
        assert(low > 0) by (nonlinear_arith)
            requires
                low == (n - c) * s,
                n >= 65536,
                c == 2 || (c == 65537 && n >= s),
                s == 4294967296,
        ;
        assert(vv * ll > 4 * (s * s) * low) by (nonlinear_arith)
            requires
                vv > 4 * (s * s),
                ll > low,
                low > 0,
                s > 0,
        ;
        assert(4 * (s * s) * low >= ((n + 3) * s) * (s * s)) by (nonlinear_arith)
            requires
                low == (n - c) * s,
                n >= 65536,
                c == 2 || (c == 65537 && n >= s),
                s == 4294967296,
        ;
    }
}

/// The bound from above on the squared length `r` of the quotients.
proof fn lemma_from_above(r: int, w: int, ll: int, n: int, s: int, top: int, c: int)
    requires
        r * s <= w,
        w * ll <= top * (s * s),
        top == (n + 3) * s,
        ll > (n - c) * s,
        ll > 0,
        n >= 65536,
        c == 2 || (c == 65537 && n >= s),
        s == 4294967296,
    ensures
        r <= s + 524288,
{
    if r > s + 524288 {
        assert((r * s) * ll <= w * ll) by (nonlinear_arith)
            requires
                r * s <= w,
                ll > 0,
        ;
        let low = (n - c) * s;
        assert(low > 0) by (nonlinear_arith)
            requires
                low == (n - c) * s,
                n >= 65536,
                c == 2 || (c == 65537 && n >= s),
                s == 4294967296,
        ;
        assert((r * s) * ll > ((s + 524288) * s) * low) by (nonlinear_arith)
            requires
                r > s + 524288,
                ll > low,
                low > 0,
                s > 0,
        ;
        assert(((s + 524288) * s) * low >= ((n + 3) * s) * (s * s)) by (nonlinear_arith)
            requires
                low == (n - c) * s,
                n >= 65536,
                c == 2 || (c == 65537 && n >= s),
                s == 4294967296,
        ;
    }
}

/// The square of a number is the rounded-down square of its magnitude, as
/// far as the range goes.
pub proof fn lemma_square_of_magnitude(a: int)
    ensures
        0 <= (magnitude_of(a) * magnitude_of(a)) / (SCALE as int),
        mul_raw(a, a) == clamp((magnitude_of(a) * magnitude_of(a)) / (SCALE as int)),
{
    let m = magnitude_of(a);
    assert(a * a == m * m && m * m >= 0) by (nonlinear_arith)
        requires
            m == magnitude_of(a),
    ;
    lemma_quotient(m * m, SCALE as int);
}

/// The quotient of a number by a positive number is the rounded-down
/// quotient of its magnitude, with its sign, as far as the range goes.
pub proof fn lemma_quotient_of_magnitude(a: int, l: int)
    requires
        l > 0,
    ensures
        0 <= (magnitude_of(a) * SCALE) / l,
        a >= 0 ==> div_raw(a, l) == clamp((magnitude_of(a) * SCALE) / l),
        a < 0 ==> div_raw(a, l) == clamp(-((magnitude_of(a) * SCALE) / l)),
{
    let m = magnitude_of(a);
    assert(m * SCALE >= 0) by (nonlinear_arith)
        requires
            m >= 0,
            SCALE > 0,
    ;
    lemma_quotient(m * SCALE, l);
    if a < 0 {
        assert(a * SCALE == -(m * SCALE)) by (nonlinear_arith)
            requires
                m == -a,
        ;
        assert(a * SCALE <= 0) by (nonlinear_arith)
            requires
                a < 0,
                SCALE > 0,
        ;
        if a * SCALE == 0 {
            assert(false) by (nonlinear_arith)
                requires
                    a < 0,
                    a * SCALE == 0,
                    SCALE > 0,
            ;
        }
    }
}

/// A vector between `2^-8` and 32768 long, divided by its length, has a
/// squared length within the tolerance of one, and no component above two
/// in magnitude.
pub proof fn lemma_normalised_near_one(p: Vector3)
    requires
        can_be_normalised(p),
    ensures
        SCALE - UNIT_TOLERANCE_RAW <= unit_vector_spec(p).length_squared_spec()@ <= SCALE
            + UNIT_TOLERANCE_RAW,
        -2 * SCALE <= unit_vector_spec(p).x@ <= 2 * SCALE,
        -2 * SCALE <= unit_vector_spec(p).y@ <= 2 * SCALE,
        -2 * SCALE <= unit_vector_spec(p).z@ <= 2 * SCALE,
        0 < p.length_spec()@,
{
    let s = SCALE as int;
    let x = magnitude_of(p.x@);
    let y = magnitude_of(p.y@);
    let z = magnitude_of(p.z@);
    lemma_square_of_magnitude(p.x@);
    lemma_square_of_magnitude(p.y@);
    lemma_square_of_magnitude(p.z@);
    let n = p.length_squared_spec()@;
    assert(n == (x * x) / s + (y * y) / s + (z * z) / s);
    crate::fixed::lemma_sqrt_bounds(n);
    let l = p.length_spec()@;
    assert(l == crate::fixed::sqrt_raw(n));
    lemma_quotients_near_one(x, y, z, l);
    lemma_quotient_of_magnitude(p.x@, l);
    lemma_quotient_of_magnitude(p.y@, l);
    lemma_quotient_of_magnitude(p.z@, l);
    let v = unit_vector_spec(p);
    let vx = (x * s) / l;
    let vy = (y * s) / l;
    let vz = (z * s) / l;
    assert(magnitude_of(v.x@) == vx);
    assert(magnitude_of(v.y@) == vy);
    assert(magnitude_of(v.z@) == vz);
    lemma_square_of_magnitude(v.x@);
    lemma_square_of_magnitude(v.y@);
    lemma_square_of_magnitude(v.z@);
    lemma_small_square(vx);
    lemma_small_square(vy);
    lemma_small_square(vz);
}

/// The square of a number up to two is at most four.
proof fn lemma_small_square(v: int)
    requires
        0 <= v <= 2 * SCALE,
    ensures
        0 <= (v * v) / (SCALE as int) <= 4 * SCALE,
{
    assert(0 <= v * v <= (4 * SCALE) * SCALE) by (nonlinear_arith)
        requires
            0 <= v <= 2 * SCALE,
    ;
    lemma_quotient(v * v, SCALE as int);
    vstd::arithmetic::div_mod::lemma_div_is_ordered(v * v, (4 * SCALE) * SCALE, SCALE as int);
    vstd::arithmetic::div_mod::lemma_div_multiples_vanish(4 * SCALE, SCALE as int);
    assert(SCALE * (4 * SCALE) == (4 * SCALE) * SCALE) by (nonlinear_arith);
}

/// One term of the dot product of `n + s` with `n`, rounded toward zero,
/// against the squares of `n` and `s`.
proof fn lemma_term_from_below(n: int, s: int)
    ensures
        2 * (trunc_div((n + s) * n, SCALE as int) * SCALE) >= n * n - s * s - 2 * SCALE,
{
    let v = (n + s) * n;
    assert(2 * v >= n * n - s * s) by (nonlinear_arith)
        requires
            v == (n + s) * n,
    ;
    let t = trunc_div(v, SCALE as int);
    if v >= 0 {
        lemma_quotient(v, SCALE as int);
    } else {
        lemma_quotient(-v, SCALE as int);
    }
    assert(t * SCALE >= v - SCALE);
}

/// The heart of the bound on the dot product of `n + s` with `n`: where
/// the squared length of `n` is at least one less the tolerance and that
/// of `s` at most one more the tolerance, the dot product is not below
/// minus the tolerance, but for a few raw units.
pub proof fn lemma_dot_of_sum_from_below(n1: int, n2: int, n3: int, s1: int, s2: int, s3: int)
    requires
        (n1 * n1) / (SCALE as int) + (n2 * n2) / (SCALE as int) + (n3 * n3) / (SCALE as int)
            >= SCALE - UNIT_TOLERANCE_RAW,
        (s1 * s1) / (SCALE as int) + (s2 * s2) / (SCALE as int) + (s3 * s3) / (SCALE as int)
            <= SCALE + UNIT_TOLERANCE_RAW,
    ensures
        trunc_div((n1 + s1) * n1, SCALE as int) + trunc_div((n2 + s2) * n2, SCALE as int)
            + trunc_div((n3 + s3) * n3, SCALE as int) >= -(UNIT_TOLERANCE_RAW + 5),
{
    let s = SCALE as int;
    assert(n1 * n1 >= 0 && n2 * n2 >= 0 && n3 * n3 >= 0 && s1 * s1 >= 0 && s2 * s2 >= 0 && s3 * s3
        >= 0) by (nonlinear_arith);
    lemma_quotient(n1 * n1, s);
    lemma_quotient(n2 * n2, s);
    lemma_quotient(n3 * n3, s);
    lemma_quotient(s1 * s1, s);
    lemma_quotient(s2 * s2, s);
    lemma_quotient(s3 * s3, s);
    lemma_term_from_below(n1, s1);
    lemma_term_from_below(n2, s2);
    lemma_term_from_below(n3, s3);
    let ln = (n1 * n1) / s + (n2 * n2) / s + (n3 * n3) / s;
    let ls = (s1 * s1) / s + (s2 * s2) / s + (s3 * s3) / s;
    let qn = n1 * n1 + n2 * n2 + n3 * n3;
    let qs = s1 * s1 + s2 * s2 + s3 * s3;
    assert(qn >= ln * s && qs < (ls + 3) * s) by (nonlinear_arith)
        requires
            qn == n1 * n1 + n2 * n2 + n3 * n3,
            qs == s1 * s1 + s2 * s2 + s3 * s3,
            ln == (n1 * n1) / s + (n2 * n2) / s + (n3 * n3) / s,
            ls == (s1 * s1) / s + (s2 * s2) / s + (s3 * s3) / s,
            ((n1 * n1) / s) * s <= n1 * n1,
            ((n2 * n2) / s) * s <= n2 * n2,
            ((n3 * n3) / s) * s <= n3 * n3,
            s1 * s1 < ((s1 * s1) / s) * s + s,
            s2 * s2 < ((s2 * s2) / s) * s + s,
            s3 * s3 < ((s3 * s3) / s) * s + s,
    ;
    let t1 = trunc_div((n1 + s1) * n1, s);
    let t2 = trunc_div((n2 + s2) * n2, s);
    let t3 = trunc_div((n3 + s3) * n3, s);
    let d = t1 + t2 + t3;
    assert(d * s == t1 * s + t2 * s + t3 * s) by (nonlinear_arith)
        requires
            d == t1 + t2 + t3,
    ;
    assert(2 * (d * s) >= qn - qs - 6 * s);
    assert(d >= -(524288 + 5)) by (nonlinear_arith)
        requires
            2 * (d * s) >= qn - qs - 6 * s,
            qn >= ln * s,
            qs < (ls + 3) * s,
            ln >= s - 524288,
            ls <= s + 524288,
            s == 4294967296,
    ;
}

/// The squared length of a vector with components up to two in magnitude
/// is the sum of the rounded-down squares of its components.
pub proof fn lemma_squares_in_range(v: Vector3)
    requires
        -2 * SCALE <= v.x@ <= 2 * SCALE,
        -2 * SCALE <= v.y@ <= 2 * SCALE,
        -2 * SCALE <= v.z@ <= 2 * SCALE,
    ensures
        v.length_squared_spec()@ == (v.x@ * v.x@) / (SCALE as int) + (v.y@ * v.y@) / (SCALE as int)
            + (v.z@ * v.z@) / (SCALE as int),
{
    lemma_square_of_magnitude(v.x@);
    lemma_square_of_magnitude(v.y@);
    lemma_square_of_magnitude(v.z@);
    lemma_small_square(magnitude_of(v.x@));
    lemma_small_square(magnitude_of(v.y@));
    lemma_small_square(magnitude_of(v.z@));
    let x = magnitude_of(v.x@);
    let y = magnitude_of(v.y@);
    let z = magnitude_of(v.z@);
    assert(x * x == v.x@ * v.x@ && y * y == v.y@ * v.y@ && z * z == v.z@ * v.z@)
        by (nonlinear_arith)
        requires
            x == magnitude_of(v.x@),
            y == magnitude_of(v.y@),
            z == magnitude_of(v.z@),
    ;
}

/// The product of two numbers up to four in magnitude does not saturate.
pub proof fn lemma_small_product(a: int, b: int)
    requires
        -4 * SCALE <= a <= 4 * SCALE,
        -4 * SCALE <= b <= 4 * SCALE,
    ensures
        mul_raw(a, b) == trunc_div(a * b, SCALE as int),
        -16 * SCALE <= mul_raw(a, b) <= 16 * SCALE,
{
    let m = magnitude_of(a) * magnitude_of(b);
    crate::fixed::lemma_product_of_magnitudes(a, b);
    assert(0 <= m <= (16 * SCALE) * SCALE) by (nonlinear_arith)
        requires
            m == magnitude_of(a) * magnitude_of(b),
            0 <= magnitude_of(a) <= 4 * SCALE,
            0 <= magnitude_of(b) <= 4 * SCALE,
    ;
    lemma_quotient(m, SCALE as int);
    vstd::arithmetic::div_mod::lemma_div_is_ordered(m, (16 * SCALE) * SCALE, SCALE as int);
    vstd::arithmetic::div_mod::lemma_div_multiples_vanish(16 * SCALE, SCALE as int);
    assert(SCALE * (16 * SCALE) == (16 * SCALE) * SCALE) by (nonlinear_arith);
}

} // verus!
