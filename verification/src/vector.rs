//! Three-component vectors, used as points, directions and colours.

use crate::fixed::{Fixed, SCALE};
use crate::unit::{can_be_normalised, MIN_LENGTH_SQUARED_RAW, UNIT_TOLERANCE_RAW};
use crate::utility::{random_from_range, unit_range, unit_range_spec};
use rand::rngs::StdRng;
use std::ops::{
    Add, AddAssign, Div, DivAssign, Mul, MulAssign, Neg, Range, Sub, SubAssign,
};
use vstd::prelude::*;
use vstd::std_specs::convert::FromSpecImpl;
use vstd::std_specs::ops::{AddSpecImpl, DivSpecImpl, MulSpecImpl, NegSpecImpl, SubSpecImpl};

verus! {

/// Raw bound under which a component counts as zero: about `1e-8`.
pub const NEAR_ZERO_RAW: i64 = 43;

/// How often `random_unit_vector` draws before it gives up.
pub const MAX_DRAWS: u64 = 0xffff_ffff_ffff_ffff;

/// A vector of three fixed-point components.
#[derive(Clone, Copy, Debug, PartialEq, Eq, Structural)]
pub struct Vector3 {
    pub x: Fixed,
    pub y: Fixed,
    pub z: Fixed,
}

/// The dot product: the sum of the products of the components, taken from
/// `x` to `z`.
pub open spec fn dot_spec(v1: Vector3, v2: Vector3) -> Fixed {
    v1.x.mul_spec(v2.x).add_spec(v1.y.mul_spec(v2.y)).add_spec(v1.z.mul_spec(v2.z))
}

/// The cross product.
pub open spec fn cross_spec(v1: Vector3, v2: Vector3) -> Vector3 {
    Vector3 {
        x: v1.y.mul_spec(v2.z).sub_spec(v1.z.mul_spec(v2.y)),
        y: v1.z.mul_spec(v2.x).sub_spec(v1.x.mul_spec(v2.z)),
        z: v1.x.mul_spec(v2.y).sub_spec(v1.y.mul_spec(v2.x)),
    }
}

/// The vector divided by its length.
pub open spec fn unit_vector_spec(v: Vector3) -> Vector3 {
    v.div_scalar_spec(v.length_spec())
}

/// The mirror image of `v` in the plane with the given normal:
/// `v - 2 * dot(v, normal) * normal`.
pub open spec fn reflect_spec(v: Vector3, normal: Vector3) -> Vector3 {
    v.sub_spec(normal.mul_scalar_spec(Fixed::of(2 * SCALE).mul_spec(dot_spec(v, normal))))
}

/// True of the candidates that `random_unit_vector` accepts: those strictly
/// inside the unit ball whose squared length is at least the least squared
/// length, so that the division by the length is accurate.
pub open spec fn in_unit_ball(v: Vector3) -> bool {
    MIN_LENGTH_SQUARED_RAW <= v.length_squared_spec()@ < SCALE
}

/// True where every component of `v` lies in `range`, its end left out.
pub open spec fn components_in(v: Vector3, range: Range<Fixed>) -> bool {
    &&& range.start@ <= v.x@ < range.end@
    &&& range.start@ <= v.y@ < range.end@
    &&& range.start@ <= v.z@ < range.end@
}

/// The vector that takes the place of the candidate when every draw of
/// `random_unit_vector` was rejected: `(1/2, 1/2, 1/2)`.
pub open spec fn fallback_direction() -> Vector3 {
    Vector3::splat(SCALE / 2)
}

/// Dot product: the sum of the products of the components, taken from `x`
/// to `z`.
pub fn dot(v1: &Vector3, v2: &Vector3) -> (r: Fixed)
    ensures
        r == dot_spec(*v1, *v2),
{
    v1.x * v2.x + v1.y * v2.y + v1.z * v2.z
}

/// Cross product.
pub fn cross(v1: &Vector3, v2: &Vector3) -> (r: Vector3)
    ensures
        r == cross_spec(*v1, *v2),
{
    Vector3::new(
        v1.y * v2.z - v1.z * v2.y,
        v1.z * v2.x - v1.x * v2.z,
        v1.x * v2.y - v1.y * v2.x,
    )
}

/// The vector divided by its length. For a vector between `2^-8` and 32768
/// long the squared length of the result lies within the tolerance of one;
/// a shorter vector has too few digits for that, down to the vector
/// without length, which stays as it is.
pub fn unit_vector(v: &Vector3) -> (r: Vector3)
    ensures
        r == unit_vector_spec(*v),
        can_be_normalised(*v) ==> SCALE - UNIT_TOLERANCE_RAW <= r.length_squared_spec()@ <= SCALE
            + UNIT_TOLERANCE_RAW,
{
    proof {
        if can_be_normalised(*v) {
            crate::unit::lemma_normalised_near_one(*v);
        }
    }
    *v / v.length()
}

/// Whether a candidate drawn from the cube `[-1, 1)^3` is kept.
pub fn accept_sample(p: &Vector3) -> (r: bool)
    ensures
        r == in_unit_ball(*p),
{
    let len_sq = p.length_squared();
    Fixed::from_raw(MIN_LENGTH_SQUARED_RAW).le(len_sq) && len_sq.lt(Fixed::one())
}

/// The range of the components of a candidate: from minus one up to, and
/// without, one.
pub open spec fn cube_range() -> Range<Fixed> {
    Range { start: Fixed::of(-(SCALE as int)), end: Fixed::of(SCALE as int) }
}

/// The first candidate from the index `from` on that is accepted, if there
/// is one.
pub open spec fn first_accepted_from(candidates: Seq<Vector3>, from: int) -> Option<Vector3>
    decreases candidates.len() - from,
{
    if from < 0 || from >= candidates.len() {
        None
    } else if in_unit_ball(candidates[from]) {
        Some(candidates[from])
    } else {
        first_accepted_from(candidates, from + 1)
    }
}

/// The first candidate that is accepted, if there is one.
pub open spec fn first_accepted(candidates: Seq<Vector3>) -> Option<Vector3> {
    first_accepted_from(candidates, 0)
}

/// The vector of length one that the candidates give: the first of them
/// that is accepted, divided by its length; and the fallback direction,
/// divided by its length, where none is accepted.
pub open spec fn unit_vector_of(candidates: Seq<Vector3>) -> Vector3 {
    match first_accepted(candidates) {
        Some(p) => unit_vector_spec(p),
        None => unit_vector_spec(fallback_direction()),
    }
}

/// True of the candidates that `random_unit_vector` may draw before it
/// returns: every one lies in the cube, and where none is accepted they
/// are as many as it draws at most.
pub open spec fn possible_candidates(candidates: Seq<Vector3>) -> bool {
    &&& candidates.len() <= MAX_DRAWS
    &&& forall|i: int|
        0 <= i < candidates.len() ==> components_in(#[trigger] candidates[i], cube_range())
    &&& first_accepted(candidates) is None ==> candidates.len() == MAX_DRAWS
    &&& forall|i: int|
        0 <= i < candidates.len() - 1 ==> !in_unit_ball(#[trigger] candidates[i])
}

/// Where the candidates from `from` up to `at` are rejected, the first
/// accepted one from `from` on is the first accepted one from `at` on.
pub proof fn lemma_first_accepted_skips(candidates: Seq<Vector3>, from: int, at: int)
    requires
        0 <= from <= at <= candidates.len(),
        forall|i: int| from <= i < at ==> !in_unit_ball(#[trigger] candidates[i]),
    ensures
        first_accepted_from(candidates, from) == first_accepted_from(candidates, at),
    decreases at - from,
{
    if from < at {
        lemma_first_accepted_skips(candidates, from + 1, at);
    }
}

/// The vector of length one that the candidates give: the first of them
/// that is accepted, divided by its length.
pub fn unit_vector_from(candidates: &Vec<Vector3>) -> (r: Vector3)
    ensures
        r == unit_vector_of(candidates@),
        is_unit_sample(r),
{
    let mut i: usize = 0;
    while i < candidates.len()
        invariant
            i <= candidates.len(),
            forall|j: int| 0 <= j < i ==> !in_unit_ball(#[trigger] candidates@[j]),
        decreases candidates.len() - i,
    {
        if accept_sample(&candidates[i]) {
            proof {
                lemma_first_accepted_skips(candidates@, 0, i as int);
            }
            return unit_vector(&candidates[i]);
        }
        i = i + 1;
    }
    proof {
        lemma_first_accepted_skips(candidates@, 0, candidates@.len() as int);
        lemma_fallback_in_unit_ball();
    }
    unit_vector(&Vector3::new(Fixed::half(), Fixed::half(), Fixed::half()))
}

/// A random vector of length one, by rejection: candidates are drawn from
/// the cube `[-1, 1)^3` until one is accepted, and that one is divided by
/// its length. After `MAX_DRAWS` rejections the fallback direction takes
/// the place of the candidate. The result is what `unit_vector_from`
/// makes of the candidates drawn, and its squared length lies within the
/// tolerance of one.
pub fn random_unit_vector(rng: &mut StdRng) -> (r: Vector3)
    ensures
        exists|candidates: Seq<Vector3>|
            possible_candidates(candidates) && r == #[trigger] unit_vector_of(candidates),
        exists|p: Vector3| in_unit_ball(p) && r == #[trigger] unit_vector_spec(p),
        SCALE - UNIT_TOLERANCE_RAW <= r.length_squared_spec()@ <= SCALE + UNIT_TOLERANCE_RAW,
{
    let mut left: u64 = MAX_DRAWS;
    let ghost mut drawn: Seq<Vector3> = Seq::empty();
    while left > 0
        invariant
            drawn.len() == MAX_DRAWS - left,
            forall|i: int| 0 <= i < drawn.len() ==> components_in(#[trigger] drawn[i], cube_range()),
            forall|i: int| 0 <= i < drawn.len() ==> !in_unit_ball(#[trigger] drawn[i]),
        decreases left,
    {
        let p = Vector3::random_from_range(
            rng,
            Range { start: Fixed::one().neg(), end: Fixed::one() },
        );
        proof {
            let before = drawn;
            drawn = drawn.push(p);
            assert forall|i: int| 0 <= i < drawn.len() - 1 implies !in_unit_ball(
                #[trigger] drawn[i],
            ) by {
                assert(drawn[i] == before[i]);
            }
            assert forall|i: int| 0 <= i < drawn.len() implies components_in(
                #[trigger] drawn[i],
                cube_range(),
            ) by {
                if i < before.len() {
                    assert(drawn[i] == before[i]);
                }
            }
        }
        if accept_sample(&p) {
            proof {
                lemma_first_accepted_skips(drawn, 0, drawn.len() - 1);
                assert(first_accepted(drawn) == Some(p));
                assert(possible_candidates(drawn));
                crate::unit::lemma_normalised_near_one(p);
            }
            let r = unit_vector(&p);
            assert(r == unit_vector_of(drawn));
            return r;
        }
        left = left - 1;
    }
    proof {
        lemma_first_accepted_skips(drawn, 0, drawn.len() as int);
        assert(possible_candidates(drawn));
        lemma_fallback_in_unit_ball();
        crate::unit::lemma_normalised_near_one(fallback_direction());
    }
    let r = unit_vector(&Vector3::new(Fixed::half(), Fixed::half(), Fixed::half()));
    assert(r == unit_vector_of(drawn));
    r
}

/// True of the vectors that `random_unit_vector` may return: an accepted
/// candidate divided by its length.
pub open spec fn is_unit_sample(v: Vector3) -> bool {
    exists|p: Vector3| in_unit_ball(p) && v == #[trigger] unit_vector_spec(p)
}

/// A vector that `random_unit_vector` may return has a squared length
/// within the tolerance of one.
pub proof fn lemma_unit_sample_length(v: Vector3)
    requires
        is_unit_sample(v),
    ensures
        SCALE - UNIT_TOLERANCE_RAW <= v.length_squared_spec()@ <= SCALE + UNIT_TOLERANCE_RAW,
        -2 * SCALE <= v.x@ <= 2 * SCALE,
        -2 * SCALE <= v.y@ <= 2 * SCALE,
        -2 * SCALE <= v.z@ <= 2 * SCALE,
{
    let p = choose|p: Vector3| in_unit_ball(p) && v == #[trigger] unit_vector_spec(p);
    crate::unit::lemma_normalised_near_one(p);
}

/// The fallback direction lies in the unit ball.
pub proof fn lemma_fallback_in_unit_ball()
    ensures
        in_unit_ball(fallback_direction()),
{
    let h: int = SCALE as int / 2;
    assert(h * h == 0x4000_0000_0000_0000) by (nonlinear_arith)
        requires
            h == 0x8000_0000,
    ;
    assert(crate::fixed::mul_raw(h, h) == 0x4000_0000);
}

/// The dot product with a negated vector is the negated dot product.
pub proof fn lemma_dot_neg(v1: Vector3, v2: Vector3)
    requires
        v2.is_symmetric(),
    ensures
        dot_spec(v1, v2.neg_spec())@ == -dot_spec(v1, v2)@,
{
    crate::fixed::lemma_mul_neg(v1.x@, v2.x@);
    crate::fixed::lemma_mul_neg(v1.y@, v2.y@);
    crate::fixed::lemma_mul_neg(v1.z@, v2.z@);
}

/// The side of `v` that lies in the hemisphere around `normal`.
pub open spec fn on_hemisphere_spec(v: Vector3, normal: Vector3) -> Vector3 {
    if dot_spec(v, normal)@ > 0 {
        v
    } else {
        v.neg_spec()
    }
}

/// Turns a sample toward the hemisphere around `normal`.
pub fn orient_on_hemisphere(on_unit_sphere: Vector3, normal: &Vector3) -> (r: Vector3)
    ensures
        r == on_hemisphere_spec(on_unit_sphere, *normal),
{
    if Fixed::zero().lt(dot(&on_unit_sphere, normal)) {
        on_unit_sphere
    } else {
        on_unit_sphere.neg()
    }
}

/// A random vector of length one in the hemisphere around `normal`.
pub fn random_on_hemisphere(rng: &mut StdRng, normal: &Vector3) -> (r: Vector3)
    ensures
        exists|s: Vector3| is_unit_sample(s) && r == #[trigger] on_hemisphere_spec(s, *normal),
{
    let on_unit_sphere = random_unit_vector(rng);
    orient_on_hemisphere(on_unit_sphere, normal)
}

/// Mirror image of `v` in the plane with the given normal.
pub fn reflect(v: &Vector3, normal: &Vector3) -> (r: Vector3)
    ensures
        r == reflect_spec(*v, *normal),
{
    *v - Fixed::from_int(2) * dot(v, normal) * *normal
}

impl Vector3 {
    /// Component-wise negation; this is what the unary `-` computes.
    pub open spec fn neg_spec(self) -> Vector3 {
        Vector3 { x: self.x.neg_spec(), y: self.y.neg_spec(), z: self.z.neg_spec() }
    }

    /// Component-wise sum; this is what `+` computes.
    pub open spec fn add_spec(self, other: Vector3) -> Vector3 {
        Vector3 {
            x: self.x.add_spec(other.x),
            y: self.y.add_spec(other.y),
            z: self.z.add_spec(other.z),
        }
    }

    /// Component-wise difference; this is what `-` computes.
    pub open spec fn sub_spec(self, other: Vector3) -> Vector3 {
        Vector3 {
            x: self.x.sub_spec(other.x),
            y: self.y.sub_spec(other.y),
            z: self.z.sub_spec(other.z),
        }
    }

    /// Component-wise product; this is what `*` computes for two vectors.
    pub open spec fn mul_spec(self, other: Vector3) -> Vector3 {
        Vector3 {
            x: self.x.mul_spec(other.x),
            y: self.y.mul_spec(other.y),
            z: self.z.mul_spec(other.z),
        }
    }

    /// Component-wise quotient; this is what `/` computes for two vectors.
    pub open spec fn div_spec(self, other: Vector3) -> Vector3 {
        Vector3 {
            x: self.x.div_spec(other.x),
            y: self.y.div_spec(other.y),
            z: self.z.div_spec(other.z),
        }
    }

    /// Every component multiplied by `k`; this is what `*` computes for a
    /// vector and a number, in either order.
    pub open spec fn mul_scalar_spec(self, k: Fixed) -> Vector3 {
        Vector3 { x: self.x.mul_spec(k), y: self.y.mul_spec(k), z: self.z.mul_spec(k) }
    }

    /// Every component divided by `k`; this is what `/` computes for a
    /// vector and a number.
    pub open spec fn div_scalar_spec(self, k: Fixed) -> Vector3 {
        Vector3 { x: self.x.div_spec(k), y: self.y.div_spec(k), z: self.z.div_spec(k) }
    }

    /// The quotients of `k` by the components; this is what `/` computes
    /// for a number and a vector.
    pub open spec fn dividing_spec(self, k: Fixed) -> Vector3 {
        Vector3 { x: k.div_spec(self.x), y: k.div_spec(self.y), z: k.div_spec(self.z) }
    }

    /// The sum of the squares of the components, taken from `x` to `z`.
    pub open spec fn length_squared_spec(self) -> Fixed {
        self.x.mul_spec(self.x).add_spec(self.y.mul_spec(self.y)).add_spec(self.z.mul_spec(self.z))
    }

    /// The square root of the squared length.
    pub open spec fn length_spec(self) -> Fixed {
        self.length_squared_spec().sqrt_spec()
    }

    /// True where every component is closer to zero than `NEAR_ZERO_RAW`
    /// raw units.
    pub open spec fn is_near_zero_spec(self) -> bool {
        &&& self.x.abs_spec()@ < NEAR_ZERO_RAW
        &&& self.y.abs_spec()@ < NEAR_ZERO_RAW
        &&& self.z.abs_spec()@ < NEAR_ZERO_RAW
    }

    /// True where every component is in range.
    pub open spec fn in_range(self) -> bool {
        self.x.in_range() && self.y.in_range() && self.z.in_range()
    }

    /// True where no component is the one raw value outside the symmetric
    /// range.
    pub open spec fn is_symmetric(self) -> bool {
        self.x.is_symmetric() && self.y.is_symmetric() && self.z.is_symmetric()
    }

    /// The vector with all three components equal to the number of raw
    /// value `raw`.
    pub open spec fn splat(raw: int) -> Vector3 {
        Vector3 { x: Fixed::of(raw), y: Fixed::of(raw), z: Fixed::of(raw) }
    }

    pub fn new(x: Fixed, y: Fixed, z: Fixed) -> (r: Vector3)
        ensures
            r == (Vector3 { x, y, z }),
    {
        Vector3 { x, y, z }
    }

    /// The vector `(0, 0, 0)`.
    pub fn zero() -> (r: Vector3)
        ensures
            r == Vector3::splat(0),
    {
        Vector3 { x: Fixed::zero(), y: Fixed::zero(), z: Fixed::zero() }
    }

    /// The vector `(1, 1, 1)`.
    pub fn one() -> (r: Vector3)
        ensures
            r == Vector3::splat(SCALE as int),
    {
        Vector3 { x: Fixed::one(), y: Fixed::one(), z: Fixed::one() }
    }

    /// A vector with each component drawn from the smallest positive number
    /// up to, and without, one.
    pub fn random(rng: &mut StdRng) -> (r: Vector3)
        ensures
            components_in(r, unit_range_spec()),
    {
        let x = random_from_range(rng, unit_range());
        let y = random_from_range(rng, unit_range());
        let z = random_from_range(rng, unit_range());
        Vector3 { x, y, z }
    }

    /// A vector with each component drawn from `range`, its end left out.
    pub fn random_from_range(rng: &mut StdRng, range: Range<Fixed>) -> (r: Vector3)
        requires
            range.start@ < range.end@,
        ensures
            components_in(r, range),
    {
        let x = random_from_range(rng, Range { start: range.start, end: range.end });
        let y = random_from_range(rng, Range { start: range.start, end: range.end });
        let z = random_from_range(rng, Range { start: range.start, end: range.end });
        Vector3 { x, y, z }
    }

    /// Euclidean length, rounded down.
    pub fn length(&self) -> (r: Fixed)
        ensures
            r == self.length_spec(),
    {
        self.length_squared().sqrt()
    }

    /// Sum of the squares of the components, taken from `x` to `z`.
    pub fn length_squared(&self) -> (r: Fixed)
        ensures
            r == self.length_squared_spec(),
    {
        self.x * self.x + self.y * self.y + self.z * self.z
    }

    /// True where every component is in range.
    pub fn is_in_range(&self) -> (r: bool)
        ensures
            r == self.in_range(),
    {
        self.x.is_in_range() && self.y.is_in_range() && self.z.is_in_range()
    }

    /// True where every component is closer to zero than about `1e-8`.
    pub fn is_near_zero(&self) -> (r: bool)
        ensures
            r == self.is_near_zero_spec(),
    {
        let s = Fixed::from_raw(NEAR_ZERO_RAW);
        self.x.abs().lt(s) && self.y.abs().lt(s) && self.z.abs().lt(s)
    }

    /// Divides the vector by its length in place, and hands it back.
    pub fn normalize(&mut self) -> (r: &Vector3)
        ensures
            *final(self) == unit_vector_spec(*old(self)),
            *r == unit_vector_spec(*old(self)),
    {
        let l = self.length();
        self.x = self.x / l;
        self.y = self.y / l;
        self.z = self.z / l;
        self
    }
}

impl Neg for Vector3 {
    type Output = Vector3;

    /// Component-wise negation.
    fn neg(self) -> (r: Vector3)
        ensures
            r == Vector3::neg_spec(self),
    {
        Vector3::new(self.x.neg(), self.y.neg(), self.z.neg())
    }
}

impl NegSpecImpl for Vector3 {
    open spec fn obeys_neg_spec() -> bool {
        true
    }

    open spec fn neg_req(self) -> bool {
        true
    }

    open spec fn neg_spec(self) -> Vector3 {
        Vector3 { x: self.x.neg_spec(), y: self.y.neg_spec(), z: self.z.neg_spec() }
    }
}

impl Add for Vector3 {
    type Output = Vector3;

    /// Component-wise sum.
    fn add(self, other: Vector3) -> (r: Vector3)
        ensures
            r == Vector3::add_spec(self, other),
    {
        Vector3::new(self.x + other.x, self.y + other.y, self.z + other.z)
    }
}

impl AddSpecImpl for Vector3 {
    open spec fn obeys_add_spec() -> bool {
        true
    }

    open spec fn add_req(self, other: Vector3) -> bool {
        true
    }

    open spec fn add_spec(self, other: Vector3) -> Vector3 {
        Vector3 {
            x: self.x.add_spec(other.x),
            y: self.y.add_spec(other.y),
            z: self.z.add_spec(other.z),
        }
    }
}

impl Sub for Vector3 {
    type Output = Vector3;

    /// Component-wise difference.
    fn sub(self, other: Vector3) -> (r: Vector3)
        ensures
            r == Vector3::sub_spec(self, other),
    {
        Vector3::new(self.x - other.x, self.y - other.y, self.z - other.z)
    }
}

impl SubSpecImpl for Vector3 {
    open spec fn obeys_sub_spec() -> bool {
        true
    }

    open spec fn sub_req(self, other: Vector3) -> bool {
        true
    }

    open spec fn sub_spec(self, other: Vector3) -> Vector3 {
        Vector3 {
            x: self.x.sub_spec(other.x),
            y: self.y.sub_spec(other.y),
            z: self.z.sub_spec(other.z),
        }
    }
}

impl Mul for Vector3 {
    type Output = Vector3;

    /// Component-wise product.
    fn mul(self, other: Vector3) -> (r: Vector3)
        ensures
            r == Vector3::mul_spec(self, other),
    {
        Vector3::new(self.x * other.x, self.y * other.y, self.z * other.z)
    }
}

impl MulSpecImpl for Vector3 {
    open spec fn obeys_mul_spec() -> bool {
        true
    }

    open spec fn mul_req(self, other: Vector3) -> bool {
        true
    }

    open spec fn mul_spec(self, other: Vector3) -> Vector3 {
        Vector3 {
            x: self.x.mul_spec(other.x),
            y: self.y.mul_spec(other.y),
            z: self.z.mul_spec(other.z),
        }
    }
}

impl Div for Vector3 {
    type Output = Vector3;

    /// Component-wise quotient.
    fn div(self, other: Vector3) -> (r: Vector3)
        ensures
            r == Vector3::div_spec(self, other),
    {
        Vector3::new(self.x / other.x, self.y / other.y, self.z / other.z)
    }
}

impl DivSpecImpl for Vector3 {
    open spec fn obeys_div_spec() -> bool {
        true
    }

    open spec fn div_req(self, other: Vector3) -> bool {
        true
    }

    open spec fn div_spec(self, other: Vector3) -> Vector3 {
        Vector3 {
            x: self.x.div_spec(other.x),
            y: self.y.div_spec(other.y),
            z: self.z.div_spec(other.z),
        }
    }
}

impl Mul<Fixed> for Vector3 {
    type Output = Vector3;

    /// Every component multiplied by `k`.
    fn mul(self, k: Fixed) -> (r: Vector3)
        ensures
            r == self.mul_scalar_spec(k),
    {
        Vector3::new(self.x * k, self.y * k, self.z * k)
    }
}

impl MulSpecImpl<Fixed> for Vector3 {
    open spec fn obeys_mul_spec() -> bool {
        true
    }

    open spec fn mul_req(self, k: Fixed) -> bool {
        true
    }

    open spec fn mul_spec(self, k: Fixed) -> Vector3 {
        self.mul_scalar_spec(k)
    }
}

impl Mul<Vector3> for Fixed {
    type Output = Vector3;

    /// Every component of `v` multiplied by the number.
    fn mul(self, v: Vector3) -> (r: Vector3)
        ensures
            r == v.mul_scalar_spec(self),
    {
        Vector3::new(v.x * self, v.y * self, v.z * self)
    }
}

impl MulSpecImpl<Vector3> for Fixed {
    open spec fn obeys_mul_spec() -> bool {
        true
    }

    open spec fn mul_req(self, v: Vector3) -> bool {
        true
    }

    open spec fn mul_spec(self, v: Vector3) -> Vector3 {
        v.mul_scalar_spec(self)
    }
}

impl Div<Fixed> for Vector3 {
    type Output = Vector3;

    /// Every component divided by `k`.
    fn div(self, k: Fixed) -> (r: Vector3)
        ensures
            r == self.div_scalar_spec(k),
    {
        Vector3::new(self.x / k, self.y / k, self.z / k)
    }
}

impl DivSpecImpl<Fixed> for Vector3 {
    open spec fn obeys_div_spec() -> bool {
        true
    }

    open spec fn div_req(self, k: Fixed) -> bool {
        true
    }

    open spec fn div_spec(self, k: Fixed) -> Vector3 {
        self.div_scalar_spec(k)
    }
}

impl Div<Vector3> for Fixed {
    type Output = Vector3;

    /// The number divided by every component of `v`.
    fn div(self, v: Vector3) -> (r: Vector3)
        ensures
            r == v.dividing_spec(self),
    {
        Vector3::new(self / v.x, self / v.y, self / v.z)
    }
}

impl DivSpecImpl<Vector3> for Fixed {
    open spec fn obeys_div_spec() -> bool {
        true
    }

    open spec fn div_req(self, v: Vector3) -> bool {
        true
    }

    open spec fn div_spec(self, v: Vector3) -> Vector3 {
        v.dividing_spec(self)
    }
}

impl AddAssign for Vector3 {
    /// Adds `other` to the vector, component by component.
    fn add_assign(&mut self, other: Vector3)
        ensures
            *final(self) == old(self).add_spec(other),
    {
        self.x = self.x + other.x;
        self.y = self.y + other.y;
        self.z = self.z + other.z;
    }
}

impl SubAssign for Vector3 {
    /// Subtracts `other` from the vector, component by component.
    fn sub_assign(&mut self, other: Vector3)
        ensures
            *final(self) == old(self).sub_spec(other),
    {
        self.x = self.x - other.x;
        self.y = self.y - other.y;
        self.z = self.z - other.z;
    }
}

impl MulAssign for Vector3 {
    /// Multiplies the vector by `other`, component by component.
    fn mul_assign(&mut self, other: Vector3)
        ensures
            *final(self) == old(self).mul_spec(other),
    {
        self.x = self.x * other.x;
        self.y = self.y * other.y;
        self.z = self.z * other.z;
    }
}

impl DivAssign for Vector3 {
    /// Divides the vector by `other`, component by component.
    fn div_assign(&mut self, other: Vector3)
        ensures
            *final(self) == old(self).div_spec(other),
    {
        self.x = self.x / other.x;
        self.y = self.y / other.y;
        self.z = self.z / other.z;
    }
}

impl MulAssign<Fixed> for Vector3 {
    /// Multiplies every component by `k`.
    fn mul_assign(&mut self, k: Fixed)
        ensures
            *final(self) == old(self).mul_scalar_spec(k),
    {
        self.x = self.x * k;
        self.y = self.y * k;
        self.z = self.z * k;
    }
}

impl DivAssign<Fixed> for Vector3 {
    /// Divides every component by `k`.
    fn div_assign(&mut self, k: Fixed)
        ensures
            *final(self) == old(self).div_scalar_spec(k),
    {
        self.x = self.x / k;
        self.y = self.y / k;
        self.z = self.z / k;
    }
}

impl From<(Fixed, Fixed, Fixed)> for Vector3 {
    /// The vector with the components of the tuple.
    fn from(tuple: (Fixed, Fixed, Fixed)) -> (r: Vector3)
        ensures
            r == (Vector3 { x: tuple.0, y: tuple.1, z: tuple.2 }),
    {
        Vector3::new(tuple.0, tuple.1, tuple.2)
    }
}

impl FromSpecImpl<(Fixed, Fixed, Fixed)> for Vector3 {
    open spec fn obeys_from_spec() -> bool {
        true
    }

    open spec fn from_spec(tuple: (Fixed, Fixed, Fixed)) -> Vector3 {
        Vector3 { x: tuple.0, y: tuple.1, z: tuple.2 }
    }
}

impl Default for Vector3 {
    /// The zero vector.
    fn default() -> (r: Vector3)
        ensures
            r == Vector3::splat(0),
    {
        Vector3::zero()
    }
}

} // verus!
