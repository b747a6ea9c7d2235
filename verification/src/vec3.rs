//! Three-component fixed-point vectors, used as points, directions and colors.
//!
//! The mathematical model of a vector is a triple of `int` raw values; `v@`
//! yields it. All executable operations have exact contracts over that model.

use crate::fx::{fx_mul, isqrt, sqrt_floor, tdiv, SCALE, SCALE_SQ};
use vstd::prelude::*;

verus! {

/// Largest raw magnitude allowed for a position or a sphere center.
pub const POS_MAX: i64 = 0x800_0000;

/// Largest raw magnitude allowed for a ray direction component.
pub const DIR_MAX: i64 = 0x2000_0000;

/// Largest raw magnitude a hit point or ray origin may carry: four times the
/// world cube, so that no point a well-formed sphere can be struck at is ever
/// out of range.
pub const HIT_MAX: i64 = 0x2000_0000;

/// A vector of three fixed-point scalars.
#[derive(Clone, Copy, PartialEq, Eq, Structural, Debug)]
pub struct Vec3 {
    pub x: i64,
    pub y: i64,
    pub z: i64,
}

impl View for Vec3 {
    type V = (int, int, int);

    open spec fn view(&self) -> (int, int, int) {
        (self.x as int, self.y as int, self.z as int)
    }
}

/// Componentwise sum of two model vectors.
pub open spec fn add3(a: (int, int, int), b: (int, int, int)) -> (int, int, int) {
    (a.0 + b.0, a.1 + b.1, a.2 + b.2)
}

/// Componentwise difference of two model vectors.
pub open spec fn sub3(a: (int, int, int), b: (int, int, int)) -> (int, int, int) {
    (a.0 - b.0, a.1 - b.1, a.2 - b.2)
}

/// Negation of a model vector.
pub open spec fn neg3(a: (int, int, int)) -> (int, int, int) {
    (-a.0, -a.1, -a.2)
}

/// Dot product over raw values. For two fixed-point vectors the result
/// carries `SCALE * SCALE` raw units per whole unit.
pub open spec fn dot3(a: (int, int, int), b: (int, int, int)) -> int {
    a.0 * b.0 + a.1 * b.1 + a.2 * b.2
}

/// Squared length over raw values, in `SCALE * SCALE` units.
pub open spec fn norm_sq3(a: (int, int, int)) -> int {
    dot3(a, a)
}

/// A model vector scaled by a fixed-point scalar, rounded toward zero.
pub open spec fn scale3(t: int, a: (int, int, int)) -> (int, int, int) {
    (fx_mul(t, a.0), fx_mul(t, a.1), fx_mul(t, a.2))
}

/// Componentwise fixed-point product (color attenuation).
pub open spec fn cmul3(a: (int, int, int), b: (int, int, int)) -> (int, int, int) {
    (fx_mul(a.0, b.0), fx_mul(a.1, b.1), fx_mul(a.2, b.2))
}

/// Fixed-point length: floor square root of the raw squared length.
pub open spec fn length3(a: (int, int, int)) -> int {
    sqrt_floor(norm_sq3(a) as nat) as int
}

/// The normalized model vector: each component divided by the length,
/// rounded toward zero. Meaningful only for a nonzero vector.
pub open spec fn unit3(a: (int, int, int)) -> (int, int, int) {
    (tdiv(a.0 * SCALE, length3(a)), tdiv(a.1 * SCALE, length3(a)), tdiv(a.2 * SCALE, length3(a)))
}

/// Cross product of two fixed-point vectors, each component rounded
/// toward zero.
pub open spec fn cross3(a: (int, int, int), b: (int, int, int)) -> (int, int, int) {
    (
        tdiv(a.1 * b.2 - a.2 * b.1, SCALE as int),
        tdiv(a.2 * b.0 - a.0 * b.2, SCALE as int),
        tdiv(a.0 * b.1 - a.1 * b.0, SCALE as int),
    )
}

/// All components no larger in magnitude than `bound`.
pub open spec fn within3(a: (int, int, int), bound: int) -> bool {
    &&& -bound <= a.0 <= bound
    &&& -bound <= a.1 <= bound
    &&& -bound <= a.2 <= bound
}

/// The magnitude of a product is bounded by the product of the bounds.
pub proof fn lemma_mul_bound(p: int, q: int, b: int, c: int)
    requires
        -b <= p <= b,
        -c <= q <= c,
        b >= 0,
        c >= 0,
    ensures
        -(b * c) <= p * q <= b * c,
{
    assert(-(b * c) <= p * q <= b * c) by (nonlinear_arith)
        requires
            -b <= p <= b && -c <= q <= c && b >= 0 && c >= 0,
    ;
}

/// The dot product of two bounded vectors is bounded.
pub proof fn lemma_dot_bound(a: (int, int, int), b: (int, int, int), ba: int, bb: int)
    requires
        within3(a, ba),
        within3(b, bb),
        0 <= ba,
        0 <= bb,
    ensures
        -3 * (ba * bb) <= dot3(a, b) <= 3 * (ba * bb),
        -(ba * bb) <= a.0 * b.0 <= ba * bb,
        -(ba * bb) <= a.1 * b.1 <= ba * bb,
        -(ba * bb) <= a.2 * b.2 <= ba * bb,
{
    lemma_mul_bound(a.0, b.0, ba, bb);
    lemma_mul_bound(a.1, b.1, ba, bb);
    lemma_mul_bound(a.2, b.2, ba, bb);
}

/// A vector with zero squared length is the zero vector.
pub proof fn lemma_norm_sq_zero(a: (int, int, int))
    requires
        norm_sq3(a) == 0,
    ensures
        a == (0int, 0int, 0int),
{
    assert(a.0 == 0 && a.1 == 0 && a.2 == 0) by (nonlinear_arith)
        requires
            a.0 * a.0 + a.1 * a.1 + a.2 * a.2 == 0,
    ;
}

/// A vector with zero squared length is zero: its dot product with anything
/// vanishes.
pub proof fn lemma_norm_sq_zero_dot(a: (int, int, int), b: (int, int, int))
    requires
        norm_sq3(a) == 0,
    ensures
        dot3(a, b) == 0,
{
    assert(a.0 * b.0 + a.1 * b.1 + a.2 * b.2 == 0) by (nonlinear_arith)
        requires
            a.0 * a.0 + a.1 * a.1 + a.2 * a.2 == 0,
    ;
}

/// The Cauchy-Schwarz inequality: a dot product squared never exceeds the
/// product of the squared lengths.
pub proof fn lemma_cauchy_schwarz(a: (int, int, int), b: (int, int, int))
    ensures
        dot3(a, b) * dot3(a, b) <= norm_sq3(a) * norm_sq3(b),
{
    let p = a.0 * b.1 - a.1 * b.0;
    let q = a.0 * b.2 - a.2 * b.0;
    let r = a.1 * b.2 - a.2 * b.1;
    lemma_lagrange_identity(a.0, a.1, a.2, b.0, b.1, b.2);
    assert(p * p >= 0) by (nonlinear_arith);
    assert(q * q >= 0) by (nonlinear_arith);
    assert(r * r >= 0) by (nonlinear_arith);
}

/// Lagrange's identity in three dimensions, assembled from small pieces so
/// each nonlinear step stays cheap.
proof fn lemma_lagrange_identity(a0: int, a1: int, a2: int, b0: int, b1: int, b2: int)
    ensures
        (a0 * a0 + a1 * a1 + a2 * a2) * (b0 * b0 + b1 * b1 + b2 * b2) == (a0 * b0 + a1 * b1 + a2
            * b2) * (a0 * b0 + a1 * b1 + a2 * b2) + ((a0 * b1 - a1 * b0) * (a0 * b1 - a1 * b0) + (
        a0 * b2 - a2 * b0) * (a0 * b2 - a2 * b0) + (a1 * b2 - a2 * b1) * (a1 * b2 - a2 * b1)),
{
    let bsq = b0 * b0 + b1 * b1 + b2 * b2;
    lemma_distribute3(a0 * a0, a1 * a1, a2 * a2, bsq);
    lemma_distribute3(b0 * b0, b1 * b1, b2 * b2, a0 * a0);
    lemma_distribute3(b0 * b0, b1 * b1, b2 * b2, a1 * a1);
    lemma_distribute3(b0 * b0, b1 * b1, b2 * b2, a2 * a2);
    lemma_prod_sq(a0, b0);
    lemma_prod_sq(a0, b1);
    lemma_prod_sq(a0, b2);
    lemma_prod_sq(a1, b0);
    lemma_prod_sq(a1, b1);
    lemma_prod_sq(a1, b2);
    lemma_prod_sq(a2, b0);
    lemma_prod_sq(a2, b1);
    lemma_prod_sq(a2, b2);
    lemma_sq_sum3(a0 * b0, a1 * b1, a2 * b2);
    lemma_sq_diff(a0 * b1, a1 * b0);
    lemma_sq_diff(a0 * b2, a2 * b0);
    lemma_sq_diff(a1 * b2, a2 * b1);
    lemma_cross_swap(a0, a1, b0, b1);
    lemma_cross_swap(a0, a2, b0, b2);
    lemma_cross_swap(a1, a2, b1, b2);
}

/// Multiplication distributes over a three-part sum, in both orders.
proof fn lemma_distribute3(x: int, y: int, z: int, w: int)
    ensures
        (x + y + z) * w == x * w + y * w + z * w,
        w * (x + y + z) == w * x + w * y + w * z,
        x * w == w * x,
{
    assert((x + y + z) * w == x * w + y * w + z * w) by (nonlinear_arith);
    assert(w * (x + y + z) == w * x + w * y + w * z) by (nonlinear_arith);
    assert(x * w == w * x) by (nonlinear_arith);
}

/// A product of squares is the square of the product.
proof fn lemma_prod_sq(x: int, y: int)
    ensures
        (x * x) * (y * y) == (x * y) * (x * y),
{
    assert((x * x) * (y * y) == (x * y) * (x * y)) by (nonlinear_arith);
}

/// The square of a three-part sum.
proof fn lemma_sq_sum3(u: int, v: int, w: int)
    ensures
        (u + v + w) * (u + v + w) == u * u + v * v + w * w + 2 * (u * v) + 2 * (u * w) + 2 * (v
            * w),
{
    assert((u + v + w) * (u + v + w) == u * u + v * v + w * w + 2 * (u * v) + 2 * (u * w) + 2 * (v
        * w)) by (nonlinear_arith);
}

/// The square of a difference.
proof fn lemma_sq_diff(u: int, v: int)
    ensures
        (u - v) * (u - v) == u * u + v * v - 2 * (u * v),
{
    assert((u - v) * (u - v) == u * u + v * v - 2 * (u * v)) by (nonlinear_arith);
}

/// Swapping factors across two products.
proof fn lemma_cross_swap(ai: int, aj: int, bi: int, bj: int)
    ensures
        (ai * bi) * (aj * bj) == (ai * bj) * (aj * bi),
{
    assert((ai * bi) * (aj * bj) == (ai * bj) * (aj * bi)) by (nonlinear_arith);
}

/// A vector's dot product with itself is never negative.
pub proof fn lemma_norm_sq_nonneg(a: (int, int, int))
    ensures
        norm_sq3(a) >= 0,
{
    assert(a.0 * a.0 >= 0) by (nonlinear_arith);
    assert(a.1 * a.1 >= 0) by (nonlinear_arith);
    assert(a.2 * a.2 >= 0) by (nonlinear_arith);
}

/// The magnitude of a truncated quotient, scaled back by the divisor, never
/// exceeds the magnitude of the numerator.
pub proof fn lemma_tdiv_scaled_back(x: int, d: int)
    requires
        d > 0,
    ensures
        iabs(tdiv(x, d)) * d <= iabs(x),
{
    if x >= 0 {
        vstd::arithmetic::div_mod::lemma_fundamental_div_mod(x, d);
        vstd::arithmetic::div_mod::lemma_div_pos_is_pos(x, d);
        assert((x / d) * d <= x) by (nonlinear_arith)
            requires
                x == d * (x / d) + x % d && x % d >= 0,
        ;
    } else {
        vstd::arithmetic::div_mod::lemma_fundamental_div_mod(-x, d);
        vstd::arithmetic::div_mod::lemma_div_pos_is_pos(-x, d);
        assert(((-x) / d) * d <= -x) by (nonlinear_arith)
            requires
                -x == d * ((-x) / d) + (-x) % d && (-x) % d >= 0,
        ;
    }
}

/// The absolute value of a model scalar.
pub open spec fn iabs(x: int) -> int {
    if x >= 0 {
        x
    } else {
        -x
    }
}

/// A vector at least a quarter unit long normalizes to within a few quanta
/// of unit length: the squared length of `unit3` overshoots one by at most
/// eight quanta.
pub proof fn lemma_unit_norm_upper(v: (int, int, int))
    requires
        norm_sq3(v) >= 0x10000000,
    ensures
        norm_sq3(unit3(v)) <= SCALE_SQ as int + 8 * SCALE,
{
    let s = SCALE as int;
    let len = length3(v);
    lemma_norm_sq_nonneg(v);
    crate::fx::lemma_sqrt_floor(norm_sq3(v) as nat);
    // The length is at least a quarter unit.
    assert((16384int) * (16384int) == 0x10000000 && (16385int) * (16385int) == 0x10000000 + 32769)
        by (nonlinear_arith);
    crate::fx::lemma_sqrt_floor_unique(((16384int) * (16384int)) as nat, 16384nat);
    lemma_sqrt_le(0x10000000 as nat, norm_sq3(v) as nat);
    assert(len >= 16384);
    // Each scaled-back component is bounded by the raw component times SCALE.
    let u = unit3(v);
    lemma_tdiv_scaled_back(v.0 * s, len);
    lemma_tdiv_scaled_back(v.1 * s, len);
    lemma_tdiv_scaled_back(v.2 * s, len);
    assert(iabs(v.0 * s) == iabs(v.0) * s && iabs(v.1 * s) == iabs(v.1) * s && iabs(v.2 * s)
        == iabs(v.2) * s) by (nonlinear_arith)
        requires
            s > 0,
    ;
    // Square the componentwise bounds and sum them.
    lemma_sq_scaled(u.0, v.0, len, s);
    lemma_sq_scaled(u.1, v.1, len, s);
    lemma_sq_scaled(u.2, v.2, len, s);
    assert((u.0 * u.0 + u.1 * u.1 + u.2 * u.2) * (len * len) == (u.0 * u.0) * (len * len) + (u.1
        * u.1) * (len * len) + (u.2 * u.2) * (len * len)) by (nonlinear_arith);
    assert((v.0 * v.0 + v.1 * v.1 + v.2 * v.2) * (s * s) == (v.0 * v.0) * (s * s) + (v.1 * v.1) * (
    s * s) + (v.2 * v.2) * (s * s)) by (nonlinear_arith);
    let x = norm_sq3(u);
    assert(x * (len * len) <= norm_sq3(v) * (s * s));
    // The raw squared length lies below (len + 1)^2 = len^2 + 2 len + 1.
    assert(norm_sq3(v) * (s * s) <= (len * len + 2 * len) * (s * s)) by (nonlinear_arith)
        requires
            norm_sq3(v) < (len + 1) * (len + 1) && s > 0,
    ;
    // Divide out one factor of len, then the other: 2 s^2 <= 8 s len.
    assert((len * len + 2 * len) * (s * s) <= ((s * s) + 8 * s) * (len * len)) by (nonlinear_arith)
        requires
            len >= 16384 && s == 65536,
    ;
    assert(x <= (s * s) + 8 * s) by (nonlinear_arith)
        requires
            x * (len * len) <= ((s * s) + 8 * s) * (len * len) && len >= 1,
    ;
    assert(SCALE_SQ as int == s * s) by (nonlinear_arith)
        requires
            s == 65536 && SCALE_SQ as int == 0x1_0000_0000,
    ;
}

/// One squared component of a normalization, scaled back by the length.
proof fn lemma_sq_scaled(ui: int, vi: int, len: int, s: int)
    requires
        len > 0,
        s > 0,
        iabs(ui) * len <= iabs(vi) * s,
    ensures
        (ui * ui) * (len * len) <= (vi * vi) * (s * s),
{
    assert((ui * ui) * (len * len) == (iabs(ui) * len) * (iabs(ui) * len)) by (nonlinear_arith);
    assert((vi * vi) * (s * s) == (iabs(vi) * s) * (iabs(vi) * s)) by (nonlinear_arith);
    assert((iabs(ui) * len) * (iabs(ui) * len) <= (iabs(vi) * s) * (iabs(vi) * s))
        by (nonlinear_arith)
        requires
            0 <= iabs(ui) * len <= iabs(vi) * s,
    ;
    assert(iabs(ui) * len >= 0) by (nonlinear_arith)
        requires
            len > 0,
    ;
}

/// Scaling by a fixed-point factor in `[0, 1]` never grows the squared
/// length.
pub proof fn lemma_scale_norm_le(t: int, a: (int, int, int))
    requires
        0 <= t <= SCALE as int,
    ensures
        norm_sq3(scale3(t, a)) <= norm_sq3(a),
{
    crate::fx::lemma_fx_mul_keeps_bound(t, a.0, iabs(a.0));
    crate::fx::lemma_fx_mul_keeps_bound(t, a.1, iabs(a.1));
    crate::fx::lemma_fx_mul_keeps_bound(t, a.2, iabs(a.2));
    let u = scale3(t, a);
    assert(u.0 * u.0 <= a.0 * a.0) by (nonlinear_arith)
        requires
            -iabs(a.0) <= u.0 <= iabs(a.0) && (iabs(a.0) == a.0 || iabs(a.0) == -a.0),
    ;
    assert(u.1 * u.1 <= a.1 * a.1) by (nonlinear_arith)
        requires
            -iabs(a.1) <= u.1 <= iabs(a.1) && (iabs(a.1) == a.1 || iabs(a.1) == -a.1),
    ;
    assert(u.2 * u.2 <= a.2 * a.2) by (nonlinear_arith)
        requires
            -iabs(a.2) <= u.2 <= iabs(a.2) && (iabs(a.2) == a.2 || iabs(a.2) == -a.2),
    ;
}

/// `sqrt_floor` is monotone.
pub proof fn lemma_sqrt_le(m: nat, n: nat)
    requires
        m <= n,
    ensures
        sqrt_floor(m) <= sqrt_floor(n),
    decreases n,
{
    if m < n {
        lemma_sqrt_le(m, (n - 1) as nat);
    }
}

impl Vec3 {
    /// Builds the vector with the given components.
    pub fn new(x: i64, y: i64, z: i64) -> (r: Vec3)
        ensures
            r@ == (x as int, y as int, z as int),
    {
        Vec3 { x, y, z }
    }

    /// The zero vector.
    pub fn zero() -> (r: Vec3)
        ensures
            r@ == (0int, 0int, 0int),
    {
        Vec3 { x: 0, y: 0, z: 0 }
    }

    /// Componentwise sum.
    pub fn add(&self, o: &Vec3) -> (r: Vec3)
        requires
            within3(self@, 0x2000_0000_0000_0000),
            within3(o@, 0x2000_0000_0000_0000),
        ensures
            r@ == add3(self@, o@),
    {
        Vec3 { x: self.x + o.x, y: self.y + o.y, z: self.z + o.z }
    }

    /// Componentwise difference.
    pub fn sub(&self, o: &Vec3) -> (r: Vec3)
        requires
            within3(self@, 0x2000_0000_0000_0000),
            within3(o@, 0x2000_0000_0000_0000),
        ensures
            r@ == sub3(self@, o@),
    {
        Vec3 { x: self.x - o.x, y: self.y - o.y, z: self.z - o.z }
    }

    /// Negation.
    pub fn neg(&self) -> (r: Vec3)
        requires
            within3(self@, 0x2000_0000_0000_0000),
        ensures
            r@ == neg3(self@),
    {
        Vec3 { x: -self.x, y: -self.y, z: -self.z }
    }

    /// Raw dot product, exact over the model.
    pub fn dot_raw(&self, o: &Vec3) -> (r: i128)
        requires
            within3(self@, 0x4000_0000_0000_0000),
            within3(o@, 0x4000_0000_0000_0000),
        ensures
            r as int == dot3(self@, o@),
    {
        proof {
            lemma_dot_bound(self@, o@, 0x4000_0000_0000_0000, 0x4000_0000_0000_0000);
        }
        (self.x as i128) * (o.x as i128) + (self.y as i128) * (o.y as i128) + (self.z as i128) * (
        o.z as i128)
    }

    /// Raw squared length, exact over the model; never negative.
    pub fn length_sq_raw(&self) -> (r: i128)
        requires
            within3(self@, 0x8_0000_0000),
        ensures
            r as int == norm_sq3(self@),
            r >= 0,
    {
        proof {
            lemma_norm_sq_nonneg(self@);
        }
        self.dot_raw(self)
    }

    /// Fixed-point length: floor square root of the raw squared length.
    pub fn length(&self) -> (r: i64)
        requires
            within3(self@, 0x8_0000_0000),
        ensures
            r as int == length3(self@),
            r >= 0,
    {
        let sq: i128 = self.length_sq_raw();
        let root: u64 = isqrt(sq as u128);
        proof {
            lemma_dot_bound(self@, self@, 0x8_0000_0000, 0x8_0000_0000);
            lemma_sqrt_le(norm_sq3(self@) as nat, 0xFF_FFFF_FFFF_FFFF_FFFF as nat);
            assert((0xF_FFFF_FFFFint) * (0xF_FFFF_FFFFint) <= 0xFF_FFFF_FFFF_FFFF_FFFFint
                < (0x10_0000_0000int) * (0x10_0000_0000int)) by (nonlinear_arith);
            crate::fx::lemma_sqrt_floor_unique(
                0xFF_FFFF_FFFF_FFFF_FFFF as nat,
                0xF_FFFF_FFFF as nat,
            );
        }
        root as i64
    }

    /// Scales by a fixed-point scalar, each component rounded toward zero.
    pub fn scale(&self, t: i64) -> (r: Vec3)
        requires
            i64::MIN <= fx_mul(t as int, self@.0) <= i64::MAX,
            i64::MIN <= fx_mul(t as int, self@.1) <= i64::MAX,
            i64::MIN <= fx_mul(t as int, self@.2) <= i64::MAX,
        ensures
            r@ == scale3(t as int, self@),
    {
        Vec3 {
            x: crate::fx::fx_mul64(t, self.x),
            y: crate::fx::fx_mul64(t, self.y),
            z: crate::fx::fx_mul64(t, self.z),
        }
    }

    /// Componentwise fixed-point product (color attenuation).
    pub fn mul_comp(&self, o: &Vec3) -> (r: Vec3)
        requires
            i64::MIN <= fx_mul(self@.0, o@.0) <= i64::MAX,
            i64::MIN <= fx_mul(self@.1, o@.1) <= i64::MAX,
            i64::MIN <= fx_mul(self@.2, o@.2) <= i64::MAX,
        ensures
            r@ == cmul3(self@, o@),
    {
        Vec3 {
            x: crate::fx::fx_mul64(self.x, o.x),
            y: crate::fx::fx_mul64(self.y, o.y),
            z: crate::fx::fx_mul64(self.z, o.z),
        }
    }

    /// The vector scaled to unit length (within rounding); the input must be
    /// nonzero.
    pub fn normalized(&self) -> (r: Vec3)
        requires
            within3(self@, 0x8_0000_0000),
            norm_sq3(self@) > 0,
        ensures
            r@ == unit3(self@),
            within3(r@, SCALE as int),
            length3(self@) >= 1,
    {
        let len: i64 = self.length();
        proof {
            lemma_unit_in_range(self@);
        }
        Vec3 {
            x: crate::fx::fx_div64(self.x, len),
            y: crate::fx::fx_div64(self.y, len),
            z: crate::fx::fx_div64(self.z, len),
        }
    }

    /// Cross product, each component rounded toward zero.
    pub fn cross(&self, o: &Vec3) -> (r: Vec3)
        requires
            within3(self@, DIR_MAX as int),
            within3(o@, DIR_MAX as int),
        ensures
            r@ == cross3(self@, o@),
    {
        proof {
            let d = DIR_MAX as int;
            lemma_mul_bound(self@.1, o@.2, d, d);
            lemma_mul_bound(self@.2, o@.1, d, d);
            lemma_mul_bound(self@.2, o@.0, d, d);
            lemma_mul_bound(self@.0, o@.2, d, d);
            lemma_mul_bound(self@.0, o@.1, d, d);
            lemma_mul_bound(self@.1, o@.0, d, d);
        }
        let cx: i128 = (self.y as i128) * (o.z as i128) - (self.z as i128) * (o.y as i128);
        let cy: i128 = (self.z as i128) * (o.x as i128) - (self.x as i128) * (o.z as i128);
        let cz: i128 = (self.x as i128) * (o.y as i128) - (self.y as i128) * (o.x as i128);
        Vec3 {
            x: (cx / (SCALE as i128)) as i64,
            y: (cy / (SCALE as i128)) as i64,
            z: (cz / (SCALE as i128)) as i64,
        }
    }
}

/// Components of a normalized vector lie within one unit, and a nonzero
/// vector has length at least one.
pub proof fn lemma_unit_in_range(a: (int, int, int))
    requires
        norm_sq3(a) > 0,
    ensures
        within3(unit3(a), SCALE as int),
        length3(a) >= 1,
{
    let len = length3(a);
    crate::fx::lemma_sqrt_floor(norm_sq3(a) as nat);
    assert(len >= 1);
    lemma_abs_component_le_length(a, a.0);
    lemma_abs_component_le_length(a, a.1);
    lemma_abs_component_le_length(a, a.2);
    lemma_tdiv_scale_le(a.0, len);
    lemma_tdiv_scale_le(a.1, len);
    lemma_tdiv_scale_le(a.2, len);
}

/// Any component's magnitude is at most the vector's length.
proof fn lemma_abs_component_le_length(a: (int, int, int), c: int)
    requires
        c == a.0 || c == a.1 || c == a.2,
    ensures
        -length3(a) <= c <= length3(a),
{
    let s = if c >= 0 {
        c
    } else {
        -c
    };
    assert(s * s <= norm_sq3(a)) by (nonlinear_arith)
        requires
            (s == a.0 || s == a.1 || s == a.2 || s == -a.0 || s == -a.1 || s == -a.2) && s >= 0,
    ;
    lemma_norm_sq_nonneg(a);
    assert(s * s < (s + 1) * (s + 1)) by (nonlinear_arith)
        requires
            s >= 0,
    ;
    crate::fx::lemma_sqrt_floor_unique((s * s) as nat, s as nat);
    lemma_sqrt_le((s * s) as nat, norm_sq3(a) as nat);
}

/// Dividing `c * SCALE` by a length at least `|c|` stays within one unit.
proof fn lemma_tdiv_scale_le(c: int, len: int)
    requires
        len >= 1,
        -len <= c <= len,
    ensures
        -SCALE <= tdiv(c * SCALE, len) <= SCALE as int,
{
    if c >= 0 {
        assert(c * SCALE >= 0 && c * SCALE <= len * SCALE) by (nonlinear_arith)
            requires
                0 <= c <= len && SCALE > 0,
        ;
        vstd::arithmetic::div_mod::lemma_div_is_ordered(c * SCALE, len * SCALE, len);
        vstd::arithmetic::div_mod::lemma_div_pos_is_pos(c * SCALE, len);
        assert((len * SCALE) / len == SCALE) by {
            vstd::arithmetic::div_mod::lemma_div_by_multiple(SCALE as int, len);
            assert(len * SCALE == SCALE * len) by (nonlinear_arith);
        }
    } else {
        let m = -c;
        assert(m * SCALE >= 0 && m * SCALE <= len * SCALE) by (nonlinear_arith)
            requires
                0 <= m <= len && SCALE > 0,
        ;
        vstd::arithmetic::div_mod::lemma_div_is_ordered(m * SCALE, len * SCALE, len);
        vstd::arithmetic::div_mod::lemma_div_pos_is_pos(m * SCALE, len);
        assert((len * SCALE) / len == SCALE) by {
            vstd::arithmetic::div_mod::lemma_div_by_multiple(SCALE as int, len);
            assert(len * SCALE == SCALE * len) by (nonlinear_arith);
        }
        assert(c * SCALE == -(m * SCALE)) by (nonlinear_arith)
            requires
                m == -c,
        ;
    }
}

} // verus!
