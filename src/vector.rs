//! Fixed-point 3-vectors and the integer model they are reasoned about in.
//!
//! A length of one metre, a speed of one metre per second, a duration of one
//! second and a unit direction all have the magnitude [`ONE`]. Every operation
//! that divides rounds toward zero, so no operation here can lengthen a vector
//! by rounding.
use vstd::prelude::*;

verus! {

/// Fixed-point scale: the integer that stands for 1.0.
pub const ONE: i64 = 1_000_000;

/// Largest speed (and largest length of a working velocity) the solver accepts.
pub const MAX_SPEED: i64 = 100_000_000_000;

/// Mathematical model of a vector: three unbounded integers.
pub struct V3 {
    pub x: int,
    pub y: int,
    pub z: int,
}

pub open spec fn v3(x: int, y: int, z: int) -> V3 {
    V3 { x, y, z }
}

pub open spec fn zero() -> V3 {
    v3(0, 0, 0)
}

pub open spec fn vadd(a: V3, b: V3) -> V3 {
    v3(a.x + b.x, a.y + b.y, a.z + b.z)
}

pub open spec fn vsub(a: V3, b: V3) -> V3 {
    v3(a.x - b.x, a.y - b.y, a.z - b.z)
}

pub open spec fn dot(a: V3, b: V3) -> int {
    a.x * b.x + a.y * b.y + a.z * b.z
}

pub open spec fn len_sq(a: V3) -> int {
    dot(a, a)
}

pub open spec fn cross(a: V3, b: V3) -> V3 {
    v3(a.y * b.z - a.z * b.y, a.z * b.x - a.x * b.z, a.x * b.y - a.y * b.x)
}

/// Division rounding toward zero, for a positive divisor.
pub open spec fn div_trunc(a: int, d: int) -> int {
    if a >= 0 {
        a / d
    } else {
        -((-a) / d)
    }
}

/// `a * k / d` in each component, rounded toward zero.
pub open spec fn scale_div(a: V3, k: int, d: int) -> V3 {
    v3(div_trunc(a.x * k, d), div_trunc(a.y * k, d), div_trunc(a.z * k, d))
}

/// `v` with its component along `n` removed; `v` itself when `n` is zero.
pub open spec fn reject(v: V3, n: V3) -> V3 {
    let nn = len_sq(n);
    let d = dot(v, n);
    if nn == 0 {
        v
    } else {
        v3(
            div_trunc(v.x * nn - n.x * d, nn),
            div_trunc(v.y * nn - n.y * d, nn),
            div_trunc(v.z * nn - n.z * d, nn),
        )
    }
}

/// The component of `v` along the line of `c`; zero when `c` is zero.
pub open spec fn project(v: V3, c: V3) -> V3 {
    let cc = len_sq(c);
    if cc == 0 {
        zero()
    } else {
        scale_div(c, dot(v, c), cc)
    }
}

/// The largest integer whose square does not exceed `n`.
pub open spec fn is_floor_sqrt(r: int, n: int) -> bool {
    0 <= r && r * r <= n < (r + 1) * (r + 1)
}

pub open spec fn floor_sqrt(n: int) -> int {
    choose|r: int| #[trigger] is_floor_sqrt(r, n)
}

/// `v` rescaled to the given length (up to rounding); zero when `v` is zero.
pub open spec fn with_length(v: V3, length: int) -> V3 {
    if len_sq(v) == 0 {
        zero()
    } else {
        scale_div(v, length, floor_sqrt(len_sq(v)))
    }
}

/// `v` as a unit direction of magnitude [`ONE`]; zero when `v` is zero.
pub open spec fn normalize(v: V3) -> V3 {
    with_length(v, ONE as int)
}

/// Two directions are similar when the angle between them has a cosine above 0.999.
pub open spec fn similar(a: V3, b: V3) -> bool {
    dot(a, b) > 0 && 1_000_000 * (dot(a, b) * dot(a, b)) > 998_001 * (len_sq(a) * len_sq(b))
}

/// Every component lies within `[-b, b]`.
pub open spec fn within(a: V3, b: int) -> bool {
    -b <= a.x <= b && -b <= a.y <= b && -b <= a.z <= b
}

/// A direction: no component longer than [`ONE`].
pub open spec fn is_direction(a: V3) -> bool {
    within(a, ONE as int)
}

/// How far from [`ONE`] the length of a unit axis may be.
pub const UNIT_TOLERANCE: i64 = 1_000;

/// A unit axis: a direction whose length is [`ONE`] within [`UNIT_TOLERANCE`].
pub open spec fn is_unit(a: V3) -> bool {
    &&& is_direction(a)
    &&& (ONE - UNIT_TOLERANCE) * (ONE - UNIT_TOLERANCE) <= len_sq(a)
    &&& len_sq(a) <= (ONE + UNIT_TOLERANCE) * (ONE + UNIT_TOLERANCE)
}

/// A velocity the solver accepts: no longer than [`MAX_SPEED`].
pub open spec fn is_speed(a: V3) -> bool {
    len_sq(a) <= (MAX_SPEED as int) * (MAX_SPEED as int)
}

// ---------------------------------------------------------------------------
// Arithmetic facts
// ---------------------------------------------------------------------------

pub proof fn lemma_mul_bound(a: int, b: int, ba: int, bb: int)
    requires
        -ba <= a <= ba,
        -bb <= b <= bb,
    ensures
        -(ba * bb) <= a * b <= ba * bb,
        0 <= ba * bb,
{
    assert(-(ba * bb) <= a * b <= ba * bb && 0 <= ba * bb) by (nonlinear_arith)
        requires
            -ba <= a <= ba,
            -bb <= b <= bb,
    ;
}

pub proof fn lemma_square_nonneg(a: int)
    ensures
        a * a >= 0,
{
    assert(a * a >= 0) by (nonlinear_arith);
}

pub proof fn lemma_len_sq_nonneg(a: V3)
    ensures
        len_sq(a) >= 0,
        a.x * a.x <= len_sq(a),
        a.y * a.y <= len_sq(a),
        a.z * a.z <= len_sq(a),
        len_sq(a) == 0 <==> a == zero(),
{
    lemma_square_nonneg(a.x);
    lemma_square_nonneg(a.y);
    lemma_square_nonneg(a.z);
    if a.x != 0 {
        assert(a.x * a.x > 0) by (nonlinear_arith)
            requires
                a.x != 0,
        ;
    }
    if a.y != 0 {
        assert(a.y * a.y > 0) by (nonlinear_arith)
            requires
                a.y != 0,
        ;
    }
    if a.z != 0 {
        assert(a.z * a.z > 0) by (nonlinear_arith)
            requires
                a.z != 0,
        ;
    }
}

proof fn lemma_sq_diff(x: int, y: int)
    ensures
        (x - y) * (x - y) == x * x - 2 * (x * y) + y * y,
{
    assert((x - y) * (x - y) == x * x - 2 * (x * y) + y * y) by (nonlinear_arith);
}

proof fn lemma_sq_sum3(x: int, y: int, z: int)
    ensures
        (x + y + z) * (x + y + z) == x * x + y * y + z * z + 2 * (x * y) + 2 * (x * z) + 2 * (y
            * z),
{
    assert((x + y + z) * (x + y + z) == x * x + y * y + z * z + 2 * (x * y) + 2 * (x * z) + 2 * (y
        * z)) by (nonlinear_arith);
}

proof fn lemma_dist3(s: int, a: int, b: int, c: int)
    ensures
        s * (a + b + c) == s * a + s * b + s * c,
        (a + b + c) * s == s * a + s * b + s * c,
{
    assert(s * (a + b + c) == s * a + s * b + s * c) by (nonlinear_arith);
}

proof fn lemma_swap4(a: int, b: int, c: int, d: int)
    ensures
        (a * b) * (c * d) == (a * c) * (b * d),
{
    assert((a * b) * (c * d) == (a * c) * (b * d)) by (nonlinear_arith);
}

proof fn lemma_lagrange(a1: int, a2: int, a3: int, b1: int, b2: int, b3: int)
    ensures
        (a1 * a1 + a2 * a2 + a3 * a3) * (b1 * b1 + b2 * b2 + b3 * b3) == (a1 * b1 + a2 * b2 + a3
            * b3) * (a1 * b1 + a2 * b2 + a3 * b3) + (a2 * b3 - a3 * b2) * (a2 * b3 - a3 * b2) + (a3
            * b1 - a1 * b3) * (a3 * b1 - a1 * b3) + (a1 * b2 - a2 * b1) * (a1 * b2 - a2 * b1),
{
    let sb = b1 * b1 + b2 * b2 + b3 * b3;
    lemma_dist3(sb, a1 * a1, a2 * a2, a3 * a3);
    lemma_dist3(a1 * a1, b1 * b1, b2 * b2, b3 * b3);
    lemma_dist3(a2 * a2, b1 * b1, b2 * b2, b3 * b3);
    lemma_dist3(a3 * a3, b1 * b1, b2 * b2, b3 * b3);
    lemma_swap4(a1, a1, b1, b1);
    lemma_swap4(a1, a1, b2, b2);
    lemma_swap4(a1, a1, b3, b3);
    lemma_swap4(a2, a2, b1, b1);
    lemma_swap4(a2, a2, b2, b2);
    lemma_swap4(a2, a2, b3, b3);
    lemma_swap4(a3, a3, b1, b1);
    lemma_swap4(a3, a3, b2, b2);
    lemma_swap4(a3, a3, b3, b3);
    lemma_sq_sum3(a1 * b1, a2 * b2, a3 * b3);
    lemma_sq_diff(a2 * b3, a3 * b2);
    lemma_sq_diff(a3 * b1, a1 * b3);
    lemma_sq_diff(a1 * b2, a2 * b1);
    lemma_swap4(a1, b1, a2, b2);
    lemma_swap4(a1, b2, a2, b1);
    lemma_swap4(a1, b1, a3, b3);
    lemma_swap4(a3, b1, a1, b3);
    lemma_swap4(a2, b2, a3, b3);
    lemma_swap4(a2, b3, a3, b2);
}

/// `sum (v_i * nn - n_i * d)^2 == nn^2 |v|^2 - nn d^2` when `nn = |n|^2` and `d = v . n`.
proof fn lemma_reject_identity(v: V3, n: V3, nn: int, d: int)
    requires
        nn == len_sq(n),
        d == dot(v, n),
    ensures
        len_sq(v3(v.x * nn - n.x * d, v.y * nn - n.y * d, v.z * nn - n.z * d)) == (nn * nn) * len_sq(
            v,
        ) - nn * (d * d),
{
    let s = nn * nn;
    let t = nn * d;
    lemma_sq_diff(v.x * nn, n.x * d);
    lemma_sq_diff(v.y * nn, n.y * d);
    lemma_sq_diff(v.z * nn, n.z * d);
    lemma_swap4(v.x, nn, v.x, nn);
    lemma_swap4(v.y, nn, v.y, nn);
    lemma_swap4(v.z, nn, v.z, nn);
    lemma_swap4(v.x, nn, n.x, d);
    lemma_swap4(v.y, nn, n.y, d);
    lemma_swap4(v.z, nn, n.z, d);
    lemma_swap4(n.x, d, n.x, d);
    lemma_swap4(n.y, d, n.y, d);
    lemma_swap4(n.z, d, n.z, d);
    lemma_dist3(s, v.x * v.x, v.y * v.y, v.z * v.z);
    lemma_dist3(t, v.x * n.x, v.y * n.y, v.z * n.z);
    lemma_dist3(d * d, n.x * n.x, n.y * n.y, n.z * n.z);
    assert((v.x * n.x) * t == t * (v.x * n.x));
    assert(t * d == nn * (d * d)) by (nonlinear_arith)
        requires
            t == nn * d,
    ;
    assert((d * d) * nn == nn * (d * d)) by (nonlinear_arith);
}

/// A square no larger than `m * m` has a root no larger than `m`.
pub proof fn lemma_root_bound(a: int, m: int)
    requires
        m >= 0,
        a * a <= m * m,
    ensures
        -m <= a <= m,
{
    if a > m {
        assert(a * a > m * m) by (nonlinear_arith)
            requires
                a > m,
                m >= 0,
        ;
    }
    if a < -m {
        assert(a * a > m * m) by (nonlinear_arith)
            requires
                a < -m,
                m >= 0,
        ;
    }
}

/// A vector no longer than `m` has every component within `[-m, m]`.
pub proof fn lemma_len_bounds_components(a: V3, m: int)
    requires
        m >= 0,
        len_sq(a) <= m * m,
    ensures
        within(a, m),
{
    lemma_len_sq_nonneg(a);
    lemma_root_bound(a.x, m);
    lemma_root_bound(a.y, m);
    lemma_root_bound(a.z, m);
}

/// Components within `[-b, b]` give a length square of at most `3 * b * b`.
pub proof fn lemma_components_bound_len(a: V3, b: int)
    requires
        within(a, b),
    ensures
        len_sq(a) <= 3 * (b * b),
{
    lemma_mul_bound(a.x, a.x, b, b);
    lemma_mul_bound(a.y, a.y, b, b);
    lemma_mul_bound(a.z, a.z, b, b);
}

/// Rounding toward zero never moves away from zero.
pub proof fn lemma_div_trunc(a: int, d: int)
    requires
        d > 0,
    ensures
        a >= 0 ==> 0 <= div_trunc(a, d) && div_trunc(a, d) * d <= a,
        a < 0 ==> div_trunc(a, d) <= 0 && a <= div_trunc(a, d) * d,
        div_trunc(a, d) * div_trunc(a, d) * (d * d) <= a * a,
{
    let q = div_trunc(a, d);
    if a >= 0 {
        assert(0 <= a / d && (a / d) * d <= a) by (nonlinear_arith)
            requires
                a >= 0,
                d > 0,
        ;
        assert(q * q * (d * d) <= a * a) by (nonlinear_arith)
            requires
                0 <= q,
                q * d <= a,
                d > 0,
        ;
    } else {
        let b = -a;
        assert(0 <= b / d && (b / d) * d <= b) by (nonlinear_arith)
            requires
                b > 0,
                d > 0,
        ;
        assert(q * d == -((b / d) * d)) by (nonlinear_arith)
            requires
                q == -(b / d),
        ;
        assert(q * q * (d * d) <= a * a) by (nonlinear_arith)
            requires
                q == -(b / d),
                0 <= b / d,
                (b / d) * d <= b,
                a == -b,
                d > 0,
        ;
    }
}

/// `scale_div(a, k, d)` has each square times `d * d` at most that of `a * k`.
pub proof fn lemma_scale_div_len(a: V3, k: int, d: int)
    requires
        d > 0,
    ensures
        len_sq(scale_div(a, k, d)) * (d * d) <= len_sq(a) * (k * k),
{
    let r = scale_div(a, k, d);
    lemma_div_trunc(a.x * k, d);
    lemma_div_trunc(a.y * k, d);
    lemma_div_trunc(a.z * k, d);
    lemma_dist3(d * d, r.x * r.x, r.y * r.y, r.z * r.z);
    lemma_dist3(k * k, a.x * a.x, a.y * a.y, a.z * a.z);
    lemma_swap4(a.x, k, a.x, k);
    lemma_swap4(a.y, k, a.y, k);
    lemma_swap4(a.z, k, a.z, k);
    assert(r.x * r.x * (d * d) == (d * d) * (r.x * r.x));
    assert(r.y * r.y * (d * d) == (d * d) * (r.y * r.y));
    assert(r.z * r.z * (d * d) == (d * d) * (r.z * r.z));
}

/// Lagrange's identity gives Cauchy-Schwarz: `dot(a, b)^2 <= |a|^2 |b|^2`.
pub proof fn lemma_cauchy_schwarz(a: V3, b: V3)
    ensures
        dot(a, b) * dot(a, b) <= len_sq(a) * len_sq(b),
{
    let c = cross(a, b);
    lemma_lagrange(a.x, a.y, a.z, b.x, b.y, b.z);
    lemma_len_sq_nonneg(c);
}

/// If `x * c <= y * c` with `c > 0` then `x <= y`.
pub proof fn lemma_cancel(x: int, y: int, c: int)
    requires
        c > 0,
        x * c <= y * c,
    ensures
        x <= y,
{
    assert(x <= y) by (nonlinear_arith)
        requires
            c > 0,
            x * c <= y * c,
    ;
}

/// Rejection never lengthens a vector.
pub proof fn lemma_reject_shortens(v: V3, n: V3)
    ensures
        len_sq(reject(v, n)) <= len_sq(v),
{
    let nn = len_sq(n);
    let d = dot(v, n);
    lemma_len_sq_nonneg(n);
    if nn != 0 {
        let w = v3(v.x * nn - n.x * d, v.y * nn - n.y * d, v.z * nn - n.z * d);
        assert(reject(v, n) == scale_div(w, 1, nn));
        lemma_scale_div_len(w, 1, nn);
        lemma_reject_identity(v, n, nn, d);
        lemma_square_nonneg(d);
        assert(nn * (d * d) >= 0) by (nonlinear_arith)
            requires
                nn > 0,
                d * d >= 0,
        ;
        assert(len_sq(reject(v, n)) * (nn * nn) <= len_sq(v) * (nn * nn)) by (nonlinear_arith)
            requires
                len_sq(reject(v, n)) * (nn * nn) <= len_sq(w) * (1 * 1),
                len_sq(w) == nn * nn * len_sq(v) - nn * (d * d),
                nn * (d * d) >= 0,
        ;
        assert(nn * nn > 0) by (nonlinear_arith)
            requires
                nn > 0,
        ;
        lemma_cancel(len_sq(reject(v, n)), len_sq(v), nn * nn);
    }
}

/// Projection onto a line never lengthens a vector.
pub proof fn lemma_project_shortens(v: V3, c: V3)
    ensures
        len_sq(project(v, c)) <= len_sq(v),
{
    let cc = len_sq(c);
    let d = dot(v, c);
    lemma_len_sq_nonneg(c);
    lemma_len_sq_nonneg(v);
    if cc != 0 {
        lemma_scale_div_len(c, d, cc);
        lemma_cauchy_schwarz(v, c);
        let l = len_sq(v);
        assert(cc * (d * d) <= cc * (l * cc)) by (nonlinear_arith)
            requires
                d * d <= l * cc,
                cc > 0,
        ;
        assert(cc * (l * cc) == l * (cc * cc)) by (nonlinear_arith);
        assert(cc * cc > 0) by (nonlinear_arith)
            requires
                cc > 0,
        ;
        lemma_cancel(len_sq(project(v, c)), len_sq(v), cc * cc);
    }
}

/// `|div_trunc(a, d)| <= b` whenever `|a| <= d * b`.
pub proof fn lemma_div_trunc_le(a: int, d: int, b: int)
    requires
        d > 0,
        b >= 0,
        -(d * b) <= a <= d * b,
    ensures
        -b <= div_trunc(a, d) <= b,
{
    lemma_div_trunc(a, d);
    let q = div_trunc(a, d);
    assert(-b <= q <= b) by (nonlinear_arith)
        requires
            d > 0,
            b >= 0,
            -(d * b) <= a <= d * b,
            a >= 0 ==> 0 <= q && q * d <= a,
            a < 0 ==> q <= 0 && a <= q * d,
    ;
}

/// The floor square root is unique.
pub proof fn lemma_floor_sqrt_unique(r: int, n: int)
    requires
        is_floor_sqrt(r, n),
    ensures
        floor_sqrt(n) == r,
{
    let s = floor_sqrt(n);
    assert(is_floor_sqrt(s, n));
    if s < r {
        assert((s + 1) * (s + 1) <= r * r) by (nonlinear_arith)
            requires
                0 <= s < r,
        ;
    }
    if r < s {
        assert((r + 1) * (r + 1) <= s * s) by (nonlinear_arith)
            requires
                0 <= r < s,
        ;
    }
}

/// Rescaling gives components no longer than the requested length.
pub proof fn lemma_with_length_within(v: V3, length: int)
    requires
        length >= 0,
    ensures
        within(with_length(v, length), length),
{
    lemma_len_sq_nonneg(v);
    if len_sq(v) != 0 {
        let n = len_sq(v);
        let l = floor_sqrt(n);
        assert(exists|r: int| #[trigger] is_floor_sqrt(r, n)) by {
            lemma_floor_sqrt_exists(n);
        }
        assert(is_floor_sqrt(l, n));
        assert(l > 0) by {
            if l == 0 {
                assert((l + 1) * (l + 1) == 1);
            }
        }
        lemma_component_le_root(v.x, n, l);
        lemma_component_le_root(v.y, n, l);
        lemma_component_le_root(v.z, n, l);
        lemma_mul_bound(v.x, length, l, length);
        lemma_mul_bound(v.y, length, l, length);
        lemma_mul_bound(v.z, length, l, length);
        lemma_div_trunc_le(v.x * length, l, length);
        lemma_div_trunc_le(v.y * length, l, length);
        lemma_div_trunc_le(v.z * length, l, length);
    }
}

proof fn lemma_component_le_root(a: int, n: int, l: int)
    requires
        a * a <= n,
        is_floor_sqrt(l, n),
    ensures
        -l <= a <= l,
{
    if a > l {
        assert(a * a >= (l + 1) * (l + 1)) by (nonlinear_arith)
            requires
                a >= l + 1,
                l >= 0,
        ;
    }
    if a < -l {
        assert(a * a >= (l + 1) * (l + 1)) by (nonlinear_arith)
            requires
                -a >= l + 1,
                l >= 0,
        ;
    }
}

/// Every non-negative integer has a floor square root.
pub proof fn lemma_floor_sqrt_exists(n: int)
    requires
        n >= 0,
    ensures
        exists|r: int| #[trigger] is_floor_sqrt(r, n),
    decreases n,
{
    if n == 0 {
        assert(is_floor_sqrt(0, 0));
    } else {
        lemma_floor_sqrt_exists(n - 1);
        let r = choose|r: int| #[trigger] is_floor_sqrt(r, n - 1);
        if (r + 1) * (r + 1) <= n {
            assert(n < (r + 2) * (r + 2)) by (nonlinear_arith)
                requires
                    n - 1 < (r + 1) * (r + 1),
                    r >= 0,
            ;
            assert(is_floor_sqrt(r + 1, n));
        } else {
            assert(is_floor_sqrt(r, n));
        }
    }
}

// ---------------------------------------------------------------------------
// Executable vectors
// ---------------------------------------------------------------------------

/// A fixed-point vector: each component counts millionths.
#[derive(Clone, Copy, Debug, PartialEq, Eq, Structural)]
pub struct Vec3 {
    pub x: i64,
    pub y: i64,
    pub z: i64,
}

impl View for Vec3 {
    type V = V3;

    open spec fn view(&self) -> V3 {
        v3(self.x as int, self.y as int, self.z as int)
    }
}

/// Bound under which three products of components fit in an `i128`.
pub open spec fn is_small(a: V3) -> bool {
    within(a, 4_611_686_018_427_387_904)
}

impl Vec3 {
    pub fn new(x: i64, y: i64, z: i64) -> (r: Vec3)
        ensures
            r@ == v3(x as int, y as int, z as int),
    {
        Vec3 { x, y, z }
    }

    pub fn zero() -> (r: Vec3)
        ensures
            r@ == zero(),
    {
        Vec3 { x: 0, y: 0, z: 0 }
    }

    /// Dot product, exact.
    pub fn dot(&self, o: &Vec3) -> (r: i128)
        requires
            is_small(self@),
            is_small(o@),
        ensures
            r == dot(self@, o@),
    {
        let ghost b: int = 4_611_686_018_427_387_904;
        proof {
            lemma_mul_bound(self.x as int, o.x as int, b, b);
            lemma_mul_bound(self.y as int, o.y as int, b, b);
            lemma_mul_bound(self.z as int, o.z as int, b, b);
        }
        (self.x as i128) * (o.x as i128) + (self.y as i128) * (o.y as i128) + (self.z as i128) * (
        o.z as i128)
    }

    /// Whether this is a unit axis (see [`is_unit`]).
    pub fn is_unit(&self) -> (r: bool)
        ensures
            r == is_unit(self@),
    {
        if !(-ONE <= self.x && self.x <= ONE && -ONE <= self.y && self.y <= ONE && -ONE <= self.z
            && self.z <= ONE) {
            return false;
        }
        proof {
            lemma_components_bound_len(self@, ONE as int);
        }
        let l = self.length_squared();
        let lo: i128 = (ONE - UNIT_TOLERANCE) as i128;
        let hi: i128 = (ONE + UNIT_TOLERANCE) as i128;
        assert(lo * lo == 998_001_000_000 && hi * hi == 1_002_001_000_000) by (nonlinear_arith)
            requires
                lo == 999_000,
                hi == 1_001_000,
        ;
        lo * lo <= l && l <= hi * hi
    }

    /// Squared length, exact.
    pub fn length_squared(&self) -> (r: i128)
        requires
            is_small(self@),
        ensures
            r == len_sq(self@),
    {
        self.dot(self)
    }

    /// Component-wise sum.
    pub fn plus(&self, o: &Vec3) -> (r: Vec3)
        requires
            within(self@, 4_611_686_018_427_387_904),
            within(o@, 4_611_686_018_427_387_903),
        ensures
            r@ == vadd(self@, o@),
    {
        Vec3 { x: self.x + o.x, y: self.y + o.y, z: self.z + o.z }
    }

    /// Cross product of two directions.
    pub fn cross(&self, o: &Vec3) -> (r: Vec3)
        requires
            is_direction(self@),
            is_direction(o@),
        ensures
            r@ == cross(self@, o@),
            within(r@, 2 * (ONE as int) * (ONE as int)),
    {
        let ghost one: int = ONE as int;
        proof {
            lemma_mul_bound(self.y as int, o.z as int, one, one);
            lemma_mul_bound(self.z as int, o.y as int, one, one);
            lemma_mul_bound(self.z as int, o.x as int, one, one);
            lemma_mul_bound(self.x as int, o.z as int, one, one);
            lemma_mul_bound(self.x as int, o.y as int, one, one);
            lemma_mul_bound(self.y as int, o.x as int, one, one);
        }
        Vec3 {
            x: self.y * o.z - self.z * o.y,
            y: self.z * o.x - self.x * o.z,
            z: self.x * o.y - self.y * o.x,
        }
    }
}

/// `a / d` rounded toward zero.
pub(crate) fn div_toward_zero(a: i128, d: i128) -> (r: i128)
    requires
        d > 0,
        a > i128::MIN,
    ensures
        r == div_trunc(a as int, d as int),
{
    if a >= 0 {
        a / d
    } else {
        -((-a) / d)
    }
}

/// Squares of integers in `[0, 2^64)` stay below `2^128`; `2^64` squared is `2^128`.
proof fn lemma_square_lt(a: int, b: int)
    requires
        b == 18446744073709551616int,
    ensures
        0 <= a < b ==> a * a < b * b,
        b * b == 340282366920938463463374607431768211456int,
{
    if 0 <= a < b {
        assert(a * a < b * b) by (nonlinear_arith)
            requires
                0 <= a < b,
        ;
    }
    assert(b * b == 340282366920938463463374607431768211456int) by (nonlinear_arith)
        requires
            b == 18446744073709551616int,
    ;
}

/// Floor square root of `n`.
pub fn isqrt(n: u128) -> (r: u64)
    ensures
        is_floor_sqrt(r as int, n as int),
        r == floor_sqrt(n as int),
{
    // lo * lo <= n < hi * hi
    let mut lo: u128 = 0;
    let mut hi: u128 = 18_446_744_073_709_551_616;
    proof {
        lemma_square_lt(n as int, hi as int);
    }
    while lo + 1 < hi
        invariant
            lo < hi <= 18_446_744_073_709_551_616,
            lo * lo <= n,
            n < hi * hi,
        decreases hi - lo,
    {
        let mid = lo + (hi - lo) / 2;
        proof {
            lemma_square_lt(mid as int, 18446744073709551616int);
            lemma_square_lt(u128::MAX as int, 18446744073709551616int);
        }
        if mid * mid <= n {
            lo = mid;
        } else {
            hi = mid;
        }
    }
    assert(is_floor_sqrt(lo as int, n as int)) by {
        assert(hi == lo + 1);
    }
    proof {
        lemma_floor_sqrt_unique(lo as int, n as int);
    }
    lo as u64
}

/// Facts that let a speed-bounded vector meet a direction in 128-bit arithmetic.
proof fn lemma_speed_within(v: V3)
    requires
        is_speed(v),
    ensures
        within(v, MAX_SPEED as int),
        is_small(v),
        len_sq(v) >= 0,
{
    lemma_len_bounds_components(v, MAX_SPEED as int);
    lemma_len_sq_nonneg(v);
}

/// `v` with its component along `n` removed (see [`reject`]).
pub fn reject_from(v: &Vec3, n: &Vec3) -> (r: Vec3)
    requires
        is_speed(v@),
        is_direction(n@),
    ensures
        r@ == reject(v@, n@),
        is_speed(r@),
        len_sq(r@) <= len_sq(v@),
{
    proof {
        lemma_speed_within(v@);
        lemma_components_bound_len(n@, ONE as int);
        lemma_len_sq_nonneg(n@);
        lemma_reject_shortens(v@, n@);
    }
    let nn = n.length_squared();
    if nn == 0 {
        return *v;
    }
    let d = v.dot(n);
    let ghost s: int = MAX_SPEED as int;
    let ghost o: int = ONE as int;
    proof {
        lemma_mul_bound(v.x as int, n.x as int, s, o);
        lemma_mul_bound(v.y as int, n.y as int, s, o);
        lemma_mul_bound(v.z as int, n.z as int, s, o);
        lemma_mul_bound(v.x as int, nn as int, s, 3 * (o * o));
        lemma_mul_bound(v.y as int, nn as int, s, 3 * (o * o));
        lemma_mul_bound(v.z as int, nn as int, s, 3 * (o * o));
        lemma_mul_bound(n.x as int, d as int, o, 3 * (s * o));
        lemma_mul_bound(n.y as int, d as int, o, 3 * (s * o));
        lemma_mul_bound(n.z as int, d as int, o, 3 * (s * o));
    }
    let rx = div_toward_zero((v.x as i128) * nn - (n.x as i128) * d, nn);
    let ry = div_toward_zero((v.y as i128) * nn - (n.y as i128) * d, nn);
    let rz = div_toward_zero((v.z as i128) * nn - (n.z as i128) * d, nn);
    proof {
        lemma_speed_within(reject(v@, n@));
    }
    Vec3 { x: rx as i64, y: ry as i64, z: rz as i64 }
}

/// The component of `v` along the line of `c` (see [`project`]).
pub fn project_onto(v: &Vec3, c: &Vec3) -> (r: Vec3)
    requires
        is_speed(v@),
        within(c@, 2 * (ONE as int) * (ONE as int)),
    ensures
        r@ == project(v@, c@),
        is_speed(r@),
        len_sq(r@) <= len_sq(v@),
{
    let ghost s: int = MAX_SPEED as int;
    let ghost b: int = 2 * (ONE as int) * (ONE as int);
    proof {
        lemma_speed_within(v@);
        lemma_components_bound_len(c@, b);
        lemma_len_sq_nonneg(c@);
        lemma_project_shortens(v@, c@);
    }
    let cc = c.length_squared();
    if cc == 0 {
        return Vec3::zero();
    }
    let d = v.dot(c);
    proof {
        lemma_mul_bound(v.x as int, c.x as int, 100_000_000_000, 2_000_000_000_000);
        lemma_mul_bound(v.y as int, c.y as int, 100_000_000_000, 2_000_000_000_000);
        lemma_mul_bound(v.z as int, c.z as int, 100_000_000_000, 2_000_000_000_000);
        lemma_mul_bound(c.x as int, d as int, 2_000_000_000_000, 600_000_000_000_000_000_000_000);
        lemma_mul_bound(c.y as int, d as int, 2_000_000_000_000, 600_000_000_000_000_000_000_000);
        lemma_mul_bound(c.z as int, d as int, 2_000_000_000_000, 600_000_000_000_000_000_000_000);
    }
    let rx = div_toward_zero((c.x as i128) * d, cc);
    let ry = div_toward_zero((c.y as i128) * d, cc);
    let rz = div_toward_zero((c.z as i128) * d, cc);
    proof {
        lemma_speed_within(project(v@, c@));
    }
    Vec3 { x: rx as i64, y: ry as i64, z: rz as i64 }
}

/// `v` rescaled to `length` (see [`with_length`]).
pub fn rescale(v: &Vec3, length: i64) -> (r: Vec3)
    requires
        is_speed(v@) || within(v@, 1_000_000_000_000_000),
        0 <= length <= ONE,
    ensures
        r@ == with_length(v@, length as int),
        within(r@, length as int),
{
    proof {
        if is_speed(v@) {
            lemma_speed_within(v@);
        }
        lemma_len_sq_nonneg(v@);
        lemma_with_length_within(v@, length as int);
    }
    let n = v.length_squared();
    if n == 0 {
        return Vec3::zero();
    }
    let l = isqrt(n as u128);
    assert(l > 0) by (nonlinear_arith)
        requires
            (n as int) > 0,
            (n as int) < (l as int + 1) * (l as int + 1),
            l >= 0,
    ;
    let ghost s: int = 1_000_000_000_000_000;
    proof {
        lemma_mul_bound(v.x as int, length as int, s, ONE as int);
        lemma_mul_bound(v.y as int, length as int, s, ONE as int);
        lemma_mul_bound(v.z as int, length as int, s, ONE as int);
    }
    let rx = div_toward_zero((v.x as i128) * (length as i128), l as i128);
    let ry = div_toward_zero((v.y as i128) * (length as i128), l as i128);
    let rz = div_toward_zero((v.z as i128) * (length as i128), l as i128);
    Vec3 { x: rx as i64, y: ry as i64, z: rz as i64 }
}

/// `v` as a direction of magnitude [`ONE`] (see [`normalize`]).
pub fn normalize_or_zero(v: &Vec3) -> (r: Vec3)
    requires
        is_speed(v@) || within(v@, 1_000_000_000_000_000),
    ensures
        r@ == normalize(v@),
        is_direction(r@),
{
    rescale(v, ONE)
}

/// Whether two directions are within the similarity cone (see [`similar`]).
pub fn similar_plane(a: &Vec3, b: &Vec3) -> (r: bool)
    requires
        is_direction(a@),
        is_direction(b@),
    ensures
        r == similar(a@, b@),
{
    let ghost o: int = ONE as int;
    proof {
        lemma_components_bound_len(a@, o);
        lemma_components_bound_len(b@, o);
        lemma_len_sq_nonneg(a@);
        lemma_len_sq_nonneg(b@);
        lemma_mul_bound(a.x as int, b.x as int, o, o);
        lemma_mul_bound(a.y as int, b.y as int, o, o);
        lemma_mul_bound(a.z as int, b.z as int, o, o);
    }
    let d = a.dot(b);
    let la = a.length_squared();
    let lb = b.length_squared();
    proof {
        lemma_mul_bound(d as int, d as int, 3 * (o * o), 3 * (o * o));
        lemma_mul_bound(la as int, lb as int, 3 * (o * o), 3 * (o * o));
    }
    d > 0 && 1_000_000 * (d * d) > 998_001 * (la * lb)
}

/// Rounding toward zero leaves a remainder smaller than the divisor.
proof fn lemma_div_trunc_remainder(a: int, d: int)
    requires
        d > 0,
    ensures
        -d < a - div_trunc(a, d) * d < d,
{
    if a >= 0 {
        assert(0 <= a - (a / d) * d < d) by (nonlinear_arith)
            requires
                a >= 0,
                d > 0,
        ;
    } else {
        let b = -a;
        assert(0 <= b - (b / d) * d < d) by (nonlinear_arith)
            requires
                b > 0,
                d > 0,
        ;
        assert(-((b / d)) * d == -((b / d) * d)) by (nonlinear_arith);
    }
}

proof fn lemma_remainder_product(r: int, w: int, e: int, n: int, nn: int)
    requires
        e == w - r * nn,
    ensures
        nn * (r * n) == w * n - e * n,
{
    assert(nn * (r * n) == w * n - e * n) by (nonlinear_arith)
        requires
            e == w - r * nn,
    ;
}

/// `|e * n| <= m * |n|` whenever `|e| < m`.
proof fn lemma_product_abs(e: int, n: int, m: int)
    requires
        -m < e < m,
    ensures
        -(m * abs(n)) <= e * n <= m * abs(n),
{
    assert(-(m * abs(n)) <= e * n <= m * abs(n)) by (nonlinear_arith)
        requires
            -m < e < m,
    ;
}

pub open spec fn abs(a: int) -> int {
    if a >= 0 {
        a
    } else {
        -a
    }
}

/// What rejection leaves along the normal is only rounding: at most the sum
/// of the normal's component magnitudes.
pub proof fn lemma_reject_orthogonal(v: V3, n: V3)
    ensures
        -(abs(n.x) + abs(n.y) + abs(n.z)) <= dot(reject(v, n), n) <= abs(n.x) + abs(n.y) + abs(
            n.z,
        ),
{
    let nn = len_sq(n);
    lemma_len_sq_nonneg(n);
    if nn == 0 {
        assert(n == zero());
    } else {
        let d = dot(v, n);
        let w = v3(v.x * nn - n.x * d, v.y * nn - n.y * d, v.z * nn - n.z * d);
        let r = reject(v, n);
        // The exact rejection is orthogonal to n.
        lemma_dist3(nn, v.x * n.x, v.y * n.y, v.z * n.z);
        lemma_dist3(d, n.x * n.x, n.y * n.y, n.z * n.z);
        assert((v.x * nn - n.x * d) * n.x == nn * (v.x * n.x) - d * (n.x * n.x)) by (nonlinear_arith);
        assert((v.y * nn - n.y * d) * n.y == nn * (v.y * n.y) - d * (n.y * n.y)) by (nonlinear_arith);
        assert((v.z * nn - n.z * d) * n.z == nn * (v.z * n.z) - d * (n.z * n.z)) by (nonlinear_arith);
        assert(dot(w, n) == 0);
        // Each rounded component differs from the exact one by less than nn.
        lemma_div_trunc_remainder(w.x, nn);
        lemma_div_trunc_remainder(w.y, nn);
        lemma_div_trunc_remainder(w.z, nn);
        let ex = w.x - r.x * nn;
        let ey = w.y - r.y * nn;
        let ez = w.z - r.z * nn;
        lemma_product_abs(ex, n.x, nn);
        lemma_product_abs(ey, n.y, nn);
        lemma_product_abs(ez, n.z, nn);
        let (rx, ry, rz, wx, wy, wz) = (r.x, r.y, r.z, w.x, w.y, w.z);
        let (nx, ny, nz) = (n.x, n.y, n.z);
        lemma_remainder_product(rx, wx, ex, nx, nn);
        lemma_remainder_product(ry, wy, ey, ny, nn);
        lemma_remainder_product(rz, wz, ez, nz, nn);
        lemma_dist3(nn, rx * nx, ry * ny, rz * nz);
        assert(dot(r, n) == rx * nx + ry * ny + rz * nz);
        assert(dot(w, n) == wx * nx + wy * ny + wz * nz);
        let s = abs(n.x) + abs(n.y) + abs(n.z);
        assert(nn * abs(n.x) + nn * abs(n.y) + nn * abs(n.z) == s * nn) by (nonlinear_arith)
            requires
                s == abs(n.x) + abs(n.y) + abs(n.z),
        ;
        lemma_cancel(dot(r, n), s, nn);
        assert((-s) * nn == -(s * nn)) by (nonlinear_arith);
        lemma_cancel(-s, dot(r, n), nn);
    }
}

} // verus!
