//! Three-component vectors: the stored fixed-point form and its
//! mathematical model.

use vstd::prelude::*;
use crate::fixed::{
    div_toward_zero, finite, isqrt_ceil, lemma_div_toward_zero_bound,
    lemma_div_toward_zero_shrinks, lemma_sqrt_ceil_exists,
    quot, scaled, sqrt_ceil, LIMIT, ONE,
};

verus! {

/// A stored vector of three fixed-point components.
#[derive(Clone, Copy, Debug, PartialEq, Eq, Structural)]
pub struct Vec3 {
    pub x: i64,
    pub y: i64,
    pub z: i64,
}

/// The mathematical model of a vector: three unbounded integers.
pub struct V3 {
    pub x: int,
    pub y: int,
    pub z: int,
}

impl View for Vec3 {
    type V = V3;

    open spec fn view(&self) -> V3 {
        V3 { x: self.x as int, y: self.y as int, z: self.z as int }
    }
}

impl V3 {
    pub open spec fn zero() -> V3 {
        V3 { x: 0, y: 0, z: 0 }
    }

    pub open spec fn plus(self, o: V3) -> V3 {
        V3 { x: self.x + o.x, y: self.y + o.y, z: self.z + o.z }
    }

    pub open spec fn minus(self, o: V3) -> V3 {
        V3 { x: self.x - o.x, y: self.y - o.y, z: self.z - o.z }
    }

    /// Every component has magnitude at most `b`.
    pub open spec fn within(self, b: int) -> bool {
        &&& -b <= self.x <= b
        &&& -b <= self.y <= b
        &&& -b <= self.z <= b
    }

    /// Every component is a finite fixed-point value.
    pub open spec fn finite(self) -> bool {
        finite(self.x) && finite(self.y) && finite(self.z)
    }

    /// Squared Euclidean length.
    pub open spec fn norm2(self) -> int {
        self.x * self.x + self.y * self.y + self.z * self.z
    }

    /// Squared Euclidean distance to `o`.
    pub open spec fn dist2(self, o: V3) -> int {
        self.minus(o).norm2()
    }

    /// Component-wise product with the integer `k`.
    pub open spec fn times(self, k: int) -> V3 {
        V3 { x: self.x * k, y: self.y * k, z: self.z * k }
    }

    /// Component-wise quotient by `d`, rounded toward zero.
    pub open spec fn over(self, d: int) -> V3 {
        V3 {
            x: div_toward_zero(self.x, d),
            y: div_toward_zero(self.y, d),
            z: div_toward_zero(self.z, d),
        }
    }

    /// Component-wise fixed-point product with the scalar `w`.
    pub open spec fn scaled(self, w: int) -> V3 {
        V3 { x: scaled(self.x, w), y: scaled(self.y, w), z: scaled(self.z, w) }
    }

    /// The vector rescaled to length `len` (never longer, by rounding).
    pub open spec fn resized(self, len: int) -> V3 {
        self.times(len).over(sqrt_ceil(self.norm2()))
    }

    /// The vector itself while no longer than `max`, else rescaled to `max`.
    pub open spec fn clamped(self, max: int) -> V3 {
        if self.norm2() <= max * max {
            self
        } else {
            self.resized(max)
        }
    }
}

/// A stored optional vector `r` holds exactly the optional model vector `m`.
pub open spec fn models(r: Option<Vec3>, m: Option<V3>) -> bool {
    match (r, m) {
        (Some(v), Some(w)) => v@ == w,
        (None, None) => true,
        _ => false,
    }
}

/// A vector with a non-zero component has positive length.
pub proof fn lemma_nonzero_length(v: V3)
    requires
        v != V3::zero(),
    ensures
        v.norm2() > 0,
{
    assert(v.x * v.x >= 0 && v.y * v.y >= 0 && v.z * v.z >= 0) by (nonlinear_arith);
    if v.x != 0 {
        assert(v.x * v.x > 0) by (nonlinear_arith)
            requires
                v.x != 0,
        ;
    } else if v.y != 0 {
        assert(v.y * v.y > 0) by (nonlinear_arith)
            requires
                v.y != 0,
        ;
    } else {
        assert(v.z * v.z > 0) by (nonlinear_arith)
            requires
                v.z != 0,
        ;
    }
}

/// `|c| * s <= |x| * len` squares to `c * c * (s * s) <= x * x * (len * len)`.
proof fn lemma_square_of_bound(c: int, s: int, x: int, len: int)
    requires
        s > 0,
        len >= 0,
        x >= 0 ==> 0 <= c && c * s <= x * len,
        x <= 0 ==> c <= 0 && x * len <= c * s,
    ensures
        c * c * (s * s) <= x * x * (len * len),
{
    if x >= 0 {
        assert(c * c * (s * s) <= x * x * (len * len)) by (nonlinear_arith)
            requires
                0 <= c * s <= x * len,
        {
            assert((c * s) * (c * s) <= (x * len) * (x * len));
            assert((c * s) * (c * s) == c * c * (s * s));
            assert((x * len) * (x * len) == x * x * (len * len));
        }
    } else {
        assert(c * s <= 0) by (nonlinear_arith)
            requires
                c <= 0,
                s > 0,
        ;
        assert(c * c * (s * s) <= x * x * (len * len)) by (nonlinear_arith)
            requires
                x * len <= c * s <= 0,
        {
            assert((c * s) * (c * s) <= (x * len) * (x * len));
            assert((c * s) * (c * s) == c * c * (s * s));
            assert((x * len) * (x * len) == x * x * (len * len));
        }
    }
}

/// A component whose square is at most `m * m` has magnitude at most `m`.
pub proof fn lemma_component_bound(c: int, rest: int, m: int)
    requires
        m >= 0,
        rest >= 0,
        c * c + rest <= m * m,
    ensures
        -m <= c <= m,
{
    if c > m {
        assert(c * c > m * m) by (nonlinear_arith)
            requires
                c > m,
                m >= 0,
        ;
    }
    if c < -m {
        assert(c * c > m * m) by (nonlinear_arith)
            requires
                c < -m,
                m >= 0,
        ;
    }
}

/// A vector no longer than `m` has every component within `m`.
pub proof fn lemma_norm_bounds_components(v: V3, m: int)
    requires
        m >= 0,
        v.norm2() <= m * m,
    ensures
        v.within(m),
{
    assert(v.x * v.x >= 0 && v.y * v.y >= 0 && v.z * v.z >= 0) by (nonlinear_arith);
    lemma_component_bound(v.x, v.y * v.y + v.z * v.z, m);
    lemma_component_bound(v.y, v.x * v.x + v.z * v.z, m);
    lemma_component_bound(v.z, v.x * v.x + v.y * v.y, m);
}

/// Rescaling a non-zero vector to length `len` yields one no longer than `len`.
pub proof fn lemma_resized_length(v: V3, len: int)
    requires
        v.norm2() > 0,
        len >= 0,
    ensures
        v.resized(len).norm2() <= len * len,
        v.resized(len).within(len),
{
    let n = v.norm2();
    let s = sqrt_ceil(n);
    lemma_sqrt_ceil_exists(n);
    assert(s > 0) by (nonlinear_arith)
        requires
            s * s >= n,
            n > 0,
            s >= 0,
    ;
    let r = v.resized(len);
    lemma_div_toward_zero_bound(v.x * len, s);
    lemma_div_toward_zero_bound(v.y * len, s);
    lemma_div_toward_zero_bound(v.z * len, s);
    assert(forall|x: int| x >= 0 ==> #[trigger] (x * len) >= 0) by (nonlinear_arith)
        requires
            len >= 0,
    ;
    assert(forall|x: int| x <= 0 ==> #[trigger] (x * len) <= 0) by (nonlinear_arith)
        requires
            len >= 0,
    ;
    lemma_square_of_bound(r.x, s, v.x, len);
    lemma_square_of_bound(r.y, s, v.y, len);
    lemma_square_of_bound(r.z, s, v.z, len);
    let ss = s * s;
    let ll = len * len;
    assert(r.norm2() * ss <= n * ll) by (nonlinear_arith)
        requires
            r.x * r.x * ss <= v.x * v.x * ll,
            r.y * r.y * ss <= v.y * v.y * ll,
            r.z * r.z * ss <= v.z * v.z * ll,
            r.norm2() == r.x * r.x + r.y * r.y + r.z * r.z,
            n == v.x * v.x + v.y * v.y + v.z * v.z,
    ;
    assert(r.norm2() <= ll) by (nonlinear_arith)
        requires
            r.norm2() * ss <= n * ll,
            n <= ss,
            ss > 0,
            ll >= 0,
    ;
    lemma_norm_bounds_components(r, len);
}

/// Clamping to a non-negative `max` yields a vector no longer than `max`.
pub proof fn lemma_clamped_length(v: V3, max: int)
    requires
        max >= 0,
    ensures
        v.clamped(max).norm2() <= max * max,
        v.clamped(max).within(max),
{
    if v.norm2() <= max * max {
        lemma_norm_bounds_components(v, max);
    } else {
        assert(max * max >= 0) by (nonlinear_arith);
        lemma_resized_length(v, max);
    }
}

impl Vec3 {
    pub fn new(x: i64, y: i64, z: i64) -> (v: Vec3)
        ensures
            v == (Vec3 { x, y, z }),
    {
        Vec3 { x, y, z }
    }

    pub fn zero() -> (v: Vec3)
        ensures
            v@ == V3::zero(),
    {
        Vec3 { x: 0, y: 0, z: 0 }
    }

    /// Whether every component is a finite fixed-point value.
    pub fn is_finite(&self) -> (b: bool)
        ensures
            b == self@.finite(),
    {
        -LIMIT <= self.x && self.x <= LIMIT && -LIMIT <= self.y && self.y <= LIMIT && -LIMIT
            <= self.z && self.z <= LIMIT
    }
}

/// A vector of wide components, for intermediate results.
#[derive(Clone, Copy)]
pub struct Wide {
    pub x: i128,
    pub y: i128,
    pub z: i128,
}

impl View for Wide {
    type V = V3;

    open spec fn view(&self) -> V3 {
        V3 { x: self.x as int, y: self.y as int, z: self.z as int }
    }
}

impl Wide {
    pub fn zero() -> (w: Wide)
        ensures
            w@ == V3::zero(),
    {
        Wide { x: 0, y: 0, z: 0 }
    }

    pub fn of(v: Vec3) -> (w: Wide)
        ensures
            w@ == v@,
    {
        Wide { x: v.x as i128, y: v.y as i128, z: v.z as i128 }
    }

    /// The difference `a - b`.
    pub fn between(a: Vec3, b: Vec3) -> (w: Wide)
        ensures
            w@ == a@.minus(b@),
    {
        Wide { x: a.x as i128 - b.x as i128, y: a.y as i128 - b.y as i128, z: a.z as i128 - b.z as i128 }
    }

    /// The stored form of a finite vector, `None` for any other.
    pub fn narrow(self) -> (r: Option<Vec3>)
        ensures
            self@.finite() ==> r.is_some() && r.unwrap()@ == self@,
            !self@.finite() ==> r.is_none(),
    {
        let top: i128 = LIMIT as i128;
        if -top <= self.x && self.x <= top && -top <= self.y && self.y <= top && -top <= self.z
            && self.z <= top {
            Some(Vec3 { x: self.x as i64, y: self.y as i64, z: self.z as i64 })
        } else {
            None
        }
    }

    /// Squared Euclidean length.
    pub fn norm2(self) -> (n: i128)
        requires
            self@.within(4 * LIMIT),
        ensures
            n == self@.norm2(),
            0 <= n <= 48_000_000_000_000_000_000_000_000,
    {
        proof {
            lemma_square_range(self.x as int, 4_000_000_000_000);
            lemma_square_range(self.y as int, 4_000_000_000_000);
            lemma_square_range(self.z as int, 4_000_000_000_000);
        }
        self.x * self.x + self.y * self.y + self.z * self.z
    }

    /// Component-wise fixed-point product with `w`.
    pub fn scaled(self, w: i64) -> (r: Wide)
        requires
            self@.within(4 * LIMIT),
            finite(w as int),
        ensures
            r@ == self@.scaled(w as int),
            r@.within(4_000_000_000_000_000_000_000_000),
    {
        proof {
            lemma_product_range(self.x as int, w as int, 4_000_000_000_000, 1_000_000_000_000);
            lemma_product_range(self.y as int, w as int, 4_000_000_000_000, 1_000_000_000_000);
            lemma_product_range(self.z as int, w as int, 4_000_000_000_000, 1_000_000_000_000);
            lemma_div_toward_zero_shrinks(self.x * w, 1000, 4_000_000_000_000_000_000_000_000);
            lemma_div_toward_zero_shrinks(self.y * w, 1000, 4_000_000_000_000_000_000_000_000);
            lemma_div_toward_zero_shrinks(self.z * w, 1000, 4_000_000_000_000_000_000_000_000);
        }
        Wide {
            x: quot(self.x * (w as i128), ONE as i128),
            y: quot(self.y * (w as i128), ONE as i128),
            z: quot(self.z * (w as i128), ONE as i128),
        }
    }

    /// The vector rescaled to length `len`.
    pub fn resized(self, len: i64) -> (r: Vec3)
        requires
            self@.within(4 * LIMIT),
            self@.norm2() > 0,
            0 <= len <= LIMIT,
        ensures
            r@ == self@.resized(len as int),
            r@.norm2() <= len * len,
            r@.within(len as int),
    {
        let n: i128 = self.norm2();
        let s: i128 = isqrt_ceil(n);
        proof {
            lemma_resized_length(self@, len as int);
            lemma_product_range(self.x as int, len as int, 4_000_000_000_000, 1_000_000_000_000);
            lemma_product_range(self.y as int, len as int, 4_000_000_000_000, 1_000_000_000_000);
            lemma_product_range(self.z as int, len as int, 4_000_000_000_000, 1_000_000_000_000);
            assert(s > 0) by (nonlinear_arith)
                requires
                    s * s >= n,
                    n > 0,
                    s >= 0,
            ;
        }
        let x: i128 = quot(self.x * (len as i128), s);
        let y: i128 = quot(self.y * (len as i128), s);
        let z: i128 = quot(self.z * (len as i128), s);
        Vec3 { x: x as i64, y: y as i64, z: z as i64 }
    }

    /// The vector itself while no longer than `max`, else rescaled to `max`.
    pub fn clamped(self, max: i64) -> (r: Vec3)
        requires
            self@.within(4 * LIMIT),
            0 <= max <= LIMIT,
        ensures
            r@ == self@.clamped(max as int),
            r@.norm2() <= max * max,
            r@.within(max as int),
    {
        let n: i128 = self.norm2();
        let cap: i128 = max as i128;
        proof {
            lemma_clamped_length(self@, max as int);
            lemma_square_range(max as int, 1_000_000_000_000);
        }
        if n <= cap * cap {
            Vec3 { x: self.x as i64, y: self.y as i64, z: self.z as i64 }
        } else {
            self.resized(max)
        }
    }
}

/// The square of a value of magnitude at most `b` lies in `[0, b * b]`.
pub proof fn lemma_square_range(x: int, b: int)
    requires
        -b <= x <= b,
    ensures
        0 <= x * x <= b * b,
{
    assert(0 <= x * x <= b * b) by (nonlinear_arith)
        requires
            -b <= x <= b,
    ;
}

/// The product of values of magnitudes at most `a` and `b` has magnitude at most `a * b`.
pub proof fn lemma_product_range(x: int, y: int, a: int, b: int)
    requires
        -a <= x <= a,
        -b <= y <= b,
    ensures
        -(a * b) <= x * y <= a * b,
{
    assert(-(a * b) <= x * y <= a * b) by (nonlinear_arith)
        requires
            -a <= x <= a,
            -b <= y <= b,
    ;
}

} // verus!
