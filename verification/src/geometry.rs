//! Generic scalar abstraction and fixed-arity vector types.
//!
//! The scalar abstraction mirrors a numeric type with arithmetic, square
//! root and multiplicative inverse; it is instantiated here for `i32`.

use vstd::prelude::*;

verus! {

/// Integer square root, `floor(sqrt(n))` for `n >= 0` and `0` below.
pub open spec fn isqrt(n: int) -> int
    decreases n,
{
    if n <= 0 {
        0
    } else if (isqrt(n - 1) + 1) * (isqrt(n - 1) + 1) <= n {
        isqrt(n - 1) + 1
    } else {
        isqrt(n - 1)
    }
}

/// `isqrt(n)` is the unique `r >= 0` with `r * r <= n < (r + 1) * (r + 1)`.
pub proof fn lemma_isqrt_bounds(n: int)
    requires
        n >= 0,
    ensures
        0 <= isqrt(n),
        isqrt(n) * isqrt(n) <= n,
        n < (isqrt(n) + 1) * (isqrt(n) + 1),
    decreases n,
{
    if n == 0 {
    } else {
        lemma_isqrt_bounds(n - 1);
        let r = isqrt(n - 1);
        if (r + 1) * (r + 1) <= n {
            assert(isqrt(n) == r + 1);
            assert(n <= (r + 1) * (r + 1)) by {
                assert(n - 1 < (r + 1) * (r + 1));
            };
            assert(n < (r + 2) * (r + 2)) by (nonlinear_arith)
                requires
                    r >= 0,
                    n <= (r + 1) * (r + 1),
            ;
            assert((isqrt(n) + 1) * (isqrt(n) + 1) == (r + 2) * (r + 2));
        } else {
            assert(isqrt(n) == r);
            assert(n < (r + 1) * (r + 1));
        }
    }
}

/// Any `r >= 0` with `r * r <= n < (r + 1) * (r + 1)` equals `isqrt(n)`.
pub proof fn lemma_isqrt_unique(n: int, r: int)
    requires
        n >= 0,
        r >= 0,
        r * r <= n,
        n < (r + 1) * (r + 1),
    ensures
        r == isqrt(n),
{
    lemma_isqrt_bounds(n);
    let s = isqrt(n);
    assert(r == s) by (nonlinear_arith)
        requires
            r >= 0,
            s >= 0,
            r * r <= n,
            n < (r + 1) * (r + 1),
            s * s <= n,
            n < (s + 1) * (s + 1),
    ;
}

/// A scalar kind that offers a square root in its own domain.
pub trait Sqrt: Sized {
    /// Inputs on which the square root is defined.
    spec fn sqrt_ok(self) -> bool;

    /// The value `sqrti` returns.
    spec fn spec_sqrti(self) -> Self;

    fn sqrti(&self) -> (r: Self)
        requires
            self.sqrt_ok(),
        ensures
            r == self.spec_sqrti(),
    ;
}

/// A scalar kind that offers a multiplicative inverse in its own domain.
pub trait Invert: Sized {
    /// Inputs on which the inverse is defined.
    spec fn invert_ok(self) -> bool;

    /// The value `invert` returns.
    spec fn spec_invert(self) -> Self;

    fn invert(&self) -> (r: Self)
        requires
            self.invert_ok(),
        ensures
            r == self.spec_invert(),
    ;
}

impl Sqrt for i32 {
    /// The integer square root is defined for non-negative inputs.
    open spec fn sqrt_ok(self) -> bool {
        self >= 0
    }

    /// Floor of the real square root.
    open spec fn spec_sqrti(self) -> i32 {
        isqrt(self as int) as i32
    }

    fn sqrti(&self) -> (r: i32) {
        let x = *self;
        let mut r: i64 = 0;
        loop
            invariant
                0 <= r <= 0x10000,
                r * r <= x as int,
                x >= 0,
            ensures
                0 <= r,
                r * r <= x as int,
                (x as int) < (r + 1) * (r + 1),
            decreases 0x10001 - r,
        {
            let s: i64 = r + 1;
            proof {
                assert(s * s <= 0x10001 * 0x10001) by (nonlinear_arith)
                    requires
                        0 <= s <= 0x10001,
                ;
            }
            let sq: i64 = s * s;
            if sq > x as i64 {
                break ;
            }
            proof {
                assert(s <= 0x10000) by (nonlinear_arith)
                    requires
                        0 <= s,
                        s * s <= x as int,
                        x <= 0x7fff_ffff,
                ;
            }
            r = s;
        }
        proof {
            lemma_isqrt_unique(x as int, r as int);
        }
        r as i32
    }
}

impl Invert for i32 {
    /// The integer inverse is the quotient `1 / self`, undefined at zero.
    open spec fn invert_ok(self) -> bool {
        self != 0
    }

    /// Quotient of `1` by `self`, rounded toward zero: `1`, `-1`, or `0`.
    open spec fn spec_invert(self) -> i32 {
        if self >= 0 {
            (1int / (self as int)) as i32
        } else {
            (-(1int / (-(self as int)))) as i32
        }
    }

    fn invert(&self) -> (r: i32) {
        let v = *self;
        proof {
            if v > 1 {
                vstd::arithmetic::div_mod::lemma_basic_div(1, v as int);
            } else if v < -1 {
                vstd::arithmetic::div_mod::lemma_basic_div(1, -(v as int));
            } else {
                vstd::arithmetic::div_mod::lemma_div_by_self(1);
            }
        }
        if v == 1 {
            1
        } else if v == -1 {
            -1
        } else {
            0
        }
    }
}

/// Division rounded toward zero, as the machine division behaves;
/// every quotient taken here has a non-negative dividend and a
/// positive divisor, where rounding toward zero and down agree.
pub open spec fn div_trunc(a: int, b: int) -> int {
    if a >= 0 {
        if b >= 0 {
            a / b
        } else {
            -(a / (-b))
        }
    } else {
        if b >= 0 {
            -((-a) / b)
        } else {
            (-a) / (-b)
        }
    }
}

/// A numeric kind with total arithmetic wherever the `*_ok` predicates
/// hold, a square root, and a multiplicative inverse.
pub trait Scalar: Sqrt + Invert + Sized + Copy {
    /// Inputs whose sum stays in the kind's range.
    spec fn add_ok(self, o: Self) -> bool;

    /// The value `add` returns.
    spec fn add_spec(self, o: Self) -> Self;

    /// Inputs whose difference stays in the kind's range.
    spec fn sub_ok(self, o: Self) -> bool;

    /// The value `sub` returns.
    spec fn sub_spec(self, o: Self) -> Self;

    /// Inputs whose product stays in the kind's range.
    spec fn mul_ok(self, o: Self) -> bool;

    /// The value `mul` returns.
    spec fn mul_spec(self, o: Self) -> Self;

    /// Inputs whose quotient is defined and stays in the kind's range.
    spec fn div_ok(self, o: Self) -> bool;

    /// The value `div` returns.
    spec fn div_spec(self, o: Self) -> Self;

    /// Inputs whose negation stays in the kind's range.
    spec fn neg_ok(self) -> bool;

    /// The value `neg` returns.
    spec fn neg_spec(self) -> Self;

    /// The kind's zero, the default value of every component.
    spec fn zero_spec() -> Self;

    fn add(self, o: Self) -> (r: Self)
        requires
            self.add_ok(o),
        ensures
            r == self.add_spec(o),
    ;

    fn sub(self, o: Self) -> (r: Self)
        requires
            self.sub_ok(o),
        ensures
            r == self.sub_spec(o),
    ;

    fn mul(self, o: Self) -> (r: Self)
        requires
            self.mul_ok(o),
        ensures
            r == self.mul_spec(o),
    ;

    fn div(self, o: Self) -> (r: Self)
        requires
            self.div_ok(o),
        ensures
            r == self.div_spec(o),
    ;

    fn neg(self) -> (r: Self)
        requires
            self.neg_ok(),
        ensures
            r == self.neg_spec(),
    ;

    fn zero() -> (r: Self)
        ensures
            r == Self::zero_spec(),
    ;
}

impl Scalar for i32 {
    open spec fn add_ok(self, o: i32) -> bool {
        i32::MIN <= self + o <= i32::MAX
    }

    open spec fn add_spec(self, o: i32) -> i32 {
        (self + o) as i32
    }

    open spec fn sub_ok(self, o: i32) -> bool {
        i32::MIN <= self - o <= i32::MAX
    }

    open spec fn sub_spec(self, o: i32) -> i32 {
        (self - o) as i32
    }

    open spec fn mul_ok(self, o: i32) -> bool {
        i32::MIN <= self * o <= i32::MAX
    }

    open spec fn mul_spec(self, o: i32) -> i32 {
        (self * o) as i32
    }

    open spec fn div_ok(self, o: i32) -> bool {
        o != 0 && !(self == i32::MIN && o == -1)
    }

    open spec fn div_spec(self, o: i32) -> i32 {
        div_trunc(self as int, o as int) as i32
    }

    open spec fn neg_ok(self) -> bool {
        self != i32::MIN
    }

    open spec fn neg_spec(self) -> i32 {
        (-self) as i32
    }

    open spec fn zero_spec() -> i32 {
        0
    }

    fn add(self, o: i32) -> (r: i32) {
        self + o
    }

    fn sub(self, o: i32) -> (r: i32) {
        self - o
    }

    fn mul(self, o: i32) -> (r: i32) {
        self * o
    }

    fn div(self, o: i32) -> (r: i32) {
        let a64 = self as i64;
        let b64 = o as i64;
        let ua: u64 = if a64 < 0 {
            (-a64) as u64
        } else {
            a64 as u64
        };
        let ub: u64 = if b64 < 0 {
            (-b64) as u64
        } else {
            b64 as u64
        };
        let uq: u64 = ua / ub;
        proof {
            vstd::arithmetic::div_mod::lemma_div_nonincreasing(ua as int, ub as int);
            vstd::arithmetic::div_mod::lemma_div_pos_is_pos(ua as int, ub as int);
        }
        if (self < 0) != (o < 0) {
            (-(uq as i64)) as i32
        } else {
            uq as i32
        }
    }

    fn neg(self) -> (r: i32) {
        -self
    }

    fn zero() -> (r: i32) {
        0
    }
}

/// A two-component vector of scalars; the slots double as pixel
/// coordinates `x`/`y` and texture coordinates `u`/`v`.
#[derive(Clone, Copy, Debug)]
pub struct Vec2<S: Scalar>(pub [S; 2]);

impl<S: Scalar> Vec2<S> {
    pub fn new(x: S, y: S) -> (r: Self)
        ensures
            r.0[0] == x,
            r.0[1] == y,
    {
        Vec2([x, y])
    }

    pub fn x(&self) -> (r: S)
        ensures
            r == self.0[0],
    {
        self.0[0]
    }

    pub fn y(&self) -> (r: S)
        ensures
            r == self.0[1],
    {
        self.0[1]
    }

    pub fn u(&self) -> (r: S)
        ensures
            r == self.0[0],
    {
        self.0[0]
    }

    pub fn v(&self) -> (r: S)
        ensures
            r == self.0[1],
    {
        self.0[1]
    }

    /// Whether the sum of squared components stays in range.
    pub open spec fn squared_length_ok(self) -> bool {
        &&& self.0[0].mul_ok(self.0[0])
        &&& self.0[1].mul_ok(self.0[1])
        &&& self.0[0].mul_spec(self.0[0]).add_ok(self.0[1].mul_spec(self.0[1]))
    }

    /// The sum of squared components.
    pub open spec fn squared_length_spec(self) -> S {
        self.0[0].mul_spec(self.0[0]).add_spec(self.0[1].mul_spec(self.0[1]))
    }

    pub fn squared_length(&self) -> (r: S)
        requires
            self.squared_length_ok(),
        ensures
            r == self.squared_length_spec(),
    {
        self.0[0].mul(self.0[0]).add(self.0[1].mul(self.0[1]))
    }

    /// Square root of the sum of squared components.
    pub fn length(&self) -> (r: S)
        requires
            self.squared_length_ok(),
            self.squared_length_spec().sqrt_ok(),
        ensures
            r == self.squared_length_spec().spec_sqrti(),
    {
        self.0[0].mul(self.0[0]).add(self.0[1].mul(self.0[1])).sqrti()
    }

    /// Whether the pairwise products and their sum stay in range.
    pub open spec fn dot_ok(self, o: Self) -> bool {
        &&& self.0[0].mul_ok(o.0[0])
        &&& self.0[1].mul_ok(o.0[1])
        &&& self.0[0].mul_spec(o.0[0]).add_ok(self.0[1].mul_spec(o.0[1]))
    }

    /// The inner product of the two vectors.
    pub open spec fn dot_spec(self, o: Self) -> S {
        self.0[0].mul_spec(o.0[0]).add_spec(self.0[1].mul_spec(o.0[1]))
    }

    pub fn dot(&self, other: Self) -> (r: S)
        requires
            self.dot_ok(other),
        ensures
            r == self.dot_spec(other),
    {
        self.0[0].mul(other.0[0]).add(self.0[1].mul(other.0[1]))
    }

    /// Whether each componentwise sum stays in range.
    pub open spec fn add2_ok(self, o: Self) -> bool {
        self.0[0].add_ok(o.0[0]) && self.0[1].add_ok(o.0[1])
    }

    pub fn add(self, other: Self) -> (r: Self)
        requires
            self.add2_ok(other),
        ensures
            r.0[0] == self.0[0].add_spec(other.0[0]),
            r.0[1] == self.0[1].add_spec(other.0[1]),
    {
        Vec2([self.0[0].add(other.0[0]), self.0[1].add(other.0[1])])
    }

    pub fn add_assign(&mut self, other: Self)
        requires
            old(self).add2_ok(other),
        ensures
            final(self).0[0] == old(self).0[0].add_spec(other.0[0]),
            final(self).0[1] == old(self).0[1].add_spec(other.0[1]),
    {
        let r = self.add(other);
        *self = r;
    }

    /// Whether each componentwise difference stays in range.
    pub open spec fn sub2_ok(self, o: Self) -> bool {
        self.0[0].sub_ok(o.0[0]) && self.0[1].sub_ok(o.0[1])
    }

    pub fn sub(self, other: Self) -> (r: Self)
        requires
            self.sub2_ok(other),
        ensures
            r.0[0] == self.0[0].sub_spec(other.0[0]),
            r.0[1] == self.0[1].sub_spec(other.0[1]),
    {
        Vec2([self.0[0].sub(other.0[0]), self.0[1].sub(other.0[1])])
    }

    pub fn sub_assign(&mut self, other: Self)
        requires
            old(self).sub2_ok(other),
        ensures
            final(self).0[0] == old(self).0[0].sub_spec(other.0[0]),
            final(self).0[1] == old(self).0[1].sub_spec(other.0[1]),
    {
        let r = self.sub(other);
        *self = r;
    }

    /// Whether each componentwise (Hadamard) product stays in range.
    pub open spec fn mul2_ok(self, o: Self) -> bool {
        self.0[0].mul_ok(o.0[0]) && self.0[1].mul_ok(o.0[1])
    }

    /// Componentwise (Hadamard) product, not a geometric product.
    pub fn mul(self, other: Self) -> (r: Self)
        requires
            self.mul2_ok(other),
        ensures
            r.0[0] == self.0[0].mul_spec(other.0[0]),
            r.0[1] == self.0[1].mul_spec(other.0[1]),
    {
        Vec2([self.0[0].mul(other.0[0]), self.0[1].mul(other.0[1])])
    }

    pub fn mul_assign(&mut self, other: Self)
        requires
            old(self).mul2_ok(other),
        ensures
            final(self).0[0] == old(self).0[0].mul_spec(other.0[0]),
            final(self).0[1] == old(self).0[1].mul_spec(other.0[1]),
    {
        let r = self.mul(other);
        *self = r;
    }

    /// Whether both products with the scalar stay in range.
    pub open spec fn scale2_ok(self, k: S) -> bool {
        self.0[0].mul_ok(k) && self.0[1].mul_ok(k)
    }

    /// Product with a scalar, applied to every component.
    pub fn mul_scalar(self, k: S) -> (r: Self)
        requires
            self.scale2_ok(k),
        ensures
            r.0[0] == self.0[0].mul_spec(k),
            r.0[1] == self.0[1].mul_spec(k),
    {
        Vec2([self.0[0].mul(k), self.0[1].mul(k)])
    }

    pub fn mul_assign_scalar(&mut self, k: S)
        requires
            old(self).scale2_ok(k),
        ensures
            final(self).0[0] == old(self).0[0].mul_spec(k),
            final(self).0[1] == old(self).0[1].mul_spec(k),
    {
        let r = self.mul_scalar(k);
        *self = r;
    }

    /// Whether each componentwise quotient is defined.
    pub open spec fn div2_ok(self, o: Self) -> bool {
        self.0[0].div_ok(o.0[0]) && self.0[1].div_ok(o.0[1])
    }

    /// Componentwise quotient.
    pub fn div(self, other: Self) -> (r: Self)
        requires
            self.div2_ok(other),
        ensures
            r.0[0] == self.0[0].div_spec(other.0[0]),
            r.0[1] == self.0[1].div_spec(other.0[1]),
    {
        Vec2([self.0[0].div(other.0[0]), self.0[1].div(other.0[1])])
    }

    pub fn div_assign(&mut self, other: Self)
        requires
            old(self).div2_ok(other),
        ensures
            final(self).0[0] == old(self).0[0].div_spec(other.0[0]),
            final(self).0[1] == old(self).0[1].div_spec(other.0[1]),
    {
        let r = self.div(other);
        *self = r;
    }

    /// Whether both quotients by the scalar are defined.
    pub open spec fn div_scale2_ok(self, k: S) -> bool {
        self.0[0].div_ok(k) && self.0[1].div_ok(k)
    }

    /// Quotient by a scalar, applied to every component.
    pub fn div_scalar(self, k: S) -> (r: Self)
        requires
            self.div_scale2_ok(k),
        ensures
            r.0[0] == self.0[0].div_spec(k),
            r.0[1] == self.0[1].div_spec(k),
    {
        Vec2([self.0[0].div(k), self.0[1].div(k)])
    }

    pub fn div_assign_scalar(&mut self, k: S)
        requires
            old(self).div_scale2_ok(k),
        ensures
            final(self).0[0] == old(self).0[0].div_spec(k),
            final(self).0[1] == old(self).0[1].div_spec(k),
    {
        let r = self.div_scalar(k);
        *self = r;
    }

    pub fn neg(self) -> (r: Self)
        requires
            self.0[0].neg_ok(),
            self.0[1].neg_ok(),
        ensures
            r.0[0] == self.0[0].neg_spec(),
            r.0[1] == self.0[1].neg_spec(),
    {
        Vec2([self.0[0].neg(), self.0[1].neg()])
    }

    /// Positional component access; the index must be within the arity.
    pub fn index(&self, idx: usize) -> (r: S)
        requires
            idx < 2,
        ensures
            r == self.0[idx as int],
    {
        self.0[idx]
    }

    /// Positional component update; the index must be within the arity.
    pub fn set_index(&mut self, idx: usize, value: S)
        requires
            idx < 2,
        ensures
            final(self).0@ == old(self).0@.update(idx as int, value),
    {
        self.0[idx] = value;
    }
}

/// A three-component vector of scalars; the slots double as vertex,
/// texture and normal indices of a face record.
#[derive(Clone, Copy, Debug)]
pub struct Vec3<S: Scalar>(pub [S; 3]);

impl<S: Scalar> Vec3<S> {
    pub fn new(x: S, y: S, z: S) -> (r: Self)
        ensures
            r.0[0] == x,
            r.0[1] == y,
            r.0[2] == z,
    {
        Vec3([x, y, z])
    }

    pub fn x(&self) -> (r: S)
        ensures
            r == self.0[0],
    {
        self.0[0]
    }

    pub fn y(&self) -> (r: S)
        ensures
            r == self.0[1],
    {
        self.0[1]
    }

    pub fn z(&self) -> (r: S)
        ensures
            r == self.0[2],
    {
        self.0[2]
    }

    pub fn ivert(&self) -> (r: S)
        ensures
            r == self.0[0],
    {
        self.0[0]
    }

    pub fn iuv(&self) -> (r: S)
        ensures
            r == self.0[1],
    {
        self.0[1]
    }

    pub fn inorm(&self) -> (r: S)
        ensures
            r == self.0[2],
    {
        self.0[2]
    }

    /// Whether the sum of squared components stays in range.
    pub open spec fn squared_length_ok(self) -> bool {
        &&& self.0[0].mul_ok(self.0[0])
        &&& self.0[1].mul_ok(self.0[1])
        &&& self.0[2].mul_ok(self.0[2])
        &&& self.0[0].mul_spec(self.0[0]).add_ok(self.0[1].mul_spec(self.0[1]))
        &&& self.0[0].mul_spec(self.0[0]).add_spec(self.0[1].mul_spec(self.0[1])).add_ok(
            self.0[2].mul_spec(self.0[2]),
        )
    }

    /// The sum of squared components.
    pub open spec fn squared_length_spec(self) -> S {
        self.0[0].mul_spec(self.0[0]).add_spec(self.0[1].mul_spec(self.0[1])).add_spec(
            self.0[2].mul_spec(self.0[2]),
        )
    }

    pub fn squared_length(&self) -> (r: S)
        requires
            self.squared_length_ok(),
        ensures
            r == self.squared_length_spec(),
    {
        self.0[0].mul(self.0[0]).add(self.0[1].mul(self.0[1])).add(self.0[2].mul(self.0[2]))
    }

    /// Square root of the sum of squared components.
    pub fn length(&self) -> (r: S)
        requires
            self.squared_length_ok(),
            self.squared_length_spec().sqrt_ok(),
        ensures
            r == self.squared_length_spec().spec_sqrti(),
    {
        self.0[0].mul(self.0[0]).add(self.0[1].mul(self.0[1])).add(
            self.0[2].mul(self.0[2]),
        ).sqrti()
    }

    /// The inverse of the length, the factor `normalize` applies.
    pub open spec fn normalize_factor(self) -> S {
        self.squared_length_spec().spec_sqrti().spec_invert()
    }

    /// Whether the length, its inverse, and the three scaled components
    /// are all defined and in range.
    pub open spec fn normalize_ok(self) -> bool {
        &&& self.squared_length_ok()
        &&& self.squared_length_spec().sqrt_ok()
        &&& self.squared_length_spec().spec_sqrti().invert_ok()
        &&& self.0[0].mul_ok(self.normalize_factor())
        &&& self.0[1].mul_ok(self.normalize_factor())
        &&& self.0[2].mul_ok(self.normalize_factor())
    }

    /// Scales every component by the inverse of the length, in place.
    /// On a zero-length vector the inverse is not defined; that case is
    /// excluded, as the scalar kind's inverse-of-zero semantics dictate.
    pub fn normalize(&mut self)
        requires
            old(self).normalize_ok(),
        ensures
            final(self).0[0] == old(self).0[0].mul_spec(old(self).normalize_factor()),
            final(self).0[1] == old(self).0[1].mul_spec(old(self).normalize_factor()),
            final(self).0[2] == old(self).0[2].mul_spec(old(self).normalize_factor()),
    {
        let k = self.length().invert();
        self.0[0] = self.0[0].mul(k);
        self.0[1] = self.0[1].mul(k);
        self.0[2] = self.0[2].mul(k);
    }

    /// Whether the length is defined, non-zero, and each quotient by it
    /// is defined.
    pub open spec fn normalized_ok(self) -> bool {
        &&& self.squared_length_ok()
        &&& self.squared_length_spec().sqrt_ok()
        &&& self.0[0].div_ok(self.squared_length_spec().spec_sqrti())
        &&& self.0[1].div_ok(self.squared_length_spec().spec_sqrti())
        &&& self.0[2].div_ok(self.squared_length_spec().spec_sqrti())
    }

    /// A new vector with every component divided by the length.
    pub fn normalized(&self) -> (r: Self)
        requires
            self.normalized_ok(),
        ensures
            r.0[0] == self.0[0].div_spec(self.squared_length_spec().spec_sqrti()),
            r.0[1] == self.0[1].div_spec(self.squared_length_spec().spec_sqrti()),
            r.0[2] == self.0[2].div_spec(self.squared_length_spec().spec_sqrti()),
    {
        let l = self.length();
        self.div_scalar(l)
    }

    /// Whether the pairwise products and their sums stay in range.
    pub open spec fn dot_ok(self, o: Self) -> bool {
        &&& self.0[0].mul_ok(o.0[0])
        &&& self.0[1].mul_ok(o.0[1])
        &&& self.0[2].mul_ok(o.0[2])
        &&& self.0[0].mul_spec(o.0[0]).add_ok(self.0[1].mul_spec(o.0[1]))
        &&& self.0[0].mul_spec(o.0[0]).add_spec(self.0[1].mul_spec(o.0[1])).add_ok(
            self.0[2].mul_spec(o.0[2]),
        )
    }

    /// The inner product of the two vectors.
    pub open spec fn dot_spec(self, o: Self) -> S {
        self.0[0].mul_spec(o.0[0]).add_spec(self.0[1].mul_spec(o.0[1])).add_spec(
            self.0[2].mul_spec(o.0[2]),
        )
    }

    pub fn dot(&self, other: Self) -> (r: S)
        requires
            self.dot_ok(other),
        ensures
            r == self.dot_spec(other),
    {
        self.0[0].mul(other.0[0]).add(self.0[1].mul(other.0[1])).add(
            self.0[2].mul(other.0[2]),
        )
    }

    /// Whether the six products and three differences of the cross
    /// product stay in range.
    pub open spec fn cross_ok(self, o: Self) -> bool {
        &&& self.0[1].mul_ok(o.0[2])
        &&& self.0[2].mul_ok(o.0[1])
        &&& self.0[2].mul_ok(o.0[0])
        &&& self.0[0].mul_ok(o.0[2])
        &&& self.0[0].mul_ok(o.0[1])
        &&& self.0[1].mul_ok(o.0[0])
        &&& self.0[1].mul_spec(o.0[2]).sub_ok(self.0[2].mul_spec(o.0[1]))
        &&& self.0[2].mul_spec(o.0[0]).sub_ok(self.0[0].mul_spec(o.0[2]))
        &&& self.0[0].mul_spec(o.0[1]).sub_ok(self.0[1].mul_spec(o.0[0]))
    }

    /// The standard cross product: anti-commutative, zero for parallel
    /// inputs, orthogonal to both inputs.
    pub fn cross(&self, other: Self) -> (r: Self)
        requires
            self.cross_ok(other),
        ensures
            r.0[0] == self.0[1].mul_spec(other.0[2]).sub_spec(self.0[2].mul_spec(other.0[1])),
            r.0[1] == self.0[2].mul_spec(other.0[0]).sub_spec(self.0[0].mul_spec(other.0[2])),
            r.0[2] == self.0[0].mul_spec(other.0[1]).sub_spec(self.0[1].mul_spec(other.0[0])),
    {
        Vec3([
            self.0[1].mul(other.0[2]).sub(self.0[2].mul(other.0[1])),
            self.0[2].mul(other.0[0]).sub(self.0[0].mul(other.0[2])),
            self.0[0].mul(other.0[1]).sub(self.0[1].mul(other.0[0])),
        ])
    }

    /// Whether each componentwise sum stays in range.
    pub open spec fn add3_ok(self, o: Self) -> bool {
        self.0[0].add_ok(o.0[0]) && self.0[1].add_ok(o.0[1]) && self.0[2].add_ok(o.0[2])
    }

    pub fn add(self, other: Self) -> (r: Self)
        requires
            self.add3_ok(other),
        ensures
            r.0[0] == self.0[0].add_spec(other.0[0]),
            r.0[1] == self.0[1].add_spec(other.0[1]),
            r.0[2] == self.0[2].add_spec(other.0[2]),
    {
        Vec3([self.0[0].add(other.0[0]), self.0[1].add(other.0[1]), self.0[2].add(other.0[2])])
    }

    pub fn add_assign(&mut self, other: Self)
        requires
            old(self).add3_ok(other),
        ensures
            final(self).0[0] == old(self).0[0].add_spec(other.0[0]),
            final(self).0[1] == old(self).0[1].add_spec(other.0[1]),
            final(self).0[2] == old(self).0[2].add_spec(other.0[2]),
    {
        let r = self.add(other);
        *self = r;
    }

    /// Whether each componentwise difference stays in range.
    pub open spec fn sub3_ok(self, o: Self) -> bool {
        self.0[0].sub_ok(o.0[0]) && self.0[1].sub_ok(o.0[1]) && self.0[2].sub_ok(o.0[2])
    }

    pub fn sub(self, other: Self) -> (r: Self)
        requires
            self.sub3_ok(other),
        ensures
            r.0[0] == self.0[0].sub_spec(other.0[0]),
            r.0[1] == self.0[1].sub_spec(other.0[1]),
            r.0[2] == self.0[2].sub_spec(other.0[2]),
    {
        Vec3([self.0[0].sub(other.0[0]), self.0[1].sub(other.0[1]), self.0[2].sub(other.0[2])])
    }

    pub fn sub_assign(&mut self, other: Self)
        requires
            old(self).sub3_ok(other),
        ensures
            final(self).0[0] == old(self).0[0].sub_spec(other.0[0]),
            final(self).0[1] == old(self).0[1].sub_spec(other.0[1]),
            final(self).0[2] == old(self).0[2].sub_spec(other.0[2]),
    {
        let r = self.sub(other);
        *self = r;
    }

    /// Whether each componentwise (Hadamard) product stays in range.
    pub open spec fn mul3_ok(self, o: Self) -> bool {
        self.0[0].mul_ok(o.0[0]) && self.0[1].mul_ok(o.0[1]) && self.0[2].mul_ok(o.0[2])
    }

    /// Componentwise (Hadamard) product, not a geometric product.
    pub fn mul(self, other: Self) -> (r: Self)
        requires
            self.mul3_ok(other),
        ensures
            r.0[0] == self.0[0].mul_spec(other.0[0]),
            r.0[1] == self.0[1].mul_spec(other.0[1]),
            r.0[2] == self.0[2].mul_spec(other.0[2]),
    {
        Vec3([self.0[0].mul(other.0[0]), self.0[1].mul(other.0[1]), self.0[2].mul(other.0[2])])
    }

    pub fn mul_assign(&mut self, other: Self)
        requires
            old(self).mul3_ok(other),
        ensures
            final(self).0[0] == old(self).0[0].mul_spec(other.0[0]),
            final(self).0[1] == old(self).0[1].mul_spec(other.0[1]),
            final(self).0[2] == old(self).0[2].mul_spec(other.0[2]),
    {
        let r = self.mul(other);
        *self = r;
    }

    /// Whether all three products with the scalar stay in range.
    pub open spec fn scale3_ok(self, k: S) -> bool {
        self.0[0].mul_ok(k) && self.0[1].mul_ok(k) && self.0[2].mul_ok(k)
    }

    /// Product with a scalar, applied to every component.
    pub fn mul_scalar(self, k: S) -> (r: Self)
        requires
            self.scale3_ok(k),
        ensures
            r.0[0] == self.0[0].mul_spec(k),
            r.0[1] == self.0[1].mul_spec(k),
            r.0[2] == self.0[2].mul_spec(k),
    {
        Vec3([self.0[0].mul(k), self.0[1].mul(k), self.0[2].mul(k)])
    }

    pub fn mul_assign_scalar(&mut self, k: S)
        requires
            old(self).scale3_ok(k),
        ensures
            final(self).0[0] == old(self).0[0].mul_spec(k),
            final(self).0[1] == old(self).0[1].mul_spec(k),
            final(self).0[2] == old(self).0[2].mul_spec(k),
    {
        let r = self.mul_scalar(k);
        *self = r;
    }

    /// Whether each componentwise quotient is defined.
    pub open spec fn div3_ok(self, o: Self) -> bool {
        self.0[0].div_ok(o.0[0]) && self.0[1].div_ok(o.0[1]) && self.0[2].div_ok(o.0[2])
    }

    /// Componentwise quotient.
    pub fn div(self, other: Self) -> (r: Self)
        requires
            self.div3_ok(other),
        ensures
            r.0[0] == self.0[0].div_spec(other.0[0]),
            r.0[1] == self.0[1].div_spec(other.0[1]),
            r.0[2] == self.0[2].div_spec(other.0[2]),
    {
        Vec3([self.0[0].div(other.0[0]), self.0[1].div(other.0[1]), self.0[2].div(other.0[2])])
    }

    pub fn div_assign(&mut self, other: Self)
        requires
            old(self).div3_ok(other),
        ensures
            final(self).0[0] == old(self).0[0].div_spec(other.0[0]),
            final(self).0[1] == old(self).0[1].div_spec(other.0[1]),
            final(self).0[2] == old(self).0[2].div_spec(other.0[2]),
    {
        let r = self.div(other);
        *self = r;
    }

    /// Whether all three quotients by the scalar are defined.
    pub open spec fn div_scale3_ok(self, k: S) -> bool {
        self.0[0].div_ok(k) && self.0[1].div_ok(k) && self.0[2].div_ok(k)
    }

    /// Quotient by a scalar, applied to every component.
    pub fn div_scalar(self, k: S) -> (r: Self)
        requires
            self.div_scale3_ok(k),
        ensures
            r.0[0] == self.0[0].div_spec(k),
            r.0[1] == self.0[1].div_spec(k),
            r.0[2] == self.0[2].div_spec(k),
    {
        Vec3([self.0[0].div(k), self.0[1].div(k), self.0[2].div(k)])
    }

    pub fn div_assign_scalar(&mut self, k: S)
        requires
            old(self).div_scale3_ok(k),
        ensures
            final(self).0[0] == old(self).0[0].div_spec(k),
            final(self).0[1] == old(self).0[1].div_spec(k),
            final(self).0[2] == old(self).0[2].div_spec(k),
    {
        let r = self.div_scalar(k);
        *self = r;
    }

    pub fn neg(self) -> (r: Self)
        requires
            self.0[0].neg_ok(),
            self.0[1].neg_ok(),
            self.0[2].neg_ok(),
        ensures
            r.0[0] == self.0[0].neg_spec(),
            r.0[1] == self.0[1].neg_spec(),
            r.0[2] == self.0[2].neg_spec(),
    {
        Vec3([self.0[0].neg(), self.0[1].neg(), self.0[2].neg()])
    }

    /// Positional component access; the index must be within the arity.
    pub fn index(&self, idx: usize) -> (r: S)
        requires
            idx < 3,
        ensures
            r == self.0[idx as int],
    {
        self.0[idx]
    }

    /// Positional component update; the index must be within the arity.
    pub fn set_index(&mut self, idx: usize, value: S)
        requires
            idx < 3,
        ensures
            final(self).0@ == old(self).0@.update(idx as int, value),
    {
        self.0[idx] = value;
    }
}

/// The integer components of a 3D vector over the i32 kind.
pub open spec fn v3i(v: Vec3<i32>) -> (int, int, int) {
    (v.0[0] as int, v.0[1] as int, v.0[2] as int)
}

/// The inner product of two integer triples.
pub open spec fn dot3(a: (int, int, int), b: (int, int, int)) -> int {
    a.0 * b.0 + a.1 * b.1 + a.2 * b.2
}

/// For the i32 kind the inner product is symmetric: `dot` of `a` and
/// `b` returns the same scalar as `dot` of `b` and `a`, overflow
/// handling included.
pub proof fn lemma_dot_symmetric_vec2(a: Vec2<i32>, b: Vec2<i32>)
    ensures
        a.dot_spec(b) == b.dot_spec(a),
        a.dot_ok(b) == b.dot_ok(a),
{
}

/// For the i32 kind the inner product is symmetric: `dot` of `a` and
/// `b` returns the same scalar as `dot` of `b` and `a`, overflow
/// handling included.
pub proof fn lemma_dot_symmetric_vec3(a: Vec3<i32>, b: Vec3<i32>)
    ensures
        a.dot_spec(b) == b.dot_spec(a),
        a.dot_ok(b) == b.dot_ok(a),
{
}

/// The vector `cross` returns over the i32 kind, stated as `cross`'s
/// contract states it, is orthogonal to both inputs: its mathematical
/// inner product with either input is zero.
pub proof fn lemma_cross_orthogonal(a: Vec3<i32>, b: Vec3<i32>, c: Vec3<i32>)
    requires
        a.cross_ok(b),
        c.0[0] == a.0[1].mul_spec(b.0[2]).sub_spec(a.0[2].mul_spec(b.0[1])),
        c.0[1] == a.0[2].mul_spec(b.0[0]).sub_spec(a.0[0].mul_spec(b.0[2])),
        c.0[2] == a.0[0].mul_spec(b.0[1]).sub_spec(a.0[1].mul_spec(b.0[0])),
    ensures
        dot3(v3i(c), v3i(a)) == 0,
        dot3(v3i(c), v3i(b)) == 0,
{
    let a0 = a.0[0] as int;
    let a1 = a.0[1] as int;
    let a2 = a.0[2] as int;
    let b0 = b.0[0] as int;
    let b1 = b.0[1] as int;
    let b2 = b.0[2] as int;
    assert(c.0[0] as int == a1 * b2 - a2 * b1);
    assert(c.0[1] as int == a2 * b0 - a0 * b2);
    assert(c.0[2] as int == a0 * b1 - a1 * b0);
    assert((a1 * b2 - a2 * b1) * a0 + (a2 * b0 - a0 * b2) * a1 + (a0 * b1 - a1 * b0) * a2 == 0)
        by (nonlinear_arith);
    assert((a1 * b2 - a2 * b1) * b0 + (a2 * b0 - a0 * b2) * b1 + (a0 * b1 - a1 * b0) * b2 == 0)
        by (nonlinear_arith);
}

/// The cross product of a vector with itself is the zero vector.
pub proof fn lemma_cross_self_zero(a: Vec3<i32>)
    ensures
        a.0[1].mul_spec(a.0[2]).sub_spec(a.0[2].mul_spec(a.0[1])) == 0,
        a.0[2].mul_spec(a.0[0]).sub_spec(a.0[0].mul_spec(a.0[2])) == 0,
        a.0[0].mul_spec(a.0[1]).sub_spec(a.0[1].mul_spec(a.0[0])) == 0,
{
    let a0 = a.0[0] as int;
    let a1 = a.0[1] as int;
    let a2 = a.0[2] as int;
    assert(a1 * a2 == a2 * a1) by (nonlinear_arith);
    assert(a2 * a0 == a0 * a2) by (nonlinear_arith);
    assert(a0 * a1 == a1 * a0) by (nonlinear_arith);
}

impl<S: Scalar> core::convert::From<(S, S)> for Vec2<S> {
    fn from(p: (S, S)) -> (r: Self)
        ensures
            r.0[0] == p.0,
            r.0[1] == p.1,
    {
        Vec2([p.0, p.1])
    }
}

impl<S: Scalar> vstd::std_specs::convert::FromSpecImpl<(S, S)> for Vec2<S> {
    open spec fn obeys_from_spec() -> bool {
        true
    }

    open spec fn from_spec(p: (S, S)) -> Vec2<S> {
        Vec2([p.0, p.1])
    }
}

impl<S: Scalar> core::convert::From<(S, S, S)> for Vec3<S> {
    fn from(p: (S, S, S)) -> (r: Self)
        ensures
            r.0[0] == p.0,
            r.0[1] == p.1,
            r.0[2] == p.2,
    {
        Vec3([p.0, p.1, p.2])
    }
}

impl<S: Scalar> vstd::std_specs::convert::FromSpecImpl<(S, S, S)> for Vec3<S> {
    open spec fn obeys_from_spec() -> bool {
        true
    }

    open spec fn from_spec(p: (S, S, S)) -> Vec3<S> {
        Vec3([p.0, p.1, p.2])
    }
}

} // verus!
