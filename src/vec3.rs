//! Three-component fixed-point vectors.
use vstd::prelude::*;
use crate::fixed::{
    fadd, fdiv, fmul, fsub, fx_add, fx_div, fx_mul, fx_sub, is_root, isqrt, isqrt_u128, lemma_isqrt_unique,
    lemma_mul_bound, lemma_root_bounds, lemma_root_exists, LIMIT, SCALE,
};

verus! {

/// A point, direction or color; each component counts units of `1 / SCALE`.
/// Operations saturate their results to `[-LIMIT, LIMIT]`, so a component
/// beyond that bound (see `wf`) does not survive even `add` of zero.
#[derive(Clone, Copy, Debug, PartialEq, Eq, Structural)]
pub struct Vec3 {
    pub x: i64,
    pub y: i64,
    pub z: i64,
}

pub open spec fn v3(x: int, y: int, z: int) -> Vec3 {
    Vec3 { x: x as i64, y: y as i64, z: z as i64 }
}

pub open spec fn vadd(a: Vec3, b: Vec3) -> Vec3 {
    v3(fadd(a.x as int, b.x as int), fadd(a.y as int, b.y as int), fadd(a.z as int, b.z as int))
}

pub open spec fn vsub(a: Vec3, b: Vec3) -> Vec3 {
    v3(fsub(a.x as int, b.x as int), fsub(a.y as int, b.y as int), fsub(a.z as int, b.z as int))
}

/// Componentwise product.
pub open spec fn vmul(a: Vec3, b: Vec3) -> Vec3 {
    v3(fmul(a.x as int, b.x as int), fmul(a.y as int, b.y as int), fmul(a.z as int, b.z as int))
}

/// Product with a scalar.
pub open spec fn vscale(a: Vec3, s: int) -> Vec3 {
    v3(fmul(a.x as int, s), fmul(a.y as int, s), fmul(a.z as int, s))
}

/// Quotient by a non-zero scalar.
pub open spec fn vdivs(a: Vec3, s: int) -> Vec3 {
    v3(fdiv(a.x as int, s), fdiv(a.y as int, s), fdiv(a.z as int, s))
}

pub open spec fn vdot(a: Vec3, b: Vec3) -> int {
    fadd(fadd(fmul(a.x as int, b.x as int), fmul(a.y as int, b.y as int)), fmul(a.z as int, b.z as int))
}

pub open spec fn vcross(a: Vec3, b: Vec3) -> Vec3 {
    v3(
        fsub(fmul(a.y as int, b.z as int), fmul(a.z as int, b.y as int)),
        fsub(fmul(a.z as int, b.x as int), fmul(a.x as int, b.z as int)),
        fsub(fmul(a.x as int, b.y as int), fmul(a.y as int, b.x as int)),
    )
}

/// `x^2 + y^2 + z^2` without rounding, in squared units.
pub open spec fn exact_sq_len(a: Vec3) -> int {
    a.x * a.x + a.y * a.y + a.z * a.z
}

/// The length: the integer square root of the exact squared length,
/// saturated to the largest `i64`.
pub open spec fn vlength(a: Vec3) -> int {
    let r = isqrt(exact_sq_len(a));
    if r > i64::MAX {
        i64::MAX as int
    } else {
        r
    }
}

/// The vector divided by its length.
pub open spec fn vunit(a: Vec3) -> Vec3 {
    vdivs(a, vlength(a))
}

/// The length bounds each component's magnitude.
pub proof fn lemma_length_bounds(a: Vec3)
    ensures
        is_root(exact_sq_len(a), isqrt(exact_sq_len(a))),
        a.wf() ==> -vlength(a) <= a.x <= vlength(a) && -vlength(a) <= a.y <= vlength(a) && -vlength(a) <= a.z
            <= vlength(a),
{
    let n = exact_sq_len(a);
    assert(a.x * a.x >= 0 && a.y * a.y >= 0 && a.z * a.z >= 0) by (nonlinear_arith);
    lemma_root_exists(n);
    let r = isqrt(n);
    lemma_root_bounds(n, r, a.x as int);
    lemma_root_bounds(n, r, a.y as int);
    lemma_root_bounds(n, r, a.z as int);
    if a.wf() {
        assert(a.x * a.x <= LIMIT * LIMIT) by (nonlinear_arith)
            requires
                -LIMIT <= a.x <= LIMIT,
        ;
        assert(a.y * a.y <= LIMIT * LIMIT) by (nonlinear_arith)
            requires
                -LIMIT <= a.y <= LIMIT,
        ;
        assert(a.z * a.z <= LIMIT * LIMIT) by (nonlinear_arith)
            requires
                -LIMIT <= a.z <= LIMIT,
        ;
        assert(r <= i64::MAX) by (nonlinear_arith)
            requires
                r * r <= n,
                n <= 3 * LIMIT * LIMIT,
                r >= 0,
        ;
    }
}

/// `x / len` for `|x| <= len` lies in `[-1, 1]`.
proof fn lemma_div_unit(x: int, len: int)
    requires
        len > 0,
        -len <= x <= len,
    ensures
        -SCALE <= fdiv(x, len) <= SCALE,
{
    let s = SCALE as int;
    assert(-(len * s) <= x * s <= len * s) by (nonlinear_arith)
        requires
            -len <= x <= len,
            s == 65536,
    ;
    vstd::arithmetic::div_mod::lemma_div_is_ordered(x * s, len * s, len);
    vstd::arithmetic::div_mod::lemma_div_is_ordered(-(len * s), x * s, len);
    vstd::arithmetic::div_mod::lemma_div_multiples_vanish(s, len);
    vstd::arithmetic::div_mod::lemma_div_multiples_vanish(-s, len);
    assert(len * s == s * len && -(len * s) == len * (-s)) by (nonlinear_arith);
}

/// The unit vector of a well-formed non-zero vector has components in `[-1, 1]`.
pub proof fn lemma_unit_bounded(a: Vec3)
    requires
        a.wf(),
        vlength(a) != 0,
    ensures
        -SCALE <= vunit(a).x <= SCALE,
        -SCALE <= vunit(a).y <= SCALE,
        -SCALE <= vunit(a).z <= SCALE,
{
    lemma_length_bounds(a);
    lemma_div_unit(a.x as int, vlength(a));
    lemma_div_unit(a.y as int, vlength(a));
    lemma_div_unit(a.z as int, vlength(a));
}

impl Vec3 {
    /// Every component lies within the saturation bound `LIMIT`, where
    /// adding zero or multiplying by one gives the vector back.
    pub open spec fn wf(self) -> bool {
        &&& -LIMIT <= self.x <= LIMIT
        &&& -LIMIT <= self.y <= LIMIT
        &&& -LIMIT <= self.z <= LIMIT
    }

    /// The component at `q`: 0 is x, 1 is y, 2 is z.
    pub open spec fn at(self, q: int) -> i64 {
        if q == 0 {
            self.x
        } else if q == 1 {
            self.y
        } else {
            self.z
        }
    }

    pub fn new(a: i64, b: i64, c: i64) -> (r: Vec3)
        ensures
            r == (Vec3 { x: a, y: b, z: c }),
    {
        Vec3 { x: a, y: b, z: c }
    }

    pub fn x(&self) -> (r: i64)
        ensures
            r == self.x,
    {
        self.x
    }

    pub fn y(&self) -> (r: i64)
        ensures
            r == self.y,
    {
        self.y
    }

    pub fn z(&self) -> (r: i64)
        ensures
            r == self.z,
    {
        self.z
    }

    /// Red channel, an alias of `x`.
    pub fn r(&self) -> (r: i64)
        ensures
            r == self.x,
    {
        self.x
    }

    /// Green channel, an alias of `y`.
    pub fn g(&self) -> (r: i64)
        ensures
            r == self.y,
    {
        self.y
    }

    /// Blue channel, an alias of `z`.
    pub fn b(&self) -> (r: i64)
        ensures
            r == self.z,
    {
        self.z
    }

    /// The component at index `q`; an index past 2 is a caller error.
    pub fn index(&self, q: usize) -> (r: i64)
        requires
            q < 3,
        ensures
            r == self.at(q as int),
    {
        if q == 0 {
            self.x
        } else if q == 1 {
            self.y
        } else {
            self.z
        }
    }

    pub fn length(&self) -> (r: i64)
        ensures
            r == vlength(*self),
            r >= 0,
            r == 0 <==> *self == v3(0, 0, 0),
    {
        proof {
            lemma_mul_bound(self.x as int, self.x as int, 0x8000_0000_0000_0000);
            lemma_mul_bound(self.y as int, self.y as int, 0x8000_0000_0000_0000);
            lemma_mul_bound(self.z as int, self.z as int, 0x8000_0000_0000_0000);
            assert(self.x * self.x >= 0 && self.y * self.y >= 0 && self.z * self.z >= 0) by (nonlinear_arith);
        }
        let xx = (self.x as i128 * self.x as i128) as u128;
        let yy = (self.y as i128 * self.y as i128) as u128;
        let zz = (self.z as i128 * self.z as i128) as u128;
        let n = xx + yy + zz;
        let r = isqrt_u128(n);
        proof {
            lemma_isqrt_unique(n as int, r as int);
            lemma_root_bounds(n as int, r as int, self.x as int);
            lemma_root_bounds(n as int, r as int, self.y as int);
            lemma_root_bounds(n as int, r as int, self.z as int);
            if r == 0 {
                assert(self.x == 0 && self.y == 0 && self.z == 0);
            }
            if self.x == 0 && self.y == 0 && self.z == 0 {
                assert(n == 0);
                assert(r * r <= 0 ==> r == 0) by (nonlinear_arith);
            }
        }
        if r > 0x7fff_ffff_ffff_ffff {
            0x7fff_ffff_ffff_ffff
        } else {
            r as i64
        }
    }

    pub fn sq_len(&self) -> (r: i64)
        ensures
            r == vdot(*self, *self),
    {
        self.dot(self)
    }

    pub fn dot(&self, v: &Vec3) -> (r: i64)
        ensures
            r == vdot(*self, *v),
    {
        fx_add(fx_add(fx_mul(self.x, v.x), fx_mul(self.y, v.y)), fx_mul(self.z, v.z))
    }

    pub fn cross(&self, v: &Vec3) -> (r: Vec3)
        ensures
            r == vcross(*self, *v),
    {
        Vec3 {
            x: fx_sub(fx_mul(self.y, v.z), fx_mul(self.z, v.y)),
            y: fx_sub(fx_mul(self.z, v.x), fx_mul(self.x, v.z)),
            z: fx_sub(fx_mul(self.x, v.y), fx_mul(self.y, v.x)),
        }
    }

    /// The vector scaled to unit length; a zero vector has none.
    pub fn unit_vector(&self) -> (r: Vec3)
        requires
            vlength(*self) != 0,
        ensures
            r == vunit(*self),
            self.wf() ==> -SCALE <= r.x <= SCALE && -SCALE <= r.y <= SCALE && -SCALE <= r.z <= SCALE,
    {
        let length = self.length();
        proof {
            if self.wf() {
                lemma_unit_bounded(*self);
            }
        }
        self.div(length)
    }

    pub fn add(self, o: Vec3) -> (r: Vec3)
        ensures
            r == vadd(self, o),
    {
        Vec3 { x: fx_add(self.x, o.x), y: fx_add(self.y, o.y), z: fx_add(self.z, o.z) }
    }

    pub fn add_assign(&mut self, o: Vec3)
        ensures
            *final(self) == vadd(*old(self), o),
    {
        *self = self.add(o);
    }

    pub fn sub(self, o: Vec3) -> (r: Vec3)
        ensures
            r == vsub(self, o),
    {
        Vec3 { x: fx_sub(self.x, o.x), y: fx_sub(self.y, o.y), z: fx_sub(self.z, o.z) }
    }

    /// Product with a scalar.
    pub fn mul(self, s: i64) -> (r: Vec3)
        ensures
            r == vscale(self, s as int),
    {
        Vec3 { x: fx_mul(self.x, s), y: fx_mul(self.y, s), z: fx_mul(self.z, s) }
    }

    /// Componentwise product.
    pub fn mul_vec(self, o: Vec3) -> (r: Vec3)
        ensures
            r == vmul(self, o),
    {
        Vec3 { x: fx_mul(self.x, o.x), y: fx_mul(self.y, o.y), z: fx_mul(self.z, o.z) }
    }

    /// Componentwise product in place.
    pub fn mul_assign(&mut self, o: Vec3)
        ensures
            *final(self) == vmul(*old(self), o),
    {
        *self = self.mul_vec(o);
    }

    /// Quotient by a non-zero scalar.
    pub fn div(self, s: i64) -> (r: Vec3)
        requires
            s != 0,
        ensures
            r == vdivs(self, s as int),
    {
        Vec3 { x: fx_div(self.x, s), y: fx_div(self.y, s), z: fx_div(self.z, s) }
    }

    pub fn div_assign(&mut self, s: i64)
        requires
            s != 0,
        ensures
            *final(self) == vdivs(*old(self), s as int),
    {
        *self = self.div(s);
    }
}

} // verus!
