//! Spheres, their intersection with rays, and lists of them.
use vstd::prelude::*;
use crate::fixed::{
    fadd, fdiv, fmul, fsqrt, fsub, fx_add, fx_div, fx_mul, fx_sqrt, fx_sub, is_root, lemma_isqrt_unique,
    lemma_mul_unit, lemma_root_exists, SCALE,
};
use crate::material::Material;
use crate::ray::{ray_at, Ray};
use crate::vec3::{v3, vdivs, vdot, vlength, vsub, Vec3};

verus! {

/// Where a ray meets a surface.
#[derive(Clone, Copy, Debug, PartialEq, Eq, Structural)]
pub struct HitRecord {
    pub t: i64,
    pub p: Vec3,
    /// `(p - center) / radius`: of unit length up to rounding, pointing out
    /// of the sphere.
    pub normal: Vec3,
    /// The surface's material; none for a sphere shaded by its normal.
    pub material: Option<Material>,
}

#[derive(Clone, Copy, Debug, PartialEq, Eq, Structural)]
pub struct Sphere {
    pub center: Vec3,
    pub radius: i64,
    pub material: Option<Material>,
}

/// `a = d . d` of the intersection quadratic.
pub open spec fn quad_a(s: Sphere, ray: Ray) -> int {
    vdot(ray.direction, ray.direction)
}

/// `b = oc . d` with `oc = origin - center`.
pub open spec fn quad_b(s: Sphere, ray: Ray) -> int {
    vdot(vsub(ray.origin, s.center), ray.direction)
}

/// `c = oc . oc - radius^2`.
pub open spec fn quad_c(s: Sphere, ray: Ray) -> int {
    let oc = vsub(ray.origin, s.center);
    fsub(vdot(oc, oc), fmul(s.radius as int, s.radius as int))
}

/// `b^2 - a c`.
pub open spec fn discriminant(s: Sphere, ray: Ray) -> int {
    fsub(fmul(quad_b(s, ray), quad_b(s, ray)), fmul(quad_a(s, ray), quad_c(s, ray)))
}

/// `(-b - sqrt(disc)) / a`.
pub open spec fn near_root(s: Sphere, ray: Ray) -> int {
    fdiv(fsub(-quad_b(s, ray), fsqrt(discriminant(s, ray))), quad_a(s, ray))
}

/// `(-b + sqrt(disc)) / a`.
pub open spec fn far_root(s: Sphere, ray: Ray) -> int {
    fdiv(fadd(-quad_b(s, ray), fsqrt(discriminant(s, ray))), quad_a(s, ray))
}

/// The first root, nearest first, strictly inside `(t_min, t_max)`; none
/// unless the discriminant, `a` and the radius are non-zero and the
/// discriminant positive.
#[verifier::opaque]
pub open spec fn sphere_hit_t(s: Sphere, ray: Ray, t_min: int, t_max: int) -> Option<int> {
    if quad_a(s, ray) > 0 && discriminant(s, ray) > 0 && s.radius != 0 {
        if t_min < near_root(s, ray) < t_max {
            Some(near_root(s, ray))
        } else if t_min < far_root(s, ray) < t_max {
            Some(far_root(s, ray))
        } else {
            None
        }
    } else {
        None
    }
}

pub open spec fn sphere_record(s: Sphere, ray: Ray, t: int) -> HitRecord {
    let p = ray_at(ray, t);
    HitRecord { t: t as i64, p, normal: vdivs(vsub(p, s.center), s.radius as int), material: s.material }
}

pub open spec fn sphere_hit(s: Sphere, ray: Ray, t_min: int, t_max: int) -> Option<HitRecord> {
    match sphere_hit_t(s, ray, t_min, t_max) {
        Some(t) => Some(sphere_record(s, ray, t)),
        None => None,
    }
}

/// The nearest hit over a list, scanned in order with the upper bound
/// shrunk to each accepted hit, so that ties go to the earlier member.
pub open spec fn list_hit(list: Seq<Sphere>, ray: Ray, t_min: int, t_max: int) -> Option<HitRecord>
    decreases list.len(),
{
    if list.len() == 0 {
        None
    } else {
        let prev = list_hit(list.drop_last(), ray, t_min, t_max);
        let bound = match prev {
            Some(rec) => rec.t as int,
            None => t_max,
        };
        match sphere_hit(list.last(), ray, t_min, bound) {
            Some(rec) => Some(rec),
            None => prev,
        }
    }
}

impl Sphere {
    /// A sphere without material, shaded by its normal.
    pub fn new(center: Vec3, radius: i64) -> (r: Sphere)
        ensures
            r == (Sphere { center, radius, material: None }),
    {
        Sphere { center, radius, material: None }
    }

    pub fn with_material(center: Vec3, radius: i64, material: Material) -> (r: Sphere)
        ensures
            r == (Sphere { center, radius, material: Some(material) }),
    {
        Sphere { center, radius, material: Some(material) }
    }

    fn record(&self, ray: &Ray, t: i64) -> (r: HitRecord)
        requires
            self.radius != 0,
        ensures
            r == sphere_record(*self, *ray, t as int),
    {
        let p = ray.point_at_parameter(t);
        HitRecord { t, p, normal: p.sub(self.center).div(self.radius), material: self.material }
    }

    pub fn hit(&self, ray: &Ray, t_min: i64, t_max: i64) -> (r: Option<HitRecord>)
        ensures
            r == sphere_hit(*self, *ray, t_min as int, t_max as int),
    {
        proof {
            reveal(sphere_hit_t);
        }
        let oc = ray.origin.sub(self.center);
        let a = ray.direction.dot(&ray.direction);
        let b = oc.dot(&ray.direction);
        let c = fx_sub(oc.dot(&oc), fx_mul(self.radius, self.radius));
        let disc = fx_sub(fx_mul(b, b), fx_mul(a, c));
        if a > 0 && disc > 0 && self.radius != 0 {
            let sq = fx_sqrt(disc);
            let near = fx_div(fx_sub(-b, sq), a);
            if t_min < near && near < t_max {
                return Some(self.record(ray, near));
            }
            let far = fx_div(fx_add(-b, sq), a);
            if t_min < far && far < t_max {
                return Some(self.record(ray, far));
            }
        }
        None
    }
}

/// The spheres of a scene, in scan order.
pub struct HitableList {
    pub list: Vec<Sphere>,
}

impl HitableList {
    pub fn new(list: Vec<Sphere>) -> (r: HitableList)
        ensures
            r.list@ == list@,
    {
        HitableList { list }
    }

    pub fn hit(&self, ray: &Ray, t_min: i64, t_max: i64) -> (r: Option<HitRecord>)
        ensures
            r == list_hit(self.list@, *ray, t_min as int, t_max as int),
    {
        let mut closest = t_max;
        let mut best: Option<HitRecord> = None;
        let mut i: usize = 0;
        while i < self.list.len()
            invariant
                i <= self.list.len(),
                best == list_hit(self.list@.subrange(0, i as int), *ray, t_min as int, t_max as int),
                closest as int == match best {
                    Some(rec) => rec.t as int,
                    None => t_max as int,
                },
            decreases self.list.len() - i,
        {
            if let Some(rec) = self.list[i].hit(ray, t_min, closest) {
                closest = rec.t;
                best = Some(rec);
            }
            assert(self.list@.subrange(0, i + 1).drop_last() =~= self.list@.subrange(0, i as int));
            i = i + 1;
        }
        assert(self.list@.subrange(0, i as int) =~= self.list@);
        best
    }
}

proof fn lemma_roots_ordered(s: Sphere, ray: Ray)
    requires
        quad_a(s, ray) > 0,
        discriminant(s, ray) > 0,
    ensures
        near_root(s, ray) <= far_root(s, ray),
{
    let d = discriminant(s, ray);
    lemma_root_exists(d * SCALE);
    assert(fsqrt(d) >= 0);
    let b = quad_b(s, ray);
    let a = quad_a(s, ray);
    let lo = fsub(-b, fsqrt(d));
    let hi = fadd(-b, fsqrt(d));
    assert(lo <= hi);
    assert(lo * SCALE <= hi * SCALE) by (nonlinear_arith)
        requires
            lo <= hi,
    ;
    vstd::arithmetic::div_mod::lemma_div_is_ordered(lo * SCALE, hi * SCALE, a);
}

/// A reported hit lies strictly inside the interval.
proof fn lemma_hit_in_interval(s: Sphere, ray: Ray, t_min: int, t_max: int)
    ensures
        sphere_hit(s, ray, t_min, t_max) is Some ==> t_min < sphere_hit(s, ray, t_min, t_max)->Some_0.t < t_max,
{
    reveal(sphere_hit_t);
}

/// Shrinking the upper bound to `bound` keeps a hit nearer than `bound` and
/// drops every other.
proof fn lemma_shrink_bound(s: Sphere, ray: Ray, t_min: int, t_max: int, bound: int)
    requires
        bound <= t_max,
    ensures
        sphere_hit(s, ray, t_min, bound) == (match sphere_hit(s, ray, t_min, t_max) {
            Some(rec) => if rec.t < bound {
                Some(rec)
            } else {
                None
            },
            None => None,
        }),
{
    reveal(sphere_hit_t);
    if quad_a(s, ray) > 0 && discriminant(s, ray) > 0 && s.radius != 0 {
        lemma_roots_ordered(s, ray);
    }
}

/// A ray of unit direction aimed straight at a sphere's center from outside
/// meets it at the distance to the near surface, where the normal is the
/// unit vector from the center toward the ray's origin. Shown for rays
/// along `-z` and radii that are whole multiples of `1/256`, on which the
/// fixed-point square root is exact.
pub proof fn lemma_aimed_at_center(s: Sphere, o: Vec3, d: int, k: int, t_min: int, t_max: int)
    requires
        1 <= k,
        256 * k < d <= 0x800_0000,
        -0x40_0000_0000 <= o.x <= 0x40_0000_0000,
        -0x40_0000_0000 <= o.y <= 0x40_0000_0000,
        -0x40_0000_0000 <= o.z <= 0x40_0000_0000,
        s.center == v3(o.x as int, o.y as int, o.z - d),
        s.radius == 256 * k,
        t_min < d - 256 * k < t_max,
    ensures
        sphere_hit(s, Ray { origin: o, direction: v3(0, 0, -SCALE) }, t_min, t_max) is Some,
        sphere_hit(s, Ray { origin: o, direction: v3(0, 0, -SCALE) }, t_min, t_max)->Some_0.t == d - 256 * k,
        sphere_hit(s, Ray { origin: o, direction: v3(0, 0, -SCALE) }, t_min, t_max)->Some_0.normal == v3(
            0,
            0,
            SCALE as int,
        ),
        vlength(v3(0, 0, SCALE as int)) == SCALE,
{
    reveal(sphere_hit_t);
    let ray = Ray { origin: o, direction: v3(0, 0, -SCALE) };
    let r = 256 * k;
    let sc = SCALE as int;
    lemma_mul_unit(0);
    lemma_mul_unit(d);
    lemma_mul_unit(-sc);
    lemma_mul_unit(sc);
    assert(vsub(o, s.center) == v3(0, 0, d));
    assert(quad_a(s, ray) == sc);
    assert(quad_b(s, ray) == -d);
    assert(d * d <= 0x40_0000_0000_0000) by (nonlinear_arith)
        requires
            0 < d <= 0x800_0000,
    ;
    assert(0 <= d * d);
    vstd::arithmetic::div_mod::lemma_div_is_ordered(d * d, 0x40_0000_0000_0000, sc);
    vstd::arithmetic::div_mod::lemma_div_pos_is_pos(d * d, sc);
    let dd = (d * d) / sc;
    assert(fmul(d, d) == dd);
    assert((-d) * (-d) == d * d) by (nonlinear_arith);
    assert(fmul(-d, -d) == dd);
    assert(r * r == (k * k) * sc) by (nonlinear_arith)
        requires
            r == 256 * k,
            sc == 65536,
    ;
    assert(k * k <= d * d) by (nonlinear_arith)
        requires
            1 <= k,
            256 * k < d,
    ;
    assert(1 <= k * k <= 0x40_0000_0000) by (nonlinear_arith)
        requires
            1 <= k,
            256 * k < 0x800_0000,
    ;
    vstd::arithmetic::div_mod::lemma_div_multiples_vanish(k * k, sc);
    assert(sc * (k * k) == (k * k) * sc);
    assert((r * r) / sc == k * k);
    assert(fmul(r, r) == k * k);
    let c = dd - k * k;
    assert(quad_c(s, ray) == c);
    lemma_mul_unit(c);
    assert(discriminant(s, ray) == k * k);
    assert((k * k) * sc == r * r) by (nonlinear_arith)
        requires
            r == 256 * k,
            sc == 65536,
    ;
    assert(is_root(r * r, r)) by (nonlinear_arith)
        requires
            r >= 256,
    ;
    lemma_isqrt_unique(r * r, r);
    assert(fsqrt(k * k) == r);
    vstd::arithmetic::div_mod::lemma_div_multiples_vanish(d - r, sc);
    assert((d - r) * sc == sc * (d - r));
    assert(near_root(s, ray) == d - r);
    let t = d - r;
    lemma_mul_unit(t);
    let p = ray_at(ray, t);
    assert(p == v3(o.x as int, o.y as int, o.z - t));
    assert(vsub(p, s.center) == v3(0, 0, r));
    vstd::arithmetic::div_mod::lemma_div_multiples_vanish(sc, r);
    assert(r * sc == r * sc);
    assert(fdiv(r, r) == sc);
    assert(fdiv(0, r) == 0);
    assert(sc * sc / sc == sc) by (nonlinear_arith)
        requires
            sc == 65536,
    ;
    lemma_isqrt_unique(sc * sc, sc);
}

/// A ray whose perpendicular offset from a sphere's center exceeds the
/// radius misses it. Shown for rays of unit direction along `-z`, with the
/// squared offset exceeding the squared radius by at least two units of the
/// last place (`2 SCALE` in squared units), which absorbs the rounding of
/// the two squares.
pub proof fn lemma_offset_misses(s: Sphere, o: Vec3, t_min: int, t_max: int)
    requires
        -0x400_0000 <= o.x <= 0x400_0000,
        -0x400_0000 <= o.y <= 0x400_0000,
        -0x400_0000 <= o.z <= 0x400_0000,
        -0x400_0000 <= s.center.x <= 0x400_0000,
        -0x400_0000 <= s.center.y <= 0x400_0000,
        -0x400_0000 <= s.center.z <= 0x400_0000,
        0 <= s.radius <= 0x400_0000,
        (o.x - s.center.x) * (o.x - s.center.x) + (o.y - s.center.y) * (o.y - s.center.y) >= s.radius
            * s.radius + 2 * SCALE,
    ensures
        sphere_hit(s, Ray { origin: o, direction: v3(0, 0, -SCALE) }, t_min, t_max) is None,
{
    reveal(sphere_hit_t);
    let ray = Ray { origin: o, direction: v3(0, 0, -SCALE) };
    let sc = SCALE as int;
    let x = o.x - s.center.x;
    let y = o.y - s.center.y;
    let z = o.z - s.center.z;
    let rr = s.radius * s.radius;
    lemma_mul_unit(0);
    lemma_mul_unit(z);
    lemma_mul_unit(-sc);
    assert(vsub(o, s.center) == v3(x, y, z));
    assert(quad_a(s, ray) == sc);
    assert(quad_b(s, ray) == -z);
    assert(0 <= x * x <= 0x40_0000_0000_0000) by (nonlinear_arith)
        requires
            -0x800_0000 <= x <= 0x800_0000,
    ;
    assert(0 <= y * y <= 0x40_0000_0000_0000) by (nonlinear_arith)
        requires
            -0x800_0000 <= y <= 0x800_0000,
    ;
    assert(0 <= z * z <= 0x40_0000_0000_0000) by (nonlinear_arith)
        requires
            -0x800_0000 <= z <= 0x800_0000,
    ;
    assert(0 <= rr <= 0x10_0000_0000_0000) by (nonlinear_arith)
        requires
            rr == s.radius * s.radius,
            0 <= s.radius <= 0x400_0000,
    ;
    vstd::arithmetic::div_mod::lemma_fundamental_div_mod(x * x, sc);
    vstd::arithmetic::div_mod::lemma_fundamental_div_mod(y * y, sc);
    vstd::arithmetic::div_mod::lemma_fundamental_div_mod(z * z, sc);
    vstd::arithmetic::div_mod::lemma_fundamental_div_mod(rr, sc);
    let xx = (x * x) / sc;
    let yy = (y * y) / sc;
    let zz = (z * z) / sc;
    let r2 = rr / sc;
    assert(0 <= xx <= 0x40_0000_0000);
    assert(0 <= yy <= 0x40_0000_0000);
    assert(0 <= zz <= 0x40_0000_0000);
    assert(0 <= r2 <= 0x10_0000_0000);
    assert((-z) * (-z) == z * z) by (nonlinear_arith);
    assert(fmul(-z, -z) == zz);
    assert(vdot(v3(x, y, z), v3(x, y, z)) == xx + yy + zz);
    let c = xx + yy + zz - r2;
    assert(quad_c(s, ray) == c);
    lemma_mul_unit(c);
    assert(discriminant(s, ray) == r2 - xx - yy);
    assert(xx + yy > r2) by (nonlinear_arith)
        requires
            x * x == sc * xx + (x * x) % sc,
            y * y == sc * yy + (y * y) % sc,
            rr == sc * r2 + rr % sc,
            0 <= (x * x) % sc < sc,
            0 <= (y * y) % sc < sc,
            0 <= rr % sc,
            x * x + y * y >= rr + 2 * sc,
            sc == 65536,
    ;
}

/// The list reports a hit exactly when some member is hit in the interval;
/// that hit is the hit of one member, and its parameter is at most the
/// parameter of every member's own hit.
pub proof fn lemma_nearest_hit(list: Seq<Sphere>, ray: Ray, t_min: int, t_max: int)
    ensures
        (list_hit(list, ray, t_min, t_max) is Some) <==> (exists|i: int|
            0 <= i < list.len() && (#[trigger] sphere_hit(list[i], ray, t_min, t_max)) is Some),
        forall|i: int|
            0 <= i < list.len() && (#[trigger] sphere_hit(list[i], ray, t_min, t_max)) is Some
                ==> list_hit(list, ray, t_min, t_max)->Some_0.t <= sphere_hit(list[i], ray, t_min, t_max)->Some_0.t,
        list_hit(list, ray, t_min, t_max) is Some ==> exists|i: int|
            0 <= i < list.len() && #[trigger] sphere_hit(list[i], ray, t_min, t_max) == list_hit(list, ray, t_min, t_max),
    decreases list.len(),
{
    if list.len() > 0 {
        let init = list.drop_last();
        let n = list.len() - 1;
        lemma_nearest_hit(init, ray, t_min, t_max);
        let prev = list_hit(init, ray, t_min, t_max);
        let bound = match prev {
            Some(rec) => rec.t as int,
            None => t_max,
        };
        assert(forall|i: int| 0 <= i < n ==> init[i] == list[i]);
        if prev is Some {
            let i0 = choose|i: int| 0 <= i < init.len() && #[trigger] sphere_hit(init[i], ray, t_min, t_max) == prev;
            assert(sphere_hit(list[i0], ray, t_min, t_max) == prev);
            lemma_hit_in_interval(list[i0], ray, t_min, t_max);
            lemma_shrink_bound(list.last(), ray, t_min, t_max, bound);
        } else {
            lemma_shrink_bound(list.last(), ray, t_min, t_max, t_max);
        }
        assert(sphere_hit(list[n], ray, t_min, t_max) == sphere_hit(list.last(), ray, t_min, t_max));
    }
}

/// Of two spheres that a ray hits, a list of both reports the smaller of
/// their two parameters.
pub proof fn lemma_two_spheres_nearest(s1: Sphere, s2: Sphere, ray: Ray, t_min: int, t_max: int)
    requires
        sphere_hit(s1, ray, t_min, t_max) is Some,
        sphere_hit(s2, ray, t_min, t_max) is Some,
    ensures
        list_hit(seq![s1, s2], ray, t_min, t_max) is Some,
        list_hit(seq![s1, s2], ray, t_min, t_max)->Some_0.t == vstd::math::min(
            sphere_hit(s1, ray, t_min, t_max)->Some_0.t as int,
            sphere_hit(s2, ray, t_min, t_max)->Some_0.t as int,
        ),
{
    let list = seq![s1, s2];
    lemma_nearest_hit(list, ray, t_min, t_max);
    let r = list_hit(list, ray, t_min, t_max);
    let h1 = sphere_hit(s1, ray, t_min, t_max);
    let h2 = sphere_hit(s2, ray, t_min, t_max);
    assert(list[0] == s1 && list[1] == s2);
    assert(sphere_hit(list[0], ray, t_min, t_max) == h1);
    assert(sphere_hit(list[1], ray, t_min, t_max) == h2);
    assert(r is Some);
    assert(r->Some_0.t <= h1->Some_0.t);
    assert(r->Some_0.t <= h2->Some_0.t);
    let i = choose|i: int| 0 <= i < list.len() && #[trigger] sphere_hit(list[i], ray, t_min, t_max) == r;
    assert(i == 0 || i == 1);
}

} // verus!
