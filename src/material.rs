//! Surface materials and how they scatter light.
use vstd::prelude::*;
use rand::rngs::SmallRng;
use crate::fixed::{fadd, lemma_mul_unit, LIMIT, SCALE};
use crate::hitable::HitRecord;
use crate::random::{in_unit_ball, random_point_in_unit_sphere};
use crate::ray::Ray;
use crate::vec3::{v3, vadd, vdot, vlength, vscale, vsub, vunit, Vec3};

verus! {

#[derive(Clone, Copy, Debug, PartialEq, Eq, Structural)]
pub enum Material {
    /// Diffuse reflection.
    Lambertian { albedo: Vec3 },
    /// Mirror reflection perturbed by up to `fuzz`, which lies in `[0, 1]`.
    Metal { albedo: Vec3, fuzz: i64 },
}

/// Mirror image of `v` about the plane with normal `n`: `v - n * 2(v . n)`.
pub open spec fn reflect_spec(v: Vec3, n: Vec3) -> Vec3 {
    vsub(v, vscale(n, fadd(vdot(v, n), vdot(v, n))))
}

/// What a material does with the incoming ray at a hit, given the point `p`
/// drawn from the unit ball: the attenuation and the scattered ray, if any.
pub open spec fn scatter_spec(m: Material, ray_in: Ray, rec: HitRecord, p: Vec3) -> (Vec3, Option<Ray>) {
    match m {
        Material::Lambertian { albedo } => (
            albedo,
            Some(Ray { origin: rec.p, direction: vadd(rec.normal, p) }),
        ),
        Material::Metal { albedo, fuzz } => {
            if vlength(ray_in.direction) == 0 {
                (albedo, None)
            } else {
                let dir = vadd(reflect_spec(vunit(ray_in.direction), rec.normal), vscale(p, fuzz as int));
                if vdot(dir, rec.normal) > 0 {
                    (albedo, Some(Ray { origin: rec.p, direction: dir }))
                } else {
                    (albedo, None)
                }
            }
        },
    }
}

/// `n` is a unit vector along one of the axes.
pub open spec fn axis_unit(n: Vec3) -> bool {
    let s = SCALE as int;
    ||| n == v3(s, 0, 0)
    ||| n == v3(-s, 0, 0)
    ||| n == v3(0, s, 0)
    ||| n == v3(0, -s, 0)
    ||| n == v3(0, 0, s)
    ||| n == v3(0, 0, -s)
}

/// Angle of reflection equals angle of incidence: for a normal along an
/// axis, `reflect(v, n) . n == -(v . n)`, with no rounding, for every `v`
/// whose components stay within half the scalar range.
pub proof fn lemma_reflect_axis(v: Vec3, n: Vec3)
    requires
        axis_unit(n),
        -LIMIT / 2 <= v.x <= LIMIT / 2,
        -LIMIT / 2 <= v.y <= LIMIT / 2,
        -LIMIT / 2 <= v.z <= LIMIT / 2,
    ensures
        vdot(reflect_spec(v, n), n) == -vdot(v, n),
{
    lemma_mul_unit(v.x as int);
    lemma_mul_unit(v.y as int);
    lemma_mul_unit(v.z as int);
    let d = vdot(v, n);
    assert(-LIMIT / 2 <= d <= LIMIT / 2);
    lemma_mul_unit(d + d);
    let r = reflect_spec(v, n);
    lemma_mul_unit(r.x as int);
    lemma_mul_unit(r.y as int);
    lemma_mul_unit(r.z as int);
}

pub fn reflect(v: &Vec3, n: &Vec3) -> (r: Vec3)
    ensures
        r == reflect_spec(*v, *n),
{
    let d = v.dot(n);
    v.sub(n.mul(crate::fixed::fx_add(d, d)))
}

impl Material {
    pub open spec fn albedo(self) -> Vec3 {
        match self {
            Material::Lambertian { albedo } => albedo,
            Material::Metal { albedo, .. } => albedo,
        }
    }

    pub fn lambertian(albedo: Vec3) -> (r: Material)
        ensures
            r == (Material::Lambertian { albedo }),
    {
        Material::Lambertian { albedo }
    }

    /// A metal whose fuzz is `fuzz` brought into `[0, 1]`.
    pub fn with_fuzz(albedo: Vec3, fuzz: i64) -> (r: Material)
        ensures
            r == (Material::Metal {
                albedo,
                fuzz: if fuzz < 0 { 0 } else if fuzz > SCALE { SCALE } else { fuzz },
            }),
    {
        let f = if fuzz < 0 {
            0
        } else if fuzz > SCALE {
            SCALE
        } else {
            fuzz
        };
        Material::Metal { albedo, fuzz: f }
    }

    /// Scattering with the random point `p` given.
    pub fn scatter_with(&self, ray_in: &Ray, rec: &HitRecord, p: Vec3) -> (r: (Vec3, Option<Ray>))
        ensures
            r == scatter_spec(*self, *ray_in, *rec, p),
    {
        match *self {
            Material::Lambertian { albedo } => (albedo, Some(Ray::new(rec.p, rec.normal.add(p)))),
            Material::Metal { albedo, fuzz } => {
                if ray_in.direction.length() == 0 {
                    (albedo, None)
                } else {
                    let reflected = reflect(&ray_in.direction.unit_vector(), &rec.normal);
                    let dir = reflected.add(p.mul(fuzz));
                    if dir.dot(&rec.normal) > 0 {
                        (albedo, Some(Ray::new(rec.p, dir)))
                    } else {
                        (albedo, None)
                    }
                }
            },
        }
    }

    /// Scattering with a point drawn from the unit ball.
    pub fn scatter(&self, ray_in: &Ray, rec: &HitRecord, rng: &mut SmallRng) -> (r: (Vec3, Option<Ray>))
        ensures
            exists|p: Vec3| in_unit_ball(p) && r == scatter_spec(*self, *ray_in, *rec, p),
    {
        let p = random_point_in_unit_sphere(rng);
        self.scatter_with(ray_in, rec, p)
    }
}

} // verus!
