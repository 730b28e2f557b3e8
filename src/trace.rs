//! The recursive color integrator.
use vstd::prelude::*;
use rand::rngs::SmallRng;
use crate::fixed::{fadd, fmul, fsqrt, fsub, lemma_isqrt_unique, fx_add, fx_mul, fx_sub, LIMIT, SCALE};
use crate::hitable::{list_hit, HitableList};
use crate::material::scatter_spec;
use crate::random::{in_unit_ball, lemma_center_in_ball, random_point_in_unit_sphere};
use crate::ray::Ray;
use crate::vec3::{exact_sq_len, lemma_unit_bounded, vadd, v3, vlength, vmul, vscale, vunit, Vec3};

verus! {

/// Bounces after which a ray that still hits something is taken as black.
pub const MAX_DEPTH: u32 = 50;

/// Lower end of the search interval (about `0.001`), which keeps a scattered
/// ray from meeting the surface it leaves.
pub const T_MIN: i64 = 66;

/// Upper end of the search interval: the largest scalar.
pub const T_MAX: i64 = LIMIT;

/// Half of `SCALE`.
pub const HALF: i64 = 32768;

/// Green channel of the sky color (about `0.7`).
pub const SKY_GREEN: i64 = 45875;

pub open spec fn black() -> Vec3 {
    v3(0, 0, 0)
}

pub open spec fn white() -> Vec3 {
    v3(SCALE as int, SCALE as int, SCALE as int)
}

pub open spec fn sky_blue() -> Vec3 {
    v3(HALF as int, SKY_GREEN as int, SCALE as int)
}

/// Vertical gradient from white (straight down) to sky blue (straight up),
/// by the height of the normalized direction; a zero direction counts as
/// level.
pub open spec fn background_spec(dir: Vec3) -> Vec3 {
    let y = if vlength(dir) == 0 {
        0
    } else {
        vunit(dir).y as int
    };
    let t = fmul(HALF as int, fadd(y, SCALE as int));
    vadd(vscale(white(), fsub(SCALE as int, t)), vscale(sky_blue(), t))
}

/// `0.5 (n + 1)`: a normal shown as a color.
pub open spec fn normal_color_spec(n: Vec3) -> Vec3 {
    vscale(vadd(n, white()), HALF as int)
}

/// The point of `points` used at `depth`; the center where there is none.
pub open spec fn point_at(points: Seq<Vec3>, depth: int) -> Vec3 {
    if 0 <= depth < points.len() {
        points[depth]
    } else {
        v3(0, 0, 0)
    }
}

/// The color seen along `ray` from `depth` on, where the bounce at depth `d`
/// scatters with `point_at(points, d)`.
pub open spec fn color_spec(world: Seq<crate::hitable::Sphere>, ray: Ray, depth: int, points: Seq<Vec3>) -> Vec3
    decreases MAX_DEPTH - depth,
{
    match list_hit(world, ray, T_MIN as int, T_MAX as int) {
        None => background_spec(ray.direction),
        Some(rec) => {
            if depth >= MAX_DEPTH {
                black()
            } else {
                match rec.material {
                    None => normal_color_spec(rec.normal),
                    Some(m) => {
                        let (att, scattered) = scatter_spec(m, ray, rec, point_at(points, depth));
                        match scattered {
                            None => black(),
                            Some(s) => vmul(att, color_spec(world, s, depth + 1, points)),
                        }
                    },
                }
            }
        },
    }
}

/// Straight up the background is sky blue; straight down it is white.
pub proof fn lemma_background_vertical()
    ensures
        background_spec(v3(0, SCALE as int, 0)) == sky_blue(),
        background_spec(v3(0, -SCALE, 0)) == white(),
{
    let s = SCALE as int;
    assert(s * s / s == s) by (nonlinear_arith)
        requires
            s == 65536,
    ;
    assert(0int * 0 / s == 0);
    lemma_isqrt_unique(s * s, s);
    assert(fsqrt(s) == s);
    assert((-s) * (-s) == s * s) by (nonlinear_arith);
    assert(exact_sq_len(v3(0, s, 0)) == s * s);
    assert(exact_sq_len(v3(0, -s, 0)) == s * s);
    assert(vlength(v3(0, s, 0)) == s);
    assert(vlength(v3(0, -s, 0)) == s);
    assert((0 * s) / s == 0);
    assert(((-s) * s) / s == -s);
    assert(vunit(v3(0, s, 0)).y == s);
    assert(vunit(v3(0, -s, 0)).y == -s);
    assert((HALF * (2 * s)) / s == s);
    assert(fmul(HALF as int, fadd(s, s)) == s);
    assert(fmul(HALF as int, fadd(-s, s)) == 0);
    assert(v3(s, s, s).x == s);
    assert(fmul(s, 0) == 0);
    assert(fmul(s, s) == s);
    assert(fmul(HALF as int, s) == HALF);
    assert(fmul(SKY_GREEN as int, s) == SKY_GREEN);
    assert(fmul(HALF as int, 0) == 0);
    assert(fmul(SKY_GREEN as int, 0) == 0);
}

/// Each diffuse bounce below the depth bound multiplies the light carried
/// back along the scattered ray, componentwise, by the albedo.
pub proof fn lemma_diffuse_bounce(
    world: Seq<crate::hitable::Sphere>,
    ray: Ray,
    depth: int,
    points: Seq<Vec3>,
    albedo: Vec3,
)
    requires
        depth < MAX_DEPTH,
        list_hit(world, ray, T_MIN as int, T_MAX as int) is Some,
        list_hit(world, ray, T_MIN as int, T_MAX as int)->Some_0.material == Some(
            crate::material::Material::Lambertian { albedo },
        ),
    ensures
        ({
            let rec = list_hit(world, ray, T_MIN as int, T_MAX as int)->Some_0;
            let scattered = Ray { origin: rec.p, direction: vadd(rec.normal, point_at(points, depth)) };
            color_spec(world, ray, depth, points) == vmul(albedo, color_spec(world, scattered, depth + 1, points))
        }),
{
}

/// For a well-formed direction the background blends white and sky blue:
/// red lies in `[0.5, 1]`, green in `[0.7, 1]`, and blue is 1.
pub proof fn lemma_background_range(dir: Vec3)
    requires
        dir.wf(),
    ensures
        HALF <= background_spec(dir).x <= SCALE,
        SKY_GREEN <= background_spec(dir).y <= SCALE,
        background_spec(dir).z == SCALE,
{
    let s = SCALE as int;
    let y = if vlength(dir) == 0 {
        0
    } else {
        lemma_unit_bounded(dir);
        vunit(dir).y as int
    };
    assert(-s <= y <= s);
    let u = y + s;
    let t = (HALF * u) / s;
    assert(0 <= HALF * u <= s * s) by (nonlinear_arith)
        requires
            0 <= u <= 2 * s,
            s == 65536,
            HALF == 32768,
    ;
    vstd::arithmetic::div_mod::lemma_div_pos_is_pos(HALF * u, s);
    vstd::arithmetic::div_mod::lemma_div_is_ordered(HALF * u, s * s, s);
    vstd::arithmetic::div_mod::lemma_div_multiples_vanish(s, s);
    assert(0 <= t <= s);
    assert(fmul(HALF as int, fadd(y, s)) == t);
    let w = s - t;
    vstd::arithmetic::div_mod::lemma_div_multiples_vanish(w, s);
    vstd::arithmetic::div_mod::lemma_div_multiples_vanish(t, s);
    assert(s * w == w * s && s * t == t * s) by (nonlinear_arith);
    assert(fmul(s, w) == w);
    assert(fmul(s, t) == t);
    assert(0 <= HALF * t <= s * t && 0 <= SKY_GREEN * t <= s * t) by (nonlinear_arith)
        requires
            0 <= t,
            s == 65536,
            HALF == 32768,
            SKY_GREEN == 45875,
    ;
    vstd::arithmetic::div_mod::lemma_div_pos_is_pos(HALF * t, s);
    vstd::arithmetic::div_mod::lemma_div_pos_is_pos(SKY_GREEN * t, s);
    vstd::arithmetic::div_mod::lemma_div_is_ordered(HALF * t, s * t, s);
    vstd::arithmetic::div_mod::lemma_div_is_ordered(SKY_GREEN * t, s * t, s);
    vstd::arithmetic::div_mod::lemma_fundamental_div_mod(HALF * t, s);
    vstd::arithmetic::div_mod::lemma_fundamental_div_mod(SKY_GREEN * t, s);
    let hx = (HALF * t) / s;
    let gy = (SKY_GREEN * t) / s;
    assert(w + hx >= HALF) by (nonlinear_arith)
        requires
            HALF * t == s * hx + (HALF * t) % s,
            0 <= (HALF * t) % s < s,
            0 <= t <= s,
            w == s - t,
            s == 65536,
            HALF == 32768,
    ;
    assert(w + gy >= SKY_GREEN) by (nonlinear_arith)
        requires
            SKY_GREEN * t == s * gy + (SKY_GREEN * t) % s,
            0 <= (SKY_GREEN * t) % s < s,
            0 <= t <= s,
            w == s - t,
            s == 65536,
            SKY_GREEN == 45875,
    ;
    assert(fmul(HALF as int, t) == hx);
    assert(fmul(SKY_GREEN as int, t) == gy);
}

pub fn background(dir: &Vec3) -> (r: Vec3)
    ensures
        r == background_spec(*dir),
        dir.wf() ==> HALF <= r.x <= SCALE && SKY_GREEN <= r.y <= SCALE && r.z == SCALE,
{
    proof {
        if dir.wf() {
            lemma_background_range(*dir);
        }
    }
    let y = if dir.length() == 0 {
        0
    } else {
        dir.unit_vector().y
    };
    let t = fx_mul(HALF, fx_add(y, SCALE));
    let white = Vec3::new(SCALE, SCALE, SCALE);
    let sky = Vec3::new(HALF, SKY_GREEN, SCALE);
    white.mul(fx_sub(SCALE, t)).add(sky.mul(t))
}

pub fn normal_color(n: &Vec3) -> (r: Vec3)
    ensures
        r == normal_color_spec(*n),
{
    n.add(Vec3::new(SCALE, SCALE, SCALE)).mul(HALF)
}

/// The color along `ray`, with the bounce at depth `d` scattering with
/// `points[d]` (the center where `points` is too short).
pub fn calc_color_with(ray: Ray, world: &HitableList, depth: u32, points: &Vec<Vec3>) -> (r: Vec3)
    ensures
        r == color_spec(world.list@, ray, depth as int, points@),
        list_hit(world.list@, ray, T_MIN as int, T_MAX as int) is None ==> r == background_spec(ray.direction),
        list_hit(world.list@, ray, T_MIN as int, T_MAX as int) is Some && depth >= MAX_DEPTH ==> r == black(),
    decreases MAX_DEPTH - depth,
{
    match world.hit(&ray, T_MIN, T_MAX) {
        None => background(&ray.direction),
        Some(rec) => {
            if depth >= MAX_DEPTH {
                Vec3::new(0, 0, 0)
            } else {
                match rec.material {
                    None => normal_color(&rec.normal),
                    Some(m) => {
                        let p = if (depth as usize) < points.len() {
                            points[depth as usize]
                        } else {
                            Vec3::new(0, 0, 0)
                        };
                        let (att, scattered) = m.scatter_with(&ray, &rec, p);
                        match scattered {
                            None => Vec3::new(0, 0, 0),
                            Some(s) => att.mul_vec(calc_color_with(s, world, depth + 1, points)),
                        }
                    },
                }
            }
        },
    }
}

/// `color_spec` reads the points at depths `depth` to `MAX_DEPTH - 1` only.
proof fn lemma_color_reads_ahead(
    world: Seq<crate::hitable::Sphere>,
    ray: Ray,
    depth: int,
    p1: Seq<Vec3>,
    p2: Seq<Vec3>,
)
    requires
        forall|i: int| depth <= i < MAX_DEPTH ==> point_at(p1, i) == point_at(p2, i),
    ensures
        color_spec(world, ray, depth, p1) == color_spec(world, ray, depth, p2),
    decreases MAX_DEPTH - depth,
{
    match list_hit(world, ray, T_MIN as int, T_MAX as int) {
        None => {},
        Some(rec) => {
            if depth < MAX_DEPTH {
                match rec.material {
                    None => {},
                    Some(m) => {
                        let (att, scattered) = scatter_spec(m, ray, rec, point_at(p1, depth));
                        match scattered {
                            None => {},
                            Some(s) => lemma_color_reads_ahead(world, s, depth + 1, p1, p2),
                        }
                    },
                }
            }
        },
    }
}

/// The color along `ray`, scattering with points drawn from the unit ball.
/// Whatever is drawn, it is the color for some such points: in particular a
/// miss gives the background, and a hit at `MAX_DEPTH` or deeper gives black.
/// Nothing is drawn where the path ends without scattering.
pub fn calc_color(ray: Ray, world: &HitableList, depth: u32, rng: &mut SmallRng) -> (r: Vec3)
    ensures
        exists|points: Seq<Vec3>|
            (forall|i: int| in_unit_ball(#[trigger] point_at(points, i)))
            && r == color_spec(world.list@, ray, depth as int, points),
        list_hit(world.list@, ray, T_MIN as int, T_MAX as int) is None ==> r == background_spec(ray.direction),
        list_hit(world.list@, ray, T_MIN as int, T_MAX as int) is Some && depth >= MAX_DEPTH ==> r == black(),
        list_hit(world.list@, ray, T_MIN as int, T_MAX as int) is None || depth >= MAX_DEPTH || list_hit(
            world.list@,
            ray,
            T_MIN as int,
            T_MAX as int,
        )->Some_0.material is None ==> *final(rng) == *old(rng),
    decreases MAX_DEPTH - depth,
{
    let ghost zero = Seq::<Vec3>::empty();
    proof {
        lemma_center_in_ball();
    }
    assert(forall|i: int| in_unit_ball(#[trigger] point_at(zero, i)));
    match world.hit(&ray, T_MIN, T_MAX) {
        None => {
            let r = background(&ray.direction);
            assert(r == color_spec(world.list@, ray, depth as int, zero));
            r
        },
        Some(rec) => {
            if depth >= MAX_DEPTH {
                let r = Vec3::new(0, 0, 0);
                assert(r == color_spec(world.list@, ray, depth as int, zero));
                r
            } else {
                match rec.material {
                    None => {
                        let r = normal_color(&rec.normal);
                        assert(r == color_spec(world.list@, ray, depth as int, zero));
                        r
                    },
                    Some(m) => {
                        let p = random_point_in_unit_sphere(rng);
                        let (att, scattered) = m.scatter_with(&ray, &rec, p);
                        let ghost one = Seq::new(depth as nat + 1, |i: int| if i == depth { p } else { v3(0, 0, 0) });
                        assert(point_at(one, depth as int) == p);
                        match scattered {
                            None => {
                                let r = Vec3::new(0, 0, 0);
                                assert(forall|i: int| in_unit_ball(#[trigger] point_at(one, i)));
                                assert(r == color_spec(world.list@, ray, depth as int, one));
                                r
                            },
                            Some(s) => {
                                let c = calc_color(s, world, depth + 1, rng);
                                let r = att.mul_vec(c);
                                proof {
                                    let rest = choose|points: Seq<Vec3>|
                                        (forall|i: int| in_unit_ball(#[trigger] point_at(points, i)))
                                        && c == #[trigger] color_spec(world.list@, s, depth + 1, points);
                                    let all = Seq::new(
                                        MAX_DEPTH as nat,
                                        |i: int| if i == depth { p } else { point_at(rest, i) },
                                    );
                                    assert(forall|i: int| in_unit_ball(#[trigger] point_at(all, i)));
                                    lemma_color_reads_ahead(world.list@, s, depth + 1, rest, all);
                                    assert(point_at(all, depth as int) == p);
                                    assert(r == color_spec(world.list@, ray, depth as int, all));
                                }
                                r
                            },
                        }
                    },
                }
            }
        },
    }
}

} // verus!
