//! Random draws, taken from `rand`'s small generator.
use vstd::prelude::*;
use rand::rngs::SmallRng;
use rand::{Rng, SeedableRng};
use crate::fixed::SCALE;
use crate::vec3::{v3, vdot, Vec3};

verus! {

#[verifier::external_type_specification]
#[verifier::external_body]
pub struct ExSmallRng(SmallRng);

/// Attempts made by `random_point_in_unit_sphere` before it settles for the center.
pub const MAX_TRIES: u32 = 64;

/// Relies on `SeedableRng::seed_from_u64` for `SmallRng`: a generator whose
/// stream is fixed by the seed.
#[verifier::external_body]
pub(crate) fn seeded_rng(seed: u64) -> SmallRng {
    SmallRng::seed_from_u64(seed)
}

/// Relies on `Rng::gen_range` over `0..SCALE`: a value in that range.
#[verifier::external_body]
pub(crate) fn random_fraction(rng: &mut SmallRng) -> (r: i64)
    ensures
        0 <= r < SCALE,
{
    rng.gen_range(0..SCALE)
}

/// Strictly inside the unit ball, with every component in `[-1, 1)`.
pub open spec fn in_unit_ball(p: Vec3) -> bool {
    &&& vdot(p, p) < SCALE
    &&& -SCALE <= p.x < SCALE
    &&& -SCALE <= p.y < SCALE
    &&& -SCALE <= p.z < SCALE
}

/// The center lies in the unit ball.
pub proof fn lemma_center_in_ball()
    ensures
        in_unit_ball(v3(0, 0, 0)),
{
    assert(0int / 65536 == 0);
}

/// The point `(2a - 1, 2b - 1, 2c - 1)` for draws in `[0, 1)`, if it lies
/// strictly inside the unit ball.
pub open spec fn candidate_spec(a: int, b: int, c: int) -> Option<Vec3> {
    let p = v3(2 * a - SCALE, 2 * b - SCALE, 2 * c - SCALE);
    if vdot(p, p) < SCALE {
        Some(p)
    } else {
        None
    }
}

pub open spec fn draw_in_range(d: (i64, i64, i64)) -> bool {
    0 <= d.0 < SCALE && 0 <= d.1 < SCALE && 0 <= d.2 < SCALE
}

pub open spec fn rejected(d: (i64, i64, i64)) -> bool {
    candidate_spec(d.0 as int, d.1 as int, d.2 as int) is None
}

/// The first accepted candidate among `draws`; the center if none is.
pub open spec fn first_accepted(draws: Seq<(i64, i64, i64)>) -> Vec3
    decreases draws.len(),
{
    if draws.len() == 0 {
        v3(0, 0, 0)
    } else {
        match candidate_spec(draws[0].0 as int, draws[0].1 as int, draws[0].2 as int) {
            Some(p) => p,
            None => first_accepted(draws.drop_first()),
        }
    }
}

proof fn lemma_first_after_rejects(d: Seq<(i64, i64, i64)>, x: (i64, i64, i64))
    requires
        forall|i: int| 0 <= i < d.len() ==> rejected(#[trigger] d[i]),
    ensures
        first_accepted(d.push(x)) == match candidate_spec(x.0 as int, x.1 as int, x.2 as int) {
            Some(p) => p,
            None => v3(0, 0, 0),
        },
        first_accepted(d) == v3(0, 0, 0),
    decreases d.len(),
{
    if d.len() > 0 {
        assert(rejected(d[0]));
        assert(d.push(x).drop_first() =~= d.drop_first().push(x));
        assert(d.push(x)[0] == d[0]);
        assert forall|i: int| 0 <= i < d.drop_first().len() implies rejected(#[trigger] d.drop_first()[i]) by {
            assert(d.drop_first()[i] == d[i + 1]);
        }
        lemma_first_after_rejects(d.drop_first(), x);
    } else {
        assert(d.push(x).drop_first() =~= Seq::<(i64, i64, i64)>::empty());
        assert(d.push(x)[0] == x);
        assert(first_accepted(d.push(x).drop_first()) == v3(0, 0, 0));
    }
}

/// The candidate point for three draws in `[0, SCALE)`.
pub fn candidate(a: i64, b: i64, c: i64) -> (r: Option<Vec3>)
    requires
        0 <= a < SCALE,
        0 <= b < SCALE,
        0 <= c < SCALE,
    ensures
        r == candidate_spec(a as int, b as int, c as int),
{
    let p = Vec3::new(2 * a - SCALE, 2 * b - SCALE, 2 * c - SCALE);
    if p.sq_len() < SCALE {
        Some(p)
    } else {
        None
    }
}

/// Rejection sampling in the cube `[-1, 1)^3`: the first accepted candidate
/// of the triples drawn, drawing at most `MAX_TRIES` of them and stopping at
/// the first accepted; after `MAX_TRIES` rejections (probability below
/// `0.49^64`) the center.
pub fn random_point_in_unit_sphere(rng: &mut SmallRng) -> (r: Vec3)
    ensures
        in_unit_ball(r),
        exists|draws: Seq<(i64, i64, i64)>|
            1 <= draws.len() <= MAX_TRIES
            && (forall|i: int| 0 <= i < draws.len() ==> draw_in_range(#[trigger] draws[i]))
            && (forall|i: int| 0 <= i < draws.len() - 1 ==> rejected(#[trigger] draws[i]))
            && (draws.len() < MAX_TRIES ==> !rejected(draws.last()))
            && r == #[trigger] first_accepted(draws),
{
    let ghost draws = Seq::<(i64, i64, i64)>::empty();
    let mut tries: u32 = 0;
    proof {
        lemma_center_in_ball();
    }
    while tries < MAX_TRIES
        invariant
            tries <= MAX_TRIES,
            draws.len() == tries,
            forall|i: int| 0 <= i < draws.len() ==> draw_in_range(#[trigger] draws[i]),
            forall|i: int| 0 <= i < draws.len() ==> rejected(#[trigger] draws[i]),
            in_unit_ball(v3(0, 0, 0)),
        decreases MAX_TRIES - tries,
    {
        let a = random_fraction(rng);
        let b = random_fraction(rng);
        let c = random_fraction(rng);
        let ghost prev = draws;
        proof {
            draws = draws.push((a, b, c));
            lemma_first_after_rejects(prev, (a, b, c));
        }
        match candidate(a, b, c) {
            Some(p) => {
                assert(draws.last() == (a, b, c));
                assert(first_accepted(draws) == p);
                return p;
            },
            None => {},
        }
        tries = tries + 1;
    }
    proof {
        lemma_first_after_rejects(draws.drop_last(), draws.last());
        assert(draws.drop_last().push(draws.last()) =~= draws);
        assert(first_accepted(draws) == v3(0, 0, 0));
    }
    Vec3::new(0, 0, 0)
}

} // verus!
