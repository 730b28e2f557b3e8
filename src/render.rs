//! Filling a row-major framebuffer of 4 bytes per pixel (R, G, B, unused).
//!
//! Row 0 of the buffer is the top of the image: buffer row `row` shows the
//! scene at height `v = (height - 1 - row) / height`.
use vstd::prelude::*;
use rand::rngs::SmallRng;
use crate::camera::{camera_ray, Camera};
use crate::fixed::{fadd, fdiv, fint, fsqrt, fx_add, fx_div, fx_int, fx_sqrt, SCALE};
use crate::hitable::{HitableList, Sphere};
use crate::random::{in_unit_ball, random_fraction, seeded_rng};
use crate::ray::Ray;
use crate::trace::{calc_color, calc_color_with, color_spec, point_at};
use crate::vec3::{v3, vadd, Vec3};

verus! {

/// Tiles across the image.
pub const HORIZONTAL_PARTITION: usize = 4;

/// Tiles down the image.
pub const VERTICAL_PARTITION: usize = 4;

/// A rectangle of pixels: the image is `x` by `y`, the tile `nx` by `ny`
/// from column `start_x` and row `start_y`.
#[derive(Clone, Copy, Debug, PartialEq, Eq, Structural)]
pub struct Chunk {
    pub x: usize,
    pub y: usize,
    pub nx: usize,
    pub ny: usize,
    pub start_x: usize,
    pub start_y: usize,
}

impl Chunk {
    /// The tile lies inside the image, and `len` bytes hold the image.
    pub open spec fn fits(self, len: int) -> bool {
        &&& self.x >= 1
        &&& self.y >= 1
        &&& self.start_x + self.nx <= self.x
        &&& self.start_y + self.ny <= self.y
        &&& len == self.x * self.y * 4
    }

    /// Pixel `p` (counted row-major) lies in the tile.
    pub open spec fn holds(self, p: int) -> bool {
        &&& self.start_x <= p % (self.x as int) < self.start_x + self.nx
        &&& self.start_y <= p / (self.x as int) < self.start_y + self.ny
    }
}

/// Red, green and blue bytes of pixel `p`.
pub open spec fn pixel_rgb(buf: Seq<u8>, p: int) -> (u8, u8, u8) {
    (buf[4 * p], buf[4 * p + 1], buf[4 * p + 2])
}

/// The unused fourth byte of pixel `p`.
pub open spec fn pixel_pad(buf: Seq<u8>, p: int) -> u8 {
    buf[4 * p + 3]
}

/// `floor(255.99 c)` for `c` brought into `[0, 1]`.
pub open spec fn quantize_spec(c: int) -> int {
    let v = if c < 0 {
        0
    } else if c > SCALE {
        SCALE as int
    } else {
        c
    };
    (v * 25599) / (100 * SCALE)
}

/// Gamma 2: the square root, then `quantize_spec`.
pub open spec fn gamma_spec(c: int) -> int {
    quantize_spec(fsqrt(c))
}

pub open spec fn rgb_of(c: Vec3) -> (u8, u8, u8) {
    (quantize_spec(c.x as int) as u8, quantize_spec(c.y as int) as u8, quantize_spec(c.z as int) as u8)
}

/// The bytes of the average of `samples` colors summing to `sum`, gamma
/// corrected.
pub open spec fn pixel_bytes_spec(sum: Vec3, samples: int) -> (u8, u8, u8) {
    let n = fint(samples);
    (
        gamma_spec(fdiv(sum.x as int, n)) as u8,
        gamma_spec(fdiv(sum.y as int, n)) as u8,
        gamma_spec(fdiv(sum.z as int, n)) as u8,
    )
}

/// `n / d` as a scalar, for whole numbers.
pub open spec fn frac(n: int, d: int) -> int {
    fdiv(fint(n), fint(d))
}

/// The unjittered ray through the lower left corner of a pixel.
pub open spec fn pixel_ray(cam: Camera, width: int, height: int, col: int, row: int) -> Ray {
    camera_ray(cam, frac(col, width), frac(height - 1 - row, height))
}

pub fn quantize(c: i64) -> (r: u8)
    ensures
        r == quantize_spec(c as int),
{
    let v: i64 = if c < 0 {
        0
    } else if c > SCALE {
        SCALE
    } else {
        c
    };
    assert(v * 25599 / (100 * SCALE) <= 255) by (nonlinear_arith)
        requires
            0 <= v <= SCALE,
    ;
    assert(v * 25599 / (100 * SCALE) >= 0) by (nonlinear_arith)
        requires
            0 <= v <= SCALE,
    ;
    ((v * 25599) / (100 * SCALE)) as u8
}

pub fn gamma_quantize(c: i64) -> (r: u8)
    ensures
        r == gamma_spec(c as int),
{
    quantize(fx_sqrt(c))
}

/// Average of `samples` colors summing to `sum`, gamma corrected, as bytes.
pub fn pixel_bytes(sum: Vec3, samples: u8) -> (r: (u8, u8, u8))
    requires
        samples >= 1,
    ensures
        r == pixel_bytes_spec(sum, samples as int),
{
    let n = fx_int(samples as i64);
    (gamma_quantize(fx_div(sum.x, n)), gamma_quantize(fx_div(sum.y, n)), gamma_quantize(fx_div(sum.z, n)))
}

/// The ray through pixel `(col, row)` jittered by `j`, two fractions in
/// `[0, SCALE)` added to the column and to the scene row.
pub open spec fn jitter_ray(cam: Camera, width: int, height: int, col: int, row: int, j: (i64, i64)) -> Ray {
    camera_ray(
        cam,
        fdiv(fadd(fint(col), j.0 as int), fint(width)),
        fdiv(fadd(fint(height - 1 - row), j.1 as int), fint(height)),
    )
}

/// Sum of the colors of the first `n` samples of a pixel, sample `i`
/// jittered by `jitter[i]` and scattering with `points[i]`.
pub open spec fn sample_sum(
    world: Seq<Sphere>,
    cam: Camera,
    width: int,
    height: int,
    col: int,
    row: int,
    jitter: Seq<(i64, i64)>,
    points: Seq<Seq<Vec3>>,
    n: int,
) -> Vec3
    decreases n,
{
    if n <= 0 {
        v3(0, 0, 0)
    } else {
        vadd(
            sample_sum(world, cam, width, height, col, row, jitter, points, n - 1),
            color_spec(world, jitter_ray(cam, width, height, col, row, jitter[n - 1]), 0, points[n - 1]),
        )
    }
}

/// The bytes of a pixel: its samples averaged and gamma corrected.
pub open spec fn pixel_spec(
    world: Seq<Sphere>,
    cam: Camera,
    width: int,
    height: int,
    col: int,
    row: int,
    jitter: Seq<(i64, i64)>,
    points: Seq<Seq<Vec3>>,
) -> (u8, u8, u8) {
    pixel_bytes_spec(sample_sum(world, cam, width, height, col, row, jitter, points, jitter.len() as int), jitter.len() as int)
}

/// `samples` jitters in `[0, SCALE)` and as many sequences of points in the
/// unit ball.
pub open spec fn draws_ok(jitter: Seq<(i64, i64)>, points: Seq<Seq<Vec3>>, samples: int) -> bool {
    &&& jitter.len() == samples
    &&& points.len() == samples
    &&& forall|i: int| 0 <= i < samples ==> 0 <= (#[trigger] jitter[i]).0 < SCALE && 0 <= jitter[i].1 < SCALE
    &&& forall|i: int, k: int| 0 <= i < samples ==> in_unit_ball(#[trigger] point_at(points[i], k))
}

/// `rgb` is what pixel `(col, row)` shows for some valid draws.
pub open spec fn sampled_at(
    world: Seq<Sphere>,
    cam: Camera,
    width: int,
    height: int,
    samples: int,
    col: int,
    row: int,
    rgb: (u8, u8, u8),
) -> bool {
    exists|jitter: Seq<(i64, i64)>, points: Seq<Seq<Vec3>>|
        draws_ok(jitter, points, samples) && rgb == #[trigger] pixel_spec(
            world,
            cam,
            width,
            height,
            col,
            row,
            jitter,
            points,
        )
}

/// `rgb` is what pixel `p`, counted row-major, shows for some valid draws.
pub open spec fn sampled(
    world: Seq<Sphere>,
    cam: Camera,
    width: int,
    height: int,
    samples: int,
    p: int,
    rgb: (u8, u8, u8),
) -> bool {
    sampled_at(world, cam, width, height, samples, p % width, p / width, rgb)
}

proof fn lemma_sample_sum_prefix(
    world: Seq<Sphere>,
    cam: Camera,
    width: int,
    height: int,
    col: int,
    row: int,
    j1: Seq<(i64, i64)>,
    p1: Seq<Seq<Vec3>>,
    j2: Seq<(i64, i64)>,
    p2: Seq<Seq<Vec3>>,
    n: int,
)
    requires
        forall|i: int| 0 <= i < n ==> j1[i] == j2[i] && p1[i] == p2[i],
    ensures
        sample_sum(world, cam, width, height, col, row, j1, p1, n) == sample_sum(
            world,
            cam,
            width,
            height,
            col,
            row,
            j2,
            p2,
            n,
        ),
    decreases n,
{
    if n > 0 {
        lemma_sample_sum_prefix(world, cam, width, height, col, row, j1, p1, j2, p2, n - 1);
        assert(j1[n - 1] == j2[n - 1] && p1[n - 1] == p2[n - 1]);
    }
}

/// The ray of sample `(a, b)` of pixel `(col, row)`.
fn jittered_ray(camera: &Camera, col: usize, row: usize, width: usize, height: usize, a: i64, b: i64) -> (r: Ray)
    requires
        1 <= width <= usize::MAX / 4,
        1 <= height <= usize::MAX / 4,
        col < width,
        row < height,
    ensures
        r == jitter_ray(*camera, width as int, height as int, col as int, row as int, (a, b)),
{
    let u = fx_div(fx_add(fx_int(col as i64), a), fx_int(width as i64));
    let v = fx_div(fx_add(fx_int((height - 1 - row) as i64), b), fx_int(height as i64));
    camera.get_ray(u, v)
}

/// The bytes of pixel `(col, row)` with the drawn values given: sample `i`
/// is jittered by `jitter[i]` and scatters with `points[i]`.
pub fn pixel_with(
    camera: &Camera,
    world: &HitableList,
    col: usize,
    row: usize,
    width: usize,
    height: usize,
    jitter: &Vec<(i64, i64)>,
    points: &Vec<Vec<Vec3>>,
) -> (r: (u8, u8, u8))
    requires
        1 <= width <= usize::MAX / 4,
        1 <= height <= usize::MAX / 4,
        col < width,
        row < height,
        1 <= jitter.len() <= 255,
        points.len() == jitter.len(),
    ensures
        r == pixel_spec(
            world.list@,
            *camera,
            width as int,
            height as int,
            col as int,
            row as int,
            jitter@,
            points@.map_values(|v: Vec<Vec3>| v@),
        ),
{
    let ghost pts = points@.map_values(|v: Vec<Vec3>| v@);
    let mut sum = Vec3::new(0, 0, 0);
    let mut s: usize = 0;
    while s < jitter.len()
        invariant
            1 <= width <= usize::MAX / 4,
            1 <= height <= usize::MAX / 4,
            col < width,
            row < height,
            points.len() == jitter.len(),
            pts == points@.map_values(|v: Vec<Vec3>| v@),
            s <= jitter.len(),
            sum == sample_sum(world.list@, *camera, width as int, height as int, col as int, row as int, jitter@, pts, s as int),
        decreases jitter.len() - s,
    {
        let (a, b) = jitter[s];
        let ray = jittered_ray(camera, col, row, width, height, a, b);
        assert(pts[s as int] == points@[s as int]@);
        sum.add_assign(calc_color_with(ray, world, 0, &points[s]));
        s = s + 1;
    }
    pixel_bytes(sum, jitter.len() as u8)
}

/// The bytes of pixel `(col, row)` from `samples` jittered rays, with the
/// jitter and the scattering drawn from `rng`: `pixel_with`'s result for
/// some draws in range.
pub fn sample_pixel(
    camera: &Camera,
    world: &HitableList,
    col: usize,
    row: usize,
    width: usize,
    height: usize,
    samples: u8,
    rng: &mut SmallRng,
) -> (r: (u8, u8, u8))
    requires
        1 <= width <= usize::MAX / 4,
        1 <= height <= usize::MAX / 4,
        col < width,
        row < height,
        samples >= 1,
    ensures
        sampled_at(world.list@, *camera, width as int, height as int, samples as int, col as int, row as int, r),
{
    let ghost jitter = Seq::<(i64, i64)>::empty();
    let ghost points = Seq::<Seq<Vec3>>::empty();
    let mut sum = Vec3::new(0, 0, 0);
    let mut s: u8 = 0;
    while s < samples
        invariant
            1 <= width <= usize::MAX / 4,
            1 <= height <= usize::MAX / 4,
            col < width,
            row < height,
            s <= samples,
            draws_ok(jitter, points, s as int),
            sum == sample_sum(world.list@, *camera, width as int, height as int, col as int, row as int, jitter, points, s as int),
        decreases samples - s,
    {
        let a = random_fraction(rng);
        let b = random_fraction(rng);
        let ray = jittered_ray(camera, col, row, width, height, a, b);
        let c = calc_color(ray, world, 0, rng);
        proof {
            let pts = choose|pts: Seq<Vec3>|
                (forall|i: int| in_unit_ball(#[trigger] point_at(pts, i)))
                && c == #[trigger] color_spec(world.list@, ray, 0, pts);
            let j2 = jitter.push((a, b));
            let p2 = points.push(pts);
            lemma_sample_sum_prefix(
                world.list@, *camera, width as int, height as int, col as int, row as int,
                jitter, points, j2, p2, s as int,
            );
            assert(j2[s as int] == (a, b) && p2[s as int] == pts);
            assert forall|i: int, k: int| 0 <= i < s + 1 implies in_unit_ball(#[trigger] point_at(p2[i], k)) by {
                if i < s {
                    assert(p2[i] == points[i]);
                }
            }
            jitter = j2;
            points = p2;
        }
        sum.add_assign(c);
        s = s + 1;
    }
    let r = pixel_bytes(sum, samples);
    assert(draws_ok(jitter, points, samples as int) && r == pixel_spec(
        world.list@, *camera, width as int, height as int, col as int, row as int, jitter, points,
    ));
    r
}

/// Writes the color bytes of pixel `p`, leaving every other byte alone.
pub(crate) fn write_pixel(buf: &mut Vec<u8>, p: usize, rgb: (u8, u8, u8))
    requires
        4 * p + 3 < old(buf).len(),
    ensures
        final(buf).len() == old(buf).len(),
        pixel_rgb(final(buf)@, p as int) == rgb,
        forall|k: int|
            0 <= k < old(buf).len() && !(4 * p <= k < 4 * p + 3) ==> final(buf)@[k] == old(buf)@[k],
{
    buf.set(4 * p, rgb.0);
    buf.set(4 * p + 1, rgb.1);
    buf.set(4 * p + 2, rgb.2);
}

/// Renders one tile with `samples` jittered rays per pixel, each pixel as
/// `sample_pixel` does. Only the color bytes of the tile's own pixels change.
pub fn render_chunk(
    buf: &mut Vec<u8>,
    chunk: &Chunk,
    camera: &Camera,
    world: &HitableList,
    samples: u8,
    rng: &mut SmallRng,
)
    requires
        chunk.fits(old(buf).len() as int),
        samples >= 1,
    ensures
        final(buf).len() == old(buf).len(),
        forall|p: int|
            0 <= p < chunk.x * chunk.y && !chunk.holds(p) ==> #[trigger] pixel_rgb(final(buf)@, p)
                == pixel_rgb(old(buf)@, p),
        forall|p: int|
            0 <= p < chunk.x * chunk.y ==> #[trigger] pixel_pad(final(buf)@, p) == pixel_pad(old(buf)@, p),
        forall|p: int|
            0 <= p < chunk.x * chunk.y && chunk.holds(p) ==> sampled(
                world.list@,
                *camera,
                chunk.x as int,
                chunk.y as int,
                samples as int,
                p,
                #[trigger] pixel_rgb(final(buf)@, p),
            ),
{
    let ghost start = buf@;
    let width = chunk.x;
    let height = chunk.y;
    proof {
        assert(width <= width * height && height <= width * height) by (nonlinear_arith)
            requires
                width >= 1,
                height >= 1,
        ;
    }
    let mut row = chunk.start_y;
    while row < chunk.start_y + chunk.ny
        invariant
            chunk.fits(start.len() as int),
            width == chunk.x,
            height == chunk.y,
            buf.len() == start.len(),
            chunk.start_y <= row <= chunk.start_y + chunk.ny,
            samples >= 1,
            width <= usize::MAX / 4,
            height <= usize::MAX / 4,
            forall|k: int|
                0 <= k < start.len() && k % 4 == 3 ==> buf@[k] == start[k],
            forall|k: int|
                0 <= k < start.len() && !chunk.holds(k / 4) ==> buf@[k] == start[k],
            forall|q: int|
                0 <= q < width * height && chunk.holds(q) && q / (width as int) < row ==> sampled(
                    world.list@,
                    *camera,
                    width as int,
                    height as int,
                    samples as int,
                    q,
                    #[trigger] pixel_rgb(buf@, q),
                ),
        decreases chunk.start_y + chunk.ny - row,
    {
        let mut col = chunk.start_x;
        while col < chunk.start_x + chunk.nx
            invariant
                chunk.fits(start.len() as int),
                width == chunk.x,
                height == chunk.y,
                buf.len() == start.len(),
                chunk.start_y <= row < chunk.start_y + chunk.ny,
                chunk.start_x <= col <= chunk.start_x + chunk.nx,
                samples >= 1,
                width <= usize::MAX / 4,
                height <= usize::MAX / 4,
                forall|k: int|
                    0 <= k < start.len() && k % 4 == 3 ==> buf@[k] == start[k],
                forall|k: int|
                    0 <= k < start.len() && !chunk.holds(k / 4) ==> buf@[k] == start[k],
                forall|q: int|
                    0 <= q < width * height && chunk.holds(q) && (q / (width as int) < row || (q / (width as int)
                        == row && q % (width as int) < col)) ==> sampled(
                        world.list@,
                        *camera,
                        width as int,
                        height as int,
                        samples as int,
                        q,
                        #[trigger] pixel_rgb(buf@, q),
                    ),
            decreases chunk.start_x + chunk.nx - col,
        {
            proof {
                lemma_pixel_index(width as int, height as int, row as int, col as int);
            }
            let rgb = sample_pixel(camera, world, col, row, width, height, samples, rng);
            let p = row * width + col;
            let ghost before = buf@;
            write_pixel(buf, p, rgb);
            assert forall|q: int| 0 <= q < width * height && q != p implies #[trigger] pixel_rgb(buf@, q)
                == pixel_rgb(before, q) by {
                assert(buf@[4 * q] == before[4 * q]);
            }
            assert forall|q: int|
                0 <= q < width * height && chunk.holds(q) && (q / (width as int) < row || (q / (width as int)
                    == row && q % (width as int) < col + 1)) implies sampled(
                world.list@,
                *camera,
                width as int,
                height as int,
                samples as int,
                q,
                #[trigger] pixel_rgb(buf@, q),
            ) by {
                if q != p {
                    vstd::arithmetic::div_mod::lemma_fundamental_div_mod(q, width as int);
                    assert((width as int) * (row as int) == (row as int) * (width as int)) by (nonlinear_arith);
                    assert(!(q / (width as int) == row && q % (width as int) == col));
                    assert(sampled(world.list@, *camera, width as int, height as int, samples as int, q, pixel_rgb(before, q)));
                }
            }
            proof {
                assert(chunk.holds(p as int));
                assert forall|k: int| 0 <= k < start.len() && k % 4 == 3 implies buf@[k] == start[k] by {
                    if 4 * p <= k < 4 * p + 3 {
                        lemma_in_pixel(p as int, k);
                    }
                }
                assert forall|k: int| 0 <= k < start.len() && !chunk.holds(k / 4) implies buf@[k] == start[k] by {
                    if 4 * p <= k < 4 * p + 3 {
                        lemma_in_pixel(p as int, k);
                    }
                }
            }
            col = col + 1;
        }
        row = row + 1;
    }
    proof {
        assert forall|p: int| 0 <= p < chunk.x * chunk.y && !chunk.holds(p) implies #[trigger] pixel_rgb(buf@, p)
            == pixel_rgb(start, p) by {
            lemma_byte_pixel(p);
        }
        assert forall|p: int| 0 <= p < chunk.x * chunk.y implies #[trigger] pixel_pad(buf@, p) == pixel_pad(start, p) by {
            lemma_byte_pixel(p);
        }
    }
}

/// The pixel at `(col, row)` is pixel `row * width + col`, within the image.
pub(crate) proof fn lemma_pixel_index(width: int, height: int, row: int, col: int)
    requires
        0 <= row < height,
        0 <= col < width,
    ensures
        0 <= row * width + col < width * height,
        4 * (row * width + col) + 3 < width * height * 4,
        (row * width + col) / width == row,
        (row * width + col) % width == col,
{
    assert(row * width + col < width * height) by (nonlinear_arith)
        requires
            0 <= row < height,
            0 <= col < width,
    ;
    assert(0 <= row * width) by (nonlinear_arith)
        requires
            0 <= row,
            0 <= col < width,
    ;
    vstd::arithmetic::div_mod::lemma_fundamental_div_mod_converse(row * width + col, width, row, col);
}

/// First column (or row) of tile `k` when `len` columns are cut into `parts`
/// tiles of equal size, give or take one.
pub open spec fn tile_start(k: int, len: int, parts: int) -> int {
    k * len / parts
}

/// Tile bounds never decrease, start at 0 and end at `len`.
pub proof fn lemma_tile_start_ordered(a: int, b: int, len: int, parts: int)
    requires
        0 <= a <= b <= parts,
        parts >= 1,
        len >= 0,
    ensures
        0 <= tile_start(a, len, parts) <= tile_start(b, len, parts) <= len,
        tile_start(0, len, parts) == 0,
        tile_start(parts, len, parts) == len,
{
    assert(0 <= a * len <= b * len <= parts * len) by (nonlinear_arith)
        requires
            0 <= a <= b <= parts,
            len >= 0,
    ;
    vstd::arithmetic::div_mod::lemma_div_is_ordered(a * len, b * len, parts);
    vstd::arithmetic::div_mod::lemma_div_is_ordered(b * len, parts * len, parts);
    vstd::arithmetic::div_mod::lemma_div_pos_is_pos(a * len, parts);
    vstd::arithmetic::div_mod::lemma_div_by_multiple(len, parts);
    assert(parts * len == len * parts) by (nonlinear_arith);
    assert(0 * len == 0);
}

proof fn lemma_tile_found(len: int, parts: int, c: int, m: int)
    requires
        parts >= 1,
        0 <= m < parts,
        0 <= c,
        tile_start(m, len, parts) <= c < len,
    ensures
        exists|k: int|
            0 <= k < parts && tile_start(k, len, parts) <= c < #[trigger] tile_start(k + 1, len, parts),
    decreases parts - m,
{
    lemma_tile_start_ordered(m, m + 1, len, parts);
    if c < tile_start(m + 1, len, parts) {
        assert(tile_start(m, len, parts) <= c < tile_start(m + 1, len, parts));
    } else if m + 1 < parts {
        lemma_tile_found(len, parts, c, m + 1);
    } else {
        lemma_tile_start_ordered(parts, parts, len, parts);
    }
}

/// The tiles cut `[0, len)` into consecutive runs: every column lies in
/// exactly one tile.
pub proof fn lemma_tiles_partition(len: int, parts: int, c: int)
    requires
        parts >= 1,
        0 <= c < len,
    ensures
        exists|k: int|
            0 <= k < parts && tile_start(k, len, parts) <= c < #[trigger] tile_start(k + 1, len, parts),
        forall|k1: int, k2: int|
            0 <= k1 < parts && 0 <= k2 < parts && tile_start(k1, len, parts) <= c < #[trigger] tile_start(
                k1 + 1,
                len,
                parts,
            ) && tile_start(k2, len, parts) <= c < #[trigger] tile_start(k2 + 1, len, parts) ==> k1 == k2,
{
    lemma_tile_start_ordered(0, 0, len, parts);
    lemma_tile_found(len, parts, c, 0);
    assert forall|k1: int, k2: int|
        0 <= k1 < parts && 0 <= k2 < parts && tile_start(k1, len, parts) <= c < #[trigger] tile_start(
            k1 + 1,
            len,
            parts,
        ) && tile_start(k2, len, parts) <= c < #[trigger] tile_start(k2 + 1, len, parts) implies k1 == k2 by {
        if k1 < k2 {
            lemma_tile_start_ordered(k1 + 1, k2, len, parts);
        } else if k2 < k1 {
            lemma_tile_start_ordered(k2 + 1, k1, len, parts);
        }
    }
}

fn tile_bound(k: usize, len: usize, parts: usize) -> (r: usize)
    requires
        1 <= parts,
        k <= parts,
    ensures
        r == tile_start(k as int, len as int, parts as int),
        r <= len,
{
    proof {
        lemma_tile_start_ordered(k as int, parts as int, len as int, parts as int);
        assert(k * len <= parts * len) by (nonlinear_arith)
            requires
                k <= parts,
        ;
        assert(parts * len <= 0xffff_ffff_ffff_ffff * 0xffff_ffff_ffff_ffff) by (nonlinear_arith)
            requires
                parts <= 0xffff_ffff_ffff_ffff,
                len <= 0xffff_ffff_ffff_ffff,
        ;
    }
    ((k as u128 * len as u128) / parts as u128) as usize
}

/// Renders the whole image tile by tile, `HORIZONTAL_PARTITION` tiles across
/// and `VERTICAL_PARTITION` down, each with a generator of its own seeded by
/// the tile's number. Every pixel is rendered as `sample_pixel` does.
pub fn render(buf: &mut Vec<u8>, width: usize, height: usize, samples: u8, camera: &Camera, world: &HitableList)
    requires
        width >= 1,
        height >= 1,
        samples >= 1,
        old(buf).len() == width * height * 4,
    ensures
        final(buf).len() == old(buf).len(),
        forall|p: int|
            0 <= p < width * height ==> #[trigger] pixel_pad(final(buf)@, p) == pixel_pad(old(buf)@, p),
        forall|p: int|
            0 <= p < width * height ==> sampled(
                world.list@,
                *camera,
                width as int,
                height as int,
                samples as int,
                p,
                #[trigger] pixel_rgb(final(buf)@, p),
            ),
{
    let ghost start = buf@;
    let ghost w = width as int;
    let ghost h = height as int;
    let ghost hp = HORIZONTAL_PARTITION as int;
    let ghost vp = VERTICAL_PARTITION as int;
    let mut j: usize = 0;
    while j < VERTICAL_PARTITION
        invariant
            width >= 1,
            height >= 1,
            samples >= 1,
            w == width,
            h == height,
            hp == HORIZONTAL_PARTITION,
            vp == VERTICAL_PARTITION,
            buf.len() == start.len(),
            start.len() == width * height * 4,
            j <= VERTICAL_PARTITION,
            forall|p: int| 0 <= p < width * height ==> #[trigger] pixel_pad(buf@, p) == pixel_pad(start, p),
            forall|q: int|
                0 <= q < width * height && q / w < tile_start(j as int, h, vp) ==> sampled(
                    world.list@,
                    *camera,
                    w,
                    h,
                    samples as int,
                    q,
                    #[trigger] pixel_rgb(buf@, q),
                ),
        decreases VERTICAL_PARTITION - j,
    {
        let mut i: usize = 0;
        while i < HORIZONTAL_PARTITION
            invariant
                width >= 1,
                height >= 1,
                samples >= 1,
                w == width,
                h == height,
                hp == HORIZONTAL_PARTITION,
                vp == VERTICAL_PARTITION,
                buf.len() == start.len(),
                start.len() == width * height * 4,
                j < VERTICAL_PARTITION,
                i <= HORIZONTAL_PARTITION,
                forall|p: int| 0 <= p < width * height ==> #[trigger] pixel_pad(buf@, p) == pixel_pad(start, p),
                forall|q: int|
                    0 <= q < width * height && (q / w < tile_start(j as int, h, vp) || (tile_start(j as int, h, vp)
                        <= q / w < tile_start(j + 1, h, vp) && q % w < tile_start(i as int, w, hp))) ==> sampled(
                        world.list@,
                        *camera,
                        w,
                        h,
                        samples as int,
                        q,
                        #[trigger] pixel_rgb(buf@, q),
                    ),
            decreases HORIZONTAL_PARTITION - i,
        {
            let x0 = tile_bound(i, width, HORIZONTAL_PARTITION);
            let x1 = tile_bound(i + 1, width, HORIZONTAL_PARTITION);
            let y0 = tile_bound(j, height, VERTICAL_PARTITION);
            let y1 = tile_bound(j + 1, height, VERTICAL_PARTITION);
            proof {
                lemma_tile_start_ordered(i as int, i + 1, w, hp);
                lemma_tile_start_ordered(j as int, j + 1, h, vp);
            }
            let chunk = Chunk { x: width, y: height, nx: x1 - x0, ny: y1 - y0, start_x: x0, start_y: y0 };
            let mut rng = seeded_rng((j * HORIZONTAL_PARTITION + i) as u64);
            let ghost before = buf@;
            render_chunk(buf, &chunk, camera, world, samples, &mut rng);
            assert forall|q: int|
                0 <= q < width * height && (q / w < tile_start(j as int, h, vp) || (tile_start(j as int, h, vp)
                    <= q / w < tile_start(j + 1, h, vp) && q % w < tile_start(i + 1, w, hp))) implies sampled(
                world.list@,
                *camera,
                w,
                h,
                samples as int,
                q,
                #[trigger] pixel_rgb(buf@, q),
            ) by {
                if !chunk.holds(q) {
                    assert(pixel_rgb(buf@, q) == pixel_rgb(before, q));
                    assert(sampled(world.list@, *camera, w, h, samples as int, q, pixel_rgb(before, q)));
                }
            }
            i = i + 1;
        }
        proof {
            lemma_tile_start_ordered(hp, hp, w, hp);
            assert forall|q: int|
                0 <= q < width * height && q / w < tile_start(j + 1, h, vp) implies sampled(
                world.list@,
                *camera,
                w,
                h,
                samples as int,
                q,
                #[trigger] pixel_rgb(buf@, q),
            ) by {
                vstd::arithmetic::div_mod::lemma_mod_bound(q, w);
            }
        }
        j = j + 1;
    }
    proof {
        lemma_tile_start_ordered(vp, vp, h, vp);
        assert forall|q: int| 0 <= q < width * height implies sampled(
            world.list@,
            *camera,
            w,
            h,
            samples as int,
            q,
            #[trigger] pixel_rgb(buf@, q),
        ) by {
            vstd::arithmetic::div_mod::lemma_fundamental_div_mod(q, w);
            vstd::arithmetic::div_mod::lemma_mod_bound(q, w);
            assert(q / w < h) by (nonlinear_arith)
                requires
                    q == w * (q / w) + q % w,
                    0 <= q % w,
                    q < w * h,
                    w >= 1,
            ;
        }
    }
}

/// A byte among the first three of pixel `p` is a color byte of `p`.
proof fn lemma_in_pixel(p: int, k: int)
    requires
        0 <= p,
        4 * p <= k < 4 * p + 3,
    ensures
        k / 4 == p,
        k % 4 != 3,
{
    vstd::arithmetic::div_mod::lemma_fundamental_div_mod_converse(k, 4, p, k - 4 * p);
}

/// The bytes of pixel `p` are `4p` to `4p + 3`.
proof fn lemma_byte_pixel(p: int)
    requires
        0 <= p,
    ensures
        (4 * p) / 4 == p,
        (4 * p + 1) / 4 == p,
        (4 * p + 2) / 4 == p,
        (4 * p + 3) / 4 == p,
        (4 * p + 3) % 4 == 3,
{
    vstd::arithmetic::div_mod::lemma_fundamental_div_mod_converse(4 * p, 4, p, 0);
    vstd::arithmetic::div_mod::lemma_fundamental_div_mod_converse(4 * p + 1, 4, p, 1);
    vstd::arithmetic::div_mod::lemma_fundamental_div_mod_converse(4 * p + 2, 4, p, 2);
    vstd::arithmetic::div_mod::lemma_fundamental_div_mod_converse(4 * p + 3, 4, p, 3);
}

} // verus!
