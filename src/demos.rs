//! The demo scenes, each rendering into a framebuffer.
use vstd::prelude::*;
use crate::camera::{default_camera, Camera};
use crate::fixed::{fx_div, fx_int, SCALE};
use crate::hitable::{lemma_aimed_at_center, lemma_offset_misses, sphere_hit, HitableList, Sphere};
use crate::material::Material;
use rand::rngs::SmallRng;
use crate::ray::{ray_at, Ray};
use crate::render::{
    lemma_pixel_index, pixel_pad, pixel_ray, pixel_rgb, quantize, render, render_chunk, rgb_of, sampled, write_pixel,
    Chunk,
};
use crate::trace::{background, background_spec, normal_color, normal_color_spec, HALF, T_MAX};
use crate::vec3::{v3, vlength, vsub, vunit, Vec3};

verus! {

/// Center of the sphere of `SurfaceNormalSphere`: one unit ahead.
pub open spec fn ahead() -> Vec3 {
    v3(0, 0, -SCALE)
}

/// Parameter of the first meeting of `ray` with the sphere past the eye:
/// the roots are tried near to far in `(0, T_MAX)`, as `Sphere::hit` does;
/// `-1` where there is none.
pub open spec fn hit_sphere_spec(center: Vec3, radius: int, ray: Ray) -> int {
    match sphere_hit(Sphere { center, radius: radius as i64, material: None }, ray, 0, T_MAX as int) {
        Some(rec) => rec.t as int,
        None => -SCALE,
    }
}

/// The color of `SurfaceNormalSphere`: the unit normal as a color where the
/// ray meets the sphere ahead in front of the eye, else the background.
pub open spec fn surface_color_spec(ray: Ray) -> Vec3 {
    let t = hit_sphere_spec(ahead(), HALF as int, ray);
    let n = vsub(ray_at(ray, t), ahead());
    if t > 0 && vlength(n) != 0 {
        normal_color_spec(vunit(n))
    } else {
        background_spec(ray.direction)
    }
}

/// The bytes of pixel `p` of a `width`-wide image rendered without
/// sampling: by the sphere's normals, or by the background gradient alone.
pub open spec fn flat_pixel(normals: bool, width: int, height: int, p: int) -> (u8, u8, u8) {
    let ray = pixel_ray(default_camera(), width, height, p % width, p / width);
    rgb_of(if normals { surface_color_spec(ray) } else { background_spec(ray.direction) })
}

/// `ray_hit_sphere` on a ray of unit direction along `-z` aimed at the
/// center from outside gives the distance to the near surface; shown for
/// radii that are whole multiples of `1/256`, as for `Sphere::hit`.
pub proof fn lemma_ray_hit_sphere_aimed(center: Vec3, o: Vec3, d: int, k: int)
    requires
        1 <= k,
        256 * k < d <= 0x800_0000,
        -0x40_0000_0000 <= o.x <= 0x40_0000_0000,
        -0x40_0000_0000 <= o.y <= 0x40_0000_0000,
        -0x40_0000_0000 <= o.z <= 0x40_0000_0000,
        center == v3(o.x as int, o.y as int, o.z - d),
    ensures
        hit_sphere_spec(center, 256 * k, Ray { origin: o, direction: v3(0, 0, -SCALE) }) == d - 256 * k,
{
    let s = Sphere { center, radius: (256 * k) as i64, material: None };
    lemma_aimed_at_center(s, o, d, k, 0, T_MAX as int);
}

/// `ray_hit_sphere` reports no hit for a ray of unit direction along `-z`
/// whose offset from the center exceeds the radius, with the margin of
/// `lemma_offset_misses`.
pub proof fn lemma_ray_hit_sphere_offset(center: Vec3, radius: int, o: Vec3)
    requires
        -0x400_0000 <= o.x <= 0x400_0000,
        -0x400_0000 <= o.y <= 0x400_0000,
        -0x400_0000 <= o.z <= 0x400_0000,
        -0x400_0000 <= center.x <= 0x400_0000,
        -0x400_0000 <= center.y <= 0x400_0000,
        -0x400_0000 <= center.z <= 0x400_0000,
        0 <= radius <= 0x400_0000,
        (o.x - center.x) * (o.x - center.x) + (o.y - center.y) * (o.y - center.y) >= radius * radius + 2
            * SCALE,
    ensures
        hit_sphere_spec(center, radius, Ray { origin: o, direction: v3(0, 0, -SCALE) }) == -SCALE,
{
    let s = Sphere { center, radius: radius as i64, material: None };
    lemma_offset_misses(s, o, 0, T_MAX as int);
}

pub fn ray_hit_sphere(center: Vec3, radius: i64, ray: &Ray) -> (r: i64)
    ensures
        r == hit_sphere_spec(center, radius as int, *ray),
{
    match Sphere::new(center, radius).hit(ray, 0, T_MAX) {
        Some(rec) => rec.t,
        None => -SCALE,
    }
}

pub fn calculate_color(ray: &Ray) -> (r: Vec3)
    ensures
        r == surface_color_spec(*ray),
{
    let center = Vec3::new(0, 0, -SCALE);
    let t = ray_hit_sphere(center, HALF, ray);
    let n = ray.point_at_parameter(t).sub(center);
    if t > 0 && n.length() != 0 {
        normal_color(&n.unit_vector())
    } else {
        background(&ray.direction)
    }
}

/// The background gradient alone.
pub fn color(ray: &Ray) -> (r: Vec3)
    ensures
        r == background_spec(ray.direction),
{
    background(&ray.direction)
}

/// Renders every pixel with one unjittered ray of the default camera and no
/// gamma correction.
fn render_flat(buf: &mut Vec<u8>, width: usize, height: usize, normals: bool)
    requires
        width >= 1,
        height >= 1,
        old(buf).len() == width * height * 4,
    ensures
        final(buf).len() == old(buf).len(),
        forall|p: int|
            0 <= p < width * height ==> #[trigger] pixel_rgb(final(buf)@, p) == flat_pixel(
                normals,
                width as int,
                height as int,
                p,
            ),
        forall|p: int|
            0 <= p < width * height ==> #[trigger] pixel_pad(final(buf)@, p) == pixel_pad(old(buf)@, p),
{
    let chunk = Chunk { x: width, y: height, nx: width, ny: height, start_x: 0, start_y: 0 };
    render_flat_chunk(buf, &chunk, normals);
    proof {
        assert forall|p: int| 0 <= p < width * height implies chunk.holds(p) by {
            vstd::arithmetic::div_mod::lemma_fundamental_div_mod(p, width as int);
            let row = p / (width as int);
            let col = p % (width as int);
            assert(row < height) by (nonlinear_arith)
                requires
                    p == width * row + col,
                    0 <= col,
                    p < width * height,
                    width >= 1,
            ;
            vstd::arithmetic::div_mod::lemma_div_pos_is_pos(p, width as int);
        }
    }
}

/// Renders the pixels of one tile as `render_flat` does; every other color
/// byte, and every unused byte, keeps its value.
fn render_flat_chunk(buf: &mut Vec<u8>, chunk: &Chunk, normals: bool)
    requires
        chunk.fits(old(buf).len() as int),
    ensures
        final(buf).len() == old(buf).len(),
        forall|p: int|
            0 <= p < chunk.x * chunk.y && chunk.holds(p) ==> #[trigger] pixel_rgb(final(buf)@, p)
                == flat_pixel(normals, chunk.x as int, chunk.y as int, p),
        forall|p: int|
            0 <= p < chunk.x * chunk.y && !chunk.holds(p) ==> #[trigger] pixel_rgb(final(buf)@, p)
                == pixel_rgb(old(buf)@, p),
        forall|p: int|
            0 <= p < chunk.x * chunk.y ==> #[trigger] pixel_pad(final(buf)@, p) == pixel_pad(old(buf)@, p),
{
    let ghost start = buf@;
    let width = chunk.x;
    let height = chunk.y;
    proof {
        assert(width <= width * height && height <= width * height) by (nonlinear_arith)
            requires
                width >= 1,
                height >= 1,
        ;
    }
    let camera = Camera::default();
    let mut row = chunk.start_y;
    while row < chunk.start_y + chunk.ny
        invariant
            chunk.fits(start.len() as int),
            width == chunk.x,
            height == chunk.y,
            width <= usize::MAX / 4,
            height <= usize::MAX / 4,
            camera == default_camera(),
            buf.len() == start.len(),
            chunk.start_y <= row <= chunk.start_y + chunk.ny,
            forall|q: int|
                0 <= q < width * height && chunk.holds(q) && q / (width as int) < row ==> #[trigger] pixel_rgb(
                    buf@,
                    q,
                ) == flat_pixel(normals, width as int, height as int, q),
            forall|q: int|
                0 <= q < width * height && !(chunk.holds(q) && q / (width as int) < row) ==> #[trigger] pixel_rgb(
                    buf@,
                    q,
                ) == pixel_rgb(start, q),
            forall|q: int| 0 <= q < width * height ==> #[trigger] pixel_pad(buf@, q) == pixel_pad(start, q),
        decreases chunk.start_y + chunk.ny - row,
    {
        let mut col = chunk.start_x;
        while col < chunk.start_x + chunk.nx
            invariant
                chunk.fits(start.len() as int),
                width == chunk.x,
                height == chunk.y,
                width <= usize::MAX / 4,
                height <= usize::MAX / 4,
                camera == default_camera(),
                buf.len() == start.len(),
                chunk.start_y <= row < chunk.start_y + chunk.ny,
                chunk.start_x <= col <= chunk.start_x + chunk.nx,
                forall|q: int|
                    0 <= q < width * height && chunk.holds(q) && (q / (width as int) < row || (q / (width as int)
                        == row && q % (width as int) < col)) ==> #[trigger] pixel_rgb(buf@, q) == flat_pixel(
                        normals,
                        width as int,
                        height as int,
                        q,
                    ),
                forall|q: int|
                    0 <= q < width * height && !(chunk.holds(q) && (q / (width as int) < row || (q / (width as int)
                        == row && q % (width as int) < col))) ==> #[trigger] pixel_rgb(buf@, q) == pixel_rgb(
                        start,
                        q,
                    ),
                forall|q: int| 0 <= q < width * height ==> #[trigger] pixel_pad(buf@, q) == pixel_pad(start, q),
            decreases chunk.start_x + chunk.nx - col,
        {
            proof {
                lemma_pixel_index(width as int, height as int, row as int, col as int);
            }
            let p = row * width + col;
            let u = fx_div(fx_int(col as i64), fx_int(width as i64));
            let v = fx_div(fx_int((height - 1 - row) as i64), fx_int(height as i64));
            let ray = camera.get_ray(u, v);
            let c = if normals {
                calculate_color(&ray)
            } else {
                color(&ray)
            };
            let ghost before = buf@;
            let rgb = (quantize(c.x), quantize(c.y), quantize(c.z));
            assert(rgb == flat_pixel(normals, width as int, height as int, p as int));
            write_pixel(buf, p, rgb);
            assert forall|q: int| 0 <= q < width * height && q != p implies #[trigger] pixel_rgb(buf@, q)
                == pixel_rgb(before, q) by {
                assert(buf@[4 * q] == before[4 * q]);
            }
            assert forall|q: int| 0 <= q < width * height implies #[trigger] pixel_pad(buf@, q) == pixel_pad(
                before,
                q,
            ) by {
                assert(buf@[4 * q + 3] == before[4 * q + 3]);
            }
            assert forall|q: int|
                0 <= q < width * height && chunk.holds(q) && (q / (width as int) < row || (q / (width as int)
                    == row && q % (width as int) < col + 1)) implies #[trigger] pixel_rgb(buf@, q) == flat_pixel(
                normals,
                width as int,
                height as int,
                q,
            ) by {
                if q != p {
                    vstd::arithmetic::div_mod::lemma_fundamental_div_mod(q, width as int);
                    assert((width as int) * (row as int) == (row as int) * (width as int)) by (nonlinear_arith);
                    assert(!(q / (width as int) == row && q % (width as int) == col));
                    assert(pixel_rgb(before, q) == flat_pixel(normals, width as int, height as int, q));
                    assert(pixel_rgb(buf@, q) == pixel_rgb(before, q));
                }
            }
            col = col + 1;
        }
        row = row + 1;
    }
}

/// The gradient of the background over the whole image.
pub struct LinearGradientRectangle;

/// A sphere shaded by its normals, over the background.
pub struct SurfaceNormalSphere;

/// Two grey diffuse spheres, one of them the ground.
pub struct DiffuseMaterials;

/// Diffuse and metal spheres on diffuse ground.
pub struct Materials;

impl LinearGradientRectangle {
    pub fn name(&self) -> (r: &'static str)
        ensures
            r@ == "Linear Gradient Rectangle"@,
    {
        proof {
            reveal_strlit("Linear Gradient Rectangle");
        }
        "Linear Gradient Rectangle"
    }

    pub fn render(&self, buf: &mut Vec<u8>, width: usize, height: usize, _samples: u8)
        requires
            width >= 1,
            height >= 1,
            old(buf).len() == width * height * 4,
        ensures
            final(buf).len() == old(buf).len(),
            forall|p: int|
                0 <= p < width * height ==> #[trigger] pixel_rgb(final(buf)@, p) == flat_pixel(
                    false,
                    width as int,
                    height as int,
                    p,
                ),
            forall|p: int|
                0 <= p < width * height ==> #[trigger] pixel_pad(final(buf)@, p) == pixel_pad(old(buf)@, p),
    {
        render_flat(buf, width, height, false)
    }

    /// Renders the pixels of one tile, leaving the rest of the buffer alone.
    pub fn render_chunk(&self, buf: &mut Vec<u8>, chunk: &Chunk)
        requires
            chunk.fits(old(buf).len() as int),
        ensures
            final(buf).len() == old(buf).len(),
            forall|p: int|
                0 <= p < chunk.x * chunk.y && chunk.holds(p) ==> #[trigger] pixel_rgb(final(buf)@, p)
                    == flat_pixel(false, chunk.x as int, chunk.y as int, p),
            forall|p: int|
                0 <= p < chunk.x * chunk.y && !chunk.holds(p) ==> #[trigger] pixel_rgb(final(buf)@, p)
                    == pixel_rgb(old(buf)@, p),
            forall|p: int|
                0 <= p < chunk.x * chunk.y ==> #[trigger] pixel_pad(final(buf)@, p) == pixel_pad(old(buf)@, p),
    {
        render_flat_chunk(buf, chunk, false)
    }
}

impl SurfaceNormalSphere {
    pub fn name(&self) -> (r: &'static str)
        ensures
            r@ == "surface_normal_sphere"@,
    {
        proof {
            reveal_strlit("surface_normal_sphere");
        }
        "surface_normal_sphere"
    }

    pub fn render(&self, buf: &mut Vec<u8>, width: usize, height: usize, _samples: u8)
        requires
            width >= 1,
            height >= 1,
            old(buf).len() == width * height * 4,
        ensures
            final(buf).len() == old(buf).len(),
            forall|p: int|
                0 <= p < width * height ==> #[trigger] pixel_rgb(final(buf)@, p) == flat_pixel(
                    true,
                    width as int,
                    height as int,
                    p,
                ),
            forall|p: int|
                0 <= p < width * height ==> #[trigger] pixel_pad(final(buf)@, p) == pixel_pad(old(buf)@, p),
    {
        render_flat(buf, width, height, true)
    }
}

/// The scene of `DiffuseMaterials`: a small sphere ahead on a large one
/// standing for the ground, both reflecting half the light diffusely.
pub open spec fn diffuse_scene() -> Seq<Sphere> {
    let grey = Material::Lambertian { albedo: Vec3 { x: 32768, y: 32768, z: 32768 } };
    seq![
        Sphere { center: Vec3 { x: 0, y: 0, z: -65536i64 }, radius: 32768, material: Some(grey) },
        Sphere { center: Vec3 { x: 0, y: -6586368i64, z: -65536i64 }, radius: 6553600, material: Some(grey) },
    ]
}

/// The scene of `Materials`: a reddish diffuse sphere ahead, yellowish
/// diffuse ground, a gold metal sphere to the right and a silver one,
/// rougher, to the left.
pub open spec fn materials_scene() -> Seq<Sphere> {
    seq![
        Sphere {
            center: Vec3 { x: 0, y: 0, z: -65536i64 },
            radius: 32768,
            material: Some(Material::Lambertian { albedo: Vec3 { x: 52429, y: 19661, z: 19661 } }),
        },
        Sphere {
            center: Vec3 { x: 0, y: -6586368i64, z: -65536i64 },
            radius: 6553600,
            material: Some(Material::Lambertian { albedo: Vec3 { x: 52429, y: 52429, z: 0 } }),
        },
        Sphere {
            center: Vec3 { x: 65536, y: 0, z: -65536i64 },
            radius: 32768,
            material: Some(Material::Metal { albedo: Vec3 { x: 52429, y: 39322, z: 13107 }, fuzz: 19661 }),
        },
        Sphere {
            center: Vec3 { x: -65536i64, y: 0, z: -65536i64 },
            radius: 32768,
            material: Some(Material::Metal { albedo: Vec3 { x: 52429, y: 52429, z: 52429 }, fuzz: 32768 }),
        },
    ]
}

impl DiffuseMaterials {
    pub fn name(&self) -> (r: &'static str)
        ensures
            r@ == "Diffuse Materials"@,
    {
        proof {
            reveal_strlit("Diffuse Materials");
        }
        "Diffuse Materials"
    }

    pub fn world(&self) -> (r: HitableList)
        ensures
            r.list@ == diffuse_scene(),
    {
        let grey = Material::lambertian(Vec3::new(HALF, HALF, HALF));
        let back: i64 = -SCALE;
        let list = vec![
            Sphere::with_material(Vec3::new(0, 0, back), HALF, grey),
            Sphere::with_material(Vec3::new(0, -6586368, back), 6553600, grey),
        ];
        assert(list@ =~= diffuse_scene());
        HitableList::new(list)
    }

    /// Renders the scene through the default camera with `samples` rays per
    /// pixel, gamma corrected.
    pub fn render(&self, buf: &mut Vec<u8>, width: usize, height: usize, samples: u8)
        requires
            width >= 1,
            height >= 1,
            samples >= 1,
            old(buf).len() == width * height * 4,
        ensures
            final(buf).len() == old(buf).len(),
            forall|p: int|
                0 <= p < width * height ==> #[trigger] pixel_pad(final(buf)@, p) == pixel_pad(old(buf)@, p),
            forall|p: int|
                0 <= p < width * height ==> sampled(
                    diffuse_scene(),
                    default_camera(),
                    width as int,
                    height as int,
                    samples as int,
                    p,
                    #[trigger] pixel_rgb(final(buf)@, p),
                ),
    {
        let world = self.world();
        render(buf, width, height, samples, &Camera::default(), &world)
    }
}

impl Materials {
    pub fn name(&self) -> (r: &'static str)
        ensures
            r@ == "materials"@,
    {
        proof {
            reveal_strlit("materials");
        }
        "materials"
    }

    pub fn world(&self) -> (r: HitableList)
        ensures
            r.list@ == materials_scene(),
    {
        let back: i64 = -SCALE;
        let list = vec![
            Sphere::with_material(
                Vec3::new(0, 0, back),
                HALF,
                Material::lambertian(Vec3::new(52429, 19661, 19661)),
            ),
            Sphere::with_material(
                Vec3::new(0, -6586368, back),
                6553600,
                Material::lambertian(Vec3::new(52429, 52429, 0)),
            ),
            Sphere::with_material(
                Vec3::new(SCALE, 0, back),
                HALF,
                Material::with_fuzz(Vec3::new(52429, 39322, 13107), 19661),
            ),
            Sphere::with_material(
                Vec3::new(back, 0, back),
                HALF,
                Material::with_fuzz(Vec3::new(52429, 52429, 52429), HALF),
            ),
        ];
        assert(list@ =~= materials_scene());
        HitableList::new(list)
    }

    /// Renders one tile of the scene; see `render::render_chunk`.
    pub fn render_chunk(
        &self,
        buf: &mut Vec<u8>,
        chunk: &Chunk,
        camera: &Camera,
        world: &HitableList,
        samples: u8,
        rng: &mut SmallRng,
    )
        requires
            chunk.fits(old(buf).len() as int),
            samples >= 1,
        ensures
            final(buf).len() == old(buf).len(),
            forall|p: int|
                0 <= p < chunk.x * chunk.y && !chunk.holds(p) ==> #[trigger] pixel_rgb(final(buf)@, p)
                    == pixel_rgb(old(buf)@, p),
            forall|p: int|
                0 <= p < chunk.x * chunk.y ==> #[trigger] pixel_pad(final(buf)@, p) == pixel_pad(old(buf)@, p),
            forall|p: int|
                0 <= p < chunk.x * chunk.y && chunk.holds(p) ==> sampled(
                    world.list@,
                    *camera,
                    chunk.x as int,
                    chunk.y as int,
                    samples as int,
                    p,
                    #[trigger] pixel_rgb(final(buf)@, p),
                ),
    {
        render_chunk(buf, chunk, camera, world, samples, rng)
    }

    /// Renders the scene tile by tile through the default camera.
    pub fn render(&self, buf: &mut Vec<u8>, width: usize, height: usize, samples: u8)
        requires
            width >= 1,
            height >= 1,
            samples >= 1,
            old(buf).len() == width * height * 4,
        ensures
            final(buf).len() == old(buf).len(),
            forall|p: int|
                0 <= p < width * height ==> #[trigger] pixel_pad(final(buf)@, p) == pixel_pad(old(buf)@, p),
            forall|p: int|
                0 <= p < width * height ==> sampled(
                    materials_scene(),
                    default_camera(),
                    width as int,
                    height as int,
                    samples as int,
                    p,
                    #[trigger] pixel_rgb(final(buf)@, p),
                ),
    {
        let world = self.world();
        render(buf, width, height, samples, &Camera::default(), &world)
    }
}

} // verus!
