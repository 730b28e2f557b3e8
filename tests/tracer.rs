use rand::rngs::SmallRng;
use rand::SeedableRng;
use ria_weekend::camera::Camera;
use ria_weekend::demos::{
    calculate_color, color, ray_hit_sphere, DiffuseMaterials, LinearGradientRectangle, Materials,
    SurfaceNormalSphere,
};
use ria_weekend::fixed::{fx_add, fx_div, fx_int, fx_mul, fx_sqrt, fx_sub, LIMIT, SCALE};
use ria_weekend::hitable::{HitableList, Sphere};
use ria_weekend::material::{reflect, Material};
use ria_weekend::random::{candidate, random_point_in_unit_sphere};
use ria_weekend::ray::Ray;
use ria_weekend::render::{gamma_quantize, pixel_bytes, pixel_with, quantize, render_chunk, sample_pixel, Chunk};
use ria_weekend::trace::{background, calc_color, calc_color_with, normal_color, MAX_DEPTH, T_MAX, T_MIN};
use ria_weekend::vec3::Vec3;

const S: i64 = SCALE;

fn v(x: i64, y: i64, z: i64) -> Vec3 {
    Vec3::new(x, y, z)
}

#[test]
fn fixed_arithmetic_exact_values() {
    assert_eq!(fx_mul(2 * S, 3 * S), 6 * S);
    assert_eq!(fx_mul(-S / 2, S / 2), -S / 4);
    assert_eq!(fx_div(3 * S, 5 * S), 39321);
    assert_eq!(fx_div(-S, 3 * S), -21846);
    assert_eq!(fx_sqrt(4 * S), 2 * S);
    assert_eq!(fx_sqrt(-S), 0);
    assert_eq!(fx_int(7), 7 * S);
    assert_eq!(fx_add(LIMIT, LIMIT), LIMIT);
    assert_eq!(fx_sub(-LIMIT, LIMIT), -LIMIT);
}

#[test]
fn vector_operations() {
    let a = v(3 * S, 4 * S, 0);
    assert_eq!(a.sq_len(), 25 * S);
    assert_eq!(a.length(), 5 * S);
    assert_eq!(a.unit_vector(), v(39321, 52428, 0));
    assert_eq!(a.dot(&v(S, S, S)), 7 * S);
    assert_eq!(v(S, 0, 0).cross(&v(0, S, 0)), v(0, 0, S));
    assert_eq!(a.add(v(S, S, S)), v(4 * S, 5 * S, S));
    assert_eq!(a.sub(v(S, S, S)), v(2 * S, 3 * S, -S));
    assert_eq!(a.mul(S / 2), v(3 * S / 2, 2 * S, 0));
    assert_eq!(a.div(2 * S), v(3 * S / 2, 2 * S, 0));
    assert_eq!(a.mul_vec(v(2 * S, S / 2, S)), v(6 * S, 2 * S, 0));
    assert_eq!((a.x(), a.y(), a.z()), (3 * S, 4 * S, 0));
    assert_eq!((a.r(), a.g(), a.b()), (3 * S, 4 * S, 0));
    assert_eq!((a.index(0), a.index(1), a.index(2)), (3 * S, 4 * S, 0));
    let mut m = a;
    m.add_assign(v(S, 0, 0));
    assert_eq!(m, v(4 * S, 4 * S, 0));
    m.mul_assign(v(S / 2, S / 4, S));
    assert_eq!(m, v(2 * S, S, 0));
    m.div_assign(2 * S);
    assert_eq!(m, v(S, S / 2, 0));
}

#[test]
fn ray_point_at_parameter() {
    let r = Ray::new(v(S, 0, 0), v(0, 2 * S, 0));
    assert_eq!(r.point_at_parameter(3 * S / 2), v(S, 3 * S, 0));
    assert_eq!(r.origin(), v(S, 0, 0));
    assert_eq!(r.direction(), v(0, 2 * S, 0));
}

#[test]
fn ray_at_center_hits_near_surface() {
    let ray = Ray::new(v(0, 0, 0), v(0, 0, -S));
    let s = Sphere::new(v(0, 0, -3 * S), S);
    let rec = s.hit(&ray, T_MIN, T_MAX).unwrap();
    assert_eq!(rec.t, 2 * S);
    assert_eq!(rec.p, v(0, 0, -2 * S));
    assert_eq!(rec.normal, v(0, 0, S));
    assert_eq!(rec.normal.length(), S);
    assert_eq!(rec.material, None);
}

#[test]
fn ray_from_inside_takes_far_root() {
    let ray = Ray::new(v(0, 0, 0), v(0, 0, -S));
    let s = Sphere::new(v(0, 0, 0), 2 * S);
    let rec = s.hit(&ray, T_MIN, T_MAX).unwrap();
    assert_eq!(rec.t, 2 * S);
    assert_eq!(rec.normal, v(0, 0, -S));
}

#[test]
fn ray_offset_beyond_radius_misses() {
    let ray = Ray::new(v(0, 0, 0), v(0, 0, -S));
    let s = Sphere::new(v(2 * S, 0, -3 * S), S);
    assert_eq!(s.hit(&ray, T_MIN, T_MAX), None);
    let grazing = Sphere::new(v(S + 1, 0, -3 * S), S);
    assert_eq!(grazing.hit(&ray, T_MIN, T_MAX), None);
}

#[test]
fn hit_outside_interval_is_rejected() {
    let ray = Ray::new(v(0, 0, 0), v(0, 0, -S));
    let s = Sphere::new(v(0, 0, -3 * S), S);
    assert_eq!(s.hit(&ray, T_MIN, 2 * S), None);
    assert_eq!(s.hit(&ray, 2 * S, T_MAX).unwrap().t, 4 * S);
}

#[test]
fn list_reports_nearest_of_two_overlapping() {
    let ray = Ray::new(v(0, 0, 0), v(0, 0, -S));
    let near = Sphere::new(v(0, 0, -3 * S), S);
    let far = Sphere::new(v(0, 0, -4 * S), 3 * S / 2);
    assert_eq!(far.hit(&ray, T_MIN, T_MAX).unwrap().t, 5 * S / 2);
    let a = HitableList::new(vec![far, near]);
    let b = HitableList::new(vec![near, far]);
    assert_eq!(a.hit(&ray, T_MIN, T_MAX).unwrap().t, 2 * S);
    assert_eq!(b.hit(&ray, T_MIN, T_MAX).unwrap().t, 2 * S);
    assert_eq!(HitableList::new(vec![]).hit(&ray, T_MIN, T_MAX), None);
}

#[test]
fn list_tie_goes_to_first_member() {
    let ray = Ray::new(v(0, 0, 0), v(0, 0, -S));
    let grey = Material::lambertian(v(S / 2, S / 2, S / 2));
    let red = Material::lambertian(v(S, 0, 0));
    let a = Sphere::with_material(v(0, 0, -3 * S), S, grey);
    let b = Sphere::with_material(v(0, 0, -3 * S), S, red);
    let rec = HitableList::new(vec![a, b]).hit(&ray, T_MIN, T_MAX).unwrap();
    assert_eq!(rec.material, Some(grey));
}

#[test]
fn metal_reflection_law() {
    let n = v(0, S, 0);
    let inc = v(39322, -52429, 0);
    let r = reflect(&inc, &n);
    assert_eq!(r, v(39322, 52429, 0));
    assert_eq!(r.dot(&n), -inc.dot(&n));
}

#[test]
fn metal_without_fuzz_scatters_mirror_ray() {
    let m = Material::with_fuzz(v(S, S / 2, 0), 0);
    let ray = Ray::new(v(0, 2 * S, 0), v(0, -S, 0));
    let rec = Sphere::with_material(v(0, 0, 0), S, m).hit(&ray, T_MIN, T_MAX).unwrap();
    let (att, scattered) = m.scatter_with(&ray, &rec, v(0, 0, 0));
    assert_eq!(att, v(S, S / 2, 0));
    assert_eq!(scattered, Some(Ray::new(v(0, S, 0), v(0, S, 0))));
}

#[test]
fn metal_fuzz_is_clamped() {
    assert_eq!(Material::with_fuzz(v(0, 0, 0), 3 * S), Material::Metal { albedo: v(0, 0, 0), fuzz: S });
    assert_eq!(Material::with_fuzz(v(0, 0, 0), -1), Material::Metal { albedo: v(0, 0, 0), fuzz: 0 });
}

#[test]
fn metal_absorbs_ray_pushed_below_surface() {
    let m = Material::with_fuzz(v(S, S, S), S);
    let ray = Ray::new(v(S, 2 * S, 0), v(-S, -S, 0));
    let rec = Sphere::with_material(v(0, 0, 0), S, m).hit(&ray, T_MIN, T_MAX).unwrap();
    let (_, scattered) = m.scatter_with(&ray, &rec, v(0, -S + 1, 0));
    assert_eq!(scattered, None);
}

#[test]
fn lambertian_scatters_along_normal_plus_point() {
    let m = Material::lambertian(v(S / 2, S / 2, S / 2));
    let ray = Ray::new(v(0, 0, 0), v(0, 0, -S));
    let rec = Sphere::with_material(v(0, 0, -3 * S), S, m).hit(&ray, T_MIN, T_MAX).unwrap();
    let (att, scattered) = m.scatter_with(&ray, &rec, v(S / 4, 0, 0));
    assert_eq!(att, v(S / 2, S / 2, S / 2));
    assert_eq!(scattered, Some(Ray::new(v(0, 0, -2 * S), v(S / 4, 0, S))));
    let mut rng = SmallRng::seed_from_u64(3);
    let (att2, scattered2) = m.scatter(&ray, &rec, &mut rng);
    assert_eq!(att2, att);
    assert!(scattered2.is_some());
}

#[test]
fn random_points_lie_in_unit_ball() {
    let mut rng = SmallRng::seed_from_u64(7);
    let mut distinct = 0;
    let first = random_point_in_unit_sphere(&mut rng);
    for _ in 0..200 {
        let p = random_point_in_unit_sphere(&mut rng);
        assert!(p.sq_len() < S);
        assert!(-S <= p.x && p.x < S && -S <= p.y && p.y < S && -S <= p.z && p.z < S);
        if p != first {
            distinct += 1;
        }
    }
    assert!(distinct > 100);
}

#[test]
fn background_gradient_endpoints() {
    assert_eq!(background(&v(0, S, 0)), v(S / 2, 45875, S));
    assert_eq!(background(&v(0, -S, 0)), v(S, S, S));
    assert_eq!(background(&v(0, 5 * S, 0)), v(S / 2, 45875, S));
    assert_eq!(background(&v(0, 0, -S)), v(49152, 55705, S));
    assert_eq!(background(&v(0, 0, 0)), v(49152, 55705, S));
    assert_eq!(color(&Ray::new(v(S, S, S), v(0, S, 0))), v(S / 2, 45875, S));
}

#[test]
fn depth_bound_returns_black() {
    let m = Material::lambertian(v(S, S, S));
    let world = HitableList::new(vec![Sphere::with_material(v(0, 0, -3 * S), S, m)]);
    let ray = Ray::new(v(0, 0, 0), v(0, 0, -S));
    let mut rng = SmallRng::seed_from_u64(1);
    assert_eq!(calc_color(ray, &world, MAX_DEPTH, &mut rng), v(0, 0, 0));
    assert_eq!(calc_color(ray, &world, MAX_DEPTH + 5, &mut rng), v(0, 0, 0));
    assert_eq!(calc_color_with(ray, &world, MAX_DEPTH, &vec![]), v(0, 0, 0));
}

#[test]
fn miss_returns_background() {
    let world = HitableList::new(vec![]);
    let ray = Ray::new(v(0, 0, 0), v(0, S, 0));
    let mut rng = SmallRng::seed_from_u64(1);
    assert_eq!(calc_color(ray, &world, 0, &mut rng), v(S / 2, 45875, S));
}

#[test]
fn lambertian_bounce_attenuates_by_albedo() {
    let m = Material::lambertian(v(S / 2, S / 2, S / 2));
    let world = HitableList::new(vec![Sphere::with_material(v(0, 0, -3 * S), S, m)]);
    let ray = Ray::new(v(0, 0, 0), v(0, 0, -S));
    let c = calc_color_with(ray, &world, 0, &vec![v(0, 0, 0)]);
    assert_eq!(c, v(24576, 27852, S / 2));
    let full = Material::lambertian(v(S, S, S));
    let world1 = HitableList::new(vec![Sphere::with_material(v(0, 0, -3 * S), S, full)]);
    assert_eq!(calc_color_with(ray, &world1, 0, &vec![v(0, 0, 0)]), v(49152, 55705, S));
}

#[test]
fn lambertian_average_matches_albedo_times_light() {
    // Every ray scattered off the front of the sphere escapes to the sky,
    // whose blue channel is 1: the blue average is the albedo, and red lies
    // between half and all of it.
    let m = Material::lambertian(v(S / 2, S / 2, S / 2));
    let world = HitableList::new(vec![Sphere::with_material(v(0, 0, -3 * S), S, m)]);
    let ray = Ray::new(v(0, 0, 0), v(0, 0, -S));
    let mut rng = SmallRng::seed_from_u64(11);
    let mut sum = [0i64; 3];
    let trials = 2000;
    for _ in 0..trials {
        let c = calc_color(ray, &world, 0, &mut rng);
        sum[0] += c.x;
        sum[1] += c.y;
        sum[2] += c.z;
    }
    let blue = sum[2] / trials;
    assert_eq!(blue, S / 2);
    let red = sum[0] / trials;
    assert!(red >= S / 4 && red <= S / 2, "red {}", red);
}

#[test]
fn unmaterialed_sphere_shows_normal() {
    let world = HitableList::new(vec![Sphere::new(v(0, 0, -3 * S), S)]);
    let ray = Ray::new(v(0, 0, 0), v(0, 0, -S));
    assert_eq!(calc_color_with(ray, &world, 0, &vec![]), v(S / 2, S / 2, S));
    assert_eq!(normal_color(&v(0, 0, S)), v(S / 2, S / 2, S));
}

#[test]
fn camera_maps_corners() {
    let c = Camera::default();
    assert_eq!(c.get_ray(0, 0), Ray::new(v(0, 0, 0), v(-2 * S, -S, -S)));
    assert_eq!(c.get_ray(S / 2, S / 2), Ray::new(v(0, 0, 0), v(0, 0, -S)));
    assert_eq!(c.get_ray(S, S), Ray::new(v(0, 0, 0), v(2 * S, S, -S)));
}

#[test]
fn quantization_and_gamma() {
    assert_eq!(quantize(-5), 0);
    assert_eq!(quantize(0), 0);
    assert_eq!(quantize(S / 2), 127);
    assert_eq!(quantize(S), 255);
    assert_eq!(quantize(3 * S), 255);
    assert_eq!(gamma_quantize(S / 4), 127);
    assert_eq!(pixel_bytes(v(2 * S, S / 2, 0), 2), (255, 127, 0));
}

#[test]
fn surface_normal_sphere_center_pixel() {
    let (w, h) = (200usize, 100usize);
    let mut buf = vec![9u8; w * h * 4];
    SurfaceNormalSphere.render(&mut buf, w, h, 1);
    let p = 49 * w + 100;
    assert_eq!(&buf[4 * p..4 * p + 4], &[127, 127, 255, 9]);
    assert_eq!(ray_hit_sphere(v(0, 0, -S), S / 2, &Ray::new(v(0, 0, 0), v(0, 0, -S))), S / 2);
    assert_eq!(ray_hit_sphere(v(0, 0, -S), S / 2, &Ray::new(v(0, 0, 0), v(0, S, 0))), -S);
    assert_eq!(calculate_color(&Ray::new(v(0, 0, 0), v(0, 0, -S))), v(S / 2, S / 2, S));
}

#[test]
fn linear_gradient_rows() {
    let (w, h) = (8usize, 4usize);
    let mut buf = vec![1u8; w * h * 4];
    LinearGradientRectangle.render(&mut buf, w, h, 1);
    let cam = Camera::default();
    for row in 0..h {
        for col in 0..w {
            let u = fx_div(fx_int(col as i64), fx_int(w as i64));
            let vv = fx_div(fx_int((h - 1 - row) as i64), fx_int(h as i64));
            let c = color(&cam.get_ray(u, vv));
            let p = row * w + col;
            assert_eq!(&buf[4 * p..4 * p + 4], &[quantize(c.x), quantize(c.y), quantize(c.z), 1]);
        }
    }
    // Rows nearer the top are bluer: less red.
    assert!(buf[0] < buf[4 * (3 * w)]);
}

#[test]
fn render_chunk_writes_only_its_tile() {
    let (w, h) = (6usize, 4usize);
    let mut buf = vec![200u8; w * h * 4];
    let chunk = Chunk { x: w, y: h, nx: 2, ny: 2, start_x: 1, start_y: 1 };
    let m = Materials;
    let world = m.world();
    let mut rng = SmallRng::seed_from_u64(5);
    m.render_chunk(&mut buf, &chunk, &Camera::default(), &world, 2, &mut rng);
    let mut inside_changed = 0;
    for row in 0..h {
        for col in 0..w {
            let p = row * w + col;
            let inside = (1..3).contains(&col) && (1..3).contains(&row);
            assert_eq!(buf[4 * p + 3], 200);
            if !inside {
                assert_eq!(&buf[4 * p..4 * p + 3], &[200, 200, 200]);
            } else if buf[4 * p..4 * p + 3] != [200, 200, 200] {
                inside_changed += 1;
            }
        }
    }
    assert!(inside_changed > 0);
    let mut rng2 = SmallRng::seed_from_u64(5);
    let mut buf2 = vec![0u8; w * h * 4];
    render_chunk(&mut buf2, &chunk, &Camera::default(), &world, 2, &mut rng2);
    assert_eq!(&buf2[4 * 7..4 * 7 + 3], &buf[4 * 7..4 * 7 + 3]);
}

#[test]
fn full_renders_fill_every_pixel() {
    let (w, h) = (16usize, 8usize);
    let mut a = vec![0u8; w * h * 4];
    Materials.render(&mut a, w, h, 1);
    let mut b = vec![0u8; w * h * 4];
    Materials.render(&mut b, w, h, 1);
    assert_eq!(a, b);
    assert!(a.chunks(4).all(|px| px[3] == 0));
    assert!(a.chunks(4).filter(|px| px[..3] != [0, 0, 0]).count() > w * h / 2);
    let mut d = vec![0u8; w * h * 4];
    DiffuseMaterials.render(&mut d, w, h, 2);
    assert!(d.chunks(4).all(|px| px[3] == 0));
    assert!(d.chunks(4).filter(|px| px[..3] != [0, 0, 0]).count() > w * h / 2);
    assert_eq!(Materials.name(), "materials");
    assert_eq!(DiffuseMaterials.name(), "Diffuse Materials");
    assert_eq!(SurfaceNormalSphere.name(), "surface_normal_sphere");
    assert_eq!(LinearGradientRectangle.name(), "Linear Gradient Rectangle");
    assert_eq!(DiffuseMaterials.world().list.len(), 2);
    assert_eq!(Materials.world().list.len(), 4);
}

#[test]
fn linear_gradient_chunk_leaves_rest_alone() {
    let (w, h) = (6usize, 4usize);
    let mut buf = vec![3u8; w * h * 4];
    let chunk = Chunk { x: w, y: h, nx: 3, ny: 2, start_x: 2, start_y: 2 };
    LinearGradientRectangle.render_chunk(&mut buf, &chunk);
    let mut full = vec![3u8; w * h * 4];
    LinearGradientRectangle.render(&mut full, w, h, 1);
    for row in 0..h {
        for col in 0..w {
            let p = row * w + col;
            if (2..5).contains(&col) && (2..4).contains(&row) {
                assert_eq!(&buf[4 * p..4 * p + 4], &full[4 * p..4 * p + 4]);
            } else {
                assert_eq!(&buf[4 * p..4 * p + 4], &[3, 3, 3, 3]);
            }
        }
    }
}

#[test]
fn candidate_accepts_inside_ball_only() {
    assert_eq!(candidate(S / 2, S / 2, S / 2), Some(v(0, 0, 0)));
    assert_eq!(candidate(3 * S / 4, S / 2, S / 2), Some(v(S / 2, 0, 0)));
    assert_eq!(candidate(0, 0, 0), None);
    assert_eq!(candidate(0, S / 2, S / 2), None);
}

#[test]
fn short_vectors_have_exact_length() {
    assert_eq!(v(0, 362, 0).length(), 362);
    assert_eq!(v(0, 362, 0).unit_vector(), v(0, S, 0));
    assert_eq!(v(3, 4, 0).length(), 5);
    assert_eq!(background(&v(0, -300, 0)), v(S, S, S));
    assert_eq!(color(&Ray::new(v(0, 0, 0), v(0, -300, 0))), v(S, S, S));
    assert_eq!(v(0, 0, 0).length(), 0);
}

#[test]
fn ray_hit_sphere_from_inside_takes_far_root() {
    let ray = Ray::new(v(0, 0, 0), v(0, 0, -S));
    assert_eq!(ray_hit_sphere(v(0, 0, 0), S / 2, &ray), S / 2);
    let inside = Ray::new(v(0, 0, -S), v(0, 0, -S));
    assert_eq!(calculate_color(&inside), v(S / 2, S / 2, 0));
}

#[test]
fn pixel_with_given_draws() {
    let cam = Camera::default();
    let world = HitableList::new(vec![]);
    let r = pixel_with(&cam, &world, 1, 0, 2, 2, &vec![(0, 0)], &vec![vec![]]);
    assert_eq!(r, (221, 236, 255));
    assert_eq!(r, pixel_bytes(color(&cam.get_ray(S / 2, S / 2)), 1));
    let two = pixel_with(&cam, &world, 1, 0, 2, 2, &vec![(0, 0), (0, 0)], &vec![vec![], vec![]]);
    assert_eq!(two, r);
}

#[test]
fn sample_pixel_of_empty_scene_is_sky() {
    let cam = Camera::default();
    let world = HitableList::new(vec![]);
    let mut rng = SmallRng::seed_from_u64(9);
    let (red, green, blue) = sample_pixel(&cam, &world, 3, 1, 8, 4, 4, &mut rng);
    assert_eq!(blue, 255);
    assert!(red >= 181 && green >= 214);
}
