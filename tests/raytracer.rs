use raytracer::camera::Camera;
use raytracer::checks;
use raytracer::fixed::{clamp, isqrt, SCALE};
use raytracer::material::{schlick, Dielectric, Lamber, Material, Metal, Neg, Sample};
use raytracer::ray::Ray;
use raytracer::render::{background, channel, color_bytes, ray_color, INF, T_MIN};
use raytracer::sampling::{
    first_inside, hemisphere_side, rand_in_hemisphere, rand_in_unit_disk, rand_in_unit_sphere,
    rand_uint_vec, randf, randv, unit_or_up,
};
use raytracer::shapes::{Hitlist, Hitrec, Sphere, WORLD};
use raytracer::vec3::Vec3;

const S: i64 = SCALE;

fn v(x: i64, y: i64, z: i64) -> Vec3 {
    Vec3::new(x, y, z)
}

fn diffuse(c: i64) -> Material {
    Material::Lamber(Lamber::new(v(c, c, c)))
}

#[test]
fn vector_checks_hold() {
    assert!(checks::test_new());
    assert!(checks::test_add());
    assert!(checks::test_add_assign());
    assert!(checks::test_add_f64());
    assert!(checks::test_add_assign_f64());
    assert!(checks::test_sub());
    assert!(checks::test_sub_assign());
    assert!(checks::test_sub_f64());
    assert!(checks::test_sub_assign_f64());
    assert!(checks::test_mul());
    assert!(checks::test_mul_assign());
    assert!(checks::test_mul_f64());
    assert!(checks::test_div());
    assert!(checks::test_elemul());
    assert!(checks::test_cross());
    assert!(checks::test_neg());
    assert!(checks::test_squared_length());
    assert!(checks::test_length());
    assert!(checks::test_unit());
    assert!(checks::test_unit_panic());
}

#[test]
fn fixed_point_rounds_down() {
    assert_eq!(isqrt(0), 0);
    assert_eq!(isqrt(15), 3);
    assert_eq!(isqrt(16), 4);
    assert_eq!(v(S, 0, 0).scale(S / 3), v(S / 3, 0, 0));
    assert_eq!(v(-1, 0, 0).scale(S / 2), v(-1, 0, 0));
    assert_eq!(v(3 * S, 4 * S, 0).length(), 5 * S);
    assert_eq!(clamp(5, 0, 3), 3);
    assert_eq!(clamp(-5, 0, 3), 0);
    assert_eq!(clamp(2, 0, 3), 2);
}

#[test]
fn reflect_twice_gives_back_the_vector() {
    let n = v(0, S, 0);
    let a = v(S, -2 * S, 3 * S);
    let once = Vec3::reflect(a, n);
    assert_eq!(once, v(S, 2 * S, 3 * S));
    assert_eq!(Vec3::reflect(once, n), a);
}

#[test]
fn refract_at_normal_incidence_goes_straight() {
    let r = Vec3::refract(v(0, 0, -S), v(0, 0, S), S * 2 / 3);
    assert_eq!(r, v(0, 0, -S));
}

#[test]
fn sphere_example_takes_far_root() {
    let s = Sphere::new(v(0, 0, -S), S, diffuse(S / 2));
    let r = Ray::new(v(0, 0, 0), v(0, 0, -S));
    let h = s.hit(r, T_MIN, 1000 * S).expect("the ray meets the sphere");
    assert_eq!(h.t, 2 * S);
    assert_eq!(h.p, v(0, 0, -2 * S));
    assert!(!h.front_face);
    assert_eq!(h.nf, v(0, 0, S));
    let h0 = s.hit(r, 0, 1000 * S).expect("the ray meets the sphere");
    assert_eq!(h0.t, 2 * S);
}

#[test]
fn missing_ray_gets_no_hit() {
    let s = Sphere::new(v(0, 0, -S), S, diffuse(S / 2));
    let r = Ray::new(v(0, 5 * S, 0), v(0, 0, -S));
    assert!(s.hit(r, 0, INF).is_none());
    let tangent = Ray::new(v(0, S, 0), v(0, 0, -S));
    assert!(s.hit(tangent, 0, INF).is_none());
    let still = Ray::new(v(0, 0, 0), v(0, 0, 0));
    assert!(s.hit(still, 0, INF).is_none());
}

#[test]
fn hit_outside_range_is_missed() {
    let s = Sphere::new(v(0, 0, -5 * S), S, diffuse(S / 2));
    let r = Ray::new(v(0, 0, 0), v(0, 0, -S));
    assert!(s.hit(r, 0, 4 * S).is_none());
    assert_eq!(s.hit(r, 4 * S, INF).map(|h| h.t), Some(6 * S));
}

#[test]
fn normal_opposes_ray() {
    let s = Sphere::new(v(0, 0, 0), S, diffuse(S / 2));
    let outside = Ray::new(v(0, 0, 2 * S), v(0, 0, -S));
    let h = s.hit(outside, T_MIN, INF).expect("hit from outside");
    assert!(h.front_face);
    assert_eq!(h.nf, v(0, 0, S));
    assert!(outside.dir.dot(&h.nf) < 0);
    let inside = Ray::new(v(0, 0, 0), v(0, 0, -S));
    let h = s.hit(inside, T_MIN, INF).expect("hit from inside");
    assert!(!h.front_face);
    assert_eq!(h.nf, v(0, 0, S));
    assert!(inside.dir.dot(&h.nf) < 0);
}

#[test]
fn set_face_turns_the_normal() {
    let mut rec = Hitrec::new(Material::Neg(Neg::new()));
    rec.set_face(Ray::new(v(0, 0, 0), v(0, 0, -S)), v(0, 0, -S));
    assert!(!rec.front_face);
    assert_eq!(rec.nf(), v(0, 0, S));
    rec.set_face(Ray::new(v(0, 0, 0), v(0, 0, -S)), v(0, 0, S));
    assert!(rec.front_face);
    assert_eq!(rec.nf(), v(0, 0, S));
}

#[test]
fn list_returns_nearest_hit() {
    let near = Sphere::new(v(0, 0, -5 * S), S, diffuse(S / 4));
    let far = Sphere::new(v(0, 0, -10 * S), S, diffuse(S / 2));
    let r = Ray::new(v(0, 0, 0), v(0, 0, -S));
    let mut list = Hitlist::new();
    assert!(list.hit(r, T_MIN, INF).is_none());
    list.add(far);
    list.add(near);
    let h = list.hit(r, T_MIN, INF).expect("two spheres ahead");
    assert_eq!(h.t, 4 * S);
    assert_eq!(h.mat, diffuse(S / 4));
    list.clear();
    list.add(near);
    list.add(far);
    assert_eq!(list.hit(r, T_MIN, INF).map(|h| h.t), Some(4 * S));
    let aside = Ray::new(v(0, 3 * S, 0), v(0, 0, -S));
    assert!(list.hit(aside, T_MIN, INF).is_none());
}

fn record(nf: Vec3, front_face: bool, mat: Material) -> Hitrec {
    let mut rec = Hitrec::new(mat);
    rec.copy(Hitrec { p: v(0, 0, 0), nf, t: S, front_face, mat });
    rec
}

fn sample(unit: Vec3, ball: Vec3, coin: i64) -> Sample {
    Sample { unit, ball, coin }
}

#[test]
fn absorbing_material_never_scatters() {
    let m = Material::Neg(Neg::new());
    let r = Ray::new(v(0, 0, S), v(0, 0, -S));
    let rec = record(v(0, 0, S), true, m);
    assert!(m.scatter(r, rec).is_none());
    assert!(m.scatter_with(r, rec, sample(v(0, S, 0), v(0, 0, 0), 0)).is_none());
}

#[test]
fn diffuse_material_keeps_albedo() {
    let m = Material::Lamber(Lamber::new(v(S / 2, S / 4, S / 8)));
    let r = Ray::new(v(0, 0, S), v(0, 0, -S));
    let rec = record(v(0, 0, S), true, m);
    let (att, out) = m.scatter_with(r, rec, sample(v(0, S, 0), v(0, 0, 0), 0)).unwrap();
    assert_eq!(att, v(S / 2, S / 4, S / 8));
    assert_eq!(out.org, v(0, 0, 0));
    assert_eq!(out.dir, v(0, S, S));
    let (att, _) = m.scatter(r, rec).unwrap();
    assert_eq!(att, v(S / 2, S / 4, S / 8));
}

#[test]
fn metal_mirrors_and_absorbs_grazing_rays() {
    let m = Material::Metal(Metal::new(v(S, S / 2, 0), 0));
    let rec = record(v(0, S, 0), true, m);
    let r = Ray::new(v(0, S, 0), v(0, -S, 0));
    let (att, out) = m.scatter_with(r, rec, sample(v(0, S, 0), v(0, 0, 0), 0)).unwrap();
    assert_eq!(att, v(S, S / 2, 0));
    assert_eq!(out.dir, v(0, S, 0));
    let grazing = Ray::new(v(-S, 0, 0), v(S, 0, 0));
    assert!(m.scatter_with(grazing, rec, sample(v(0, S, 0), v(0, 0, 0), 0)).is_none());
    let fuzzy = Material::Metal(Metal::new(v(S, S, S), S));
    let rec = record(v(0, S, 0), true, fuzzy);
    assert!(fuzzy.scatter_with(r, rec, sample(v(0, S, 0), v(0, -S + 1, 0), 0)).is_some());
    let down = Ray::new(v(-S, S / 8, 0), v(S, -S / 8, 0));
    assert!(fuzzy.scatter_with(down, rec, sample(v(0, S, 0), v(0, -S / 2, 0), 0)).is_none());
}

#[test]
fn dielectric_reflects_or_refracts() {
    let m = Material::Dielectric(Dielectric::new(3 * S / 2));
    let rec = record(v(0, 0, S), true, m);
    let r = Ray::new(v(0, 0, S), v(0, 0, -S));
    let (att, out) = m.scatter_with(r, rec, sample(v(0, S, 0), v(0, 0, 0), S - 1)).unwrap();
    assert_eq!(att, v(S, S, S));
    assert_eq!(out.dir, v(0, 0, -S));
    let (_, back) = m.scatter_with(r, rec, sample(v(0, S, 0), v(0, 0, 0), 0)).unwrap();
    assert_eq!(back.dir, v(0, 0, S));
    // From inside glass at a shallow angle the light cannot leave.
    let inside = record(v(0, 0, S), false, m);
    let shallow = Ray::new(v(0, 0, S), v(S, 0, -S / 8));
    let (_, tir) = m.scatter_with(shallow, inside, sample(v(0, S, 0), v(0, 0, 0), S - 1)).unwrap();
    assert!(tir.dir.z > 0);
}

#[test]
fn schlick_values() {
    assert_eq!(schlick(S, 3 * S / 2), 2621);
    assert_eq!(schlick(0, S), S);
    assert_eq!(schlick(S, S), 0);
}

#[test]
fn zero_depth_is_black() {
    let mut list = Hitlist::new();
    list.add(Sphere::new(v(0, 0, -S), S / 2, diffuse(S / 2)));
    let r = Ray::new(v(0, 0, 0), v(0, 0, -S));
    assert_eq!(ray_color(r, &list, 0), v(0, 0, 0));
    assert_eq!(ray_color(r, &list, -3), v(0, 0, 0));
}

#[test]
fn sky_gradient() {
    assert_eq!(background(v(0, S, 0)), v(S / 2, 45875, S));
    assert_eq!(background(v(0, -S, 0)), v(S, S, S));
    assert_eq!(background(v(0, 0, -S)), v(3 * S / 4, 55705, S));
    let list = Hitlist::new();
    assert_eq!(ray_color(Ray::new(v(0, 0, 0), v(0, 5 * S, 0)), &list, 5), v(S / 2, 45875, S));
}

#[test]
fn absorbing_sphere_is_black() {
    let mut list = Hitlist::new();
    list.add(Sphere::new(v(0, 0, -S), S / 2, Material::Neg(Neg::new())));
    let r = Ray::new(v(0, 0, 0), v(0, 0, -S));
    assert_eq!(ray_color(r, &list, 10), v(0, 0, 0));
}

#[test]
fn diffuse_scene_is_darker_than_albedo() {
    let mut list = Hitlist::new();
    list.add(Sphere::new(v(0, 0, -S), S / 2, diffuse(S / 2)));
    let r = Ray::new(v(0, 0, 0), v(0, 0, -S));
    let n: i64 = 400;
    let mut sum = [0i64; 3];
    for _ in 0..n {
        let c = ray_color(r, &list, 10);
        assert!(c.x <= S / 2 && c.y <= S / 2 && c.z <= S / 2);
        sum[0] += c.x;
        sum[1] += c.y;
        sum[2] += c.z;
    }
    let avg = [sum[0] / n, sum[1] / n, sum[2] / n];
    assert!(avg[0] < S / 2);
    assert!(avg[1] < S / 2);
    assert!(avg[2] <= S / 2);
    assert!(avg[0] + avg[1] + avg[2] < 3 * S / 2);
}

#[test]
fn pixel_channels() {
    assert_eq!(channel(S, 4), 128);
    assert_eq!(channel(4 * S, 1), 255);
    assert_eq!(channel(0, 7), 0);
    assert_eq!(channel(-S, 2), 0);
    assert_eq!(color_bytes(v(S, 4 * S, 0), 4), (128, 255, 0));
}

#[test]
fn camera_looks_down_its_axis() {
    let cam = Camera::new(v(0, 0, 0), v(0, 0, -S), v(0, S, 0), S, S, 0, S);
    assert_eq!(cam.lower_left_corner, v(-S, -S, -S));
    assert_eq!(cam.horizontal, v(2 * S, 0, 0));
    assert_eq!(cam.vertical, v(0, 2 * S, 0));
    let r = cam.get_ray_with(S / 2, S / 2, v(0, 0, 0));
    assert_eq!(r, Ray::new(v(0, 0, 0), v(0, 0, -S)));
    assert_eq!(cam.get_ray(0, 0), Ray::new(v(0, 0, 0), v(-S, -S, -S)));
    let lens = Camera::new(v(0, 0, 0), v(0, 0, -S), v(0, S, 0), S, S, 2 * S, S);
    let off = lens.get_ray_with(S / 2, S / 2, v(S / 2, 0, 0));
    assert_eq!(off.org, v(S / 2, 0, 0));
    assert_eq!(off.dir, v(-S / 2, 0, -S));
}

#[test]
fn random_draws_stay_in_their_regions() {
    let mut seen = std::collections::HashSet::new();
    for _ in 0..200 {
        let x = randf(-3, 7);
        assert!((-3..7).contains(&x));
        seen.insert(x);
        let p = rand_in_unit_sphere();
        assert!(p.sum_sq() < (S as i128) * (S as i128));
        let d = rand_in_unit_disk();
        assert_eq!(d.z, 0);
        assert!(d.sum_sq() < (S as i128) * (S as i128));
        let u = rand_uint_vec();
        let len = u.length();
        assert!(len > S - 8 && len <= S + 8, "length {}", len);
        let c = randv();
        assert!((0..S).contains(&c.x) && (0..S).contains(&c.y) && (0..S).contains(&c.z));
    }
    assert!(seen.len() > 5);
    assert_eq!(randf(5, 6), 5);
}

#[test]
fn accessors_and_copies() {
    let r = Ray::new(v(S, 0, 0), v(0, 2 * S, 0));
    assert_eq!(r.origin(), v(S, 0, 0));
    assert_eq!(r.diraction(), v(0, 2 * S, 0));
    assert_eq!(r.at(S / 2), v(S, S, 0));
    let mut q = Ray::new(v(0, 0, 0), v(0, 0, 0));
    q.copy(r);
    assert_eq!(q, r);
    let mut a = Vec3::zero();
    a.copy(v(1, 2, 3));
    assert_eq!((a.x(), a.y(), a.z()), (1, 2, 3));
    assert_eq!(Vec3::ones(), v(S, S, S));
    assert_eq!(Metal::new(v(S, 0, 0), S / 3).fuz(), S / 3);
    assert_eq!(Metal::new(v(S, 0, 0), S / 3).color(), v(S, 0, 0));
    assert_eq!(Lamber::new(v(0, S, 0)).color(), v(0, S, 0));
    assert_eq!(Dielectric::new(3 * S / 2).rdx(), 3 * S / 2);
    let s = Sphere::new(v(0, S, 0), S, diffuse(S));
    assert_eq!(s.ct(), v(0, S, 0));
    let rec = Hitrec::new(diffuse(S));
    assert_eq!((rec.p(), rec.nf(), rec.t, rec.front_face), (v(0, 0, 0), v(0, 0, 0), 0, false));
}

#[test]
fn hit_at_the_edge_of_the_box_is_returned() {
    let r = WORLD / 2;
    let s = Sphere::new(v(r, 0, 0), r, diffuse(S / 2));
    let ray = Ray::new(v(r, 0, 0), v(S, 0, 0));
    let h = s.hit(ray, T_MIN, INF).expect("the far root lies in range");
    assert_eq!(h.t, r);
    assert_eq!(h.p, v(WORLD, 0, 0));
    assert!(!h.front_face);
    assert_eq!(h.nf, v(-S, 0, 0));
}

#[test]
fn oblique_hit_lies_on_the_sphere() {
    let s = Sphere::new(v(0, 0, -3 * S), S, diffuse(S / 2));
    let ray = Ray::new(v(0, 0, 0), v(S / 7, S / 5, -S));
    let h = s.hit(ray, T_MIN, INF).expect("the ray meets the sphere");
    let e = h.p.sub(s.ct());
    let d2 = e.sum_sq();
    let r2 = (S as i128) * (S as i128);
    assert!(d2 <= r2 && d2 > r2 - 4 * (S as i128), "squared distance {}", d2);
    assert!(h.front_face);
    assert!(ray.dir.dot(&h.nf) < 0);
}

#[test]
fn first_candidate_inside_the_ball() {
    let c = vec![v(S, S, 0), v(-S, 0, 0), v(S / 2, S / 2, 0), v(0, 0, 0)];
    assert_eq!(first_inside(&c), v(S / 2, S / 2, 0));
    assert_eq!(first_inside(&vec![v(S, S, S)]), v(0, 0, 0));
    assert_eq!(first_inside(&Vec::new()), v(0, 0, 0));
}

#[test]
fn unit_or_up_scales_to_length_one() {
    assert_eq!(unit_or_up(v(0, -S / 4, 0)), v(0, -S, 0));
    assert_eq!(unit_or_up(v(0, 0, 0)), v(0, 0, S));
    assert_eq!(unit_or_up(v(S / 2, 0, 0)), v(S, 0, 0));
}

#[test]
fn hemisphere_side_turns_points_round() {
    assert_eq!(hemisphere_side(v(0, S / 2, 0), v(0, S, 0)), v(0, S / 2, 0));
    assert_eq!(hemisphere_side(v(S / 3, -S / 2, 0), v(0, S, 0)), v(-S / 3, S / 2, 0));
    for _ in 0..50 {
        let p = rand_in_hemisphere(v(0, S, 0));
        assert!(p.y >= 0);
    }
}

#[test]
fn dielectric_below_one_refracts() {
    let m = Material::Dielectric(Dielectric::new(S / 2));
    let rec = record(v(0, 0, S), true, m);
    let r = Ray::new(v(0, 0, S), v(0, 0, -S));
    let (att, out) = m.scatter_with(r, rec, sample(v(0, S, 0), v(0, 0, 0), S - 1)).unwrap();
    assert_eq!(att, v(S, S, S));
    assert_eq!(out.dir, v(0, 0, -S));
}

#[test]
fn wide_angle_camera_with_near_focus() {
    let cam = Camera::new(v(0, 0, 0), v(0, 0, -S), v(0, S, 0), 100 * S, S, 0, S / 4);
    assert_eq!(cam.horizontal, v(50 * S, 0, 0));
    assert_eq!(cam.vertical, v(0, 50 * S, 0));
    let r = cam.get_ray_with(S / 2, S / 2, v(0, 0, 0));
    assert_eq!(r, Ray::new(v(0, 0, 0), v(0, 0, -S / 4)));
}
