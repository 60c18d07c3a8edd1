//! Exercises the library end to end: exact slab-test answers, sphere root
//! selection, hierarchy/list agreement, synchronizer ordering, material
//! energy bounds, the sky gradient, and the smaller utilities.

use raytracing_in_one_weekend::aabb::AABB;
use raytracing_in_one_weekend::bvh_node::BvhBuildError;
use raytracing_in_one_weekend::hittable::BvhNode;
use raytracing_in_one_weekend::color::{black, Color};
use raytracing_in_one_weekend::config::{ConfigError, UnvalidatedTomlConfig};
use raytracing_in_one_weekend::coordinate_iterator::CoordinateIterator;
use raytracing_in_one_weekend::camera::{Camera, CameraConfiguration};
use raytracing_in_one_weekend::hittable::{HitRecord, HittableEnum, HittableList};
use raytracing_in_one_weekend::material::{reflect, Dialectric, Lambertian, MaterialEnum, Metal};
use raytracing_in_one_weekend::moving_sphere::MovingSphere;
use raytracing_in_one_weekend::perlin_noise::PerlinNoise;
use raytracing_in_one_weekend::random;
use raytracing_in_one_weekend::rat::Rat;
use raytracing_in_one_weekend::ray::Ray;
use raytracing_in_one_weekend::rendering::{
    calculate_pixel_color, correct_gamma_value, get_ray_color, get_sky_color,
};
use raytracing_in_one_weekend::scene::{
    JsonColor, JsonMaterial, JsonMaterialLiteral, JsonMaterialOptions, JsonSphere, SceneError,
};
use raytracing_in_one_weekend::sphere::{find_smallest_valid_solution, Sphere};
use raytracing_in_one_weekend::texture::{SolidColor, TextureEnum};
use raytracing_in_one_weekend::vec3::Vec3;
use raytracing_in_one_weekend::writing::WritingSynchronizer;
use raytracing_in_one_weekend::SCALE;

fn unit_box() -> AABB {
    AABB::new(
        Vec3::new(-SCALE, -SCALE, -SCALE),
        Vec3::new(SCALE, SCALE, SCALE),
    )
}

fn t_range() -> (Rat, Rat) {
    (Rat::from_fx(0), Rat::horizon())
}

#[test]
fn aabb_hit_through_center() {
    let b = unit_box();
    let ray = Ray::new(Vec3::new(0, 0, -3 * SCALE), Vec3::new(0, 0, SCALE));
    let (t0, t1) = t_range();
    assert!(b.hit(&ray, t0, t1));
}

#[test]
fn aabb_miss_parallel_outside() {
    let b = unit_box();
    let ray = Ray::new(Vec3::new(0, 3 * SCALE, -3 * SCALE), Vec3::new(0, 0, SCALE));
    let (t0, t1) = t_range();
    assert!(!b.hit(&ray, t0, t1));
}

#[test]
fn aabb_tangent_ray_is_a_deterministic_miss() {
    let b = unit_box();
    // Grazes the x = 1 face exactly: the strict slab test reports a miss.
    let ray = Ray::new(Vec3::new(SCALE, 0, -3 * SCALE), Vec3::new(0, 0, SCALE));
    let (t0, t1) = t_range();
    assert!(!b.hit(&ray, t0, t1));
    // The closed variant, which the hierarchy prunes with, accepts it.
    assert!(b.hit_closed(&ray, t0, t1));
}

#[test]
fn aabb_behind_ray_is_a_miss() {
    let b = unit_box();
    let ray = Ray::new(Vec3::new(0, 0, -3 * SCALE), Vec3::new(0, 0, -SCALE));
    let (t0, t1) = t_range();
    assert!(!b.hit(&ray, t0, t1));
}

#[test]
fn root_selection_prefers_the_smaller_root() {
    // Roots at 5 and 15 (denominator one).
    let res = find_smallest_valid_solution(1, -10, 25, Rat::from_fx(0), Rat::horizon());
    let t = res.expect("a root in range");
    assert_eq!(t.num, 5);
    assert_eq!(t.den, 1);
}

#[test]
fn root_selection_falls_back_to_the_larger_root() {
    // The smaller root (5) is below the lower cutoff (6).
    let res = find_smallest_valid_solution(1, -10, 25, Rat::from_fx(6 * SCALE), Rat::horizon());
    let t = res.expect("the larger root in range");
    assert_eq!(t.num, 15);
    assert_eq!(t.den, 1);
}

#[test]
fn root_selection_rejects_negative_discriminant() {
    let res = find_smallest_valid_solution(1, -10, -1, Rat::from_fx(0), Rat::horizon());
    assert!(res.is_none());
}

#[test]
fn sphere_hit_reports_exact_point_and_normal() {
    let sphere = Sphere::new(Vec3::new(0, 0, 0), SCALE, 0);
    let ray = Ray::new(Vec3::new(0, 0, -3 * SCALE), Vec3::new(0, 0, SCALE));
    let (t0, t1) = t_range();
    let rec = sphere.hit(&ray, t0, t1).expect("the ray strikes the sphere");
    // The nearer intersection is two units along the ray.
    assert_eq!(rec.t.num, 2 * rec.t.den);
    assert_eq!(rec.point.x, 0);
    assert_eq!(rec.point.y, 0);
    assert_eq!(rec.point.z, -SCALE);
    assert!(rec.on_front_face);
    assert_eq!(rec.normal.z, -SCALE);
}

#[test]
fn sphere_miss_reports_none() {
    let sphere = Sphere::new(Vec3::new(0, 0, 0), SCALE, 0);
    let ray = Ray::new(Vec3::new(0, 3 * SCALE, -3 * SCALE), Vec3::new(0, 0, SCALE));
    let (t0, t1) = t_range();
    assert!(sphere.hit(&ray, t0, t1).is_none());
}

fn three_spheres() -> HittableList {
    let mut list = HittableList::new();
    list.add(HittableEnum::Sphere(Sphere::new(
        Vec3::new(0, 0, -5 * SCALE),
        SCALE,
        0,
    )));
    list.add(HittableEnum::Sphere(Sphere::new(
        Vec3::new(0, 0, -10 * SCALE),
        SCALE,
        1,
    )));
    list.add(HittableEnum::Sphere(Sphere::new(
        Vec3::new(0, 0, -3 * SCALE),
        SCALE,
        2,
    )));
    list
}

#[test]
fn bvh_agrees_with_list_on_hits() {
    let bvh = BvhNode::new(three_spheres(), 0, SCALE).expect("a buildable scene");
    let list = three_spheres();
    let rays = [
        Ray::new(Vec3::new(0, 0, 0), Vec3::new(0, 0, -SCALE)),
        Ray::new(Vec3::new(0, 0, -7 * SCALE), Vec3::new(0, 0, -SCALE)),
        Ray::new(Vec3::new(0, 0, -7 * SCALE), Vec3::new(0, 0, SCALE)),
        Ray::new(Vec3::new(0, 2 * SCALE, 0), Vec3::new(0, 0, -SCALE)),
        Ray::new(Vec3::new(0, 0, 0), Vec3::new(0, SCALE, 0)),
    ];
    for ray in rays.iter() {
        let (t0, t1) = t_range();
        let from_bvh = bvh.hit(ray, t0, t1);
        let (t0, t1) = t_range();
        let from_list = list.hit(ray, t0, t1);
        match (from_bvh, from_list) {
            (None, None) => {}
            (Some(a), Some(b)) => {
                // Same parameter: same numerator over the shared denominator.
                assert_eq!(a.t.num, b.t.num);
                assert_eq!(a.t.den, b.t.den);
            }
            _ => panic!("hierarchy and list disagree on hit existence"),
        }
    }
}

#[test]
fn bvh_rejects_empty_scene() {
    let list = HittableList::new();
    match BvhNode::new(list, 0, SCALE) {
        Err(e) => assert_eq!(e, BvhBuildError::EmptyList),
        Ok(_) => panic!("an empty scene must be rejected"),
    }
}

#[test]
fn bvh_rejects_unbounded_object() {
    let mut list = HittableList::new();
    list.add(HittableEnum::HittableList(HittableList::new()));
    match BvhNode::new(list, 0, SCALE) {
        Err(e) => assert_eq!(e, BvhBuildError::UnboundedObject),
        Ok(_) => panic!("an unbounded object must be rejected"),
    }
}

#[test]
fn bvh_agrees_with_list_for_moving_spheres() {
    let mut list = HittableList::new();
    list.add(HittableEnum::MovingSphere(MovingSphere::new(
        Vec3::new(0, 0, -5 * SCALE),
        Vec3::new(0, 2 * SCALE, -5 * SCALE),
        0,
        SCALE,
        SCALE,
        0,
    )));
    let bvh = BvhNode::new(list, 0, SCALE).expect("a buildable scene");
    let mut ray = Ray::new(Vec3::new(0, 0, 0), Vec3::new(0, 0, -SCALE));
    ray.time = SCALE / 2;
    let (t0, t1) = t_range();
    let from_bvh = bvh.hit(&ray, t0, t1);
    assert!(from_bvh.is_some());
}

#[test]
fn synchronizer_reorders_any_permutation() {
    // Four pixels of a 2 x 2 raster, submitted out of order. The target
    // index of (row, col) is row * 2 + (1 - col); emission runs 3, 2, 1, 0.
    let mut sync = WritingSynchronizer::new(2, 2);
    let c0 = Color::new(1, 0, 0);
    let c1 = Color::new(2, 0, 0);
    let c2 = Color::new(3, 0, 0);
    let c3 = Color::new(4, 0, 0);

    // (0, 1) has index 0: nothing can be emitted yet.
    let flushed = sync.write(c0, 0, 1);
    assert_eq!(flushed.len(), 0);
    assert!(!sync.all_data_written());

    // (1, 0) has index 3: the head of the output arrives and flushes.
    let flushed = sync.write(c3, 1, 0);
    assert_eq!(flushed.len(), 1);
    assert_eq!(flushed[0], c3);

    // (0, 0) has index 1: still waiting for index 2.
    let flushed = sync.write(c1, 0, 0);
    assert_eq!(flushed.len(), 0);

    // (1, 1) has index 2: the remaining run flushes in output order.
    let flushed = sync.write(c2, 1, 1);
    assert_eq!(flushed.len(), 3);
    assert_eq!(flushed[0], c2);
    assert_eq!(flushed[1], c1);
    assert_eq!(flushed[2], c0);

    assert!(sync.all_data_written());
    assert_eq!(sync.next_expected(), -1);
}

#[test]
fn synchronizer_in_order_submission_flushes_each_pixel() {
    let mut sync = WritingSynchronizer::new(3, 1);
    // Output order for one row of three: (0,0), (0,1), (0,2).
    assert_eq!(sync.write(Color::new(7, 0, 0), 0, 0).len(), 1);
    assert_eq!(sync.write(Color::new(8, 0, 0), 0, 1).len(), 1);
    assert_eq!(sync.write(Color::new(9, 0, 0), 0, 2).len(), 1);
    assert!(sync.all_data_written());
}

fn test_record() -> HitRecord {
    HitRecord {
        point: Vec3::new(0, 0, -SCALE),
        normal: Vec3::new(0, 0, -SCALE),
        material: 0,
        t: Rat { num: 2, den: 1 },
        u: 0,
        v: 0,
        on_front_face: true,
    }
}

#[test]
fn lambertian_attenuation_never_amplifies() {
    let m = Lambertian::new(Color::new(SCALE / 2, SCALE / 3, SCALE));
    let ray = Ray::new(Vec3::new(0, 0, -3 * SCALE), Vec3::new(0, 0, SCALE));
    for _ in 0..20 {
        let s = m.scatter(&ray, &test_record()).expect("diffuse always scatters");
        assert!(s.attenuation.r <= SCALE && s.attenuation.r >= 0);
        assert!(s.attenuation.g <= SCALE && s.attenuation.g >= 0);
        assert!(s.attenuation.b <= SCALE && s.attenuation.b >= 0);
    }
}

#[test]
fn metal_attenuation_never_amplifies() {
    let m = Metal::new(Color::new(SCALE, SCALE / 2, SCALE / 4), SCALE / 2);
    let ray = Ray::new(Vec3::new(0, 0, -3 * SCALE), Vec3::new(0, 0, SCALE));
    for _ in 0..20 {
        if let Some(s) = m.scatter(&ray, &test_record()) {
            assert_eq!(s.attenuation, Color::new(SCALE, SCALE / 2, SCALE / 4));
            assert!(s.attenuation.r <= SCALE);
        }
    }
}

#[test]
fn dielectric_attenuation_is_exactly_white() {
    let m = Dialectric::new(3 * SCALE / 2);
    let ray = Ray::new(Vec3::new(0, 0, -3 * SCALE), Vec3::new(0, 0, SCALE));
    for _ in 0..20 {
        let s = m.scatter(&ray, &test_record()).expect("a dielectric never absorbs");
        assert_eq!(s.attenuation, Color::new(SCALE, SCALE, SCALE));
    }
}

#[test]
fn sky_gradient_matches_the_lerp_formula() {
    // Straight up: full blend, the sky blue exactly.
    let up = Ray::new(Vec3::new(0, 0, 0), Vec3::new(0, SCALE, 0));
    assert_eq!(get_sky_color(&up), Color::new(32768, 45875, SCALE));
    // Straight down: zero blend, white exactly.
    let down = Ray::new(Vec3::new(0, 0, 0), Vec3::new(0, -SCALE, 0));
    assert_eq!(get_sky_color(&down), Color::new(SCALE, SCALE, SCALE));
    // Horizontal: half blend.
    let level = Ray::new(Vec3::new(0, 0, 0), Vec3::new(SCALE, 0, 0));
    let c = get_sky_color(&level);
    let blend = SCALE / 2;
    assert_eq!(c.r, SCALE - blend + blend / 2);
    assert_eq!(c.b, SCALE);
}

fn two_sphere_world() -> (BvhNode, Vec<MaterialEnum>) {
    let mut list = HittableList::new();
    // A unit sphere at the origin over a large ground sphere.
    list.add(HittableEnum::Sphere(Sphere::new(Vec3::new(0, 0, 0), SCALE, 0)));
    list.add(HittableEnum::Sphere(Sphere::new(
        Vec3::new(0, -101 * SCALE, 0),
        100 * SCALE,
        1,
    )));
    let bvh = BvhNode::new(list, 0, SCALE).expect("a buildable scene");
    let materials = vec![
        MaterialEnum::Lambertian(Lambertian::new(Color::new(SCALE / 2, SCALE / 2, SCALE / 2))),
        MaterialEnum::Lambertian(Lambertian::new(Color::new(SCALE / 4, SCALE / 2, SCALE / 4))),
    ];
    (bvh, materials)
}

#[test]
fn ray_color_miss_is_the_documented_gradient() {
    let (bvh, materials) = two_sphere_world();
    // A ray pointing away from all geometry sees the background.
    let ray = Ray::new(Vec3::new(0, 3 * SCALE, 0), Vec3::new(0, SCALE, 0));
    let c = get_ray_color(&ray, &bvh, 5, &materials);
    assert_eq!(c, Color::new(32768, 45875, SCALE));
}

#[test]
fn ray_color_depth_zero_is_black() {
    let (bvh, materials) = two_sphere_world();
    let ray = Ray::new(Vec3::new(0, 3 * SCALE, 0), Vec3::new(0, SCALE, 0));
    assert_eq!(get_ray_color(&ray, &bvh, 0, &materials), black());
}

#[test]
fn tiny_render_stays_in_range() {
    let (bvh, materials) = two_sphere_world();
    let config = CameraConfiguration {
        look_from: Vec3::new(0, 0, 3 * SCALE),
        look_at: Vec3::new(0, 0, 0),
        view_up: Vec3::new(0, SCALE, 0),
        vertical_fov: 90 * SCALE,
        tan_half_fov: SCALE,
        aperture: 0,
        focus_distance: Some(3 * SCALE),
        focal_length: SCALE,
        start_time: Some(0),
        end_time: Some(SCALE),
    };
    let camera = Camera::new(config, 2 * SCALE);
    for row in 0..2u32 {
        for col in 0..4u32 {
            let c = calculate_pixel_color(row, col, &camera, &bvh, &materials, 4, 4, 2, 2);
            assert!(0 <= c.r && c.r <= SCALE);
            assert!(0 <= c.g && c.g <= SCALE);
            assert!(0 <= c.b && c.b <= SCALE);
            let (r, g, b) = c.pixel_format(1);
            assert!(r <= 255 && g <= 255 && b <= 255);
        }
    }
}

#[test]
fn reflect_mirrors_exactly() {
    // Incident straight along +z onto a normal along -z: the mirror image
    // points straight back.
    let r = reflect(Vec3::new(0, 0, SCALE), Vec3::new(0, 0, -SCALE));
    assert_eq!(r, Vec3::new(0, 0, -SCALE));
    // Grazing incidence along +x against the same normal is unchanged.
    let r = reflect(Vec3::new(SCALE, 0, 0), Vec3::new(0, 0, -SCALE));
    assert_eq!(r, Vec3::new(SCALE, 0, 0));
}

#[test]
fn metal_with_zero_fuzz_is_deterministic() {
    let m = Metal::new(Color::new(SCALE, SCALE, SCALE), 0);
    let ray = Ray::new(Vec3::new(0, 0, -3 * SCALE), Vec3::new(0, 0, SCALE));
    for _ in 0..10 {
        let s = m.scatter(&ray, &test_record()).expect("a mirror off the front face scatters");
        assert_eq!(s.ray.direction, Vec3::new(0, 0, -SCALE));
    }
}

#[test]
fn metal_clamps_fuzz_into_range() {
    let m = Metal::new(Color::new(SCALE, 0, 0), -5 * SCALE);
    assert_eq!(m.fuzziness, 0);
    let m = Metal::new(Color::new(SCALE, 0, 0), 5 * SCALE);
    assert_eq!(m.fuzziness, SCALE);
}

#[test]
fn camera_with_closed_aperture_shoots_from_the_eye() {
    let config = CameraConfiguration {
        look_from: Vec3::new(0, 0, 3 * SCALE),
        look_at: Vec3::new(0, 0, 0),
        view_up: Vec3::new(0, SCALE, 0),
        vertical_fov: 90 * SCALE,
        tan_half_fov: SCALE,
        aperture: 0,
        focus_distance: Some(3 * SCALE),
        focal_length: SCALE,
        start_time: Some(0),
        end_time: Some(SCALE),
    };
    let camera = Camera::new(config, 2 * SCALE);
    assert_eq!(camera.lens_radius, 0);
    for _ in 0..10 {
        let ray = camera.get_ray(SCALE / 2, SCALE / 2);
        assert_eq!(ray.origin, Vec3::new(0, 0, 3 * SCALE));
    }
}

#[test]
fn gamma_correction_is_the_exact_root() {
    // 1/16 in linear light is 1/4 after square-root gamma.
    let c = correct_gamma_value(Color::new(4096, 0, SCALE));
    assert_eq!(c, Color::new(16384, 0, SCALE));
}

#[test]
fn quantizer_applies_gamma_exactly_once() {
    // Four samples of linear 1/16 gray: average 4096, root 16384, byte 64.
    let accumulated = Color::new(4 * 4096, 4 * 4096, 4 * 4096);
    assert_eq!(accumulated.pixel_format(4), (64, 64, 64));
}

#[test]
fn scene_camera_rejects_degenerate_orientations() {
    let mut camera = raytracing_in_one_weekend::scene::JsonCamera {
        look_from: raytracing_in_one_weekend::scene::JsonVec3 { x: 0, y: 0, z: 0 },
        look_at: raytracing_in_one_weekend::scene::JsonVec3 { x: 0, y: 0, z: 0 },
        view_up_direction: raytracing_in_one_weekend::scene::JsonVec3 { x: 0, y: SCALE, z: 0 },
        vertical_fov_degrees: 90 * SCALE,
        tan_half_fov: SCALE,
        aperture: 0,
        focus_distance: None,
        focal_length: SCALE,
        start_time: 0,
        end_time: SCALE,
    };
    assert_eq!(camera.validate(), Err(SceneError::DegenerateOrientation));
    camera.look_at = raytracing_in_one_weekend::scene::JsonVec3 { x: 0, y: 0, z: -SCALE };
    assert!(camera.validate().is_ok());
    camera.view_up_direction = raytracing_in_one_weekend::scene::JsonVec3 { x: 0, y: 0, z: 0 };
    assert_eq!(camera.validate(), Err(SceneError::DegenerateOrientation));
}

#[test]
fn pixel_format_quantizes_exactly() {
    let c = Color::new(SCALE, 16384, 0);
    assert_eq!(c.pixel_format(1), (255, 128, 0));
    let accumulated = Color::new(4 * SCALE, 4 * 16384, 0);
    assert_eq!(accumulated.pixel_format(4), (255, 128, 0));
}

#[test]
fn coordinate_iterator_walks_the_raster_exactly_once() {
    let mut it = CoordinateIterator::new(2, 2);
    assert_eq!(it.next(), Some((1, 0)));
    assert_eq!(it.next(), Some((1, 1)));
    assert_eq!(it.next(), Some((0, 0)));
    assert_eq!(it.next(), Some((0, 1)));
    assert_eq!(it.next(), None);
    assert_eq!(it.next(), None);
}

#[test]
fn config_completes_the_missing_dimension() {
    let c = UnvalidatedTomlConfig {
        image_width: Some(200),
        image_height: None,
        aspect_ratio: Some((16, 9)),
    }
    .validate()
    .expect("a valid configuration");
    // 200 * 9 / 16 = 112.5, rounded to nearest.
    assert_eq!(c.image_height, 113);
    assert_eq!(c.image_width, 200);
}

#[test]
fn config_rejects_wrong_field_count() {
    let r = UnvalidatedTomlConfig { image_width: None, image_height: None, aspect_ratio: None }
        .validate();
    assert_eq!(r, Err(ConfigError::WrongFieldCount));
    let r = UnvalidatedTomlConfig {
        image_width: Some(10),
        image_height: Some(10),
        aspect_ratio: Some((1, 1)),
    }
    .validate();
    assert_eq!(r, Err(ConfigError::WrongFieldCount));
}

#[test]
fn scene_color_validation_bounds_channels() {
    let good = JsonColor { rgb: (SCALE, 0, SCALE / 2), normalized: true };
    assert!(good.validate().is_ok());
    let bad = JsonColor { rgb: (SCALE + 1, 0, 0), normalized: true };
    assert_eq!(bad.validate(), Err(SceneError::ColorOutOfRange));
    let raw = JsonColor { rgb: (255 * SCALE, 0, 0), normalized: false };
    assert!(raw.validate().is_ok());
    assert_eq!(raw.to_color().r, SCALE);
}

#[test]
fn scene_material_validation_demands_the_right_fields() {
    let metal_without_fuzz = JsonMaterialLiteral {
        name: None,
        type_: JsonMaterialOptions::Metal,
        color: Some(JsonColor { rgb: (SCALE, SCALE, SCALE), normalized: true }),
        refractive_index: None,
        fuzziness: None,
    };
    assert_eq!(metal_without_fuzz.validate(), Err(SceneError::MetalNeedsFuzziness));

    let diffuse_without_color = JsonMaterialLiteral {
        name: None,
        type_: JsonMaterialOptions::Diffuse,
        color: None,
        refractive_index: None,
        fuzziness: None,
    };
    assert_eq!(diffuse_without_color.validate(), Err(SceneError::DiffuseNeedsColor));

    let glass = JsonMaterialLiteral {
        name: None,
        type_: JsonMaterialOptions::Dialectric,
        color: None,
        refractive_index: Some(3 * SCALE / 2),
        fuzziness: None,
    };
    assert!(glass.validate().is_ok());
    assert!(matches!(glass.to_material(), MaterialEnum::Dialectric(_)));

    let by_name = JsonMaterial::ReferenceToName(String::from("ground"));
    assert!(by_name.validate().is_ok());
    assert!(by_name.to_material().is_none());
}

#[test]
fn scene_sphere_builds_the_right_shape() {
    let still = JsonSphere {
        name: None,
        coordinates: (0, SCALE, 0),
        movement: None,
        radius: SCALE,
        material: JsonMaterial::ReferenceToName(String::from("ground")),
    };
    assert!(still.validate().is_ok());
    assert!(matches!(still.to_sphere(0), HittableEnum::Sphere(_)));

    let zero_radius = JsonSphere {
        name: None,
        coordinates: (0, 0, 0),
        movement: None,
        radius: 0,
        material: JsonMaterial::ReferenceToName(String::from("ground")),
    };
    assert_eq!(zero_radius.validate(), Err(SceneError::BadRadius));
}

#[test]
fn random_helpers_respect_their_ranges() {
    for _ in 0..50 {
        let v = random::random_range(10, 20);
        assert!(10 <= v && v < 20);
        let u = random::random();
        assert!(0 <= u && u < SCALE);
        let p = random::random_in_unit_sphere();
        let ls = p.x as i128 * p.x as i128 + p.y as i128 * p.y as i128 + p.z as i128 * p.z as i128;
        assert!(ls <= (SCALE as i128) * (SCALE as i128));
        let d = random::random_in_unit_disk();
        assert_eq!(d.z, 0);
    }
}

#[test]
fn perlin_noise_stays_at_unit_scale() {
    let noise = PerlinNoise::new();
    let points = [
        Vec3::new(0, 0, 0),
        Vec3::new(3 * SCALE / 2, -7 * SCALE / 3, 5 * SCALE),
        Vec3::new(-20 * SCALE, 13 * SCALE, -5 * SCALE / 7),
    ];
    for p in points.iter() {
        let n = noise.noise(*p);
        assert!(-SCALE <= n && n <= SCALE);
        let t = noise.turbulence(*p, 7);
        assert!(0 <= t && t <= 2 * SCALE);
    }
}

#[test]
fn textures_sample_displayable_colors() {
    let checker = TextureEnum::CheckerBoard(
        raytracing_in_one_weekend::texture::CheckerBoard::from_colors(
            Color::new(SCALE, 0, 0),
            Color::new(0, SCALE, 0),
        ),
    );
    let near = checker.value(0, 0, Vec3::new(100, 0, 0));
    let far = checker.value(0, 0, Vec3::new(100 + 20589, 0, 0));
    assert_ne!(near, far);
    let solid = TextureEnum::SolidColor(SolidColor::new(Color::new(7, 8, 9)));
    assert_eq!(solid.value(0, 0, Vec3::new(0, 0, 0)), Color::new(7, 8, 9));
}

#[test]
fn uv_coordinates_cover_the_unit_square() {
    let (u, v) = Sphere::get_sphere_uv(Vec3::new(SCALE, 0, 0));
    assert!(0 <= u && u <= SCALE);
    assert!(0 <= v && v <= SCALE);
    let (_, v_top) = Sphere::get_sphere_uv(Vec3::new(0, SCALE, 0));
    assert_eq!(v_top, SCALE);
    let (_, v_bottom) = Sphere::get_sphere_uv(Vec3::new(0, -SCALE, 0));
    assert_eq!(v_bottom, 0);
}
