//! Procedural scene construction: the classic field of small random
//! spheres around three large ones over a checkered ground, with the
//! camera that frames it. Everything built is well-formed, so the
//! hierarchy builder and the integrator accept it as it is.

use crate::camera::CameraConfiguration;
use crate::color::Color;
use crate::fx::SCALE;
use crate::hittable::{
    has_empty_list, has_empty_list_seq, spans_times, spans_times_seq, wf_shape, wf_shape_seq,
    HittableEnum, HittableList,
};
use crate::material::{material_wf, Dialectric, Lambertian, MaterialEnum, Metal};
use crate::random::{random, random_range};
use crate::sphere::Sphere;
use crate::texture::{CheckerBoard, TextureEnum};
use crate::vec3::Vec3;
use vstd::prelude::*;

verus! {

/// Everything the renderer needs of a built scene: shapes, the material
/// arena they index, and the camera.
pub open spec fn scene_ok(
    world: HittableList,
    materials: Seq<MaterialEnum>,
    camera: CameraConfiguration,
) -> bool {
    &&& wf_shape_seq(world.objects@)
    &&& !has_empty_list_seq(world.objects@)
    &&& world.objects@.len() > 0
    &&& (forall|t0: int, t1: int| spans_times_seq(world.objects@, t0, t1))
    &&& (forall|i: int| 0 <= i < materials.len() ==> material_wf(#[trigger] materials[i]))
    &&& camera.wf()
}

/// Builds the random-sphere scene: a checkered ground sphere, a field of
/// small spheres with randomly chosen materials, three large feature
/// spheres, and the camera looking across the field.
pub fn build_scene() -> (res: (HittableList, Vec<MaterialEnum>, CameraConfiguration))
    ensures
        scene_ok(res.0, res.1@, res.2),
{
    let mut world = HittableList::new();
    let mut materials: Vec<MaterialEnum> = Vec::new();

    let even = TextureEnum::SolidColor(crate::texture::SolidColor {
        color: Color { r: 27525, g: 36700, b: 36700 },
    });
    let odd = TextureEnum::SolidColor(crate::texture::SolidColor {
        color: Color { r: 58982, g: 58982, b: 58982 },
    });
    proof {
        assert(crate::texture::texture_wf(even));
        assert(crate::texture::texture_wf(odd));
    }
    let checker = TextureEnum::CheckerBoard(
        CheckerBoard::new(Box::new(even), Box::new(odd)),
    );
    proof {
        assert(crate::texture::texture_wf(checker));
    }
    let ground_material = MaterialEnum::Lambertian(Lambertian::from_texture(checker));
    proof {
        lemma_arena_push(materials@, ground_material);
    }
    materials.push(ground_material);
    let ground = HittableEnum::Sphere(
        Sphere::new(Vec3 { x: 0, y: -1000 * SCALE, z: 0 }, 1000 * SCALE, 0),
    );
    proof {
        lemma_scene_push(world.objects@, ground);
    }
    world.add(ground);

    let mut a: i64 = -11;
    while a < 11
        invariant
            -11 <= a <= 11,
            wf_shape_seq(world.objects@),
            !has_empty_list_seq(world.objects@),
            world.objects@.len() > 0,
            forall|t0: int, t1: int| spans_times_seq(world.objects@, t0, t1),
            forall|i: int|
                0 <= i < materials@.len() ==> material_wf(#[trigger] materials@[i]),
        decreases 11 - a,
    {
        let mut b: i64 = -11;
        while b < 11
            invariant
                -11 <= a < 11,
                -11 <= b <= 11,
                wf_shape_seq(world.objects@),
                !has_empty_list_seq(world.objects@),
                world.objects@.len() > 0,
                forall|t0: int, t1: int| spans_times_seq(world.objects@, t0, t1),
                forall|i: int|
                    0 <= i < materials@.len() ==> material_wf(#[trigger] materials@[i]),
            decreases 11 - b,
        {
            let choose_material = random();
            let center = Vec3 {
                x: a * SCALE + random_range(0, 58982),
                y: 0,
                z: b * SCALE + random_range(0, 58982),
            };

            let away = center.minus(Vec3 { x: 4 * SCALE, y: 13107, z: 0 });
            let distance_sq: i128 = away.dot(away);
            // Skip spheres crowding the large metal sphere (within 0.9 units).
            if distance_sq > (58982 as i128) * (58982 as i128) {
                let material: MaterialEnum = if choose_material < 52429 {
                    let albedo = Color {
                        r: scale_channel(random(), random()),
                        g: scale_channel(random(), random()),
                        b: scale_channel(random(), random()),
                    };
                    MaterialEnum::Lambertian(Lambertian::new(albedo))
                } else if choose_material < 62259 {
                    let albedo = Color {
                        r: random_range(SCALE / 2, SCALE),
                        g: random_range(SCALE / 2, SCALE),
                        b: random_range(SCALE / 2, SCALE),
                    };
                    MaterialEnum::Metal(Metal::new(albedo, random_range(0, SCALE / 2)))
                } else {
                    MaterialEnum::Dialectric(Dialectric::new(3 * SCALE / 2))
                };
                let index = materials.len();
                proof {
                    lemma_arena_push(materials@, material);
                }
                materials.push(material);

                let radius = random_range(9830, 16384);
                let lifted = Vec3 { x: center.x, y: radius, z: center.z };
                let sphere = HittableEnum::Sphere(Sphere::new(lifted, radius, index));
                proof {
                    lemma_scene_push(world.objects@, sphere);
                }
                world.add(sphere);

                if choose_material > 64225 {
                    // A hollow glass shell: an inner sphere with inverted
                    // normals.
                    let inner_radius = -((radius * 85) / 100);
                    let inner = HittableEnum::Sphere(Sphere::new(lifted, inner_radius, index));
                    proof {
                        lemma_scene_push(world.objects@, inner);
                    }
                    world.add(inner);
                }
            }
            b = b + 1;
        }
        a = a + 1;
    }

    let glass_index = materials.len();
    let glass_material = MaterialEnum::Dialectric(Dialectric::new(3 * SCALE / 2));
    proof {
        lemma_arena_push(materials@, glass_material);
    }
    materials.push(glass_material);
    let matte_index = materials.len();
    let matte_material = MaterialEnum::Lambertian(
        Lambertian::new(Color { r: 40632, g: 60293, b: 30802 }),
    );
    proof {
        lemma_arena_push(materials@, matte_material);
    }
    materials.push(matte_material);
    let metal_index = materials.len();
    let metal_material = MaterialEnum::Metal(Metal::new(Color { r: 45875, g: 39321, b: 32768 }, 0));
    proof {
        lemma_arena_push(materials@, metal_material);
    }
    materials.push(metal_material);

    let feature_glass = HittableEnum::Sphere(
        Sphere::new(Vec3 { x: 0, y: SCALE, z: 0 }, SCALE, glass_index),
    );
    proof {
        lemma_scene_push(world.objects@, feature_glass);
    }
    world.add(feature_glass);
    let feature_matte = HittableEnum::Sphere(
        Sphere::new(Vec3 { x: -4 * SCALE, y: SCALE, z: 0 }, SCALE, matte_index),
    );
    proof {
        lemma_scene_push(world.objects@, feature_matte);
    }
    world.add(feature_matte);
    let feature_metal = HittableEnum::Sphere(
        Sphere::new(Vec3 { x: 4 * SCALE, y: SCALE, z: 0 }, SCALE, metal_index),
    );
    proof {
        lemma_scene_push(world.objects@, feature_metal);
    }
    world.add(feature_metal);

    let camera = CameraConfiguration {
        look_from: Vec3 { x: 13 * SCALE, y: 2 * SCALE, z: 3 * SCALE },
        look_at: Vec3 { x: 0, y: 0, z: 0 },
        view_up: Vec3 { x: 0, y: SCALE, z: 0 },
        vertical_fov: 20 * SCALE,
        // The tangent of ten degrees.
        tan_half_fov: 11556,
        aperture: 6554,
        focus_distance: Some(10 * SCALE),
        focal_length: SCALE,
        start_time: None,
        end_time: None,
    };

    (world, materials, camera)
}

/// The product of two unit-range draws, for a squared-looking albedo.
fn scale_channel(a: i64, b: i64) -> (r: i64)
    requires
        0 <= a < SCALE,
        0 <= b < SCALE,
    ensures
        0 <= r <= SCALE,
{
    proof {
        assert(0 <= crate::fx::fx_mul_spec(a as int, b as int) <= 65536) by (nonlinear_arith)
            requires
                0 <= a <= 65536,
                0 <= b <= 65536,
                SCALE == 65536,
        ;
    }
    crate::fx::fx_mul(a, b)
}


/// Appending a well-formed material keeps the arena well-formed.
proof fn lemma_arena_push(s: Seq<MaterialEnum>, x: MaterialEnum)
    requires
        forall|i: int| 0 <= i < s.len() ==> material_wf(#[trigger] s[i]),
        material_wf(x),
    ensures
        forall|i: int| 0 <= i < s.push(x).len() ==> material_wf(#[trigger] s.push(x)[i]),
{
    assert forall|i: int| 0 <= i < s.push(x).len() implies material_wf(
        #[trigger] s.push(x)[i],
    ) by {
        if i < s.len() {
            assert(s.push(x)[i] == s[i]);
        } else {
            assert(s.push(x)[i] == x);
        }
    }
}

/// Appending a bounded leaf keeps every scene predicate: the element-wise
/// conditions extend one element at a time.
proof fn lemma_scene_push(s: Seq<HittableEnum>, x: HittableEnum)
    requires
        wf_shape_seq(s),
        !has_empty_list_seq(s),
        wf_shape(x),
        !has_empty_list(x),
        forall|t0: int, t1: int| spans_times_seq(s, t0, t1),
        forall|t0: int, t1: int| spans_times(x, t0, t1),
    ensures
        wf_shape_seq(s.push(x)),
        !has_empty_list_seq(s.push(x)),
        forall|t0: int, t1: int| spans_times_seq(s.push(x), t0, t1),
    decreases s.len(),
{
    if s.len() == 0 {
        assert(s.push(x)[0] == x);
        assert(s.push(x).drop_first() =~= Seq::<HittableEnum>::empty());
        assert(wf_shape_seq(s.push(x).drop_first()));
        assert(wf_shape_seq(s.push(x)));
        assert(!has_empty_list_seq(s.push(x).drop_first()));
        assert(!has_empty_list_seq(s.push(x)));
        assert forall|t0: int, t1: int| spans_times_seq(s.push(x), t0, t1) by {
            assert(spans_times(x, t0, t1));
            assert(spans_times_seq(s.push(x).drop_first(), t0, t1));
        }
    } else {
        assert(s.push(x)[0] == s[0]);
        assert(s.push(x).drop_first() =~= s.drop_first().push(x));
        assert(wf_shape(s[0]) && wf_shape_seq(s.drop_first()));
        assert(!has_empty_list(s[0]) && !has_empty_list_seq(s.drop_first()));
        assert forall|t0: int, t1: int| spans_times_seq(s.drop_first(), t0, t1) by {
            assert(spans_times_seq(s, t0, t1));
        }
        lemma_scene_push(s.drop_first(), x);
        assert(wf_shape_seq(s.push(x)));
        assert(!has_empty_list_seq(s.push(x)));
        assert forall|t0: int, t1: int| spans_times_seq(s.push(x), t0, t1) by {
            assert(spans_times_seq(s, t0, t1));
            assert(spans_times_seq(s.drop_first().push(x), t0, t1));
        }
    }
}

} // verus!
