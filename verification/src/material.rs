//! Materials and the scattering protocol.
//!
//! `scatter` answers an incident ray and a hit record with either an
//! absorbed ray (`None`) or a scattered ray and an attenuation color. For
//! the diffuse and metallic materials the attenuation is the albedo, a
//! displayable color, so no channel ever exceeds one; the dielectric's
//! attenuation is exactly white. Scattered rays start at the hit point and
//! stay within the ray bounds, so the integrator can trace them onward.

use crate::color::{channels_within, Color};
use crate::fx::{
    clamp_spec, div_trunc, fx_div, fx_div_spec, fx_mul, fx_mul_spec, isqrt, sqrt_floor, tdiv,
    GEOM_BOUND, RAY_BOUND, SCALE,
};
use crate::hittable::HitRecord;
use crate::random::{random, random_in_hemisphere, random_in_unit_sphere, random_unit_vector};
use crate::ray::Ray;
use crate::texture::{texture_wf, SolidColor, TextureEnum};
use crate::vec3::{bounded, dot_spec, lemma_dot_bound, Vec3, NEAR_ZERO};
use vstd::prelude::*;

verus! {


/// A draw from the closed unit ball, as the samplers produce it.
pub open spec fn in_unit_ball(d: Vec3) -> bool {
    bounded(d, SCALE as int) && dot_spec(d, d) <= SCALE as int * SCALE as int
}

/// A draw of a (nearly) unit direction, as the samplers produce it.
pub open spec fn unit_draw(d: Vec3) -> bool {
    bounded(d, 2 * SCALE as int)
}

/// Every component is below the degeneracy threshold.
pub open spec fn near_zero_spec(v: Vec3) -> bool {
    -(NEAR_ZERO as int) < v.x < NEAR_ZERO as int && -(NEAR_ZERO as int) < v.y < NEAR_ZERO as int
        && -(NEAR_ZERO as int) < v.z < NEAR_ZERO as int
}

/// The incident direction mirrored about the normal, each component
/// clamped into the ray bounds.
pub open spec fn reflect_spec(v: Vec3, n: Vec3) -> Vec3 {
    let d = dot_spec(v, n);
    Vec3 {
        x: clamp_spec(
            v.x - tdiv(2 * d * n.x, SCALE as int * SCALE as int),
            RAY_BOUND as int,
        ) as i64,
        y: clamp_spec(
            v.y - tdiv(2 * d * n.y, SCALE as int * SCALE as int),
            RAY_BOUND as int,
        ) as i64,
        z: clamp_spec(
            v.z - tdiv(2 * d * n.z, SCALE as int * SCALE as int),
            RAY_BOUND as int,
        ) as i64,
    }
}

/// The metal's scattered direction for a given unit-ball draw: the
/// mirrored direction perturbed by the fuzzed draw, clamped.
pub open spec fn metal_direction_spec(v: Vec3, n: Vec3, fuzz: int, dw: Vec3) -> Vec3 {
    let refl = reflect_spec(v, n);
    Vec3 {
        x: clamp_spec(refl.x + fx_mul_spec(dw.x as int, fuzz), RAY_BOUND as int) as i64,
        y: clamp_spec(refl.y + fx_mul_spec(dw.y as int, fuzz), RAY_BOUND as int) as i64,
        z: clamp_spec(refl.z + fx_mul_spec(dw.z as int, fuzz), RAY_BOUND as int) as i64,
    }
}

/// The diffuse scattered direction for a given unit draw: the normal plus
/// the draw, falling back to the normal when the sum nearly cancels.
pub open spec fn lambertian_direction_spec(n: Vec3, dw: Vec3) -> Vec3 {
    let cand = Vec3 { x: (n.x + dw.x) as i64, y: (n.y + dw.y) as i64, z: (n.z + dw.z) as i64 };
    if near_zero_spec(cand) {
        n
    } else {
        cand
    }
}

/// The hemisphere scattered direction for a given draw: the draw itself,
/// falling back to the normal when it nearly cancels.
pub open spec fn hemisphere_direction_spec(n: Vec3, dw: Vec3) -> Vec3 {
    if near_zero_spec(dw) {
        n
    } else {
        dw
    }
}

/// The normalized incident direction, with a fixed fallback for the
/// degenerate zero direction.
pub open spec fn unit_direction_spec(dir: Vec3) -> Vec3 {
    if dir.x == 0 && dir.y == 0 && dir.z == 0 {
        Vec3 { x: SCALE as i64, y: 0, z: 0 }
    } else {
        let len = dir.length_val();
        Vec3 {
            x: fx_div_spec(dir.x as int, len) as i64,
            y: fx_div_spec(dir.y as int, len) as i64,
            z: fx_div_spec(dir.z as int, len) as i64,
        }
    }
}

/// The refraction ratio a dielectric uses: the inverse index on a front
/// face (clamped into the accepted index range), the index itself inside.
pub open spec fn refraction_ratio_spec(index: int, front_face: bool) -> int {
    if front_face {
        let inv = fx_div_spec(SCALE as int, index);
        if inv < 1 {
            1
        } else if inv > 0x1000_0000 {
            0x1000_0000
        } else {
            inv
        }
    } else {
        index
    }
}

/// The incidence cosine: the dot of the reversed unit direction with the
/// normal, rescaled and clamped into `[0, 1]`.
pub open spec fn cos_theta_spec(unit: Vec3, n: Vec3) -> int {
    let d = -dot_spec(unit, n);
    let c = tdiv(d, SCALE as int);
    if c < 0 {
        0
    } else if c > SCALE as int {
        SCALE as int
    } else {
        c
    }
}

/// Whether refraction is impossible: the scaled sine of the refracted
/// angle would exceed one (total internal reflection).
pub open spec fn cannot_refract_spec(ratio: int, cos: int) -> bool {
    let sin = sqrt_floor(SCALE as int * SCALE as int - cos * cos);
    fx_mul_spec(ratio, sin) > SCALE as int
}

/// One component of the perpendicular part of the refracted direction.
pub open spec fn perp_component_spec(u: int, n: int, ratio: int, cos: int) -> int {
    clamp_spec(tdiv(ratio * (u + fx_mul_spec(cos, n)), SCALE as int), 0x2000_0000)
}

/// The refracted direction: the scaled perpendicular part plus the
/// parallel part along the normal, components clamped into the ray
/// bounds.
pub open spec fn refract_spec(unit: Vec3, n: Vec3, ratio: int, cos: int) -> Vec3 {
    let px = perp_component_spec(unit.x as int, n.x as int, ratio, cos);
    let py = perp_component_spec(unit.y as int, n.y as int, ratio, cos);
    let pz = perp_component_spec(unit.z as int, n.z as int, ratio, cos);
    let ls = px * px + py * py + pz * pz;
    let rem = SCALE as int * SCALE as int - ls;
    let mag = if rem >= 0 {
        rem
    } else {
        -rem
    };
    let root = if sqrt_floor(mag) > 2 * SCALE as int {
        2 * SCALE as int
    } else {
        sqrt_floor(mag)
    };
    Vec3 {
        x: clamp_spec(px - fx_mul_spec(root, n.x as int), RAY_BOUND as int) as i64,
        y: clamp_spec(py - fx_mul_spec(root, n.y as int), RAY_BOUND as int) as i64,
        z: clamp_spec(pz - fx_mul_spec(root, n.z as int), RAY_BOUND as int) as i64,
    }
}

/// A material's answer: the scattered ray and the attenuation to apply to
/// whatever that ray goes on to collect.
pub struct Scatter {
    pub ray: Ray,
    pub attenuation: Color,
}

/// The closed set of material variants.
pub enum MaterialEnum {
    Lambertian(Lambertian),
    UniformScatter(UniformScatter),
    Metal(Metal),
    Dialectric(Dialectric),
}

/// Diffuse reflection toward the normal, tinted by a texture.
pub struct Lambertian {
    pub albedo: TextureEnum,
}

/// Diffuse reflection uniform over the hemisphere, tinted by a color.
pub struct UniformScatter {
    pub albedo: Color,
}

/// Mirror reflection with fuzz, tinted by a color.
pub struct Metal {
    pub albedo: Color,
    pub fuzziness: i64,
}

/// A transparent medium that reflects or refracts.
pub struct Dialectric {
    pub refractive_index: i64,
}

/// Well-formedness of a material: albedos are displayable, fuzz is within
/// one unit, the refractive index is positive.
pub open spec fn material_wf(m: MaterialEnum) -> bool {
    match m {
        MaterialEnum::Lambertian(l) => texture_wf(l.albedo),
        MaterialEnum::UniformScatter(u) => channels_within(u.albedo, SCALE as int),
        MaterialEnum::Metal(mt) => channels_within(mt.albedo, SCALE as int) && 0 <= mt.fuzziness
            <= SCALE,
        MaterialEnum::Dialectric(d) => 1 <= d.refractive_index <= 0x1000_0000,
    }
}

/// A scattered ray is usable onward: it starts at the hit point, keeps
/// the incident ray's time, and stays within the ray bounds.
pub open spec fn scatter_ray_ok(s: Scatter, ray_in: Ray, rec: HitRecord) -> bool {
    s.ray.origin == rec.point && s.ray.time == ray_in.time && s.ray.wf()
}

impl MaterialEnum {
    /// Dispatches scattering to the material. Whenever a ray is scattered,
    /// its attenuation is a displayable color — never above one in any
    /// channel — and for the dielectric it is exactly white. Diffuse
    /// materials always scatter; the metal absorbs rays that fuzz into
    /// the surface.
    pub fn scatter(&self, ray_in: &Ray, hit_record: &HitRecord) -> (res: Option<Scatter>)
        requires
            material_wf(*self),
            ray_in.wf(),
            hit_record.wf(),
        ensures
            res matches Some(s) ==> channels_within(s.attenuation, SCALE as int) && scatter_ray_ok(
                s,
                *ray_in,
                *hit_record,
            ),
            self matches MaterialEnum::Lambertian(_) ==> res is Some,
            self matches MaterialEnum::Lambertian(l) ==> (res matches Some(s) ==> s.attenuation
                == crate::texture::texture_value_spec(
                l.albedo,
                hit_record.u as int,
                hit_record.v as int,
                hit_record.point,
            )),
            self matches MaterialEnum::UniformScatter(_) ==> res is Some,
            self matches MaterialEnum::Dialectric(_) ==> res is Some && (res matches Some(s)
                ==> s.attenuation == (Color { r: SCALE as i64, g: SCALE as i64, b: SCALE as i64 })),
            self matches MaterialEnum::Metal(m) ==> (res matches Some(s) ==> s.attenuation
                == m.albedo && dot_spec(s.ray.direction, hit_record.normal) > 0),
    {
        match self {
            MaterialEnum::Lambertian(l) => l.scatter(ray_in, hit_record),
            MaterialEnum::UniformScatter(u) => u.scatter(ray_in, hit_record),
            MaterialEnum::Metal(m) => m.scatter(ray_in, hit_record),
            MaterialEnum::Dialectric(d) => d.scatter(ray_in, hit_record),
        }
    }
}

impl Lambertian {
    /// A diffuse material of one color.
    pub fn new(albedo: Color) -> (m: Lambertian)
        ensures
            m.albedo == TextureEnum::SolidColor(SolidColor { color: albedo }),
    {
        Lambertian { albedo: TextureEnum::SolidColor(SolidColor { color: albedo }) }
    }

    /// A diffuse material sampling a texture.
    pub fn from_texture(texture: TextureEnum) -> (m: Lambertian)
        ensures
            m.albedo == texture,
    {
        Lambertian { albedo: texture }
    }

    /// Scatters toward the normal plus a random unit vector, falling back
    /// to the normal itself when the sum nearly cancels.
    pub fn scatter(&self, ray_in: &Ray, hit_record: &HitRecord) -> (res: Option<Scatter>)
        requires
            texture_wf(self.albedo),
            ray_in.wf(),
            hit_record.wf(),
        ensures
            res is Some,
            res matches Some(s) ==> s.attenuation == crate::texture::texture_value_spec(
                self.albedo,
                hit_record.u as int,
                hit_record.v as int,
                hit_record.point,
            ) && channels_within(s.attenuation, SCALE as int) && scatter_ray_ok(
                s,
                *ray_in,
                *hit_record,
            ) && (exists|dw: Vec3|
                #[trigger] unit_draw(dw) && s.ray.direction == lambertian_direction_spec(
                    hit_record.normal,
                    dw,
                )),
    {
        let bounce = random_unit_vector();
        let mut scatter_direction = hit_record.normal.plus(bounce);
        if scatter_direction.near_zero() {
            scatter_direction = hit_record.normal;
        }
        proof {
            assert(unit_draw(bounce) && scatter_direction == lambertian_direction_spec(
                hit_record.normal,
                bounce,
            ));
        }
        let scattered_ray = Ray::new_at_time(hit_record.point, scatter_direction, ray_in.time());
        let attenuation = self.albedo.value(hit_record.u, hit_record.v, hit_record.point);
        Some(Scatter { ray: scattered_ray, attenuation })
    }
}

impl UniformScatter {
    /// A uniform-hemisphere material of one color.
    pub fn new(albedo: Color) -> (m: UniformScatter)
        ensures
            m.albedo == albedo,
    {
        UniformScatter { albedo }
    }

    /// Scatters uniformly over the hemisphere around the normal, with the
    /// same degenerate-direction fallback as the diffuse material.
    pub fn scatter(&self, ray_in: &Ray, hit_record: &HitRecord) -> (res: Option<Scatter>)
        requires
            channels_within(self.albedo, SCALE as int),
            ray_in.wf(),
            hit_record.wf(),
        ensures
            res is Some,
            res matches Some(s) ==> s.attenuation == self.albedo && scatter_ray_ok(
                s,
                *ray_in,
                *hit_record,
            ) && (exists|dw: Vec3|
                #[trigger] unit_draw(dw) && dot_spec(dw, hit_record.normal) >= 0
                    && s.ray.direction == hemisphere_direction_spec(hit_record.normal, dw)),
    {
        let draw = random_in_hemisphere(hit_record.normal);
        let mut scatter_direction = draw;
        if scatter_direction.near_zero() {
            scatter_direction = hit_record.normal;
        }
        proof {
            assert(unit_draw(draw) && scatter_direction == hemisphere_direction_spec(
                hit_record.normal,
                draw,
            ));
        }
        let scattered_ray = Ray::new_at_time(hit_record.point, scatter_direction, ray_in.time());
        Some(Scatter { ray: scattered_ray, attenuation: self.albedo })
    }
}

impl Metal {
    /// A metal of one color; the fuzz is clamped into `[0, 1]`.
    pub fn new(albedo: Color, fuzziness: i64) -> (m: Metal)
        ensures
            m.albedo == albedo,
            m.fuzziness as int == (if fuzziness < 0 {
                0
            } else if fuzziness <= SCALE {
                fuzziness as int
            } else {
                SCALE as int
            }),
            0 <= m.fuzziness <= SCALE,
    {
        let fuzziness = if fuzziness < 0 {
            0
        } else if fuzziness <= SCALE {
            fuzziness
        } else {
            SCALE
        };
        Metal { albedo, fuzziness }
    }

    /// Reflects the incident direction about the normal, perturbed by the
    /// fuzz; rays that end up pointing into the surface are absorbed.
    /// With zero fuzz no draw is involved, and the outcome is the exact
    /// mirrored direction, scattered if and only if it points off the
    /// surface.
    pub fn scatter(&self, ray_in: &Ray, hit_record: &HitRecord) -> (res: Option<Scatter>)
        requires
            channels_within(self.albedo, SCALE as int),
            0 <= self.fuzziness <= SCALE,
            ray_in.wf(),
            hit_record.wf(),
        ensures
            res matches Some(s) ==> s.attenuation == self.albedo && dot_spec(
                s.ray.direction,
                hit_record.normal,
            ) > 0 && scatter_ray_ok(s, *ray_in, *hit_record) && (exists|dw: Vec3|
                #[trigger] in_unit_ball(dw) && s.ray.direction == metal_direction_spec(
                    ray_in.direction,
                    hit_record.normal,
                    self.fuzziness as int,
                    dw,
                )),
            res is None ==> (exists|dw: Vec3|
                #[trigger] in_unit_ball(dw) && dot_spec(
                    metal_direction_spec(
                        ray_in.direction,
                        hit_record.normal,
                        self.fuzziness as int,
                        dw,
                    ),
                    hit_record.normal,
                ) <= 0),
            self.fuzziness == 0 ==> (res is Some <==> dot_spec(
                reflect_spec(ray_in.direction, hit_record.normal),
                hit_record.normal,
            ) > 0),
            self.fuzziness == 0 ==> (res matches Some(s) ==> s.ray.direction == reflect_spec(
                ray_in.direction,
                hit_record.normal,
            )),
    {
        let reflected_direction = reflect(ray_in.direction(), hit_record.normal);
        let sample = random_in_unit_sphere();
        let fuzz_offset = Vec3 {
            x: scale_fuzz(sample.x, self.fuzziness),
            y: scale_fuzz(sample.y, self.fuzziness),
            z: scale_fuzz(sample.z, self.fuzziness),
        };
        let direction = Vec3 {
            x: clamp_ray(reflected_direction.x + fuzz_offset.x),
            y: clamp_ray(reflected_direction.y + fuzz_offset.y),
            z: clamp_ray(reflected_direction.z + fuzz_offset.z),
        };
        proof {
            assert(in_unit_ball(sample));
            assert(direction == metal_direction_spec(
                ray_in.direction,
                hit_record.normal,
                self.fuzziness as int,
                sample,
            ));
            if self.fuzziness == 0 {
                lemma_zero_fuzz(reflect_spec(ray_in.direction, hit_record.normal), sample);
            }
        }
        let scattered_ray = Ray::new_at_time(hit_record.point, direction, ray_in.time());
        let d: i128 = scattered_ray.direction().dot(hit_record.normal);
        if d <= 0 {
            return None;
        }
        Some(Scatter { ray: scattered_ray, attenuation: self.albedo })
    }
}

impl Dialectric {
    /// A transparent material with the given refractive index.
    pub fn new(refractive_index: i64) -> (m: Dialectric)
        requires
            1 <= refractive_index <= 0x1000_0000,
        ensures
            m.refractive_index == refractive_index,
    {
        Dialectric { refractive_index }
    }

    /// Schlick's approximation of the reflectance at the given incidence
    /// cosine, a probability in `[0, 1]`.
    pub fn reflectance(cosine: i64, refraction_ratio: i64) -> (r: i64)
        requires
            0 <= cosine <= SCALE,
            0 < refraction_ratio <= 0x1000_0000,
        ensures
            0 <= r <= SCALE,
    {
        let denom = SCALE + refraction_ratio;
        proof {
            lemma_ratio_unit(SCALE as int - refraction_ratio as int, denom as int);
        }
        let r0_root = fx_div(SCALE - refraction_ratio, denom);
        let r0 = square_signed(r0_root);
        let inv = SCALE - cosine;
        let inv2 = mul_unit(inv, inv);
        let inv4 = mul_unit(inv2, inv2);
        let inv5 = mul_unit(inv4, inv);
        let rest = mul_unit(SCALE - r0, inv5);
        if r0 + rest > SCALE {
            SCALE
        } else {
            r0 + rest
        }
    }

    /// Reflects when refraction is impossible (total internal reflection)
    /// or when a stochastic Schlick test succeeds; refracts otherwise.
    /// Either way the ray continues: a dielectric absorbs nothing, its
    /// attenuation is exactly white, and its direction is the mirrored or
    /// the refracted one — the mirrored one forcibly under total internal
    /// reflection.
    pub fn scatter(&self, ray_in: &Ray, hit_record: &HitRecord) -> (res: Option<Scatter>)
        requires
            1 <= self.refractive_index <= 0x1000_0000,
            ray_in.wf(),
            hit_record.wf(),
        ensures
            res is Some,
            res matches Some(s) ==> s.attenuation == (Color {
                r: SCALE as i64,
                g: SCALE as i64,
                b: SCALE as i64,
            }) && scatter_ray_ok(s, *ray_in, *hit_record) && ({
                let unit = unit_direction_spec(ray_in.direction);
                let ratio = refraction_ratio_spec(
                    self.refractive_index as int,
                    hit_record.on_front_face,
                );
                let cos = cos_theta_spec(unit, hit_record.normal);
                &&& (s.ray.direction == reflect_spec(unit, hit_record.normal)
                    || s.ray.direction == refract_spec(unit, hit_record.normal, ratio, cos))
                &&& (cannot_refract_spec(ratio, cos) ==> s.ray.direction == reflect_spec(
                    unit,
                    hit_record.normal,
                ))
            }),
    {
        let refraction_ratio: i64 = if hit_record.on_front_face {
            proof {
                lemma_div_pos(SCALE as int, self.refractive_index as int);
            }
            let inv = fx_div(SCALE, self.refractive_index);
            if inv < 1 {
                1
            } else if inv > 0x1000_0000 {
                0x1000_0000
            } else {
                inv
            }
        } else {
            self.refractive_index
        };
        proof {
            assert(refraction_ratio as int == refraction_ratio_spec(
                self.refractive_index as int,
                hit_record.on_front_face,
            ));
        }

        let dir = ray_in.direction();
        let unit_direction = if dir.x == 0 && dir.y == 0 && dir.z == 0 {
            Vec3 { x: SCALE, y: 0, z: 0 }
        } else {
            dir.normalized()
        };
        proof {
            assert(unit_direction == unit_direction_spec(ray_in.direction));
        }
        let neg_unit = unit_direction.neg();
        proof {
            lemma_dot_bound(neg_unit, hit_record.normal, 2 * SCALE as int);
        }
        let d: i128 = neg_unit.dot(hit_record.normal);
        let cos_theta: i64 = clamp_cos(div_trunc(d, SCALE as i128));
        proof {
            assert(0 <= SCALE as int * SCALE as int - cos_theta as int * cos_theta as int <= SCALE
                as int * SCALE as int) by (nonlinear_arith)
                requires
                    0 <= cos_theta <= SCALE,
                    SCALE == 65536,
            ;
        }
        let sin_sq: i128 = (SCALE as i128) * (SCALE as i128) - (cos_theta as i128) * (
        cos_theta as i128);
        let sr: u128 = isqrt(sin_sq as u128);
        proof {
            assert(sr <= 65536) by (nonlinear_arith)
                requires
                    sr as int * sr as int <= sin_sq as int,
                    sin_sq as int <= 65536 * 65536,
            ;
        }
        let sin_theta: i64 = sr as i64;
        proof {
            crate::vec3::lemma_scale_fits(refraction_ratio as int, sin_theta as int);
            lemma_neg_dot(unit_direction, hit_record.normal);
            assert(cos_theta as int == cos_theta_spec(unit_direction, hit_record.normal));
        }
        let cannot_refract = fx_mul(refraction_ratio, sin_theta) > SCALE;
        proof {
            assert(cannot_refract == cannot_refract_spec(
                refraction_ratio as int,
                cos_theta as int,
            ));
        }

        let direction = if cannot_refract || Self::reflectance(cos_theta, refraction_ratio)
            > random() {
            reflect(unit_direction, hit_record.normal)
        } else {
            refract(unit_direction, hit_record.normal, refraction_ratio, cos_theta)
        };

        let scattered_ray = Ray::new_at_time(hit_record.point, direction, ray_in.time());
        Some(
            Scatter {
                ray: scattered_ray,
                attenuation: Color { r: SCALE, g: SCALE, b: SCALE },
            },
        )
    }
}

/// The incident direction mirrored about the normal; components are
/// clamped into the ray bounds, which touches nothing in ordinary scenes.
pub fn reflect(v: Vec3, normal: Vec3) -> (r: Vec3)
    requires
        bounded(v, RAY_BOUND as int),
        bounded(normal, SCALE as int),
    ensures
        r == reflect_spec(v, normal),
        bounded(r, RAY_BOUND as int),
{
    proof {
        lemma_dot_bound(v, normal, RAY_BOUND as int);
    }
    let d: i128 = v.dot(normal);
    let rx = clamp_ray(v.x - reflect_term(d, normal.x));
    let ry = clamp_ray(v.y - reflect_term(d, normal.y));
    let rz = clamp_ray(v.z - reflect_term(d, normal.z));
    Vec3 { x: rx, y: ry, z: rz }
}

/// One component of the reflection correction: twice the incidence dot
/// times the normal component, rescaled by the square of `SCALE`.
fn reflect_term(d: i128, n: i64) -> (r: i64)
    requires
        -0x2000_0000_0000_0000 <= d <= 0x2000_0000_0000_0000,
        -SCALE as int <= n <= SCALE as int,
    ensures
        -0x8000_0000_0000 <= r <= 0x8000_0000_0000,
        r as int == tdiv(2 * d * n, SCALE as int * SCALE as int),
{
    proof {
        assert(-0x4000_0000_0000_0000_0000 <= 2 * d * (n as int) <= 0x4000_0000_0000_0000_0000
            && -0x8000_0000_0000 <= crate::fx::tdiv(
            2 * d * (n as int),
            (SCALE as int) * (SCALE as int),
        ) <= 0x8000_0000_0000) by (nonlinear_arith)
            requires
                -0x2000_0000_0000_0000 <= d <= 0x2000_0000_0000_0000,
                -65536 <= n as int <= 65536,
                SCALE == 65536,
        ;
    }
    div_trunc(2 * d * (n as i128), (SCALE as i128) * (SCALE as i128)) as i64
}

/// The refracted direction of a unit incident direction, by the ratio of
/// indices; components are clamped into the ray bounds.
fn refract(unit: Vec3, normal: Vec3, ratio: i64, cos_theta: i64) -> (r: Vec3)
    requires
        bounded(unit, 2 * SCALE as int),
        bounded(normal, SCALE as int),
        0 < ratio <= 0x1000_0000,
        0 <= cos_theta <= SCALE,
    ensures
        r == refract_spec(unit, normal, ratio as int, cos_theta as int),
        bounded(r, RAY_BOUND as int),
{
    let px = perp_component(unit.x, normal.x, ratio, cos_theta);
    let py = perp_component(unit.y, normal.y, ratio, cos_theta);
    let pz = perp_component(unit.z, normal.z, ratio, cos_theta);
    let perp = Vec3 { x: px, y: py, z: pz };
    proof {
        lemma_dot_bound(perp, perp, 0x2000_0000);
        crate::vec3::lemma_dot_self_nonneg(perp);
    }
    let ls: i128 = perp.dot(perp);
    proof {
        assert((0x2000_0000 * GEOM_BOUND as int) == 0x800_0000_0000_0000);
        assert(0 <= ls <= 0x1800_0000_0000_0000);
        assert(SCALE == 65536);
        assert(SCALE as int * SCALE as int == 0x1_0000_0000) by (nonlinear_arith)
            requires
                SCALE == 65536,
        ;
    }
    let rem: i128 = (SCALE as i128) * (SCALE as i128) - ls;
    let mag: i128 = if rem >= 0 {
        rem
    } else {
        -rem
    };
    let root_raw: u128 = isqrt(mag as u128);
    proof {
        assert(root_raw as int * root_raw as int <= mag ==> root_raw as int
            <= 0x4000_0000_0000_0000) by (nonlinear_arith)
            requires
                mag <= 0x4000_0000_0000_0000_0000_0000,
        ;
    }
    let root: i64 = if root_raw > (2 * SCALE) as u128 {
        2 * SCALE
    } else {
        root_raw as i64
    };
    proof {
        lemma_root_term(root as int, normal.x as int);
        lemma_root_term(root as int, normal.y as int);
        lemma_root_term(root as int, normal.z as int);
        assert(px as int == perp_component_spec(
            unit.x as int,
            normal.x as int,
            ratio as int,
            cos_theta as int,
        ));
        assert(ls == px as int * px as int + py as int * py as int + pz as int * pz as int);
        assert(root as int == (if sqrt_floor(mag as int) > 2 * SCALE as int {
            2 * SCALE as int
        } else {
            sqrt_floor(mag as int)
        }));
    }
    Vec3 {
        x: clamp_ray(px - fx_mul(root, normal.x)),
        y: clamp_ray(py - fx_mul(root, normal.y)),
        z: clamp_ray(pz - fx_mul(root, normal.z)),
    }
}

/// The parallel correction term stays at unit scale.
proof fn lemma_root_term(root: int, n: int)
    requires
        0 <= root <= 2 * SCALE as int,
        -SCALE as int <= n <= SCALE as int,
    ensures
        -2 * SCALE as int <= fx_mul_spec(root, n) <= 2 * SCALE as int,
{
    assert(-2 * SCALE as int <= fx_mul_spec(root, n) <= 2 * SCALE as int) by (nonlinear_arith)
        requires
            0 <= root <= 2 * SCALE as int,
            -SCALE as int <= n <= SCALE as int,
            SCALE == 65536,
    ;
}

/// One component of the perpendicular part of the refracted direction,
/// clamped to a moderate range.
fn perp_component(u: i64, n: i64, ratio: i64, cos_theta: i64) -> (r: i64)
    requires
        -2 * SCALE as int <= u <= 2 * SCALE as int,
        -SCALE as int <= n <= SCALE as int,
        0 < ratio <= 0x1000_0000,
        0 <= cos_theta <= SCALE,
    ensures
        -0x2000_0000 <= r <= 0x2000_0000,
        r as int == perp_component_spec(u as int, n as int, ratio as int, cos_theta as int),
{
    proof {
        assert(-65536 <= fx_mul_spec(cos_theta as int, n as int) <= 65536) by (nonlinear_arith)
            requires
                0 <= cos_theta <= 65536,
                -65536 <= n <= 65536,
                SCALE == 65536,
        ;
    }
    let cn = fx_mul(cos_theta, n);
    let s = u + cn;
    proof {
        assert(-0x1000_0000 * 0x30000 <= ratio as int * s as int <= 0x1000_0000 * 0x30000
            && -0x1000_0000 * 0x30000 <= crate::fx::tdiv(ratio as int * s as int, SCALE as int)
            <= 0x1000_0000 * 0x30000) by (nonlinear_arith)
            requires
                0 < ratio <= 0x1000_0000,
                -0x30000 <= s <= 0x30000,
                SCALE == 65536,
        ;
    }
    let raw = div_trunc((ratio as i128) * (s as i128), SCALE as i128);
    if raw > 0x2000_0000 {
        0x2000_0000
    } else if raw < -0x2000_0000 {
        -0x2000_0000
    } else {
        raw as i64
    }
}

/// Clamps a direction component into the ray bounds.
fn clamp_ray(v: i64) -> (r: i64)
    requires
        -0x7000_0000_0000_0000 <= v <= 0x7000_0000_0000_0000,
    ensures
        -RAY_BOUND as int <= r <= RAY_BOUND as int,
        r as int == clamp_spec(v as int, RAY_BOUND as int),
{
    if v > RAY_BOUND {
        RAY_BOUND
    } else if v < -RAY_BOUND {
        -RAY_BOUND
    } else {
        v
    }
}

/// Clamps an incidence cosine into `[0, SCALE]`.
fn clamp_cos(v: i128) -> (r: i64)
    ensures
        0 <= r <= SCALE,
        r as int == (if v < 0 {
            0
        } else if v > SCALE as int {
            SCALE as int
        } else {
            v as int
        }),
{
    if v < 0 {
        0
    } else if v > SCALE as i128 {
        SCALE
    } else {
        v as i64
    }
}

/// The square of a value in `[-SCALE, SCALE]`, landing in `[0, SCALE]`.
fn square_signed(v: i64) -> (r: i64)
    requires
        -SCALE as int <= v <= SCALE as int,
    ensures
        0 <= r <= SCALE,
{
    proof {
        assert(0 <= fx_mul_spec(v as int, v as int) <= SCALE as int) by (nonlinear_arith)
            requires
                -65536 <= v <= 65536,
                SCALE == 65536,
        ;
    }
    fx_mul(v, v)
}

/// The product of two values in `[0, SCALE]`, staying in `[0, SCALE]`.
fn mul_unit(a: i64, b: i64) -> (r: i64)
    requires
        0 <= a <= SCALE,
        0 <= b <= SCALE,
    ensures
        0 <= r <= SCALE,
        r == fx_mul_spec(a as int, b as int),
{
    proof {
        assert(0 <= fx_mul_spec(a as int, b as int) <= SCALE as int) by (nonlinear_arith)
            requires
                0 <= a <= SCALE,
                0 <= b <= SCALE,
                SCALE == 65536,
        ;
    }
    fx_mul(a, b)
}

/// One fuzz offset component: a unit-ball coordinate scaled by the fuzz.
fn scale_fuzz(c: i64, f: i64) -> (r: i64)
    requires
        -SCALE as int <= c <= SCALE as int,
        0 <= f <= SCALE,
    ensures
        -SCALE as int <= r <= SCALE as int,
        r as int == fx_mul_spec(c as int, f as int),
{
    proof {
        assert(-65536 <= fx_mul_spec(c as int, f as int) <= 65536) by (nonlinear_arith)
            requires
                -65536 <= c <= 65536,
                0 <= f <= 65536,
                SCALE == 65536,
        ;
    }
    fx_mul(c, f)
}

/// With zero fuzz the perturbation vanishes: every fuzzed component
/// equals the mirrored one.
proof fn lemma_zero_fuzz(refl: Vec3, dw: Vec3)
    requires
        bounded(refl, RAY_BOUND as int),
    ensures
        fx_mul_spec(dw.x as int, 0) == 0,
        fx_mul_spec(dw.y as int, 0) == 0,
        fx_mul_spec(dw.z as int, 0) == 0,
{
    assert(fx_mul_spec(dw.x as int, 0) == 0 && fx_mul_spec(dw.y as int, 0) == 0 && fx_mul_spec(
        dw.z as int,
        0,
    ) == 0) by (nonlinear_arith)
        requires
            SCALE == 65536,
    ;
}

/// The dot of a reversed vector is the negated dot.
proof fn lemma_neg_dot(v: Vec3, n: Vec3)
    requires
        bounded(v, 2 * SCALE as int),
        bounded(n, SCALE as int),
    ensures
        forall|nv: Vec3|
            nv.x == -v.x && nv.y == -v.y && nv.z == -v.z ==> #[trigger] dot_spec(nv, n)
                == -dot_spec(v, n),
{
    assert forall|nv: Vec3|
        nv.x == -v.x && nv.y == -v.y && nv.z == -v.z implies #[trigger] dot_spec(nv, n)
        == -dot_spec(v, n) by {
        assert(nv.x * n.x == -(v.x * n.x) && nv.y * n.y == -(v.y * n.y) && nv.z * n.z == -(v.z
            * n.z)) by (nonlinear_arith)
            requires
                nv.x == -v.x,
                nv.y == -v.y,
                nv.z == -v.z,
        ;
    }
}

/// A nonnegative small quotient stays well within range.
proof fn lemma_div_pos(a: int, b: int)
    requires
        b >= 1,
        0 <= a <= 65536,
    ensures
        0 <= fx_div_spec(a, b) <= 0x1_0000_0000,
{
    assert(0 <= fx_div_spec(a, b) <= 0x1_0000_0000) by (nonlinear_arith)
        requires
            b >= 1,
            0 <= a <= 65536,
            SCALE == 65536,
    ;
}

/// A quotient whose numerator is dominated by its denominator stays at
/// unit scale.
proof fn lemma_ratio_unit(a: int, b: int)
    requires
        b >= 1,
        -b <= a <= b,
    ensures
        -SCALE as int <= fx_div_spec(a, b) <= SCALE as int,
        -0x7fff_ffff_ffff_ffff <= fx_div_spec(a, b) <= 0x7fff_ffff_ffff_ffff,
{
    assert(-SCALE as int <= fx_div_spec(a, b) <= SCALE as int) by (nonlinear_arith)
        requires
            b >= 1,
            -b <= a <= b,
            SCALE == 65536,
    ;
}

} // verus!
