//! Scene descriptions and their validation.
//!
//! A scene arrives as plain values (decoded from its file by the caller):
//! a camera description, named materials, and spheres whose materials are
//! either literals or references to names. Validation states exactly when
//! each piece is accepted; building turns accepted pieces into the
//! library's geometry, with materials resolved to arena indices by the
//! caller (name resolution is its collaborator's job).

use crate::camera::{Camera, CameraConfiguration};
use crate::color::{channels_within, Color};
use crate::fx::{INPUT_BOUND, SCALE};
use crate::hittable::HittableEnum;
use crate::material::{material_wf, Dialectric, Lambertian, MaterialEnum, Metal};
use crate::moving_sphere::MovingSphere;
use crate::sphere::Sphere;
use crate::vec3::Vec3;
use vstd::prelude::*;

verus! {

/// The kinds of material a scene file can describe.
#[derive(Clone, Copy, Debug, PartialEq, Eq, Structural)]
pub enum JsonMaterialOptions {
    Diffuse,
    Metal,
    Dialectric,
}

/// A vector as the scene file gives it, in fixed point.
pub struct JsonVec3 {
    pub x: i64,
    pub y: i64,
    pub z: i64,
}

/// The camera as the scene file gives it. The field of view is in
/// degrees (fixed point); its half-angle tangent comes precomputed from
/// the caller, since trigonometry stays outside the verified core.
pub struct JsonCamera {
    pub look_from: JsonVec3,
    pub look_at: JsonVec3,
    pub view_up_direction: JsonVec3,
    pub vertical_fov_degrees: i64,
    pub tan_half_fov: i64,
    pub aperture: i64,
    pub focus_distance: Option<i64>,
    pub focal_length: i64,
    pub start_time: i64,
    pub end_time: i64,
}

/// A material in the file: a reference to a name declared earlier, or a
/// literal. Names are resolved by the caller.
pub enum JsonMaterial {
    ReferenceToName(String),
    Literal(JsonMaterialLiteral),
}

/// A literal material: its kind and the fields that kind needs.
pub struct JsonMaterialLiteral {
    pub name: Option<String>,
    pub type_: JsonMaterialOptions,
    pub color: Option<JsonColor>,
    pub refractive_index: Option<i64>,
    pub fuzziness: Option<i64>,
}

/// A color in the file: normalized channels lie in `[0, 1]`; otherwise
/// they lie in `[0, 255]` and are scaled down on conversion.
pub struct JsonColor {
    pub rgb: (i64, i64, i64),
    pub normalized: bool,
}

/// A sphere in the file, with optional linear movement.
pub struct JsonSphere {
    pub name: Option<String>,
    pub coordinates: (i64, i64, i64),
    pub movement: Option<JsonMovement>,
    pub radius: i64,
    pub material: JsonMaterial,
}

/// A movement: a target and the time interval of the travel.
pub struct JsonMovement {
    pub target: (i64, i64, i64),
    pub start_time: i64,
    pub end_time: i64,
}

/// Why a scene piece was rejected.
#[derive(Clone, Copy, Debug, PartialEq, Eq, Structural)]
pub enum SceneError {
    FovOutOfRange,
    DegenerateOrientation,
    NegativeAperture,
    NegativeFocusDistance,
    NegativeFocalLength,
    TimesOutOfOrder,
    DiffuseNeedsColor,
    MetalNeedsFuzziness,
    NegativeFuzziness,
    MetalNeedsColor,
    DialectricNeedsIndex,
    BadRefractiveIndex,
    ColorOutOfRange,
    CoordinateOutOfRange,
    BadRadius,
}

impl JsonCamera {
    /// Acceptance: the field of view strictly between 0 and 180 degrees
    /// with a positive tangent, a nonnegative aperture within one unit,
    /// nonnegative distances, bounded positions, and an ordered time
    /// interval.
    pub fn validate(&self) -> (res: Result<(), SceneError>)
        ensures
            res is Ok <==> self.accepted(),
    {
        if !(0 < self.vertical_fov_degrees && self.vertical_fov_degrees < 180 * SCALE && 0
            < self.tan_half_fov && self.tan_half_fov <= 0x1000_0000) {
            return Err(SceneError::FovOutOfRange);
        }
        if !(0 <= self.aperture && self.aperture <= SCALE) {
            return Err(SceneError::NegativeAperture);
        }
        match self.focus_distance {
            Some(distance) => {
                if !(0 < distance && distance <= 0x400_0000) {
                    return Err(SceneError::NegativeFocusDistance);
                }
            },
            None => {
            },
        }
        if self.focal_length < 0 {
            return Err(SceneError::NegativeFocalLength);
        }
        if !(0 <= self.start_time && self.start_time <= self.end_time && self.end_time
            <= INPUT_BOUND) {
            return Err(SceneError::TimesOutOfOrder);
        }
        if !(in_cam_range(self.look_from.x) && in_cam_range(self.look_from.y) && in_cam_range(
            self.look_from.z,
        ) && in_cam_range(self.look_at.x) && in_cam_range(self.look_at.y) && in_cam_range(
            self.look_at.z,
        ) && in_unit_range(self.view_up_direction.x) && in_unit_range(self.view_up_direction.y)
            && in_unit_range(self.view_up_direction.z)) {
            return Err(SceneError::CoordinateOutOfRange);
        }
        if self.look_from.x == self.look_at.x && self.look_from.y == self.look_at.y
            && self.look_from.z == self.look_at.z {
            return Err(SceneError::DegenerateOrientation);
        }
        if self.view_up_direction.x == 0 && self.view_up_direction.y == 0
            && self.view_up_direction.z == 0 {
            return Err(SceneError::DegenerateOrientation);
        }
        Ok(())
    }

    /// What acceptance means.
    pub open spec fn accepted(self) -> bool {
        &&& 0 < self.vertical_fov_degrees < 180 * SCALE
        &&& 0 < self.tan_half_fov <= 0x1000_0000
        &&& 0 <= self.aperture <= SCALE
        &&& (self.focus_distance matches Some(d) ==> 0 < d <= 0x400_0000)
        &&& self.focal_length >= 0
        &&& 0 <= self.start_time <= self.end_time <= INPUT_BOUND
        &&& -0x400_0000 <= self.look_from.x <= 0x400_0000
        &&& -0x400_0000 <= self.look_from.y <= 0x400_0000
        &&& -0x400_0000 <= self.look_from.z <= 0x400_0000
        &&& -0x400_0000 <= self.look_at.x <= 0x400_0000
        &&& -0x400_0000 <= self.look_at.y <= 0x400_0000
        &&& -0x400_0000 <= self.look_at.z <= 0x400_0000
        &&& -SCALE as int <= self.view_up_direction.x <= SCALE as int
        &&& -SCALE as int <= self.view_up_direction.y <= SCALE as int
        &&& -SCALE as int <= self.view_up_direction.z <= SCALE as int
        &&& !(self.look_from.x == self.look_at.x && self.look_from.y == self.look_at.y
            && self.look_from.z == self.look_at.z)
        &&& !(self.view_up_direction.x == 0 && self.view_up_direction.y == 0
            && self.view_up_direction.z == 0)
    }

    /// Builds the camera configuration of an accepted description.
    pub fn to_camera_configuration(&self) -> (c: CameraConfiguration)
        requires
            self.accepted(),
        ensures
            c.wf(),
            c.look_from == (Vec3 {
                x: self.look_from.x,
                y: self.look_from.y,
                z: self.look_from.z,
            }),
            c.tan_half_fov == self.tan_half_fov,
            c.start_time == Some(self.start_time),
            c.end_time == Some(self.end_time),
    {
        CameraConfiguration {
            look_from: Vec3 { x: self.look_from.x, y: self.look_from.y, z: self.look_from.z },
            look_at: Vec3 { x: self.look_at.x, y: self.look_at.y, z: self.look_at.z },
            view_up: Vec3 {
                x: self.view_up_direction.x,
                y: self.view_up_direction.y,
                z: self.view_up_direction.z,
            },
            vertical_fov: self.vertical_fov_degrees,
            tan_half_fov: self.tan_half_fov,
            aperture: self.aperture,
            focus_distance: self.focus_distance,
            focal_length: self.focal_length,
            start_time: Some(self.start_time),
            end_time: Some(self.end_time),
        }
    }
}

/// Whether a coordinate fits the camera range.
fn in_cam_range(v: i64) -> (r: bool)
    ensures
        r == (-0x400_0000 <= v <= 0x400_0000),
{
    -0x400_0000 <= v && v <= 0x400_0000
}

/// Whether a component fits the unit range.
fn in_unit_range(v: i64) -> (r: bool)
    ensures
        r == (-SCALE as int <= v <= SCALE as int),
{
    -SCALE <= v && v <= SCALE
}

impl JsonMaterial {
    /// Acceptance of a material: a literal is validated; a reference is
    /// accepted here and resolved by the caller against the declared
    /// names.
    pub fn validate(&self) -> (res: Result<(), SceneError>)
        ensures
            res is Ok <==> (match self {
                JsonMaterial::ReferenceToName(_) => true,
                JsonMaterial::Literal(l) => l.accepted(),
            }),
    {
        match self {
            JsonMaterial::ReferenceToName(_) => Ok(()),
            JsonMaterial::Literal(literal) => literal.validate(),
        }
    }

    /// Builds the material of an accepted literal; a reference yields
    /// nothing here, since only the caller holds the name table.
    pub fn to_material(&self) -> (res: Option<MaterialEnum>)
        requires
            (self matches JsonMaterial::Literal(l) ==> l.accepted()),
        ensures
            res is Some == self matches JsonMaterial::Literal(_),
            res matches Some(m) ==> material_wf(m),
    {
        match self {
            JsonMaterial::ReferenceToName(_) => None,
            JsonMaterial::Literal(literal) => Some(literal.to_material()),
        }
    }
}

impl JsonMaterialLiteral {
    /// Acceptance by kind: a diffuse needs a valid color; a metal needs a
    /// valid color and a fuzziness in `[0, 1]`; a dielectric needs a
    /// refractive index in `[1, 4096]` (fixed point).
    pub fn validate(&self) -> (res: Result<(), SceneError>)
        ensures
            res is Ok <==> self.accepted(),
    {
        match self.type_ {
            JsonMaterialOptions::Diffuse => {
                match &self.color {
                    Some(c) => {
                        let r = c.validate();
                        if r.is_err() {
                            return Err(SceneError::ColorOutOfRange);
                        }
                    },
                    None => {
                        return Err(SceneError::DiffuseNeedsColor);
                    },
                }
            },
            JsonMaterialOptions::Metal => {
                match self.fuzziness {
                    Some(fuzz) => {
                        if !(0 <= fuzz && fuzz <= SCALE) {
                            return Err(SceneError::NegativeFuzziness);
                        }
                    },
                    None => {
                        return Err(SceneError::MetalNeedsFuzziness);
                    },
                }
                match &self.color {
                    Some(c) => {
                        let r = c.validate();
                        if r.is_err() {
                            return Err(SceneError::ColorOutOfRange);
                        }
                    },
                    None => {
                        return Err(SceneError::MetalNeedsColor);
                    },
                }
            },
            JsonMaterialOptions::Dialectric => {
                match self.refractive_index {
                    Some(rf) => {
                        if !(SCALE <= rf && rf <= 0x1000_0000) {
                            return Err(SceneError::BadRefractiveIndex);
                        }
                    },
                    None => {
                        return Err(SceneError::DialectricNeedsIndex);
                    },
                }
            },
        }
        Ok(())
    }

    /// What acceptance means, by kind.
    pub open spec fn accepted(self) -> bool {
        match self.type_ {
            JsonMaterialOptions::Diffuse => self.color matches Some(c) && c.accepted(),
            JsonMaterialOptions::Metal => (self.fuzziness matches Some(f) && 0 <= f <= SCALE) && (
            self.color matches Some(c) && c.accepted()),
            JsonMaterialOptions::Dialectric => self.refractive_index matches Some(rf)
                && SCALE as int <= rf <= 0x1000_0000,
        }
    }

    /// Builds the material of an accepted literal.
    pub fn to_material(&self) -> (m: MaterialEnum)
        requires
            self.accepted(),
        ensures
            material_wf(m),
            m matches MaterialEnum::Lambertian(_) <==> self.type_ is Diffuse,
            m matches MaterialEnum::Metal(_) <==> self.type_ is Metal,
            m matches MaterialEnum::Dialectric(_) <==> self.type_ is Dialectric,
    {
        match self.type_ {
            JsonMaterialOptions::Diffuse => {
                let color = match &self.color {
                    Some(c) => c.to_color(),
                    None => Color { r: 0, g: 0, b: 0 },
                };
                MaterialEnum::Lambertian(Lambertian::new(color))
            },
            JsonMaterialOptions::Metal => {
                let color = match &self.color {
                    Some(c) => c.to_color(),
                    None => Color { r: 0, g: 0, b: 0 },
                };
                let fuzz = match self.fuzziness {
                    Some(f) => f,
                    None => 0,
                };
                MaterialEnum::Metal(Metal::new(color, fuzz))
            },
            JsonMaterialOptions::Dialectric => {
                let rf = match self.refractive_index {
                    Some(r) => r,
                    None => SCALE,
                };
                MaterialEnum::Dialectric(Dialectric::new(rf))
            },
        }
    }
}

impl JsonColor {
    /// Acceptance: normalized channels in `[0, 1]`; raw channels in
    /// `[0, 255]`.
    pub fn validate(&self) -> (res: Result<(), SceneError>)
        ensures
            res is Ok <==> self.accepted(),
    {
        let (r, g, b) = self.rgb;
        let limit: i64 = if self.normalized {
            SCALE
        } else {
            255 * SCALE
        };
        if 0 <= r && r <= limit && 0 <= g && g <= limit && 0 <= b && b <= limit {
            Ok(())
        } else {
            Err(SceneError::ColorOutOfRange)
        }
    }

    /// What acceptance means.
    pub open spec fn accepted(self) -> bool {
        let limit = if self.normalized {
            SCALE as int
        } else {
            255 * SCALE as int
        };
        0 <= self.rgb.0 <= limit && 0 <= self.rgb.1 <= limit && 0 <= self.rgb.2 <= limit
    }

    /// The displayable color of an accepted description: raw channels are
    /// scaled down by 255.
    pub fn to_color(&self) -> (c: Color)
        requires
            self.accepted(),
        ensures
            channels_within(c, SCALE as int),
            self.normalized ==> c == (Color { r: self.rgb.0, g: self.rgb.1, b: self.rgb.2 }),
            !self.normalized ==> c.r == self.rgb.0 / 255 && c.g == self.rgb.1 / 255 && c.b
                == self.rgb.2 / 255,
    {
        let (r, g, b) = self.rgb;
        if self.normalized {
            Color { r, g, b }
        } else {
            proof {
                assert(forall|v: int|
                    0 <= v <= 255 * 65536 ==> 0 <= #[trigger] (v / 255) <= 65536)
                    by (nonlinear_arith);
            }
            Color { r: r / 255, g: g / 255, b: b / 255 }
        }
    }
}

impl JsonSphere {
    /// Acceptance: bounded coordinates, a radius of magnitude at least one
    /// raw step, and an ordered movement interval when movement is given.
    /// A negative radius is accepted — it inverts the normals, which
    /// hollow shells use.
    pub fn validate(&self) -> (res: Result<(), SceneError>)
        ensures
            res is Ok <==> self.accepted(),
    {
        let (x, y, z) = self.coordinates;
        if !(in_input_range(x) && in_input_range(y) && in_input_range(z)) {
            return Err(SceneError::CoordinateOutOfRange);
        }
        if !((1 <= self.radius && self.radius <= INPUT_BOUND) || (-INPUT_BOUND <= self.radius
            && self.radius <= -1)) {
            return Err(SceneError::BadRadius);
        }
        match &self.movement {
            Some(m) => {
                let (tx, ty, tz) = m.target;
                if !(in_input_range(tx) && in_input_range(ty) && in_input_range(tz)) {
                    return Err(SceneError::CoordinateOutOfRange);
                }
                if !(-INPUT_BOUND <= m.start_time && m.start_time < m.end_time && m.end_time
                    <= INPUT_BOUND) {
                    return Err(SceneError::TimesOutOfOrder);
                }
            },
            None => {
            },
        }
        Ok(())
    }

    /// What acceptance means.
    pub open spec fn accepted(self) -> bool {
        &&& -INPUT_BOUND as int <= self.coordinates.0 <= INPUT_BOUND as int
        &&& -INPUT_BOUND as int <= self.coordinates.1 <= INPUT_BOUND as int
        &&& -INPUT_BOUND as int <= self.coordinates.2 <= INPUT_BOUND as int
        &&& (1 <= self.radius <= INPUT_BOUND || -INPUT_BOUND as int <= self.radius <= -1)
        &&& (self.movement matches Some(m) ==> {
            &&& -INPUT_BOUND as int <= m.target.0 <= INPUT_BOUND as int
            &&& -INPUT_BOUND as int <= m.target.1 <= INPUT_BOUND as int
            &&& -INPUT_BOUND as int <= m.target.2 <= INPUT_BOUND as int
            &&& -INPUT_BOUND as int <= m.start_time < m.end_time <= INPUT_BOUND as int
        })
    }

    /// Builds the shape of an accepted sphere over a resolved material
    /// index: a stationary sphere, or a moving one when movement is given.
    pub fn to_sphere(&self, material: usize) -> (h: HittableEnum)
        requires
            self.accepted(),
        ensures
            crate::hittable::wf_shape(h),
            !crate::hittable::has_empty_list(h),
            h matches HittableEnum::MovingSphere(_) <==> self.movement is Some,
    {
        let (x, y, z) = self.coordinates;
        let center = Vec3 { x, y, z };
        match &self.movement {
            Some(m) => {
                let (tx, ty, tz) = m.target;
                let target = Vec3 { x: tx, y: ty, z: tz };
                HittableEnum::MovingSphere(
                    MovingSphere::new(center, target, m.start_time, m.end_time, self.radius, material),
                )
            },
            None => HittableEnum::Sphere(Sphere::new(center, self.radius, material)),
        }
    }
}

/// Whether a coordinate fits the scene input range.
fn in_input_range(v: i64) -> (r: bool)
    ensures
        r == (-INPUT_BOUND as int <= v <= INPUT_BOUND as int),
{
    -INPUT_BOUND <= v && v <= INPUT_BOUND
}

} // verus!
