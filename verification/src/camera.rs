//! The camera: an orthonormal-ish view basis, a focus-plane viewport, a
//! defocus disk for depth of field and a shutter interval for motion blur.
//!
//! The half-angle tangent of the field of view arrives precomputed in the
//! configuration: trigonometry is floating-point work and stays with the
//! caller; everything the tangent feeds is fixed point and verified.

use crate::fx::{
    clamp_spec, div_trunc, fx_div_spec, fx_mul, fx_mul_spec, tdiv, INPUT_BOUND, RAY_BOUND, SCALE,
};
use crate::random::{random_in_unit_disk, random_range};
use crate::ray::Ray;
use crate::vec3::{bounded, Point3, Vec3};
use vstd::prelude::*;

verus! {

/// Bound on camera positions and distances (about a thousand units).
pub const CAM_BOUND: i64 = 0x400_0000;


/// The viewport height at the focus plane: twice the half-angle tangent,
/// capped.
pub open spec fn viewport_height_spec(config: CameraConfiguration) -> int {
    clamp_spec(2 * config.tan_half_fov, 16 * SCALE as int)
}

/// The viewport width: the height times the aspect ratio, capped.
pub open spec fn viewport_width_spec(config: CameraConfiguration, aspect: int) -> int {
    clamp_spec(fx_mul_spec(aspect, viewport_height_spec(config)), 128 * SCALE as int)
}

/// The vector from target back to eye.
pub open spec fn back_direction_spec(config: CameraConfiguration) -> Vec3 {
    Vec3 {
        x: (config.look_from.x - config.look_at.x) as i64,
        y: (config.look_from.y - config.look_at.y) as i64,
        z: (config.look_from.z - config.look_at.z) as i64,
    }
}

/// A vector rescaled to near-unit length: each component divided by the
/// rounded length.
pub open spec fn normalized_spec(v: Vec3) -> Vec3 {
    Vec3 {
        x: fx_div_spec(v.x as int, v.length_val()) as i64,
        y: fx_div_spec(v.y as int, v.length_val()) as i64,
        z: fx_div_spec(v.z as int, v.length_val()) as i64,
    }
}

/// The fixed-point cross product of two vectors.
pub open spec fn cross_spec(a: Vec3, b: Vec3) -> Vec3 {
    Vec3 {
        x: (fx_mul_spec(a.y as int, b.z as int) - fx_mul_spec(a.z as int, b.y as int)) as i64,
        y: (fx_mul_spec(a.z as int, b.x as int) - fx_mul_spec(a.x as int, b.z as int)) as i64,
        z: (fx_mul_spec(a.x as int, b.y as int) - fx_mul_spec(a.y as int, b.x as int)) as i64,
    }
}

/// The view basis: `w` looks from the target back to the eye, `u` spans
/// the viewport to the right (with a fixed fallback when the up vector is
/// parallel to the view), `v` completes the frame, clamped to unit scale.
pub open spec fn w_spec(config: CameraConfiguration) -> Vec3 {
    normalized_spec(back_direction_spec(config))
}

/// The rightward basis vector.
pub open spec fn u_spec(config: CameraConfiguration) -> Vec3 {
    let uc = cross_spec(config.view_up, w_spec(config));
    if uc.x == 0 && uc.y == 0 && uc.z == 0 {
        Vec3 { x: SCALE as i64, y: 0, z: 0 }
    } else {
        normalized_spec(uc)
    }
}

/// The upward basis vector.
pub open spec fn v_spec(config: CameraConfiguration) -> Vec3 {
    let vc = cross_spec(w_spec(config), u_spec(config));
    Vec3 {
        x: clamp_spec(vc.x as int, 2 * SCALE as int) as i64,
        y: clamp_spec(vc.y as int, 2 * SCALE as int) as i64,
        z: clamp_spec(vc.z as int, 2 * SCALE as int) as i64,
    }
}

/// The focus distance: the configured one, or the eye-to-target distance
/// (floored at one step, capped at the camera range) when unspecified.
pub open spec fn focus_distance_spec(config: CameraConfiguration) -> int {
    match config.focus_distance {
        Some(d) => d as int,
        None => {
            let len = Vec3 {
                x: (config.look_at.x - config.look_from.x) as i64,
                y: (config.look_at.y - config.look_from.y) as i64,
                z: (config.look_at.z - config.look_from.z) as i64,
            }.length_val();
            let floored = if len < 1 {
                1
            } else {
                len
            };
            if floored > CAM_BOUND as int {
                CAM_BOUND as int
            } else {
                floored
            }
        },
    }
}

/// A basis vector scaled by a distance and a span, as a specification
/// value: the product of the two factors (capped) applied to each
/// component.
pub open spec fn span_spec(dir: Vec3, distance: int, span: int) -> Vec3 {
    let k = clamp_spec(tdiv(distance * span, SCALE as int), 0x1000_0000);
    Vec3 {
        x: fx_mul_spec(dir.x as int, k) as i64,
        y: fx_mul_spec(dir.y as int, k) as i64,
        z: fx_mul_spec(dir.z as int, k) as i64,
    }
}

/// The position of the viewport's lower-left pixel.
pub open spec fn lower_left_spec(config: CameraConfiguration, aspect: int) -> Vec3 {
    let horizontal = span_spec(u_spec(config), focus_distance_spec(config), viewport_width_spec(config, aspect));
    let vertical = span_spec(v_spec(config), focus_distance_spec(config), viewport_height_spec(config));
    let back = span_spec(w_spec(config), focus_distance_spec(config), SCALE as int);
    Vec3 {
        x: clamp_spec(
            config.look_from.x - tdiv(horizontal.x as int, 2) - tdiv(vertical.x as int, 2)
                - back.x,
            0x4000_0000,
        ) as i64,
        y: clamp_spec(
            config.look_from.y - tdiv(horizontal.y as int, 2) - tdiv(vertical.y as int, 2)
                - back.y,
            0x4000_0000,
        ) as i64,
        z: clamp_spec(
            config.look_from.z - tdiv(horizontal.z as int, 2) - tdiv(vertical.z as int, 2)
                - back.z,
            0x4000_0000,
        ) as i64,
    }
}

/// A draw from the closed unit disk in the xy-plane.
pub open spec fn disk_draw(d: Vec3) -> bool {
    bounded(d, SCALE as int) && d.z == 0 && crate::vec3::dot_spec(d, d) <= SCALE as int
        * SCALE as int
}

/// The generated ray's origin for a given disk draw: the eye, offset on
/// the lens disk when the aperture is open.
pub open spec fn ray_origin_spec(cam: Camera, d: Vec3) -> Vec3 {
    let offset = if cam.lens_radius > 0 {
        let ox = span_like(cam.u, fx_mul_spec(d.x as int, cam.lens_radius as int));
        let oy = span_like(cam.v, fx_mul_spec(d.y as int, cam.lens_radius as int));
        Vec3 { x: (ox.x + oy.x) as i64, y: (ox.y + oy.y) as i64, z: (ox.z + oy.z) as i64 }
    } else {
        Vec3 { x: 0, y: 0, z: 0 }
    };
    Vec3 {
        x: clamp_spec(cam.origin.x + offset.x, 0x800_0000) as i64,
        y: clamp_spec(cam.origin.y + offset.y, 0x800_0000) as i64,
        z: clamp_spec(cam.origin.z + offset.z, 0x800_0000) as i64,
    }
}

/// A vector scaled by a unit-range factor, componentwise.
pub open spec fn span_like(dir: Vec3, factor: int) -> Vec3 {
    Vec3 {
        x: fx_mul_spec(dir.x as int, factor) as i64,
        y: fx_mul_spec(dir.y as int, factor) as i64,
        z: fx_mul_spec(dir.z as int, factor) as i64,
    }
}

/// The generated ray's direction for a given disk draw: toward the
/// jittered focus-plane point `lower_left + s * horizontal + t *
/// vertical`, from the (possibly offset) origin.
pub open spec fn ray_direction_spec(cam: Camera, s: int, t: int, d: Vec3) -> Vec3 {
    let start = ray_origin_spec(cam, d);
    let sh = span_like(cam.horizontal, s);
    let tv = span_like(cam.vertical, t);
    let focus_point = Vec3 {
        x: clamp_spec(cam.lower_left_corner.x + sh.x + tv.x, 0x1000_0000_0) as i64,
        y: clamp_spec(cam.lower_left_corner.y + sh.y + tv.y, 0x1000_0000_0) as i64,
        z: clamp_spec(cam.lower_left_corner.z + sh.z + tv.z, 0x1000_0000_0) as i64,
    };
    Vec3 {
        x: clamp_spec(focus_point.x - start.x, RAY_BOUND as int) as i64,
        y: clamp_spec(focus_point.y - start.y, RAY_BOUND as int) as i64,
        z: clamp_spec(focus_point.z - start.z, RAY_BOUND as int) as i64,
    }
}

/// What a camera is built from. Distances and positions are fixed-point
/// scalars; `tan_half_fov` is the tangent of half the vertical field of
/// view, supplied by the caller.
pub struct CameraConfiguration {
    pub look_from: Point3,
    pub look_at: Point3,
    pub view_up: Vec3,
    pub vertical_fov: i64,
    pub tan_half_fov: i64,
    pub aperture: i64,
    pub focus_distance: Option<i64>,
    pub focal_length: i64,
    pub start_time: Option<i64>,
    pub end_time: Option<i64>,
}

impl CameraConfiguration {
    /// Sanity of a configuration: positions and distances bounded, a
    /// positive tangent (fields of view arbitrarily close to flat; the
    /// viewport caps absorb extreme ones), the aperture within one unit,
    /// eye and target distinct, the up vector nonzero, and an ordered
    /// shutter interval.
    pub open spec fn wf(self) -> bool {
        &&& bounded(self.look_from, CAM_BOUND as int)
        &&& bounded(self.look_at, CAM_BOUND as int)
        &&& bounded(self.view_up, SCALE as int)
        &&& 0 < self.tan_half_fov <= 0x1000_0000
        &&& 0 <= self.aperture <= SCALE
        &&& (self.focus_distance matches Some(d) ==> 0 < d <= CAM_BOUND)
        &&& self.look_from != self.look_at
        &&& self.view_up != (Vec3 { x: 0, y: 0, z: 0 })
        &&& (match (self.start_time, self.end_time) {
            (Some(t0), Some(t1)) => 0 <= t0 <= t1 <= INPUT_BOUND,
            (None, None) => true,
            _ => false,
        })
    }
}

/// The camera, immutable once built.
pub struct Camera {
    pub origin: Point3,
    pub lower_left_corner: Point3,
    pub horizontal: Vec3,
    pub vertical: Vec3,
    pub u: Vec3,
    pub v: Vec3,
    pub w: Vec3,
    pub lens_radius: i64,
    pub time0: i64,
    pub time1: i64,
}

impl Camera {
    /// Everything a generated ray needs is bounded: origins fit within a
    /// quarter of the ray bounds and the viewport vectors within a
    /// sixteenth, so sampled rays are always well-formed.
    pub open spec fn wf(self) -> bool {
        &&& bounded(self.origin, CAM_BOUND as int)
        &&& bounded(self.lower_left_corner, 0x4000_0000 as int)
        &&& bounded(self.horizontal, 0x2000_0000 as int)
        &&& bounded(self.vertical, 0x2000_0000 as int)
        &&& bounded(self.u, 2 * SCALE as int)
        &&& bounded(self.v, 2 * SCALE as int)
        &&& bounded(self.w, 2 * SCALE as int)
        &&& 0 <= self.lens_radius <= SCALE
        &&& 0 <= self.time0 <= self.time1 <= INPUT_BOUND
    }

    /// Builds the camera: the view basis from eye, target and up; the
    /// viewport from the field-of-view tangent, the aspect ratio and the
    /// focus distance; the lens radius from the aperture; and the shutter
    /// interval from the configuration (a point interval at zero when
    /// absent).
    pub fn new(config: CameraConfiguration, aspect_ratio: i64) -> (cam: Camera)
        requires
            config.wf(),
            SCALE as int / 256 <= aspect_ratio <= 256 * SCALE as int,
        ensures
            cam.wf(),
            cam.origin == config.look_from,
            cam.lens_radius as int == config.aperture as int / 2,
            cam.w == w_spec(config),
            cam.u == u_spec(config),
            cam.v == v_spec(config),
            cam.horizontal == span_spec(
                u_spec(config),
                focus_distance_spec(config),
                viewport_width_spec(config, aspect_ratio as int),
            ),
            cam.vertical == span_spec(
                v_spec(config),
                focus_distance_spec(config),
                viewport_height_spec(config),
            ),
            cam.lower_left_corner == lower_left_spec(config, aspect_ratio as int),
            cam.time0 as int == (match config.start_time {
                Some(t) => t as int,
                None => 0,
            }),
            cam.time1 as int == (match config.end_time {
                Some(t) => t as int,
                None => 0,
            }),
    {
        let viewport_height = clamp_to(2 * config.tan_half_fov, 16 * SCALE);
        proof {
            crate::vec3::lemma_scale_fits(aspect_ratio as int, viewport_height as int);
        }
        let viewport_width = clamp_to(fx_mul(aspect_ratio, viewport_height), 128 * SCALE);

        let view_direction = config.look_at.minus(config.look_from);
        let w = view_direction.neg().normalized();
        let up_cross = config.view_up.cross(w);
        proof {
            lemma_cross_products(config.view_up, w);
        }
        let u = if up_cross.x == 0 && up_cross.y == 0 && up_cross.z == 0 {
            Vec3 { x: SCALE, y: 0, z: 0 }
        } else {
            up_cross.normalized()
        };
        let v_raw = w.cross(u);
        proof {
            lemma_cross_products(w, u);
        }
        let v = Vec3 {
            x: clamp_to(v_raw.x, 2 * SCALE),
            y: clamp_to(v_raw.y, 2 * SCALE),
            z: clamp_to(v_raw.z, 2 * SCALE),
        };

        let lens_radius = config.aperture / 2;
        let focus_distance = match config.focus_distance {
            Some(distance) => distance,
            None => {
                let len = view_direction.length();
                proof {
                    crate::vec3::lemma_length_val_props(view_direction);
                    assert(len as int == view_direction.length_val()) by (nonlinear_arith)
                        requires
                            0 <= len,
                            len * len <= crate::vec3::dot_spec(view_direction, view_direction),
                            crate::vec3::dot_spec(view_direction, view_direction) < (len + 1) * (
                            len + 1),
                            0 <= view_direction.length_val(),
                            view_direction.length_val() * view_direction.length_val()
                                <= crate::vec3::dot_spec(view_direction, view_direction),
                            crate::vec3::dot_spec(view_direction, view_direction) < (
                            view_direction.length_val() + 1) * (view_direction.length_val() + 1),
                    ;
                }
                let len_ok = if len < 1 {
                    1
                } else {
                    len
                };
                clamp_positive(len_ok, CAM_BOUND)
            },
        };

        let horizontal = scaled_span(u, focus_distance, viewport_width);
        let vertical = scaled_span(v, focus_distance, viewport_height);
        let w_stretch = scaled_span(w, focus_distance, SCALE);

        let lower_left_corner = Vec3 {
            x: clamp_to(
                config.look_from.x - half_trunc(horizontal.x) - half_trunc(vertical.x)
                    - w_stretch.x,
                0x4000_0000,
            ),
            y: clamp_to(
                config.look_from.y - half_trunc(horizontal.y) - half_trunc(vertical.y)
                    - w_stretch.y,
                0x4000_0000,
            ),
            z: clamp_to(
                config.look_from.z - half_trunc(horizontal.z) - half_trunc(vertical.z)
                    - w_stretch.z,
                0x4000_0000,
            ),
        };

        proof {
            assert(view_direction.x == config.look_at.x - config.look_from.x);
            assert(w == w_spec(config));
            assert(u == u_spec(config));
            assert(v == v_spec(config));
            assert(focus_distance as int == focus_distance_spec(config));
            assert(viewport_height as int == viewport_height_spec(config));
            assert(viewport_width as int == viewport_width_spec(config, aspect_ratio as int));
            assert(lower_left_corner == lower_left_spec(config, aspect_ratio as int));
        }
        let (time0, time1) = match (config.start_time, config.end_time) {
            (Some(t0), Some(t1)) => (t0, t1),
            _ => (0i64, 0i64),
        };

        Camera {
            origin: config.look_from,
            lower_left_corner,
            horizontal,
            vertical,
            u,
            v,
            w,
            lens_radius,
            time0,
            time1,
        }
    }

    /// Generates the ray through viewport coordinates `(s, t)` (each in
    /// `[0, 1]`): the origin jittered on the defocus disk when the
    /// aperture is open, the direction toward the focus-plane point, and
    /// the time sampled uniformly within the shutter interval. The ray is
    /// always well-formed and its time lies within the interval — the
    /// hypothesis the hierarchy's coverage needs.
    pub fn get_ray(&self, s: i64, t: i64) -> (r: Ray)
        requires
            self.wf(),
            0 <= s <= SCALE,
            0 <= t <= SCALE,
        ensures
            r.wf(),
            self.time0 as int <= r.time as int <= self.time1 as int,
            self.lens_radius == 0 ==> r.origin == self.origin,
            exists|d: Vec3|
                #[trigger] disk_draw(d) && r.origin == ray_origin_spec(*self, d) && r.direction
                    == ray_direction_spec(*self, s as int, t as int, d),
    {
        let ghost mut drawn: Vec3 = Vec3 { x: 0, y: 0, z: 0 };
        let offset = if self.lens_radius > 0 {
            let rd = random_in_unit_disk();
            proof {
                lemma_disk_offset(rd.x as int, self.lens_radius as int);
                lemma_disk_offset(rd.y as int, self.lens_radius as int);
                crate::vec3::lemma_scale_fits(rd.x as int, self.lens_radius as int);
                crate::vec3::lemma_scale_fits(rd.y as int, self.lens_radius as int);
            }
            proof {
                drawn = rd;
            }
            let rx = fx_mul(rd.x, self.lens_radius);
            let ry = fx_mul(rd.y, self.lens_radius);
            let ox = scale_view(self.u, rx);
            let oy = scale_view(self.v, ry);
            Vec3 { x: ox.x + oy.x, y: ox.y + oy.y, z: ox.z + oy.z }
        } else {
            Vec3 { x: 0, y: 0, z: 0 }
        };
        let start = Vec3 {
            x: clamp_to(self.origin.x + offset.x, 0x800_0000),
            y: clamp_to(self.origin.y + offset.y, 0x800_0000),
            z: clamp_to(self.origin.z + offset.z, 0x800_0000),
        };
        let sh = scale_view(self.horizontal, s);
        let tv = scale_view(self.vertical, t);
        let point_on_focus_plane = Vec3 {
            x: clamp_to(self.lower_left_corner.x + sh.x + tv.x, 0x1000_0000_0),
            y: clamp_to(self.lower_left_corner.y + sh.y + tv.y, 0x1000_0000_0),
            z: clamp_to(self.lower_left_corner.z + sh.z + tv.z, 0x1000_0000_0),
        };
        let direction = Vec3 {
            x: clamp_to(point_on_focus_plane.x - start.x, RAY_BOUND),
            y: clamp_to(point_on_focus_plane.y - start.y, RAY_BOUND),
            z: clamp_to(point_on_focus_plane.z - start.z, RAY_BOUND),
        };
        proof {
            assert(disk_draw(drawn));
            assert(start == ray_origin_spec(*self, drawn));
            assert(direction == ray_direction_spec(*self, s as int, t as int, drawn));
        }
        let time = if self.time0 < self.time1 {
            random_range(self.time0, self.time1)
        } else {
            self.time0
        };
        Ray::new_at_time(start, direction, time)
    }
}

/// Clamps a value into `[-limit, limit]`.
fn clamp_to(value: i64, limit: i64) -> (r: i64)
    requires
        limit >= 0,
    ensures
        r as int == clamp_spec(value as int, limit as int),
        -limit as int <= r <= limit,
        -limit as int <= value <= limit ==> r == value,
{
    if value > limit {
        limit
    } else if value < -limit {
        -limit
    } else {
        value
    }
}

/// A basis vector scaled by a distance and a span: the product of the two
/// fixed-point factors applied to each component, clamped to the viewport
/// range.
fn scaled_span(dir: Vec3, distance: i64, span: i64) -> (r: Vec3)
    requires
        bounded(dir, 2 * SCALE as int),
        -0x800_0000 <= distance <= 0x800_0000,
        -0x100_0000_0 <= span <= 0x100_0000_0,
    ensures
        r == span_spec(dir, distance as int, span as int),
        bounded(r, 0x2000_0000 as int),
{
    proof {
        lemma_span_products(distance as int, span as int);
    }
    let k_raw: i128 = div_trunc((distance as i128) * (span as i128), SCALE as i128);
    let k: i64 = if k_raw > 0x1000_0000 {
        0x1000_0000
    } else if k_raw < -0x1000_0000 {
        -0x1000_0000
    } else {
        k_raw as i64
    };
    proof {
        lemma_span_scale(dir.x as int, k as int);
        lemma_span_scale(dir.y as int, k as int);
        lemma_span_scale(dir.z as int, k as int);
    }
    Vec3 { x: fx_mul(dir.x, k), y: fx_mul(dir.y, k), z: fx_mul(dir.z, k) }
}

/// A viewport vector scaled by a factor in `[0, 1]`: no component grows.
fn scale_view(dir: Vec3, factor: i64) -> (r: Vec3)
    requires
        bounded(dir, 0x2000_0000 as int),
        -SCALE as int <= factor <= SCALE as int,
    ensures
        r == span_like(dir, factor as int),
        bounded(r, 0x2000_0000 as int),
{
    proof {
        assert(forall|c: int, f: int|
            -0x2000_0000 <= c <= 0x2000_0000 && -65536 <= f <= 65536 ==> -0x2000_0000
                <= #[trigger] fx_mul_spec(c, f) <= 0x2000_0000) by (nonlinear_arith);
    }
    Vec3 { x: fx_mul(dir.x, factor), y: fx_mul(dir.y, factor), z: fx_mul(dir.z, factor) }
}

/// Half of a viewport component, rounded toward zero.
fn half_trunc(v: i64) -> (r: i64)
    requires
        -0x2000_0000 <= v <= 0x2000_0000,
    ensures
        r as int == tdiv(v as int, 2),
        -0x1000_0000 <= r <= 0x1000_0000,
{
    proof {
        crate::fx::lemma_tdiv_bound(v as int, 2, 0x2000_0000);
    }
    div_trunc(v as i128, 2) as i64
}

/// Clamps a positive distance to a limit.
fn clamp_positive(v: i64, limit: i64) -> (r: i64)
    requires
        v >= 1,
        limit >= 1,
    ensures
        r as int == (if v > limit {
            limit as int
        } else {
            v as int
        }),
        1 <= r <= limit,
{
    if v > limit {
        limit
    } else {
        v
    }
}

/// The product of a distance and a span stays within the scaling range.
proof fn lemma_span_products(distance: int, span: int)
    requires
        -0x800_0000 <= distance <= 0x800_0000,
        -0x100_0000_0 <= span <= 0x100_0000_0,
    ensures
        -0x800_0000_0000_0000 <= distance * span <= 0x800_0000_0000_0000,
        -0x8000_0000_0000 <= tdiv(distance * span, SCALE as int) <= 0x8000_0000_0000,
{
    assert(-0x800_0000_0000_0000 <= distance * span <= 0x800_0000_0000_0000 && -0x8000_0000_0000
        <= tdiv(distance * span, SCALE as int) <= 0x8000_0000_0000) by (nonlinear_arith)
        requires
            -0x800_0000 <= distance <= 0x800_0000,
            -0x100_0000_0 <= span <= 0x100_0000_0,
            SCALE == 65536,
    ;
}

/// A near-unit component scaled by a bounded factor stays in the viewport
/// range, and the product fits the fixed-point multiplier.
proof fn lemma_span_scale(c: int, k: int)
    requires
        -2 * SCALE as int <= c <= 2 * SCALE as int,
        -0x1000_0000 <= k <= 0x1000_0000,
    ensures
        -0x2000_0000 as int <= fx_mul_spec(c, k) <= 0x2000_0000 as int,
        -0x7fff_ffff_ffff_ffff <= fx_mul_spec(c, k) <= 0x7fff_ffff_ffff_ffff,
{
    assert(-0x2000_0000 <= fx_mul_spec(c, k) <= 0x2000_0000) by (nonlinear_arith)
        requires
            -131072 <= c <= 131072,
            -0x1000_0000 <= k <= 0x1000_0000,
            SCALE == 65536,
    ;
}

/// The cross product of two near-unit vectors has components within
/// eight units, well inside the range `normalized` accepts.
proof fn lemma_cross_products(a: Vec3, b: Vec3)
    requires
        bounded(a, 2 * SCALE as int),
        bounded(b, 2 * SCALE as int),
    ensures
        -4 * SCALE as int <= fx_mul_spec(a.y as int, b.z as int) <= 4 * SCALE as int,
        -4 * SCALE as int <= fx_mul_spec(a.z as int, b.y as int) <= 4 * SCALE as int,
        -4 * SCALE as int <= fx_mul_spec(a.z as int, b.x as int) <= 4 * SCALE as int,
        -4 * SCALE as int <= fx_mul_spec(a.x as int, b.z as int) <= 4 * SCALE as int,
        -4 * SCALE as int <= fx_mul_spec(a.x as int, b.y as int) <= 4 * SCALE as int,
        -4 * SCALE as int <= fx_mul_spec(a.y as int, b.x as int) <= 4 * SCALE as int,
{
    assert(forall|x: int, y: int|
        -131072 <= x <= 131072 && -131072 <= y <= 131072 ==> -262144 <= #[trigger] fx_mul_spec(
            x,
            y,
        ) <= 262144) by (nonlinear_arith);
}

/// A disk coordinate scaled by the lens radius stays at unit scale.
proof fn lemma_disk_offset(c: int, radius: int)
    requires
        -SCALE as int <= c <= SCALE as int,
        0 <= radius <= SCALE as int,
    ensures
        -SCALE as int <= fx_mul_spec(c, radius) <= SCALE as int,
{
    assert(-65536 <= fx_mul_spec(c, radius) <= 65536) by (nonlinear_arith)
        requires
            -65536 <= c <= 65536,
            0 <= radius <= 65536,
            SCALE == 65536,
    ;
}

} // verus!
