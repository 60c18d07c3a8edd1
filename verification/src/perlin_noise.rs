//! Procedural gradient noise: a table of random unit-scale vectors hashed
//! by three permutations, interpolated with Hermite-smoothed weights. All
//! arithmetic is fixed point, and every stage clamps to the unit range,
//! so the noise value is always within `[-1, 1]`.

use crate::fx::{clamp_spec, fx_mul, fx_mul_spec, SCALE};
use crate::random::{rand_u64, random_unit_vector};
use crate::vec3::{bounded, Point3, Vec3};
use vstd::prelude::*;

verus! {

/// The number of table entries (a power of two, for masking).
pub const POINT_COUNT: usize = 256;

/// The noise generator's tables.
pub struct PerlinNoise {
    pub random_vectors: Vec<Vec3>,
    pub perm_x: Vec<usize>,
    pub perm_y: Vec<usize>,
    pub perm_z: Vec<usize>,
}


/// A table index from a cell coordinate: the coordinate modulo the table
/// size (the executable masking computes exactly this).
pub open spec fn table_index(v: int) -> int {
    v % 256
}

/// Three table entries folded into one index by exclusive or (over the
/// 64-bit values; all inputs are below the table size).
pub open spec fn xor_index(a: int, b: int, c: int) -> int {
    (((a as u64) ^ (b as u64) ^ (c as u64)) & 255) as int
}

/// Hermite smoothing `x * x * (3 - 2 x)` at unit scale, clamped into
/// `[0, SCALE]`, at the specification level.
pub open spec fn hermite_spec(x: int) -> int {
    let raw = fx_mul_spec(fx_mul_spec(x, x), 3 * SCALE as int - 2 * x);
    if raw < 0 {
        0
    } else if raw > SCALE as int {
        SCALE as int
    } else {
        raw
    }
}

impl PerlinNoise {
    /// The gradient vector hashed for the cell corner `(iu+di, iv+dj,
    /// iw+dk)`.
    pub open spec fn corner_vector(self, iu: int, iv: int, iw: int, di: int, dj: int, dk: int) -> Vec3 {
        self.random_vectors@[xor_index(
            self.perm_x@[table_index(iu + di)] as int,
            self.perm_y@[table_index(iv + dj)] as int,
            self.perm_z@[table_index(iw + dk)] as int,
        )]
    }

    /// One corner's contribution to the noise value: the clamped dot of
    /// the corner's gradient with the offset from the corner, weighted by
    /// the Hermite-smoothed trilinear factor. The corner is numbered 0..8
    /// with bits (di, dj, dk).
    pub open spec fn corner_term(self, point: Point3, idx: int) -> int {
        let di = idx / 4;
        let dj = (idx / 2) % 2;
        let dk = idx % 2;
        let iu = point.x as int / SCALE as int;
        let iv = point.y as int / SCALE as int;
        let iw = point.z as int / SCALE as int;
        let fu = point.x as int % SCALE as int;
        let fv = point.y as int % SCALE as int;
        let fw = point.z as int % SCALE as int;
        let g = self.corner_vector(iu, iv, iw, di, dj, dk);
        let dot = clamp_spec(
            fx_mul_spec(g.x as int, fu - di * SCALE as int) + fx_mul_spec(
                g.y as int,
                fv - dj * SCALE as int,
            ) + fx_mul_spec(g.z as int, fw - dk * SCALE as int),
            SCALE as int,
        );
        let weight = fx_mul_spec(
            fx_mul_spec(
                if di == 1 {
                    hermite_spec(fu)
                } else {
                    SCALE as int - hermite_spec(fu)
                },
                if dj == 1 {
                    hermite_spec(fv)
                } else {
                    SCALE as int - hermite_spec(fv)
                },
            ),
            if dk == 1 {
                hermite_spec(fw)
            } else {
                SCALE as int - hermite_spec(fw)
            },
        );
        fx_mul_spec(weight, dot)
    }

    /// The sum of the first `k` corner contributions.
    pub open spec fn corner_sum(self, point: Point3, k: int) -> int
        decreases k,
    {
        if k <= 0 {
            0
        } else {
            self.corner_sum(point, k - 1) + self.corner_term(point, k - 1)
        }
    }

    /// The noise value: the eight corners' contributions, clamped to unit
    /// scale.
    pub open spec fn noise_spec(self, point: Point3) -> int {
        clamp_spec(self.corner_sum(point, 8), SCALE as int)
    }

    /// One octave step of turbulence: accumulate the weighted noise
    /// (saturating at twice unit scale), halve the weight, double the
    /// point (saturating at the noise domain), and recurse; the result is
    /// the final magnitude.
    pub open spec fn turbulence_spec(self, point: Point3, weight: int, acc: int, levels: int) -> int
        decreases levels,
    {
        if levels <= 0 {
            if acc >= 0 {
                acc
            } else {
                -acc
            }
        } else {
            let contribution = fx_mul_spec(weight, self.noise_spec(point));
            let grown = if acc + contribution > 2 * SCALE as int {
                2 * SCALE as int
            } else if acc + contribution < -2 * SCALE as int {
                -2 * SCALE as int
            } else {
                acc + contribution
            };
            let doubled = Vec3 {
                x: clamp_spec(2 * point.x, 0x4000_0000_0000) as i64,
                y: clamp_spec(2 * point.y, 0x4000_0000_0000) as i64,
                z: clamp_spec(2 * point.z, 0x4000_0000_0000) as i64,
            };
            self.turbulence_spec(doubled, weight / 2, grown, levels - 1)
        }
    }
}

impl PerlinNoise {
    /// Tables of the right size, vectors at unit scale, permutation
    /// entries within the table.
    pub open spec fn wf(self) -> bool {
        &&& self.random_vectors@.len() == POINT_COUNT
        &&& self.perm_x@.len() == POINT_COUNT
        &&& self.perm_y@.len() == POINT_COUNT
        &&& self.perm_z@.len() == POINT_COUNT
        &&& (forall|i: int|
            0 <= i < POINT_COUNT ==> bounded(#[trigger] self.random_vectors@[i], 2 * SCALE as int))
        &&& (forall|i: int| 0 <= i < POINT_COUNT ==> #[trigger] self.perm_x@[i] < POINT_COUNT)
        &&& (forall|i: int| 0 <= i < POINT_COUNT ==> #[trigger] self.perm_y@[i] < POINT_COUNT)
        &&& (forall|i: int| 0 <= i < POINT_COUNT ==> #[trigger] self.perm_z@[i] < POINT_COUNT)
    }

    /// Fills the tables with fresh random unit-scale vectors and three
    /// fresh random permutations.
    pub fn new() -> (p: PerlinNoise)
        ensures
            p.wf(),
    {
        let mut random_vectors: Vec<Vec3> = Vec::new();
        let mut i: usize = 0;
        while i < POINT_COUNT
            invariant
                i <= POINT_COUNT,
                random_vectors@.len() == i,
                forall|j: int|
                    0 <= j < i ==> bounded(#[trigger] random_vectors@[j], 2 * SCALE as int),
            decreases POINT_COUNT - i,
        {
            random_vectors.push(random_unit_vector());
            i = i + 1;
        }
        PerlinNoise {
            random_vectors,
            perm_x: Self::perlin_generate_perm(),
            perm_y: Self::perlin_generate_perm(),
            perm_z: Self::perlin_generate_perm(),
        }
    }

    /// A shuffled table of the indices `0..POINT_COUNT`.
    fn perlin_generate_perm() -> (p: Vec<usize>)
        ensures
            p@.len() == POINT_COUNT,
            forall|i: int| 0 <= i < POINT_COUNT ==> #[trigger] p@[i] < POINT_COUNT,
    {
        let mut p: Vec<usize> = Vec::new();
        let mut i: usize = 0;
        while i < POINT_COUNT
            invariant
                i <= POINT_COUNT,
                p@.len() == i,
                forall|j: int| 0 <= j < i ==> #[trigger] p@[j] < POINT_COUNT,
            decreases POINT_COUNT - i,
        {
            p.push(i);
            i = i + 1;
        }
        Self::permute(&mut p);
        p
    }

    /// Shuffles the table in place by random transpositions.
    fn permute(p: &mut Vec<usize>)
        requires
            old(p)@.len() == POINT_COUNT,
            forall|i: int| 0 <= i < POINT_COUNT ==> #[trigger] old(p)@[i] < POINT_COUNT,
        ensures
            final(p)@.len() == POINT_COUNT,
            forall|i: int| 0 <= i < POINT_COUNT ==> #[trigger] final(p)@[i] < POINT_COUNT,
    {
        let mut i: usize = POINT_COUNT - 1;
        while i >= 1
            invariant
                i < POINT_COUNT,
                p@.len() == POINT_COUNT,
                forall|j: int| 0 <= j < POINT_COUNT ==> #[trigger] p@[j] < POINT_COUNT,
            decreases i,
        {
            let target: usize = (rand_u64() % (i as u64)) as usize;
            let a = p[i];
            let b = p[target];
            p[i] = b;
            p[target] = a;
            i = i - 1;
        }
    }

    /// The noise value at a point, in `[-1, 1]` at unit scale: the
    /// Hermite-smoothed trilinear blend of the gradient contributions of
    /// the cell's eight corners, exactly as `noise_spec` states it.
    pub fn noise(&self, point: Point3) -> (n: i64)
        requires
            self.wf(),
            bounded(point, 0x4000_0000_0000),
        ensures
            n as int == self.noise_spec(point),
            -SCALE as int <= n <= SCALE as int,
    {
        let mut accumulated: i64 = 0;
        let mut idx: usize = 0;
        while idx < 8
            invariant
                idx <= 8,
                self.wf(),
                bounded(point, 0x4000_0000_0000),
                accumulated as int == self.corner_sum(point, idx as int),
                -(idx as int) * SCALE as int <= accumulated <= (idx as int) * SCALE as int,
            decreases 8 - idx,
        {
            let term = self.corner_contribution(point, idx);
            accumulated = accumulated + term;
            idx = idx + 1;
        }
        if accumulated > SCALE {
            SCALE
        } else if accumulated < -SCALE {
            -SCALE
        } else {
            accumulated
        }
    }

    /// One corner's contribution, exactly as `corner_term` states it.
    fn corner_contribution(&self, point: Point3, idx: usize) -> (r: i64)
        requires
            self.wf(),
            bounded(point, 0x4000_0000_0000),
            idx < 8,
        ensures
            r as int == self.corner_term(point, idx as int),
            -SCALE as int <= r <= SCALE as int,
    {
        let di: i64 = (idx / 4) as i64;
        let dj: i64 = ((idx / 2) % 2) as i64;
        let dk: i64 = (idx % 2) as i64;
        let (iu, fu) = floor_fx(point.x);
        let (iv, fv) = floor_fx(point.y);
        let (iw, fw) = floor_fx(point.z);
        let hx = self.perm_x[mask_table(iu + di)];
        let hy = self.perm_y[mask_table(iv + dj)];
        let hz = self.perm_z[mask_table(iw + dk)];
        let corner = self.random_vectors[xor_table(hx, hy, hz)];
        let wx = fu - di * SCALE;
        let wy = fv - dj * SCALE;
        let wz = fw - dk * SCALE;
        let u = hermite(fu);
        let v = hermite(fv);
        let w = hermite(fw);
        let gx = if di == 1 {
            u
        } else {
            SCALE - u
        };
        let gy = if dj == 1 {
            v
        } else {
            SCALE - v
        };
        let gz = if dk == 1 {
            w
        } else {
            SCALE - w
        };
        let dot = clamp_unit(
            fx_mul_checked(corner.x, wx) + fx_mul_checked(corner.y, wy) + fx_mul_checked(
                corner.z,
                wz,
            ),
        );
        let weight = fx_mul_small(fx_mul_small(gx, gy), gz);
        fx_mul_small_signed(weight, dot)
    }

    /// Layered noise: octaves at doubling frequency and halving weight,
    /// folded to a magnitude, exactly as `turbulence_spec` states it (the
    /// octave count is capped at seven; by then the weight has vanished).
    pub fn turbulence(&self, point: Point3, depth: u32) -> (t: i64)
        requires
            self.wf(),
            bounded(point, 0x20_0000_0000),
        ensures
            t as int == self.turbulence_spec(
                point,
                SCALE as int,
                0,
                if depth < 7 {
                    depth as int
                } else {
                    7
                },
            ),
            0 <= t <= 2 * SCALE as int,
    {
        let mut accumulated: i64 = 0;
        let mut temp_point = point;
        let mut weight: i64 = SCALE;
        let mut level: u32 = 0;
        let levels = if depth < 7 {
            depth
        } else {
            7
        };
        while level < levels
            invariant
                level <= levels <= 7,
                0 <= weight <= SCALE,
                -2 * SCALE as int <= accumulated <= 2 * SCALE as int,
                bounded(temp_point, 0x4000_0000_0000),
                self.wf(),
                self.turbulence_spec(
                    temp_point,
                    weight as int,
                    accumulated as int,
                    levels - level,
                ) == self.turbulence_spec(point, SCALE as int, 0, levels as int),
            decreases levels - level,
        {
            let n = self.noise(temp_point);
            let contribution = fx_mul_small_signed(weight, n);
            accumulated = if accumulated + contribution > 2 * SCALE {
                2 * SCALE
            } else if accumulated + contribution < -2 * SCALE {
                -2 * SCALE
            } else {
                accumulated + contribution
            };
            weight = weight / 2;
            temp_point = Vec3 {
                x: clamp_coord(2 * temp_point.x),
                y: clamp_coord(2 * temp_point.y),
                z: clamp_coord(2 * temp_point.z),
            };
            level = level + 1;
        }
        if accumulated >= 0 {
            accumulated
        } else {
            -accumulated
        }
    }
}

/// The integer floor and fractional part of a fixed-point value: the
/// value is the floor times `SCALE` plus the fraction, which lies in
/// `[0, SCALE)`.
fn floor_fx(v: i64) -> (r: (i64, i64))
    requires
        -0x4000_0000_0000 <= v <= 0x4000_0000_0000,
    ensures
        0 <= r.1 < SCALE,
        v == r.0 * SCALE + r.1,
        r.0 as int == v as int / SCALE as int,
        r.1 as int == v as int % SCALE as int,
        -0x1_0000_0001 <= r.0 <= 0x1_0000_0000,
{
    if v >= 0 {
        let q = v / SCALE;
        let f = v % SCALE;
        proof {
            assert(v == (v / 65536) * 65536 + v % 65536 && 0 <= v % 65536 < 65536 && 0 <= v / 65536
                <= 0x1_0000_0000) by (nonlinear_arith)
                requires
                    0 <= v <= 0x4000_0000_0000,
            ;
        }
        proof {
            lemma_euclid_unique(v as int, q as int, f as int);
        }
        (q, f)
    } else {
        let neg = -v;
        let k = neg / SCALE;
        let m = neg % SCALE;
        proof {
            assert(neg == (neg / 65536) * 65536 + neg % 65536 && 0 <= neg % 65536 < 65536 && 0
                <= neg / 65536 <= 0x1_0000_0000) by (nonlinear_arith)
                requires
                    0 < neg <= 0x4000_0000_0000,
            ;
        }
        if m == 0 {
            proof {
                lemma_euclid_unique(v as int, -k as int, 0);
            }
            (-k, 0)
        } else {
            proof {
                lemma_euclid_unique(v as int, -k - 1 as int, SCALE - m as int);
            }
            (-k - 1, SCALE - m)
        }
    }
}

/// Hermite smoothing `x * x * (3 - 2 x)` at unit scale, clamped into
/// `[0, SCALE]`.
fn hermite(x: i64) -> (r: i64)
    requires
        0 <= x <= SCALE,
    ensures
        0 <= r <= SCALE,
        r as int == hermite_spec(x as int),
{
    let x2 = fx_mul_small(x, x);
    let three_minus = 3 * SCALE - 2 * x;
    let raw = fx_mul_signed_bounded(x2, three_minus);
    if raw < 0 {
        0
    } else if raw > SCALE {
        SCALE
    } else {
        raw
    }
}

/// A fixed-point product of two values in `[0, SCALE]`, which stays in
/// `[0, SCALE]`.
fn fx_mul_small(a: i64, b: i64) -> (r: i64)
    requires
        0 <= a <= SCALE,
        0 <= b <= SCALE,
    ensures
        0 <= r <= SCALE,
        r == fx_mul_spec(a as int, b as int),
{
    proof {
        assert(0 <= fx_mul_spec(a as int, b as int) <= SCALE as int) by (nonlinear_arith)
            requires
                0 <= a <= SCALE,
                0 <= b <= SCALE,
                SCALE == 65536,
        ;
    }
    fx_mul(a, b)
}

/// A fixed-point product of a weight in `[0, SCALE]` and a value in
/// `[-SCALE, SCALE]`.
fn fx_mul_small_signed(a: i64, b: i64) -> (r: i64)
    requires
        0 <= a <= SCALE,
        -SCALE as int <= b <= SCALE as int,
    ensures
        -SCALE as int <= r <= SCALE as int,
        r == fx_mul_spec(a as int, b as int),
{
    proof {
        assert(-SCALE as int <= fx_mul_spec(a as int, b as int) <= SCALE as int)
            by (nonlinear_arith)
            requires
                0 <= a <= SCALE,
                -SCALE as int <= b <= SCALE as int,
                SCALE == 65536,
        ;
    }
    fx_mul(a, b)
}

/// A fixed-point product of a value in `[0, SCALE]` and one in
/// `[0, 3 SCALE]`.
fn fx_mul_signed_bounded(a: i64, b: i64) -> (r: i64)
    requires
        0 <= a <= SCALE,
        0 <= b <= 3 * SCALE as int,
    ensures
        0 <= r <= 3 * SCALE as int,
        r == fx_mul_spec(a as int, b as int),
{
    proof {
        assert(0 <= fx_mul_spec(a as int, b as int) <= 3 * SCALE as int) by (nonlinear_arith)
            requires
                0 <= a <= SCALE,
                0 <= b <= 3 * SCALE as int,
                SCALE == 65536,
        ;
    }
    fx_mul(a, b)
}

/// A gradient contribution clamped to unit scale.
fn fx_mul_checked(a: i64, b: i64) -> (r: i64)
    requires
        -2 * SCALE as int <= a <= 2 * SCALE as int,
        -2 * SCALE as int <= b <= 2 * SCALE as int,
    ensures
        -4 * SCALE as int <= r <= 4 * SCALE as int,
        r == fx_mul_spec(a as int, b as int),
{
    proof {
        assert(-4 * SCALE as int <= fx_mul_spec(a as int, b as int) <= 4 * SCALE as int)
            by (nonlinear_arith)
            requires
                -2 * SCALE as int <= a <= 2 * SCALE as int,
                -2 * SCALE as int <= b <= 2 * SCALE as int,
                SCALE == 65536,
        ;
    }
    fx_mul(a, b)
}

/// The Euclidean quotient and remainder by `SCALE` are the unique pair
/// with remainder in `[0, SCALE)`.
proof fn lemma_euclid_unique(v: int, q: int, f: int)
    requires
        v == q * SCALE as int + f,
        0 <= f < SCALE as int,
    ensures
        q == v / SCALE as int,
        f == v % SCALE as int,
{
    assert(q == v / 65536 && f == v % 65536) by (nonlinear_arith)
        requires
            v == q * 65536 + f,
            0 <= f < 65536,
    ;
}

/// Clamps a value into `[-SCALE, SCALE]`.
fn clamp_unit(v: i64) -> (r: i64)
    requires
        -0x1000_0000 <= v <= 0x1000_0000,
    ensures
        -SCALE as int <= r <= SCALE as int,
        r as int == clamp_spec(v as int, SCALE as int),
{
    if v > SCALE {
        SCALE
    } else if v < -SCALE {
        -SCALE
    } else {
        v
    }
}

/// Masks a cell index into the table range: the cell number modulo the
/// table size (computed on a shifted nonnegative copy).
fn mask_table(v: i64) -> (r: usize)
    requires
        -0x4_0000_0000 <= v <= 0x4_0000_0000,
    ensures
        r < POINT_COUNT,
        r as int == table_index(v as int),
{
    let shifted: i64 = v + 0x8_0000_0000;
    let m: i64 = shifted % 256;
    proof {
        assert(0 <= shifted % 256 < 256 && (v as int + 0x8_0000_0000) % 256 == v as int % 256)
            by (nonlinear_arith)
            requires
                shifted == v as int + 0x8_0000_0000,
                0 < shifted,
        ;
    }
    m as usize
}

/// Folds three table indices into one by exclusive or.
fn xor_table(a: usize, b: usize, c: usize) -> (r: usize)
    requires
        a < POINT_COUNT,
        b < POINT_COUNT,
        c < POINT_COUNT,
    ensures
        r < POINT_COUNT,
        r as int == xor_index(a as int, b as int, c as int),
{
    let x: u64 = (a as u64) ^ (b as u64) ^ (c as u64);
    let m: u64 = x & 255;
    proof {
        assert(x & 255 < 256) by (bit_vector);
    }
    m as usize
}

/// Clamps a doubled coordinate back into the noise domain.
fn clamp_coord(v: i64) -> (r: i64)
    requires
        -0x8000_0000_0000 <= v <= 0x8000_0000_0000,
    ensures
        -0x4000_0000_0000 <= r <= 0x4000_0000_0000,
        r as int == clamp_spec(v as int, 0x4000_0000_0000),
{
    if v > 0x4000_0000_0000 {
        0x4000_0000_0000
    } else if v < -0x4000_0000_0000 {
        -0x4000_0000_0000
    } else {
        v
    }
}

} // verus!
