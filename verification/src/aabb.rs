//! Axis-aligned bounding boxes and the exact slab test.
//!
//! The test narrows the search interval `[t_min, t_max]` by each axis's
//! slab-entry and slab-exit parameters, kept as exact rationals. Its
//! contract characterizes the result geometrically: the ray hits the box
//! exactly when some rational parameter in range places the ray inside
//! every slab. A closed variant accepts boundary contact; the hierarchy
//! prunes with it, which is what makes pruning provably conservative.

use crate::fx::GEOM_BOUND;
use crate::rat::{
    frac_le, frac_lt, lemma_frac_le_lt_trans, lemma_frac_le_trans, lemma_frac_lt_le_trans,
    lemma_rat_midpoint, Rat,
};
use crate::ray::Ray;
use crate::vec3::{bounded, Point3};
use vstd::prelude::*;

verus! {

/// An axis-aligned box given by two corner points.
#[derive(Clone, Copy, Debug, PartialEq, Eq, Structural)]
pub struct AABB {
    pub minimum: Point3,
    pub maximum: Point3,
}

/// Parameter `p / q` lies in `[lo, hi]` (or strictly inside, when `closed`
/// is false).
pub open spec fn t_in(lo: Rat, hi: Rat, p: int, q: int, closed: bool) -> bool {
    if closed {
        frac_le(lo.num as int, lo.den as int, p, q) && frac_le(p, q, hi.num as int, hi.den as int)
    } else {
        frac_lt(lo.num as int, lo.den as int, p, q) && frac_lt(p, q, hi.num as int, hi.den as int)
    }
}

/// At parameter `p / q`, the ray coordinate `o + (p/q) d` lies between `l`
/// and `h`; all terms are multiplied by the positive `q`.
pub open spec fn slab_ok(o: int, d: int, l: int, h: int, p: int, q: int, closed: bool) -> bool {
    if closed {
        l * q <= o * q + p * d && o * q + p * d <= h * q
    } else {
        l * q < o * q + p * d && o * q + p * d < h * q
    }
}

/// The slab condition for axis `i` of a box.
pub open spec fn box_slab(b: AABB, r: Ray, i: int, p: int, q: int, closed: bool) -> bool {
    slab_ok(
        r.origin.spec_axis(i),
        r.direction.spec_axis(i),
        b.minimum.spec_axis(i),
        b.maximum.spec_axis(i),
        p,
        q,
        closed,
    )
}

/// A full hit witness: a rational parameter in range that places the ray
/// inside all three slabs.
pub open spec fn witness_ok(
    b: AABB,
    r: Ray,
    t_min: Rat,
    t_max: Rat,
    p: int,
    q: int,
    closed: bool,
) -> bool {
    q > 0 && t_in(t_min, t_max, p, q, closed) && box_slab(b, r, 0, p, q, closed) && box_slab(
        b,
        r,
        1,
        p,
        q,
        closed,
    ) && box_slab(b, r, 2, p, q, closed)
}

/// The ray meets the box within the parameter range.
pub open spec fn hit_spec(b: AABB, r: Ray, t_min: Rat, t_max: Rat, closed: bool) -> bool {
    exists|p: int, q: int| witness_ok(b, r, t_min, t_max, p, q, closed)
}

/// The componentwise union of two boxes, as a specification value.
pub open spec fn union_box(a: AABB, b: AABB) -> AABB {
    AABB {
        minimum: Point3 {
            x: if a.minimum.x <= b.minimum.x {
                a.minimum.x
            } else {
                b.minimum.x
            },
            y: if a.minimum.y <= b.minimum.y {
                a.minimum.y
            } else {
                b.minimum.y
            },
            z: if a.minimum.z <= b.minimum.z {
                a.minimum.z
            } else {
                b.minimum.z
            },
        },
        maximum: Point3 {
            x: if a.maximum.x >= b.maximum.x {
                a.maximum.x
            } else {
                b.maximum.x
            },
            y: if a.maximum.y >= b.maximum.y {
                a.maximum.y
            } else {
                b.maximum.y
            },
            z: if a.maximum.z >= b.maximum.z {
                a.maximum.z
            } else {
                b.maximum.z
            },
        },
    }
}

/// `inner` lies within `outer` on every axis.
pub open spec fn box_contains(outer: AABB, inner: AABB) -> bool {
    forall|i: int|
        0 <= i < 3 ==> outer.minimum.spec_axis(i) <= inner.minimum.spec_axis(i)
            && inner.maximum.spec_axis(i) <= outer.maximum.spec_axis(i)
}

impl AABB {
    /// Corner coordinates within the geometry bounds.
    pub open spec fn wf(self) -> bool {
        bounded(self.minimum, GEOM_BOUND as int) && bounded(self.maximum, GEOM_BOUND as int)
    }

    /// Builds the box with the given corners.
    pub fn new(a: Point3, b: Point3) -> (r: AABB)
        ensures
            r.minimum == a,
            r.maximum == b,
    {
        AABB { minimum: a, maximum: b }
    }

    /// The low corner.
    pub fn min(&self) -> (r: Point3)
        ensures
            r == self.minimum,
    {
        self.minimum
    }

    /// The high corner.
    pub fn max(&self) -> (r: Point3)
        ensures
            r == self.maximum,
    {
        self.maximum
    }

    /// The slab test of the output format's tradition: each axis narrows
    /// the running interval, and an interval whose upper end does not
    /// strictly exceed its lower end is a miss. Boundary-tangent rays are
    /// thus deterministically misses.
    pub fn hit(&self, ray: &Ray, t_min: Rat, t_max: Rat) -> (r: bool)
        requires
            self.wf(),
            ray.wf(),
            t_min.wf(),
            t_max.wf(),
        ensures
            r == hit_spec(*self, *ray, t_min, t_max, false),
    {
        self.hit_impl(ray, t_min, t_max, false)
    }

    /// The closed slab test: boundary contact counts as a hit. The
    /// hierarchy prunes with this variant, so a node is never skipped when
    /// one of its primitives could be struck.
    pub fn hit_closed(&self, ray: &Ray, t_min: Rat, t_max: Rat) -> (r: bool)
        requires
            self.wf(),
            ray.wf(),
            t_min.wf(),
            t_max.wf(),
        ensures
            r == hit_spec(*self, *ray, t_min, t_max, true),
    {
        self.hit_impl(ray, t_min, t_max, true)
    }

    fn hit_impl(&self, ray: &Ray, t_min: Rat, t_max: Rat, closed: bool) -> (r: bool)
        requires
            self.wf(),
            ray.wf(),
            t_min.wf(),
            t_max.wf(),
        ensures
            r == hit_spec(*self, *ray, t_min, t_max, closed),
    {
        let o = ray.origin();
        let d = ray.direction();

        let step0 = narrow_axis(o.x, d.x, self.minimum.x, self.maximum.x, t_min, t_max, closed);
        let (lo0, hi0) = match step0 {
            None => {
                proof {
                    assert(!hit_spec(*self, *ray, t_min, t_max, closed)) by {
                        if hit_spec(*self, *ray, t_min, t_max, closed) {
                            let (p, q) = choose|p: int, q: int|
                                witness_ok(*self, *ray, t_min, t_max, p, q, closed);
                            assert(t_in(t_min, t_max, p, q, closed) && slab_ok(
                                o.x as int,
                                d.x as int,
                                self.minimum.x as int,
                                self.maximum.x as int,
                                p,
                                q,
                                closed,
                            ));
                        }
                    }
                }
                return false;
            },
            Some(pair) => pair,
        };

        let step1 = narrow_axis(o.y, d.y, self.minimum.y, self.maximum.y, lo0, hi0, closed);
        let (lo1, hi1) = match step1 {
            None => {
                proof {
                    assert(!hit_spec(*self, *ray, t_min, t_max, closed)) by {
                        if hit_spec(*self, *ray, t_min, t_max, closed) {
                            let (p, q) = choose|p: int, q: int|
                                witness_ok(*self, *ray, t_min, t_max, p, q, closed);
                            assert(t_in(t_min, t_max, p, q, closed));
                            assert(t_in(lo0, hi0, p, q, closed));
                            assert(slab_ok(
                                o.y as int,
                                d.y as int,
                                self.minimum.y as int,
                                self.maximum.y as int,
                                p,
                                q,
                                closed,
                            ));
                        }
                    }
                }
                return false;
            },
            Some(pair) => pair,
        };

        let step2 = narrow_axis(o.z, d.z, self.minimum.z, self.maximum.z, lo1, hi1, closed);
        match step2 {
            None => {
                proof {
                    assert(!hit_spec(*self, *ray, t_min, t_max, closed)) by {
                        if hit_spec(*self, *ray, t_min, t_max, closed) {
                            let (p, q) = choose|p: int, q: int|
                                witness_ok(*self, *ray, t_min, t_max, p, q, closed);
                            assert(t_in(t_min, t_max, p, q, closed));
                            assert(t_in(lo0, hi0, p, q, closed));
                            assert(t_in(lo1, hi1, p, q, closed));
                            assert(slab_ok(
                                o.z as int,
                                d.z as int,
                                self.minimum.z as int,
                                self.maximum.z as int,
                                p,
                                q,
                                closed,
                            ));
                        }
                    }
                }
                false
            },
            Some((lo2, hi2)) => {
                proof {
                    let m = lemma_rat_midpoint(
                        lo2.num as int,
                        lo2.den as int,
                        hi2.num as int,
                        hi2.den as int,
                    );
                    assert(t_in(lo2, hi2, m.0, m.1, closed));
                    assert(t_in(lo1, hi1, m.0, m.1, closed));
                    assert(t_in(lo0, hi0, m.0, m.1, closed));
                    assert(witness_ok(*self, *ray, t_min, t_max, m.0, m.1, closed));
                }
                true
            },
        }
    }

    /// The smallest box containing both arguments: componentwise minimum
    /// and maximum of the corners.
    pub fn surrounding_box(box0: AABB, box1: AABB) -> (r: AABB)
        requires
            box0.wf(),
            box1.wf(),
        ensures
            r == union_box(box0, box1),
            r.wf(),
            box_contains(r, box0),
            box_contains(r, box1),
            r.minimum.x == if box0.minimum.x <= box1.minimum.x {
                box0.minimum.x
            } else {
                box1.minimum.x
            },
            r.maximum.x == if box0.maximum.x >= box1.maximum.x {
                box0.maximum.x
            } else {
                box1.maximum.x
            },
            r.minimum.y == if box0.minimum.y <= box1.minimum.y {
                box0.minimum.y
            } else {
                box1.minimum.y
            },
            r.maximum.y == if box0.maximum.y >= box1.maximum.y {
                box0.maximum.y
            } else {
                box1.maximum.y
            },
            r.minimum.z == if box0.minimum.z <= box1.minimum.z {
                box0.minimum.z
            } else {
                box1.minimum.z
            },
            r.maximum.z == if box0.maximum.z >= box1.maximum.z {
                box0.maximum.z
            } else {
                box1.maximum.z
            },
    {
        let smallest = Point3 {
            x: if box0.minimum.x <= box1.minimum.x {
                box0.minimum.x
            } else {
                box1.minimum.x
            },
            y: if box0.minimum.y <= box1.minimum.y {
                box0.minimum.y
            } else {
                box1.minimum.y
            },
            z: if box0.minimum.z <= box1.minimum.z {
                box0.minimum.z
            } else {
                box1.minimum.z
            },
        };
        let biggest = Point3 {
            x: if box0.maximum.x >= box1.maximum.x {
                box0.maximum.x
            } else {
                box1.maximum.x
            },
            y: if box0.maximum.y >= box1.maximum.y {
                box0.maximum.y
            } else {
                box1.maximum.y
            },
            z: if box0.maximum.z >= box1.maximum.z {
                box0.maximum.z
            } else {
                box1.maximum.z
            },
        };
        AABB { minimum: smallest, maximum: biggest }
    }
}

/// Narrows the interval `[lo, hi]` by one axis's slab. `None` means no
/// parameter of the interval can satisfy this axis; otherwise the returned
/// interval holds exactly the parameters of the old one that do.
fn narrow_axis(o: i64, d: i64, l: i64, h: i64, lo: Rat, hi: Rat, closed: bool) -> (res: Option<
    (Rat, Rat),
>)
    requires
        lo.wf(),
        hi.wf(),
        -GEOM_BOUND as int <= o <= GEOM_BOUND as int,
        -GEOM_BOUND as int <= d <= GEOM_BOUND as int,
        -GEOM_BOUND as int <= l <= GEOM_BOUND as int,
        -GEOM_BOUND as int <= h <= GEOM_BOUND as int,
    ensures
        match res {
            None => forall|p: int, q: int|
                q > 0 ==> !(#[trigger] t_in(lo, hi, p, q, closed) && slab_ok(
                    o as int,
                    d as int,
                    l as int,
                    h as int,
                    p,
                    q,
                    closed,
                )),
            Some(pair) => {
                let (nlo, nhi) = pair;
                nlo.wf() && nhi.wf() && (closed ==> frac_le(
                    nlo.num as int,
                    nlo.den as int,
                    nhi.num as int,
                    nhi.den as int,
                )) && (!closed ==> frac_lt(
                    nlo.num as int,
                    nlo.den as int,
                    nhi.num as int,
                    nhi.den as int,
                )) && forall|p: int, q: int|
                    q > 0 ==> (#[trigger] t_in(nlo, nhi, p, q, closed) <==> t_in(
                        lo,
                        hi,
                        p,
                        q,
                        closed,
                    ) && slab_ok(o as int, d as int, l as int, h as int, p, q, closed))
            },
        },
{
    if d == 0 {
        let inside = if closed {
            l <= o && o <= h
        } else {
            l < o && o < h
        };
        if !inside {
            proof {
                assert forall|p: int, q: int| q > 0 implies !(#[trigger] t_in(lo, hi, p, q, closed)
                    && slab_ok(o as int, d as int, l as int, h as int, p, q, closed)) by {
                    lemma_zero_direction(o as int, l as int, h as int, p, q, closed);
                }
            }
            None
        } else {
            let empty = if closed {
                hi.lt(lo)
            } else {
                !lo.lt(hi)
            };
            if empty {
                proof {
                    assert forall|p: int, q: int| q > 0 implies !(#[trigger] t_in(
                        lo,
                        hi,
                        p,
                        q,
                        closed,
                    ) && slab_ok(o as int, d as int, l as int, h as int, p, q, closed)) by {
                        if t_in(lo, hi, p, q, closed) {
                            if closed {
                                lemma_frac_le_trans(
                                    lo.num as int,
                                    lo.den as int,
                                    p,
                                    q,
                                    hi.num as int,
                                    hi.den as int,
                                );
                            } else {
                                lemma_frac_lt_le_trans(
                                    lo.num as int,
                                    lo.den as int,
                                    p,
                                    q,
                                    hi.num as int,
                                    hi.den as int,
                                );
                            }
                        }
                    }
                }
                None
            } else {
                proof {
                    assert forall|p: int, q: int| q > 0 implies (#[trigger] t_in(
                        lo,
                        hi,
                        p,
                        q,
                        closed,
                    ) <==> t_in(lo, hi, p, q, closed) && slab_ok(
                        o as int,
                        d as int,
                        l as int,
                        h as int,
                        p,
                        q,
                        closed,
                    )) by {
                        lemma_zero_direction(o as int, l as int, h as int, p, q, closed);
                    }
                }
                Some((lo, hi))
            }
        }
    } else {
        let (cand_lo, cand_hi) = if d > 0 {
            (Rat { num: (l - o) as i128, den: d as i128 }, Rat {
                num: (h - o) as i128,
                den: d as i128,
            })
        } else {
            (Rat { num: (o - h) as i128, den: (-d) as i128 }, Rat {
                num: (o - l) as i128,
                den: (-d) as i128,
            })
        };
        let nlo = lo.max(cand_lo);
        let nhi = hi.min(cand_hi);
        let empty = if closed {
            nhi.lt(nlo)
        } else {
            !nlo.lt(nhi)
        };
        proof {
            assert forall|p: int, q: int| q > 0 implies (t_in(nlo, nhi, p, q, closed) <==>
            #[trigger] t_in(lo, hi, p, q, closed) && slab_ok(
                o as int,
                d as int,
                l as int,
                h as int,
                p,
                q,
                closed,
            )) by {
                lemma_slab_as_fracs(
                    o as int,
                    d as int,
                    l as int,
                    h as int,
                    cand_lo,
                    cand_hi,
                    p,
                    q,
                    closed,
                );
                lemma_interval_narrow(lo, hi, cand_lo, cand_hi, nlo, nhi, p, q, closed);
            }
        }
        if empty {
            proof {
                assert forall|p: int, q: int| q > 0 implies !(#[trigger] t_in(lo, hi, p, q, closed)
                    && slab_ok(o as int, d as int, l as int, h as int, p, q, closed)) by {
                    if t_in(nlo, nhi, p, q, closed) {
                        if closed {
                            lemma_frac_le_trans(
                                nlo.num as int,
                                nlo.den as int,
                                p,
                                q,
                                nhi.num as int,
                                nhi.den as int,
                            );
                        } else {
                            lemma_frac_lt_le_trans(
                                nlo.num as int,
                                nlo.den as int,
                                p,
                                q,
                                nhi.num as int,
                                nhi.den as int,
                            );
                        }
                    }
                }
            }
            None
        } else {
            Some((nlo, nhi))
        }
    }
}

/// With a zero direction component, the slab condition is a fact about the
/// origin alone.
proof fn lemma_zero_direction(o: int, l: int, h: int, p: int, q: int, closed: bool)
    requires
        q > 0,
    ensures
        slab_ok(o, 0, l, h, p, q, closed) <==> (if closed {
            l <= o && o <= h
        } else {
            l < o && o < h
        }),
{
    assert((l * q <= o * q + p * 0 <==> l <= o) && (o * q + p * 0 <= h * q <==> o <= h) && (l * q
        < o * q + p * 0 <==> l < o) && (o * q + p * 0 < h * q <==> o < h)) by (nonlinear_arith)
        requires
            q > 0,
    ;
}

/// With a nonzero direction component, the slab condition says the
/// parameter lies between the slab-entry and slab-exit fractions.
proof fn lemma_slab_as_fracs(
    o: int,
    d: int,
    l: int,
    h: int,
    cand_lo: Rat,
    cand_hi: Rat,
    p: int,
    q: int,
    closed: bool,
)
    requires
        q > 0,
        d != 0,
        d > 0 ==> cand_lo.num == l - o && cand_lo.den == d && cand_hi.num == h - o && cand_hi.den
            == d,
        d < 0 ==> cand_lo.num == o - h && cand_lo.den == -d && cand_hi.num == o - l && cand_hi.den
            == -d,
    ensures
        slab_ok(o, d, l, h, p, q, closed) <==> (if closed {
            frac_le(cand_lo.num as int, cand_lo.den as int, p, q) && frac_le(
                p,
                q,
                cand_hi.num as int,
                cand_hi.den as int,
            )
        } else {
            frac_lt(cand_lo.num as int, cand_lo.den as int, p, q) && frac_lt(
                p,
                q,
                cand_hi.num as int,
                cand_hi.den as int,
            )
        }),
{
    if d > 0 {
        assert(((l - o) * q <= p * d <==> l * q <= o * q + p * d) && (p * d <= (h - o) * q <==> o
            * q + p * d <= h * q) && ((l - o) * q < p * d <==> l * q < o * q + p * d) && (p * d < (h
            - o) * q <==> o * q + p * d < h * q)) by (nonlinear_arith);
    } else {
        assert(((o - h) * q <= p * -d <==> o * q + p * d <= h * q) && (p * -d <= (o - l) * q <==> l
            * q <= o * q + p * d) && ((o - h) * q < p * -d <==> o * q + p * d < h * q) && (p * -d
            < (o - l) * q <==> l * q < o * q + p * d)) by (nonlinear_arith);
    }
}

/// Narrowing by candidates: a parameter lies in the narrowed interval
/// exactly when it lies in the old interval and between both candidates.
proof fn lemma_interval_narrow(
    lo: Rat,
    hi: Rat,
    cand_lo: Rat,
    cand_hi: Rat,
    nlo: Rat,
    nhi: Rat,
    p: int,
    q: int,
    closed: bool,
)
    requires
        q > 0,
        lo.wf(),
        hi.wf(),
        cand_lo.wf(),
        cand_hi.wf(),
        nlo == if lo.spec_lt(cand_lo) {
            cand_lo
        } else {
            lo
        },
        nhi == if cand_hi.spec_lt(hi) {
            cand_hi
        } else {
            hi
        },
    ensures
        t_in(nlo, nhi, p, q, closed) <==> t_in(lo, hi, p, q, closed) && (if closed {
            frac_le(cand_lo.num as int, cand_lo.den as int, p, q) && frac_le(
                p,
                q,
                cand_hi.num as int,
                cand_hi.den as int,
            )
        } else {
            frac_lt(cand_lo.num as int, cand_lo.den as int, p, q) && frac_lt(
                p,
                q,
                cand_hi.num as int,
                cand_hi.den as int,
            )
        }),
{
    if closed {
        if t_in(nlo, nhi, p, q, closed) {
            lemma_frac_le_trans(
                lo.num as int,
                lo.den as int,
                nlo.num as int,
                nlo.den as int,
                p,
                q,
            );
            lemma_frac_le_trans(
                cand_lo.num as int,
                cand_lo.den as int,
                nlo.num as int,
                nlo.den as int,
                p,
                q,
            );
            lemma_frac_le_trans(
                p,
                q,
                nhi.num as int,
                nhi.den as int,
                hi.num as int,
                hi.den as int,
            );
            lemma_frac_le_trans(
                p,
                q,
                nhi.num as int,
                nhi.den as int,
                cand_hi.num as int,
                cand_hi.den as int,
            );
        }
    } else {
        if t_in(nlo, nhi, p, q, closed) {
            lemma_frac_le_lt_trans(
                lo.num as int,
                lo.den as int,
                nlo.num as int,
                nlo.den as int,
                p,
                q,
            );
            lemma_frac_le_lt_trans(
                cand_lo.num as int,
                cand_lo.den as int,
                nlo.num as int,
                nlo.den as int,
                p,
                q,
            );
            lemma_frac_lt_le_trans(
                p,
                q,
                nhi.num as int,
                nhi.den as int,
                hi.num as int,
                hi.den as int,
            );
            lemma_frac_lt_le_trans(
                p,
                q,
                nhi.num as int,
                nhi.den as int,
                cand_hi.num as int,
                cand_hi.den as int,
            );
        }
    }
}

/// A hit witness against an inner box is a hit witness against any box
/// containing it: pruning by an enclosing box is conservative.
pub proof fn lemma_hit_monotone(outer: AABB, inner: AABB, r: Ray, t_min: Rat, t_max: Rat)
    requires
        box_contains(outer, inner),
        hit_spec(inner, r, t_min, t_max, true),
    ensures
        hit_spec(outer, r, t_min, t_max, true),
{
    let (p, q) = choose|p: int, q: int| witness_ok(inner, r, t_min, t_max, p, q, true);
    assert forall|i: int| 0 <= i < 3 implies box_slab(outer, r, i, p, q, true) by {
        assert(box_slab(inner, r, i, p, q, true));
        lemma_slab_widen(
            r.origin.spec_axis(i),
            r.direction.spec_axis(i),
            inner.minimum.spec_axis(i),
            inner.maximum.spec_axis(i),
            outer.minimum.spec_axis(i),
            outer.maximum.spec_axis(i),
            p,
            q,
        );
    }
    assert(witness_ok(outer, r, t_min, t_max, p, q, true));
}

/// Loosening the slab walls keeps the slab condition.
proof fn lemma_slab_widen(
    o: int,
    d: int,
    l_in: int,
    h_in: int,
    l_out: int,
    h_out: int,
    p: int,
    q: int,
)
    requires
        q > 0,
        l_out <= l_in,
        h_in <= h_out,
        slab_ok(o, d, l_in, h_in, p, q, true),
    ensures
        slab_ok(o, d, l_out, h_out, p, q, true),
{
    assert(l_out * q <= l_in * q && h_in * q <= h_out * q) by (nonlinear_arith)
        requires
            q > 0,
            l_out <= l_in,
            h_in <= h_out,
    ;
}

} // verus!
