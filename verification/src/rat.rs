//! Exact rational numbers with bounded representation.
//!
//! Ray parameters ("t" values) are rationals: slab-entry parameters are
//! quotients of coordinate differences by direction components, and the
//! reported sphere roots are quotients with the quadratic's leading
//! coefficient as denominator. Comparing them by cross-multiplication keeps
//! every intersection decision exact, so the ordering facts the acceleration
//! structure relies on hold without any floating-point tolerance.

use crate::fx::SCALE;
use vstd::prelude::*;

verus! {

/// Magnitude bound on numerators and denominators; cross products of two
/// bounded rationals then stay within `i128`.
pub const RAT_BOUND: i128 = 0x4000_0000_0000_0000;

/// A rational number `num / den` with a positive denominator.
#[derive(Clone, Copy, Debug)]
pub struct Rat {
    pub num: i128,
    pub den: i128,
}

/// `an / ad <= bn / bd` for rationals given as numerator/denominator pairs
/// with positive denominators.
pub open spec fn frac_le(an: int, ad: int, bn: int, bd: int) -> bool {
    an * bd <= bn * ad
}

/// `an / ad < bn / bd` for pairs with positive denominators.
pub open spec fn frac_lt(an: int, ad: int, bn: int, bd: int) -> bool {
    an * bd < bn * ad
}

impl Rat {
    /// Representation bounds: positive denominator, both parts small enough
    /// that comparing two rationals cannot overflow.
    pub open spec fn wf(self) -> bool {
        0 < self.den <= RAT_BOUND && -RAT_BOUND <= self.num <= RAT_BOUND
    }

    /// `self <= other` as rational numbers.
    pub open spec fn spec_le(self, other: Rat) -> bool {
        frac_le(self.num as int, self.den as int, other.num as int, other.den as int)
    }

    /// `self < other` as rational numbers.
    pub open spec fn spec_lt(self, other: Rat) -> bool {
        frac_lt(self.num as int, self.den as int, other.num as int, other.den as int)
    }

    /// The rational equal to the fixed-point scalar `v`.
    pub fn from_fx(v: i64) -> (r: Rat)
        requires
            -RAT_BOUND <= v as int <= RAT_BOUND,
        ensures
            r.wf(),
            r.num == v as int,
            r.den == SCALE as int,
    {
        Rat { num: v as i128, den: SCALE as i128 }
    }

    /// A rational beyond every bounded ray parameter; it serves as an
    /// unbounded upper search limit.
    pub fn horizon() -> (r: Rat)
        ensures
            r.wf(),
            r.num == RAT_BOUND,
            r.den == 1,
    {
        Rat { num: RAT_BOUND, den: 1 }
    }

    /// Exact comparison `self <= other`, by cross-multiplication.
    pub fn le(self, other: Rat) -> (r: bool)
        requires
            self.wf(),
            other.wf(),
        ensures
            r == self.spec_le(other),
    {
        proof {
            lemma_cross_bound(self.num as int, other.den as int);
            lemma_cross_bound(other.num as int, self.den as int);
        }
        self.num * other.den <= other.num * self.den
    }

    /// Exact comparison `self < other`, by cross-multiplication.
    pub fn lt(self, other: Rat) -> (r: bool)
        requires
            self.wf(),
            other.wf(),
        ensures
            r == self.spec_lt(other),
    {
        proof {
            lemma_cross_bound(self.num as int, other.den as int);
            lemma_cross_bound(other.num as int, self.den as int);
        }
        self.num * other.den < other.num * self.den
    }

    /// The larger of two rationals.
    pub fn max(self, other: Rat) -> (r: Rat)
        requires
            self.wf(),
            other.wf(),
        ensures
            r.wf(),
            r == if self.spec_lt(other) {
                other
            } else {
                self
            },
            other.spec_le(r) && self.spec_le(r),
    {
        proof {
            lemma_rat_order(self, other);
        }
        if self.lt(other) {
            other
        } else {
            self
        }
    }

    /// The smaller of two rationals.
    pub fn min(self, other: Rat) -> (r: Rat)
        requires
            self.wf(),
            other.wf(),
        ensures
            r.wf(),
            r == if other.spec_lt(self) {
                other
            } else {
                self
            },
            r.spec_le(other) && r.spec_le(self),
    {
        proof {
            lemma_rat_order(self, other);
        }
        if other.lt(self) {
            other
        } else {
            self
        }
    }
}

/// Cross products of bounded parts stay within `i128`.
pub proof fn lemma_cross_bound(a: int, b: int)
    requires
        -RAT_BOUND <= a <= RAT_BOUND,
        -RAT_BOUND <= b <= RAT_BOUND,
    ensures
        -0x1000_0000_0000_0000_0000_0000_0000_0000 <= a * b
            <= 0x1000_0000_0000_0000_0000_0000_0000_0000,
{
    assert(-0x1000_0000_0000_0000_0000_0000_0000_0000 <= a * b
        <= 0x1000_0000_0000_0000_0000_0000_0000_0000) by (nonlinear_arith)
        requires
            -RAT_BOUND <= a <= RAT_BOUND,
            -RAT_BOUND <= b <= RAT_BOUND,
    ;
}

/// Reflexivity of the rational order on a single value.
pub proof fn lemma_rat_le_refl(a: Rat)
    ensures
        a.spec_le(a),
{
}

/// `<=` and `<` order any two well-formed rationals consistently.
pub proof fn lemma_rat_order(a: Rat, b: Rat)
    requires
        a.wf(),
        b.wf(),
    ensures
        a.spec_le(b) <==> !b.spec_lt(a),
        a.spec_lt(b) ==> a.spec_le(b),
{
}

/// Transitivity of `<=` over well-formed rationals, with the strict
/// variants that a chain with one strict link stays strict.
pub proof fn lemma_rat_le_trans(a: Rat, b: Rat, c: Rat)
    requires
        a.wf(),
        b.wf(),
        c.wf(),
        a.spec_le(b),
        b.spec_le(c),
    ensures
        a.spec_le(c),
{
    assert(a.num * c.den <= c.num * a.den) by (nonlinear_arith)
        requires
            a.num * b.den <= b.num * a.den,
            b.num * c.den <= c.num * b.den,
            a.den > 0,
            b.den > 0,
            c.den > 0,
    ;
}

/// A strict link on the left keeps the chain strict.
pub proof fn lemma_rat_lt_le_trans(a: Rat, b: Rat, c: Rat)
    requires
        a.wf(),
        b.wf(),
        c.wf(),
        a.spec_lt(b),
        b.spec_le(c),
    ensures
        a.spec_lt(c),
{
    assert(a.num * c.den < c.num * a.den) by (nonlinear_arith)
        requires
            a.num * b.den < b.num * a.den,
            b.num * c.den <= c.num * b.den,
            a.den > 0,
            b.den > 0,
            c.den > 0,
    ;
}

/// A strict link on the right keeps the chain strict.
pub proof fn lemma_rat_le_lt_trans(a: Rat, b: Rat, c: Rat)
    requires
        a.wf(),
        b.wf(),
        c.wf(),
        a.spec_le(b),
        b.spec_lt(c),
    ensures
        a.spec_lt(c),
{
    assert(a.num * c.den < c.num * a.den) by (nonlinear_arith)
        requires
            a.num * b.den <= b.num * a.den,
            b.num * c.den < c.num * b.den,
            a.den > 0,
            b.den > 0,
            c.den > 0,
    ;
}

/// Transitivity of `<=` over numerator/denominator pairs with positive
/// denominators; no representation bounds are needed at the ghost level.
pub proof fn lemma_frac_le_trans(an: int, ad: int, bn: int, bd: int, cn: int, cd: int)
    requires
        ad > 0,
        bd > 0,
        cd > 0,
        frac_le(an, ad, bn, bd),
        frac_le(bn, bd, cn, cd),
    ensures
        frac_le(an, ad, cn, cd),
{
    assert(an * cd <= cn * ad) by (nonlinear_arith)
        requires
            an * bd <= bn * ad,
            bn * cd <= cn * bd,
            ad > 0,
            bd > 0,
            cd > 0,
    ;
}

/// A strict link on the left keeps a chain of fractions strict.
pub proof fn lemma_frac_lt_le_trans(an: int, ad: int, bn: int, bd: int, cn: int, cd: int)
    requires
        ad > 0,
        bd > 0,
        cd > 0,
        frac_lt(an, ad, bn, bd),
        frac_le(bn, bd, cn, cd),
    ensures
        frac_lt(an, ad, cn, cd),
{
    assert(an * cd < cn * ad) by (nonlinear_arith)
        requires
            an * bd < bn * ad,
            bn * cd <= cn * bd,
            ad > 0,
            bd > 0,
            cd > 0,
    ;
}

/// A strict link on the right keeps a chain of fractions strict.
pub proof fn lemma_frac_le_lt_trans(an: int, ad: int, bn: int, bd: int, cn: int, cd: int)
    requires
        ad > 0,
        bd > 0,
        cd > 0,
        frac_le(an, ad, bn, bd),
        frac_lt(bn, bd, cn, cd),
    ensures
        frac_lt(an, ad, cn, cd),
{
    assert(an * cd < cn * ad) by (nonlinear_arith)
        requires
            an * bd <= bn * ad,
            bn * cd < cn * bd,
            ad > 0,
            bd > 0,
            cd > 0,
    ;
}

/// The midpoint of two rationals lies weakly between them, and strictly
/// between strictly ordered ones. It witnesses that a nonempty interval of
/// rationals has an inhabitant.
pub proof fn lemma_rat_midpoint(an: int, ad: int, bn: int, bd: int) -> (m: (int, int))
    requires
        ad > 0,
        bd > 0,
        frac_le(an, ad, bn, bd),
    ensures
        m.1 > 0,
        frac_le(an, ad, m.0, m.1),
        frac_le(m.0, m.1, bn, bd),
        frac_lt(an, ad, bn, bd) ==> frac_lt(an, ad, m.0, m.1) && frac_lt(m.0, m.1, bn, bd),
{
    let mn = an * bd + bn * ad;
    let md = 2 * ad * bd;
    assert(md > 0 && (an * bd <= bn * ad ==> an * md <= mn * ad && mn * bd <= bn * md) && (an * bd
        < bn * ad ==> an * md < mn * ad && mn * bd < bn * md)) by (nonlinear_arith)
        requires
            mn == an * bd + bn * ad,
            md == 2 * ad * bd,
            ad > 0,
            bd > 0,
    ;
    (mn, md)
}

} // verus!
