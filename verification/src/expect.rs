//! The theoretical mean of a roll, kept exact as a fraction.
//!
//! A face at or under the reroll cutoff is replaced by a fresh uniform draw,
//! so it contributes the average face value; any other face contributes
//! itself. The per-die mean is the average of those contributions, and the
//! roll's mean is the per-die mean times the number of dice that count (the
//! keep count where one is given, the pool size otherwise), plus the
//! modifier. A kept subset is deliberately priced as that many independent
//! dice: the order-statistics correlation is left out on purpose.

use vstd::prelude::*;

use crate::roll::Keep;
use crate::roll::Roll;

verus! {

/// Twice the sum of the contributions of faces `1..=v` of a `die`-sided die
/// with reroll cutoff `cut`: a face at or under the cutoff contributes twice
/// the average, `die + 1`; any other face contributes twice itself.
pub open spec fn twice_face_sum(die: int, cut: int, v: int) -> int
    decreases v
        when v >= 0
{
    if v <= 0 {
        0
    } else {
        twice_face_sum(die, cut, v - 1) + (if v <= cut {
            die + 1
        } else {
            2 * v
        })
    }
}

/// The reroll cutoff the mean is computed with: past the largest face when
/// no threshold is given, so that every face contributes the average either
/// way.
pub open spec fn spec_cutoff(r: Roll) -> int {
    match r.reroll {
        Some(t) => t as int,
        None => r.die + 1,
    }
}

/// How many dice count towards the mean: the keep count where a selector is
/// given, the pool size otherwise.
pub open spec fn spec_eff_count(r: Roll) -> int {
    match r.keep {
        Some(Keep::High(n)) => n as int,
        Some(Keep::Low(n)) => n as int,
        None => r.num as int,
    }
}

/// The numerator of the exact mean over the denominator `2 * die`.
pub open spec fn spec_expected_numer(r: Roll) -> int {
    twice_face_sum(r.die as int, spec_cutoff(r), r.die as int) * spec_eff_count(r) + 2 * r.die
        * r.spec_modifier_or_zero()
}

/// The denominator of the exact mean.
pub open spec fn spec_expected_denom(r: Roll) -> int {
    2 * r.die
}

proof fn lemma_twice_face_sum_bounds(die: int, cut: int, v: int)
    requires
        die >= 1,
        0 <= v <= die,
    ensures
        0 <= twice_face_sum(die, cut, v) <= v * (2 * die + 2),
    decreases v,
{
    if v > 0 {
        lemma_twice_face_sum_bounds(die, cut, v - 1);
        assert((v - 1) * (2 * die + 2) + (2 * die + 2) == v * (2 * die + 2)) by (nonlinear_arith);
    }
}

impl Roll {
    /// The exact mean total as a fraction: the numerator and the denominator
    /// `2 * die`. Nothing where the roll has no faces to average over, or
    /// where a keep count so large that the numerator leaves `i128` was
    /// asked for.
    pub fn expected_total(&self) -> (r: Option<(i128, u128)>)
        ensures
            match r {
                Some(p) => self.die >= 1 && spec_expected_numer(*self) <= i128::MAX && p.0
                    == spec_expected_numer(*self) && p.1 == spec_expected_denom(*self),
                None => self.die == 0 || spec_expected_numer(*self) > i128::MAX,
            },
    {
        if self.die == 0 {
            return None;
        }
        let cutoff: u64 = match self.reroll {
            Some(t) => t as u64,
            None => self.die as u64 + 1,
        };
        let mut sum: u128 = 0;
        let mut v: u64 = 1;
        proof {
            lemma_twice_face_sum_bounds(self.die as int, spec_cutoff(*self), self.die as int);
        }
        while v <= self.die as u64
            invariant
                self.die >= 1,
                1 <= v <= self.die as u64 + 1,
                cutoff as int == spec_cutoff(*self),
                sum == twice_face_sum(self.die as int, spec_cutoff(*self), v - 1),
                sum <= (v - 1) * (2 * self.die + 2),
            decreases self.die as u64 + 1 - v,
        {
            let term: u128 = if v <= cutoff {
                self.die as u128 + 1
            } else {
                2 * (v as u128)
            };
            proof {
                assert((v - 1) * (2 * self.die + 2) + (2 * self.die + 2) == (v as int) * (2
                    * self.die + 2)) by (nonlinear_arith);
                assert((v as int) * (2 * self.die + 2) <= 0x1_0000_0000 * (2 * self.die + 2))
                    by (nonlinear_arith)
                    requires
                        0 <= v as int <= 0x1_0000_0000,
                        self.die >= 1,
                ;
            }
            sum = sum + term;
            v = v + 1;
        }
        let count: u64 = match self.keep {
            Some(Keep::High(n)) => n as u64,
            Some(Keep::Low(n)) => n as u64,
            None => self.num as u64,
        };
        proof {
            assert(sum * count as u128 == twice_face_sum(
                self.die as int,
                spec_cutoff(*self),
                self.die as int,
            ) * spec_eff_count(*self)) by (nonlinear_arith)
                requires
                    sum == twice_face_sum(self.die as int, spec_cutoff(*self), self.die as int),
                    count as int == spec_eff_count(*self),
            ;
        }
        let prod: Option<u128> = sum.checked_mul(count as u128);
        proof {
            assert(-0x1_0000_0000_0000_0000 <= 2 * (self.die as int) * (
            self.spec_modifier_or_zero()) <= 0x1_0000_0000_0000_0000) by (nonlinear_arith)
                requires
                    0 <= self.die <= 0xffff_ffff,
                    -0x8000_0000 <= self.spec_modifier_or_zero() <= 0x7fff_ffff,
            ;
        }
        let m2d: i128 = 2 * (self.die as i128) * (match self.modifier {
            Some(m) => m as i128,
            None => 0i128,
        });
        match prod {
            None => {
                proof {
                    assert(spec_expected_numer(*self) > i128::MAX);
                }
                None
            },
            Some(p) => {
                let limit: u128 = 0x7fff_ffff_ffff_ffff_ffff_ffff_ffff_ffffu128;
                if m2d >= 0 {
                    let add: u128 = m2d as u128;
                    if p > limit - add {
                        None
                    } else {
                        Some(((p + add) as i128, 2 * self.die as u128))
                    }
                } else {
                    let sub: u128 = (-m2d) as u128;
                    if p >= sub {
                        if p - sub > limit {
                            None
                        } else {
                            Some(((p - sub) as i128, 2 * self.die as u128))
                        }
                    } else {
                        Some((-((sub - p) as i128), 2 * self.die as u128))
                    }
                }
            },
        }
    }
}

} // verus!
