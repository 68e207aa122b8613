//! Evaluating a roll specification against a source of die faces: the
//! outcome of one roll, its total, and the totals of a whole batch.

use vstd::prelude::*;

use vstd::seq_lib::to_multiset_build;
use vstd::seq_lib::to_multiset_insert;
use vstd::seq_lib::group_to_multiset_ensures;
use crate::roll::DieRoll;
use crate::roll::Keep;
use crate::roll::Roll;

verus! {

/// A source of die faces. An implementation backed by a random generator
/// draws each face uniformly; a fixed source replays chosen faces, so that
/// evaluation can be tested. Either way every face it hands out is a valid
/// face of the die asked for.
pub trait DieSource {
    /// One face of a `die`-sided die.
    fn draw(&mut self, die: u32) -> (v: u32)
        requires
            die >= 1,
        ensures
            1 <= v <= die,
    ;
}

/// What a fixed source answers for a stored face: the face itself where it
/// fits the die, one otherwise.
pub open spec fn clamp_face(raw: u32, die: u32) -> u32 {
    if 1 <= raw && raw <= die {
        raw
    } else {
        1u32
    }
}

/// A die source that replays a fixed list of faces in order. A face that is
/// missing (the list ran out) or does not fit the die asked for is replaced
/// by one.
pub struct FixedSource {
    values: Vec<u32>,
    next: usize,
}

impl FixedSource {
    pub closed spec fn spec_values(self) -> Seq<u32> {
        self.values@
    }

    pub closed spec fn spec_next(self) -> int {
        self.next as int
    }

    pub fn new(values: Vec<u32>) -> (s: FixedSource)
        ensures
            s.spec_values() == values@,
            s.spec_next() == 0,
    {
        FixedSource { values, next: 0 }
    }
}

impl DieSource for FixedSource {
    fn draw(&mut self, die: u32) -> (v: u32)
        ensures
            final(self).spec_values() == old(self).spec_values(),
            old(self).spec_next() < old(self).spec_values().len() ==> final(self).spec_next()
                == old(self).spec_next() + 1 && v == clamp_face(
                old(self).spec_values()[old(self).spec_next()],
                die,
            ),
            old(self).spec_next() >= old(self).spec_values().len() ==> final(self).spec_next()
                == old(self).spec_next() && v == 1,
    {
        let raw: u32 = if self.next < self.values.len() {
            let x = self.values[self.next];
            self.next = self.next + 1;
            x
        } else {
            1
        };
        if 1 <= raw && raw <= die {
            raw
        } else {
            1
        }
    }
}

/// The dice stand in ascending order of their effective values.
pub open spec fn sorted_by_value(s: Seq<DieRoll>) -> bool {
    forall|i: int, j: int|
        0 <= i < j < s.len() ==> #[trigger] s[i].spec_value() <= #[trigger] s[j].spec_value()
}

/// The sum of the effective values of a pool of dice.
pub open spec fn sum_values(s: Seq<DieRoll>) -> int
    decreases s.len(),
{
    if s.len() == 0 {
        0
    } else {
        sum_values(s.drop_last()) + s.last().spec_value()
    }
}

/// The dice of an ascending-sorted pool that count towards the total: the
/// last `n` for keep-high, the first `n` for keep-low, all of them when no
/// selector is given. A count beyond the pool size keeps the whole pool.
pub open spec fn kept_seq(rolls: Seq<DieRoll>, keep: Option<Keep>) -> Seq<DieRoll> {
    match keep {
        Some(Keep::High(n)) => {
            let c = if (n as int) <= rolls.len() {
                n as int
            } else {
                rolls.len() as int
            };
            rolls.subrange(rolls.len() - c, rolls.len() as int)
        },
        Some(Keep::Low(n)) => {
            let c = if (n as int) <= rolls.len() {
                n as int
            } else {
                rolls.len() as int
            };
            rolls.subrange(0, c)
        },
        None => rolls,
    }
}

/// `d` is a result the evaluator can produce for the specification `r`: its
/// values are faces of the die, a die at or under the reroll threshold was
/// rerolled, one above it was not, and without a threshold nothing is.
pub open spec fn die_ok(r: Roll, d: DieRoll) -> bool {
    match d {
        DieRoll::Kept(v) => 1 <= v <= r.die && (match r.reroll {
            Some(t) => v > t,
            None => true,
        }),
        DieRoll::Rerolled(o, f) => 1 <= o <= r.die && 1 <= f <= r.die && (match r.reroll {
            Some(t) => o <= t,
            None => false,
        }),
    }
}

/// `o` is an outcome that evaluating `r` can produce.
pub open spec fn outcome_of(r: Roll, o: Outcome) -> bool {
    &&& o.spec_rolls().len() == r.num
    &&& sorted_by_value(o.spec_rolls())
    &&& (forall|i: int| 0 <= i < o.spec_rolls().len() ==> die_ok(r, #[trigger] o.spec_rolls()[i]))
    &&& o.spec_keep() == r.keep
    &&& o.spec_modifier() == r.spec_modifier_or_zero()
}

/// The concrete result of evaluating one roll specification: the dice in
/// ascending order of effective value, with the keep selector and modifier
/// carried over from the specification.
#[derive(Clone, Debug)]
pub struct Outcome {
    rolls: Vec<DieRoll>,
    keep: Option<Keep>,
    modifier: i32,
}

impl Outcome {
    pub closed spec fn spec_rolls(self) -> Seq<DieRoll> {
        self.rolls@
    }

    pub closed spec fn spec_keep(self) -> Option<Keep> {
        self.keep
    }

    pub closed spec fn spec_modifier(self) -> int {
        self.modifier as int
    }

    /// The total as a mathematical number: the kept dice's values plus the
    /// modifier.
    pub open spec fn spec_total(self) -> int {
        sum_values(kept_seq(self.spec_rolls(), self.spec_keep())) + self.spec_modifier()
    }

    /// Gathers die results into an outcome, sorting them ascending by
    /// effective value.
    pub fn new(rolls: Vec<DieRoll>, keep: Option<Keep>, modifier: i32) -> (o: Outcome)
        ensures
            o.spec_rolls().len() == rolls@.len(),
            sorted_by_value(o.spec_rolls()),
            o.spec_rolls().to_multiset() == rolls@.to_multiset(),
            forall|i: int|
                0 <= i < o.spec_rolls().len() ==> rolls@.contains(#[trigger] o.spec_rolls()[i]),
            o.spec_keep() == keep,
            o.spec_modifier() == modifier,
    {
        let sorted = sort_by_value(&rolls);
        proof {
            broadcast use group_to_multiset_ensures;

            assert forall|i: int| 0 <= i < sorted@.len() implies rolls@.contains(
                #[trigger] sorted@[i],
            ) by {
                assert(sorted@.contains(sorted@[i]));
                assert(sorted@.to_multiset().count(sorted@[i]) > 0);
            }
        }
        Outcome { rolls: sorted, keep, modifier }
    }

    /// The sum of the kept dice's values. Fits easily in the accumulator:
    /// each value is a face and the pool is a vector.
    fn kept_sum(&self) -> (s: u128)
        ensures
            s == sum_values(kept_seq(self.spec_rolls(), self.spec_keep())),
            s <= 0x1_0000_0000_0000_0000_0000_0000u128,
    {
        let len: usize = self.rolls.len();
        let start: usize;
        let end: usize;
        match self.keep {
            Some(Keep::High(n)) => {
                let c: usize = if n <= len {
                    n
                } else {
                    len
                };
                start = len - c;
                end = len;
            },
            Some(Keep::Low(n)) => {
                let c: usize = if n <= len {
                    n
                } else {
                    len
                };
                start = 0;
                end = c;
            },
            None => {
                start = 0;
                end = len;
            },
        }
        proof {
            assert(kept_seq(self.spec_rolls(), self.spec_keep()) =~= self.spec_rolls().subrange(
                start as int,
                end as int,
            ));
        }
        let mut acc: u128 = 0;
        let mut j: usize = start;
        proof {
            assert(self.spec_rolls().subrange(start as int, start as int) =~= Seq::<
                DieRoll,
            >::empty());
        }
        while j < end
            invariant
                start <= j <= end <= self.rolls@.len(),
                acc == sum_values(self.spec_rolls().subrange(start as int, j as int)),
                acc <= (j - start) * 0xffff_ffff,
            decreases end - j,
        {
            let v: u32 = self.rolls[j].value();
            proof {
                let whole = self.spec_rolls();
                assert(whole.subrange(start as int, j + 1).drop_last() =~= whole.subrange(
                    start as int,
                    j as int,
                ));
                assert(whole.subrange(start as int, j + 1).last() == whole[j as int]);
                assert((j - start) * 0xffff_ffff + 0xffff_ffff == (j + 1 - start) * 0xffff_ffff)
                    by (nonlinear_arith);
                assert((j + 1 - start) * 0xffff_ffff <= 0xffff_ffff_ffff_ffff * 0xffff_ffff)
                    by (nonlinear_arith)
                    requires
                        0 <= j + 1 - start <= 0xffff_ffff_ffff_ffff,
                ;
            }
            acc = acc + v as u128;
            j = j + 1;
        }
        proof {
            assert((end - start) * 0xffff_ffff <= 0xffff_ffff_ffff_ffff * 0xffff_ffff)
                by (nonlinear_arith)
                requires
                    0 <= end - start <= 0xffff_ffff_ffff_ffff,
            ;
        }
        acc
    }

    /// The total of the outcome: the kept dice's values plus the modifier.
    /// The caller answers for the total fitting its type; `total_checked`
    /// tests that instead.
    pub fn total(&self) -> (t: i32)
        requires
            i32::MIN <= self.spec_total() <= i32::MAX,
        ensures
            t == self.spec_total(),
    {
        let s: u128 = self.kept_sum();
        let t128: i128 = s as i128 + self.modifier as i128;
        t128 as i32
    }

    /// The total of the outcome, or nothing where it does not fit an `i32`.
    pub fn total_checked(&self) -> (t: Option<i32>)
        ensures
            match t {
                Some(v) => v == self.spec_total() && i32::MIN <= self.spec_total() <= i32::MAX,
                None => !(i32::MIN <= self.spec_total() <= i32::MAX),
            },
    {
        let s: u128 = self.kept_sum();
        let t128: i128 = s as i128 + self.modifier as i128;
        if t128 < i32::MIN as i128 || t128 > i32::MAX as i128 {
            None
        } else {
            Some(t128 as i32)
        }
    }

    pub fn rolls(&self) -> (r: &Vec<DieRoll>)
        ensures
            r@ == self.spec_rolls(),
    {
        &self.rolls
    }

    pub fn keep(&self) -> (k: Option<Keep>)
        ensures
            k == self.spec_keep(),
    {
        self.keep
    }

    pub fn modifier(&self) -> (m: i32)
        ensures
            m == self.spec_modifier(),
    {
        self.modifier
    }
}

/// Sorts a pool of dice ascending by effective value, keeping exactly the
/// same dice.
fn sort_by_value(input: &Vec<DieRoll>) -> (out: Vec<DieRoll>)
    ensures
        out@.len() == input@.len(),
        sorted_by_value(out@),
        out@.to_multiset() == input@.to_multiset(),
{
    let mut out: Vec<DieRoll> = Vec::new();
    let mut i: usize = 0;
    proof {
        assert(input@.subrange(0, 0) =~= out@);
    }
    while i < input.len()
        invariant
            i <= input@.len(),
            out@.len() == i,
            sorted_by_value(out@),
            out@.to_multiset() == input@.subrange(0, i as int).to_multiset(),
        decreases input@.len() - i,
    {
        let x = input[i];
        let mut j: usize = 0;
        while j < out.len() && out[j].value() <= x.value()
            invariant
                j <= out@.len(),
                forall|a: int| 0 <= a < j ==> #[trigger] out@[a].spec_value() <= x.spec_value(),
                sorted_by_value(out@),
            decreases out@.len() - j,
        {
            j = j + 1;
        }
        let ghost prev = out@;
        out.insert(j, x);
        proof {
            prev.insert_ensures(j as int, x);
            assert(sorted_by_value(out@)) by {
                assert forall|a: int, b: int|
                    0 <= a < b < out@.len() implies #[trigger] out@[a].spec_value()
                    <= #[trigger] out@[b].spec_value() by {
                    if a < j && b < j {
                        assert(out@[a] == prev[a]);
                        assert(out@[b] == prev[b]);
                    } else if a < j && b == j {
                        assert(out@[a] == prev[a]);
                    } else if a == j && b > j {
                        assert(out@[b] == prev[b - 1]);
                        assert(prev[j as int].spec_value() > x.spec_value());
                        assert(prev[b - 1].spec_value() >= prev[j as int].spec_value());
                    } else if a < j && b > j {
                        assert(out@[a] == prev[a]);
                        assert(out@[b] == prev[b - 1]);
                        if a < j - 1 {
                            assert(prev[a].spec_value() <= prev[j - 1].spec_value());
                        }
                        assert(prev[j - 1].spec_value() <= prev[b - 1].spec_value() || j == b - 1);
                    } else {
                        assert(a >= j && b > j);
                        assert(out@[a] == prev[a - 1]);
                        assert(out@[b] == prev[b - 1]);
                    }
                }
            }
            broadcast use to_multiset_insert;
            broadcast use to_multiset_build;

            assert(input@.subrange(0, i + 1) =~= input@.subrange(0, i as int).push(input@[i as int]));
            assert(out@.to_multiset() == input@.subrange(0, i + 1).to_multiset());
        }
        i = i + 1;
    }
    proof {
        assert(input@.subrange(0, input@.len() as int) =~= input@);
    }
    out
}

impl Roll {
    /// Evaluates the roll: draws each die's face from `source`, rerolls a
    /// face at or under the threshold exactly once, and gathers the results
    /// sorted ascending by effective value.
    pub fn roll<S: DieSource>(&self, source: &mut S) -> (o: Outcome)
        requires
            self.die >= 1,
        ensures
            outcome_of(*self, o),
    {
        let mut rolls: Vec<DieRoll> = Vec::new();
        let mut i: u32 = 0;
        while i < self.num
            invariant
                self.die >= 1,
                i <= self.num,
                rolls@.len() == i,
                forall|k: int| 0 <= k < rolls@.len() ==> die_ok(*self, #[trigger] rolls@[k]),
            decreases self.num - i,
        {
            let original = source.draw(self.die);
            let entry: DieRoll = match self.reroll {
                Some(t) => {
                    if original <= t {
                        DieRoll::Rerolled(original, source.draw(self.die))
                    } else {
                        DieRoll::Kept(original)
                    }
                },
                None => DieRoll::Kept(original),
            };
            rolls.push(entry);
            i = i + 1;
        }
        let modifier: i32 = match self.modifier {
            Some(m) => m,
            None => 0,
        };
        let o = Outcome::new(rolls, self.keep, modifier);
        proof {
            assert forall|k: int| 0 <= k < o.spec_rolls().len() implies die_ok(
                *self,
                #[trigger] o.spec_rolls()[k],
            ) by {
                let d = o.spec_rolls()[k];
                assert(exists|m: int| 0 <= m < rolls@.len() && rolls@[m] == d);
            }
        }
        o
    }
}

/// Evaluates a batch of roll specifications in order against one source.
pub fn roll_all<S: DieSource>(rolls: &Vec<Roll>, source: &mut S) -> (outs: Vec<Outcome>)
    requires
        forall|i: int| 0 <= i < rolls@.len() ==> (#[trigger] rolls@[i]).die >= 1,
    ensures
        outs@.len() == rolls@.len(),
        forall|i: int| 0 <= i < outs@.len() ==> outcome_of(rolls@[i], #[trigger] outs@[i]),
{
    let mut outs: Vec<Outcome> = Vec::new();
    let mut i: usize = 0;
    while i < rolls.len()
        invariant
            i <= rolls@.len(),
            outs@.len() == i,
            forall|k: int| 0 <= k < rolls@.len() ==> (#[trigger] rolls@[k]).die >= 1,
            forall|k: int| 0 <= k < i ==> outcome_of(rolls@[k], #[trigger] outs@[k]),
        decreases rolls@.len() - i,
    {
        let o = rolls[i].roll(source);
        outs.push(o);
        i = i + 1;
    }
    outs
}

/// The sum of the totals of a batch of outcomes.
pub open spec fn sum_totals(s: Seq<Outcome>) -> int
    decreases s.len(),
{
    if s.len() == 0 {
        0
    } else {
        sum_totals(s.drop_last()) + s.last().spec_total()
    }
}

/// Every outcome's total and every running sum of them fits an `i32`: the
/// condition under which a batch's combined total can be computed the way a
/// running 32-bit accumulator computes it.
pub open spec fn totals_fit(s: Seq<Outcome>) -> bool {
    &&& forall|i: int|
        0 <= i < s.len() ==> i32::MIN <= (#[trigger] s[i]).spec_total() <= i32::MAX
    &&& forall|i: int|
        0 <= i <= s.len() ==> i32::MIN <= sum_totals(#[trigger] s.subrange(0, i)) <= i32::MAX
}

/// Adds up the totals of a batch of outcomes, or reports that an outcome's
/// total or a running sum does not fit.
pub fn combined_total(outcomes: &Vec<Outcome>) -> (t: Option<i32>)
    ensures
        match t {
            Some(v) => totals_fit(outcomes@) && v == sum_totals(outcomes@),
            None => !totals_fit(outcomes@),
        },
{
    let mut acc: i32 = 0;
    let mut i: usize = 0;
    proof {
        assert(outcomes@.subrange(0, 0) =~= Seq::<Outcome>::empty());
    }
    while i < outcomes.len()
        invariant
            i <= outcomes@.len(),
            acc == sum_totals(outcomes@.subrange(0, i as int)),
            forall|k: int|
                0 <= k < i ==> i32::MIN <= (#[trigger] outcomes@[k]).spec_total() <= i32::MAX,
            forall|k: int|
                0 <= k <= i ==> i32::MIN <= sum_totals(#[trigger] outcomes@.subrange(0, k))
                    <= i32::MAX,
        decreases outcomes@.len() - i,
    {
        let each = outcomes[i].total_checked();
        proof {
            assert(outcomes@.subrange(0, i + 1).drop_last() =~= outcomes@.subrange(0, i as int));
            assert(outcomes@.subrange(0, i + 1).last() == outcomes@[i as int]);
        }
        match each {
            Some(v) => {
                let wide: i64 = acc as i64 + v as i64;
                if wide < i32::MIN as i64 || wide > i32::MAX as i64 {
                    proof {
                        assert(sum_totals(outcomes@.subrange(0, i + 1)) == wide);
                        assert(!totals_fit(outcomes@));
                    }
                    return None;
                }
                acc = wide as i32;
            },
            None => {
                proof {
                    assert(!totals_fit(outcomes@));
                }
                return None;
            },
        }
        i = i + 1;
    }
    proof {
        assert(outcomes@.subrange(0, outcomes@.len() as int) =~= outcomes@);
    }
    Some(acc)
}

} // verus!
