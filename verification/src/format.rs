//! Rendering a roll specification back to its canonical notation.

use vstd::prelude::*;

use crate::digits::dec_digits;
use crate::digits::push_decimal;
use crate::eval::Outcome;
use crate::roll::DieRoll;
use crate::roll::Keep;
use crate::roll::Roll;

verus! {

/// The dice count, written only when it is more than one.
pub open spec fn seg_num(num: u32) -> Seq<u8> {
    if num > 1 {
        dec_digits(num as int)
    } else {
        Seq::<u8>::empty()
    }
}

/// The reroll threshold, written as `r` and its digits.
pub open spec fn seg_reroll(o: Option<u32>) -> Seq<u8> {
    match o {
        Some(t) => seq![114u8] + dec_digits(t as int),
        None => Seq::<u8>::empty(),
    }
}

/// The keep selector, written as `h` or `l` and its digits.
pub open spec fn seg_keep(o: Option<Keep>) -> Seq<u8> {
    match o {
        Some(Keep::High(n)) => seq![104u8] + dec_digits(n as int),
        Some(Keep::Low(n)) => seq![108u8] + dec_digits(n as int),
        None => Seq::<u8>::empty(),
    }
}

/// The modifier, written with its sign; a zero modifier is not written.
pub open spec fn seg_modifier(o: Option<i32>) -> Seq<u8> {
    match o {
        Some(m) => if m > 0 {
            seq![43u8] + dec_digits(m as int)
        } else if m < 0 {
            seq![45u8] + dec_digits(-(m as int))
        } else {
            Seq::<u8>::empty()
        },
        None => Seq::<u8>::empty(),
    }
}

/// The canonical notation of a roll: the dice count where it is more than
/// one, the mandatory die size, then the reroll threshold, keep selector and
/// modifier where present.
pub open spec fn spec_notation(r: Roll) -> Seq<u8> {
    seg_num(r.num) + seq![100u8] + dec_digits(r.die as int) + seg_reroll(r.reroll) + seg_keep(
        r.keep,
    ) + seg_modifier(r.modifier)
}

impl Roll {
    /// Renders the roll as dice notation.
    #[verifier::rlimit(50)]
    pub fn notation(&self) -> (out: Vec<u8>)
        ensures
            out@ == spec_notation(*self),
    {
        let mut out: Vec<u8> = Vec::new();
        if self.num > 1 {
            push_decimal(&mut out, self.num as u64);
        }
        proof {
            assert(out@ =~= seg_num(self.num));
        }
        out.push(100);
        push_decimal(&mut out, self.die as u64);
        let ghost head: Seq<u8> = seg_num(self.num) + seq![100u8] + dec_digits(self.die as int);
        proof {
            assert(out@ =~= head);
        }
        if let Some(t) = self.reroll {
            out.push(114);
            push_decimal(&mut out, t as u64);
        }
        proof {
            assert(out@ =~= head + seg_reroll(self.reroll));
        }
        match self.keep {
            Some(Keep::High(n)) => {
                out.push(104);
                push_decimal(&mut out, n as u64);
            },
            Some(Keep::Low(n)) => {
                out.push(108);
                push_decimal(&mut out, n as u64);
            },
            None => {},
        }
        proof {
            assert(out@ =~= head + seg_reroll(self.reroll) + seg_keep(self.keep));
        }
        if let Some(m) = self.modifier {
            if m > 0 {
                out.push(43);
                push_decimal(&mut out, m as u64);
            } else if m < 0 {
                out.push(45);
                let a: u64 = (-(m as i64)) as u64;
                push_decimal(&mut out, a);
            }
        }
        proof {
            assert(out@ =~= head + seg_reroll(self.reroll) + seg_keep(self.keep) + seg_modifier(
                self.modifier,
            ));
        }
        out
    }
}

/// One die as text: its value, or `original=>final` for a rerolled die.
pub open spec fn spec_render_die(d: DieRoll) -> Seq<u8> {
    match d {
        DieRoll::Kept(v) => dec_digits(v as int),
        DieRoll::Rerolled(o, f) => dec_digits(o as int) + seq![61u8, 62u8] + dec_digits(f as int),
    }
}

/// A pool of dice as text, separated by comma and space.
pub open spec fn spec_render_list(s: Seq<DieRoll>) -> Seq<u8>
    decreases s.len(),
{
    if s.len() == 0 {
        Seq::<u8>::empty()
    } else if s.len() == 1 {
        spec_render_die(s[0])
    } else {
        spec_render_list(s.drop_last()) + seq![44u8, 32u8] + spec_render_die(s.last())
    }
}

/// A possibly negative number as text.
pub open spec fn spec_render_int(t: int) -> Seq<u8> {
    if t >= 0 {
        dec_digits(t)
    } else {
        seq![45u8] + dec_digits(-t)
    }
}

/// An outcome as text: the total, the dice in parentheses, and the modifier
/// spelled out where it is not zero.
pub open spec fn spec_render_outcome(o: Outcome) -> Seq<u8> {
    spec_render_int(o.spec_total()) + seq![32u8, 40u8] + spec_render_list(o.spec_rolls()) + seq![
        41u8,
    ] + (if o.spec_modifier() > 0 {
        seq![32u8, 43u8, 32u8] + dec_digits(o.spec_modifier())
    } else if o.spec_modifier() < 0 {
        seq![32u8, 45u8, 32u8] + dec_digits(-o.spec_modifier())
    } else {
        Seq::<u8>::empty()
    })
}

impl DieRoll {
    /// Renders the die as text.
    pub fn render(&self) -> (out: Vec<u8>)
        ensures
            out@ == spec_render_die(*self),
    {
        let mut out: Vec<u8> = Vec::new();
        match self {
            DieRoll::Kept(v) => {
                push_decimal(&mut out, *v as u64);
            },
            DieRoll::Rerolled(o, f) => {
                push_decimal(&mut out, *o as u64);
                out.push(61);
                out.push(62);
                push_decimal(&mut out, *f as u64);
                proof {
                    assert(out@ =~= spec_render_die(*self));
                }
            },
        }
        out
    }
}

impl Outcome {
    /// Renders the outcome as text, or nothing where its total does not fit
    /// an `i32`.
    pub fn render(&self) -> (out: Option<Vec<u8>>)
        ensures
            match out {
                Some(b) => i32::MIN <= self.spec_total() <= i32::MAX && b@ == spec_render_outcome(
                    *self,
                ),
                None => !(i32::MIN <= self.spec_total() <= i32::MAX),
            },
    {
        let t: i32 = match self.total_checked() {
            Some(t) => t,
            None => {
                return None;
            },
        };
        let mut out: Vec<u8> = Vec::new();
        if t < 0 {
            out.push(45);
            push_decimal(&mut out, (-(t as i64)) as u64);
        } else {
            push_decimal(&mut out, t as u64);
        }
        proof {
            assert(out@ =~= spec_render_int(self.spec_total()));
        }
        out.push(32);
        out.push(40);
        let ghost pre = spec_render_int(self.spec_total()) + seq![32u8, 40u8];
        proof {
            assert(out@ =~= pre);
        }
        let rs = self.rolls();
        let mut k: usize = 0;
        proof {
            assert(self.spec_rolls().subrange(0, 0) =~= Seq::<DieRoll>::empty());
        }
        while k < rs.len()
            invariant
                k <= rs@.len(),
                rs@ == self.spec_rolls(),
                pre == spec_render_int(self.spec_total()) + seq![32u8, 40u8],
                out@ == pre + spec_render_list(self.spec_rolls().subrange(0, k as int)),
            decreases rs@.len() - k,
        {
            proof {
                let whole = self.spec_rolls();
                assert(whole.subrange(0, k + 1).drop_last() =~= whole.subrange(0, k as int));
                assert(whole.subrange(0, k + 1).last() == whole[k as int]);
            }
            if k > 0 {
                out.push(44);
                out.push(32);
            }
            let d: DieRoll = rs[k];
            let mut db = d.render();
            out.append(&mut db);
            proof {
                assert(out@ =~= pre + spec_render_list(self.spec_rolls().subrange(0, k + 1)));
            }
            k = k + 1;
        }
        proof {
            assert(self.spec_rolls().subrange(0, self.spec_rolls().len() as int)
                =~= self.spec_rolls());
        }
        out.push(41);
        let m: i32 = self.modifier();
        if m > 0 {
            out.push(32);
            out.push(43);
            out.push(32);
            push_decimal(&mut out, m as u64);
        } else if m < 0 {
            out.push(32);
            out.push(45);
            out.push(32);
            push_decimal(&mut out, (-(m as i64)) as u64);
        }
        proof {
            assert(out@ =~= spec_render_outcome(*self));
        }
        Some(out)
    }
}

} // verus!
