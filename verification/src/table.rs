//! The macro table: named shortcuts that expand to one or more canonical
//! roll specifications, and the resolution of a token list through it.

use vstd::prelude::*;

use crate::parse::spec_parse;
use crate::parse::ParseError;
use crate::roll::Keep;
use crate::roll::Roll;

verus! {

/// One macro: a name and the rolls it expands to, in order.
pub struct MacroDef {
    pub name: Vec<u8>,
    pub rolls: Vec<Roll>,
}

/// A mapping from macro names to roll sequences. A later definition of the
/// same name shadows an earlier one.
pub struct MacroTable {
    entries: Vec<MacroDef>,
}

/// The rolls that `name` expands to: those of the latest entry under that
/// name.
pub open spec fn spec_lookup(entries: Seq<MacroDef>, name: Seq<u8>) -> Option<Seq<Roll>>
    decreases entries.len(),
{
    if entries.len() == 0 {
        None
    } else if entries.last().name@ == name {
        Some(entries.last().rolls@)
    } else {
        spec_lookup(entries.drop_last(), name)
    }
}

/// What resolving a token list yields: for each token in order, the rolls of
/// its macro where the name is known, else the one roll its notation parses
/// to; the first token that is neither aborts the whole resolution with its
/// parse error.
pub open spec fn spec_resolve(entries: Seq<MacroDef>, tokens: Seq<Seq<u8>>) -> Result<
    Seq<Roll>,
    ParseError,
>
    decreases tokens.len(),
{
    if tokens.len() == 0 {
        Ok(Seq::<Roll>::empty())
    } else {
        let head = match spec_lookup(entries, tokens[0]) {
            Some(rs) => Ok(rs),
            None => match spec_parse(tokens[0]) {
                Ok(r) => Ok(seq![r]),
                Err(e) => Err(e),
            },
        };
        match head {
            Err(e) => Err(e),
            Ok(hs) => match spec_resolve(entries, tokens.drop_first()) {
                Err(e) => Err(e),
                Ok(rest) => Ok(hs + rest),
            },
        }
    }
}

/// The name `adv` as bytes.
pub open spec fn adv_name() -> Seq<u8> {
    seq![97u8, 100u8, 118u8]
}

/// The name `dis` as bytes.
pub open spec fn dis_name() -> Seq<u8> {
    seq![100u8, 105u8, 115u8]
}

/// The name `stats` as bytes.
pub open spec fn stats_name() -> Seq<u8> {
    seq![115u8, 116u8, 97u8, 116u8, 115u8]
}

/// The advantage roll: two twenty-sided dice, keeping the highest.
pub open spec fn adv_roll() -> Roll {
    Roll { num: 2, die: 20, reroll: None, keep: Some(Keep::High(1)), modifier: None }
}

/// The disadvantage roll: two twenty-sided dice, keeping the lowest.
pub open spec fn dis_roll() -> Roll {
    Roll { num: 2, die: 20, reroll: None, keep: Some(Keep::Low(1)), modifier: None }
}

/// One ability score: four six-sided dice, keeping the highest three.
pub open spec fn stat_roll() -> Roll {
    Roll { num: 4, die: 6, reroll: None, keep: Some(Keep::High(3)), modifier: None }
}

/// Compares two byte strings.
fn bytes_eq(a: &[u8], b: &[u8]) -> (r: bool)
    ensures
        r == (a@ == b@),
{
    if a.len() != b.len() {
        return false;
    }
    let mut i: usize = 0;
    while i < a.len()
        invariant
            i <= a@.len(),
            a@.len() == b@.len(),
            forall|k: int| 0 <= k < i ==> a@[k] == b@[k],
        decreases a@.len() - i,
    {
        if a[i] != b[i] {
            return false;
        }
        i = i + 1;
    }
    proof {
        assert(a@ =~= b@);
    }
    true
}

/// Copies a roll list.
fn clone_rolls(v: &Vec<Roll>) -> (out: Vec<Roll>)
    ensures
        out@ == v@,
{
    let mut out: Vec<Roll> = Vec::new();
    let mut i: usize = 0;
    while i < v.len()
        invariant
            i <= v@.len(),
            out@ == v@.subrange(0, i as int),
        decreases v@.len() - i,
    {
        out.push(v[i]);
        proof {
            assert(out@ =~= v@.subrange(0, i + 1));
        }
        i = i + 1;
    }
    proof {
        assert(v@.subrange(0, v@.len() as int) =~= v@);
    }
    out
}

impl MacroTable {
    pub closed spec fn spec_entries(self) -> Seq<MacroDef> {
        self.entries@
    }

    /// An empty table.
    pub fn new() -> (t: MacroTable)
        ensures
            t.spec_entries().len() == 0,
    {
        MacroTable { entries: Vec::new() }
    }

    /// The built-in table: `adv`, `dis`, and `stats` with its six ability
    /// scores.
    pub fn builtin() -> (t: MacroTable)
        ensures
            t.spec_entries().len() == 3,
            t.spec_entries()[0].name@ == adv_name(),
            t.spec_entries()[0].rolls@ == seq![adv_roll()],
            t.spec_entries()[1].name@ == dis_name(),
            t.spec_entries()[1].rolls@ == seq![dis_roll()],
            t.spec_entries()[2].name@ == stats_name(),
            t.spec_entries()[2].rolls@ == seq![
                stat_roll(),
                stat_roll(),
                stat_roll(),
                stat_roll(),
                stat_roll(),
                stat_roll(),
            ],
    {
        let mut adv: Vec<u8> = Vec::new();
        adv.push(97);
        adv.push(100);
        adv.push(118);
        let mut adv_rolls: Vec<Roll> = Vec::new();
        adv_rolls.push(Roll::new(2, 20, None, Some(Keep::High(1)), None));
        proof {
            assert(adv@ =~= adv_name());
            assert(adv_rolls@ =~= seq![adv_roll()]);
        }

        let mut dis: Vec<u8> = Vec::new();
        dis.push(100);
        dis.push(105);
        dis.push(115);
        let mut dis_rolls: Vec<Roll> = Vec::new();
        dis_rolls.push(Roll::new(2, 20, None, Some(Keep::Low(1)), None));
        proof {
            assert(dis@ =~= dis_name());
            assert(dis_rolls@ =~= seq![dis_roll()]);
        }

        let mut stats: Vec<u8> = Vec::new();
        stats.push(115);
        stats.push(116);
        stats.push(97);
        stats.push(116);
        stats.push(115);
        let mut stat_rolls: Vec<Roll> = Vec::new();
        let mut k: usize = 0;
        while k < 6
            invariant
                k <= 6,
                stat_rolls@.len() == k,
                forall|i: int| 0 <= i < k ==> stat_rolls@[i] == stat_roll(),
            decreases 6 - k,
        {
            stat_rolls.push(Roll::new(4, 6, None, Some(Keep::High(3)), None));
            k = k + 1;
        }
        proof {
            assert(stats@ =~= stats_name());
            assert(stat_rolls@ =~= seq![
                stat_roll(),
                stat_roll(),
                stat_roll(),
                stat_roll(),
                stat_roll(),
                stat_roll(),
            ]);
        }

        let mut entries: Vec<MacroDef> = Vec::new();
        entries.push(MacroDef { name: adv, rolls: adv_rolls });
        entries.push(MacroDef { name: dis, rolls: dis_rolls });
        entries.push(MacroDef { name: stats, rolls: stat_rolls });
        MacroTable { entries }
    }

    /// Looks a macro name up, handing back a copy of its rolls.
    pub fn lookup(&self, name: &[u8]) -> (r: Option<Vec<Roll>>)
        ensures
            match r {
                Some(rs) => spec_lookup(self.spec_entries(), name@) == Some(rs@),
                None => spec_lookup(self.spec_entries(), name@) == None::<Seq<Roll>>,
            },
    {
        let mut i: usize = self.entries.len();
        proof {
            assert(self.entries@.subrange(0, self.entries@.len() as int) =~= self.entries@);
        }
        while i > 0
            invariant
                i <= self.entries@.len(),
                spec_lookup(self.entries@, name@) == spec_lookup(
                    self.entries@.subrange(0, i as int),
                    name@,
                ),
            decreases i,
        {
            proof {
                let pre = self.entries@.subrange(0, i as int);
                assert(pre.last() == self.entries@[i - 1]);
                assert(pre.drop_last() =~= self.entries@.subrange(0, i - 1));
            }
            let e = &self.entries[i - 1];
            if bytes_eq(e.name.as_slice(), name) {
                return Some(clone_rolls(&e.rolls));
            }
            i = i - 1;
        }
        proof {
            assert(self.entries@.subrange(0, 0) =~= Seq::<MacroDef>::empty());
        }
        None
    }

    /// Resolves a token list: each token in order expands to its macro's
    /// rolls or parses as notation; the first failure aborts the whole
    /// batch.
    pub fn resolve(&self, tokens: &Vec<Vec<u8>>) -> (r: Result<Vec<Roll>, ParseError>)
        ensures
            match r {
                Ok(rs) => spec_resolve(self.spec_entries(), tokens@.map_values(|t: Vec<u8>| t@))
                    == Ok::<Seq<Roll>, ParseError>(rs@),
                Err(e) => spec_resolve(self.spec_entries(), tokens@.map_values(|t: Vec<u8>| t@))
                    == Err::<Seq<Roll>, ParseError>(e),
            },
    {
        let ghost toks = tokens@.map_values(|t: Vec<u8>| t@);
        let mut acc: Vec<Roll> = Vec::new();
        let mut i: usize = 0;
        proof {
            assert(toks.skip(0) =~= toks);
            match spec_resolve(self.spec_entries(), toks) {
                Ok(rest) => {
                    assert(Seq::<Roll>::empty() + rest =~= rest);
                },
                Err(_) => {},
            }
        }
        while i < tokens.len()
            invariant
                i <= tokens@.len(),
                toks == tokens@.map_values(|t: Vec<u8>| t@),
                toks.len() == tokens@.len(),
                match spec_resolve(self.spec_entries(), toks.skip(i as int)) {
                    Ok(rest) => spec_resolve(self.spec_entries(), toks) == Ok::<
                        Seq<Roll>,
                        ParseError,
                    >(acc@ + rest),
                    Err(e) => spec_resolve(self.spec_entries(), toks) == Err::<
                        Seq<Roll>,
                        ParseError,
                    >(e),
                },
            decreases tokens@.len() - i,
        {
            let ghost prev_acc = acc@;
            proof {
                assert(toks.skip(i as int)[0] == toks[i as int]);
                assert(toks[i as int] == tokens@[i as int]@);
                assert(toks.skip(i as int).drop_first() =~= toks.skip(i + 1));
            }
            let tok = &tokens[i];
            match self.lookup(tok.as_slice()) {
                Some(mut rs) => {
                    let ghost expanded = rs@;
                    acc.append(&mut rs);
                    proof {
                        match spec_resolve(self.spec_entries(), toks.skip(i + 1)) {
                            Ok(rest) => {
                                assert((prev_acc + expanded) + rest =~= prev_acc + (expanded
                                    + rest));
                            },
                            Err(_) => {},
                        }
                    }
                },
                None => {
                    match Roll::from_bytes(tok.as_slice()) {
                        Ok(roll) => {
                            acc.push(roll);
                            proof {
                                assert(prev_acc.push(roll) =~= prev_acc + seq![roll]);
                                match spec_resolve(self.spec_entries(), toks.skip(i + 1)) {
                                    Ok(rest) => {
                                        assert((prev_acc + seq![roll]) + rest =~= prev_acc + (seq![
                                            roll,
                                        ] + rest));
                                    },
                                    Err(_) => {},
                                }
                            }
                        },
                        Err(e) => {
                            return Err(e);
                        },
                    }
                },
            }
            i = i + 1;
        }
        proof {
            assert(toks.skip(toks.len() as int) =~= Seq::<Seq<u8>>::empty());
            match spec_resolve(self.spec_entries(), toks) {
                Ok(rest) => {},
                Err(_) => {},
            }
            assert(acc@ + Seq::<Roll>::empty() =~= acc@);
        }
        Ok(acc)
    }

    /// Adds a macro under `name`: its tokens are resolved through the table
    /// as it stands, so a macro may be built from earlier macros. A token
    /// that resolves to nothing valid leaves the table unchanged and hands
    /// the error back.
    pub fn define(&mut self, name: Vec<u8>, tokens: &Vec<Vec<u8>>) -> (r: Result<(), ParseError>)
        ensures
            match spec_resolve(old(self).spec_entries(), tokens@.map_values(|t: Vec<u8>| t@)) {
                Ok(rs) => {
                    &&& r == Ok::<(), ParseError>(())
                    &&& final(self).spec_entries().len() == old(self).spec_entries().len() + 1
                    &&& final(self).spec_entries().drop_last() == old(self).spec_entries()
                    &&& final(self).spec_entries().last().name@ == name@
                    &&& final(self).spec_entries().last().rolls@ == rs
                },
                Err(e) => {
                    &&& r == Err::<(), ParseError>(e)
                    &&& final(self).spec_entries() == old(self).spec_entries()
                },
            },
    {
        match self.resolve(tokens) {
            Ok(rolls) => {
                self.entries.push(MacroDef { name, rolls });
                proof {
                    assert(self.entries@.drop_last() =~= old(self).entries@);
                }
                Ok(())
            },
            Err(e) => Err(e),
        }
    }
}

} // verus!
