//! The dice-notation grammar and its parser.
//!
//! A token is `[num] "d" die ["r" reroll] [("h"|"l") keep] [("+"|"-") mod]`,
//! where every numeric part is a run of ASCII digits. The whole token must
//! match: leading or trailing bytes that do not fit the grammar are refused.

use vstd::prelude::*;

use crate::digits::all_digits;
use crate::digits::digit_run_end;
use crate::digits::digit_run_end_exec;
use crate::digits::digits_val;
use crate::digits::lemma_digit_run_end;
use crate::digits::parse_digits;
use crate::roll::Keep;
use crate::roll::Roll;
use vstd::string::StringSliceAdditionalSpecFns;

verus! {

/// The numeric component of a token that failed to fit its integer type.
#[derive(Clone, Copy, Debug, PartialEq, Eq)]
pub enum Component {
    NumDice,
    DieSize,
    Reroll,
    KeepCount,
    Modifier,
}

/// Why a token was refused.
#[derive(Clone, Copy, Debug, PartialEq, Eq)]
pub enum ParseError {
    /// The token has no die-size component.
    MissingDie,
    /// A numeric component does not fit its integer type.
    InvalidNumber(Component),
    /// The token does not match the grammar.
    MalformedToken,
    /// A keep direction other than `h` or `l`; the grammar admits no such
    /// token, so the parser never returns this.
    UnknownKeepDirection,
}

/// Accepts the end of the token: anything left over refuses the whole token.
pub open spec fn spec_parse_end(s: Seq<u8>, i: int, r: Roll) -> Result<Roll, ParseError> {
    if i == s.len() {
        Ok(r)
    } else {
        Err(ParseError::MalformedToken)
    }
}

/// The optional modifier: `+` or `-` followed by digits.
pub open spec fn spec_parse_modifier(s: Seq<u8>, i: int, r: Roll) -> Result<Roll, ParseError>
    recommends
        0 <= i <= s.len(),
{
    if i < s.len() && (s[i] == 43 || s[i] == 45) {
        let j = digit_run_end(s, i + 1);
        if j == i + 1 {
            Err(ParseError::MalformedToken)
        } else {
            let v = digits_val(s.subrange(i + 1, j));
            if s[i] == 43 {
                if v > i32::MAX {
                    Err(ParseError::InvalidNumber(Component::Modifier))
                } else {
                    spec_parse_end(s, j, Roll { modifier: Some(v as i32), ..r })
                }
            } else {
                if v > 0x8000_0000 {
                    Err(ParseError::InvalidNumber(Component::Modifier))
                } else {
                    spec_parse_end(s, j, Roll { modifier: Some((-v) as i32), ..r })
                }
            }
        }
    } else {
        spec_parse_end(s, i, r)
    }
}

/// The optional keep selector: `h` or `l` followed by digits.
pub open spec fn spec_parse_keep(s: Seq<u8>, i: int, r: Roll) -> Result<Roll, ParseError>
    recommends
        0 <= i <= s.len(),
{
    if i < s.len() && (s[i] == 104 || s[i] == 108) {
        let j = digit_run_end(s, i + 1);
        if j == i + 1 {
            Err(ParseError::MalformedToken)
        } else {
            let v = digits_val(s.subrange(i + 1, j));
            if v > usize::MAX {
                Err(ParseError::InvalidNumber(Component::KeepCount))
            } else {
                let k = if s[i] == 104 {
                    Keep::High(v as usize)
                } else {
                    Keep::Low(v as usize)
                };
                spec_parse_modifier(s, j, Roll { keep: Some(k), ..r })
            }
        }
    } else {
        spec_parse_modifier(s, i, r)
    }
}

/// The optional reroll threshold: `r` followed by digits.
pub open spec fn spec_parse_reroll(s: Seq<u8>, i: int, r: Roll) -> Result<Roll, ParseError>
    recommends
        0 <= i <= s.len(),
{
    if i < s.len() && s[i] == 114 {
        let j = digit_run_end(s, i + 1);
        if j == i + 1 {
            Err(ParseError::MalformedToken)
        } else {
            let v = digits_val(s.subrange(i + 1, j));
            if v > u32::MAX {
                Err(ParseError::InvalidNumber(Component::Reroll))
            } else {
                spec_parse_keep(s, j, Roll { reroll: Some(v as u32), ..r })
            }
        }
    } else {
        spec_parse_keep(s, i, r)
    }
}

/// What parsing a whole token yields: a roll specification, or the error
/// that refuses it. The dice count defaults to one; the die size is
/// mandatory.
pub open spec fn spec_parse(s: Seq<u8>) -> Result<Roll, ParseError> {
    let p = digit_run_end(s, 0);
    if p >= s.len() || s[p] != 100 {
        Err(ParseError::MalformedToken)
    } else if p > 0 && digits_val(s.subrange(0, p)) > u32::MAX {
        Err(ParseError::InvalidNumber(Component::NumDice))
    } else {
        let num = if p == 0 {
            1u32
        } else {
            digits_val(s.subrange(0, p)) as u32
        };
        let q = digit_run_end(s, p + 1);
        if q == p + 1 {
            Err(ParseError::MissingDie)
        } else if digits_val(s.subrange(p + 1, q)) > u32::MAX {
            Err(ParseError::InvalidNumber(Component::DieSize))
        } else {
            let die = digits_val(s.subrange(p + 1, q)) as u32;
            spec_parse_reroll(s, q, Roll { num, die, reroll: None, keep: None, modifier: None })
        }
    }
}

impl Roll {
    /// Parses one token given as bytes.
    pub fn from_bytes(s: &[u8]) -> (r: Result<Roll, ParseError>)
        ensures
            r == spec_parse(s@),
    {
        let p: usize = digit_run_end_exec(s, 0);
        proof {
            lemma_digit_run_end(s@, 0);
        }
        if p >= s.len() || s[p] != 100 {
            return Err(ParseError::MalformedToken);
        }
        let num: u32 = if p > 0 {
            match parse_digits(s, 0, p, 0xffff_ffffu64) {
                Some(v) => v as u32,
                None => {
                    return Err(ParseError::InvalidNumber(Component::NumDice));
                },
            }
        } else {
            1
        };
        let q: usize = digit_run_end_exec(s, p + 1);
        proof {
            lemma_digit_run_end(s@, p + 1);
        }
        if q == p + 1 {
            return Err(ParseError::MissingDie);
        }
        let die: u32 = match parse_digits(s, p + 1, q, 0xffff_ffffu64) {
            Some(v) => v as u32,
            None => {
                return Err(ParseError::InvalidNumber(Component::DieSize));
            },
        };
        Roll::parse_reroll(s, q, Roll { num, die, reroll: None, keep: None, modifier: None })
    }

    /// Parses one token given as text.
    pub fn from_str(s: &str) -> (r: Result<Roll, ParseError>)
        ensures
            r == spec_parse(s.spec_bytes()),
    {
        Roll::from_bytes(s.as_bytes())
    }

    fn parse_reroll(s: &[u8], i: usize, r: Roll) -> (res: Result<Roll, ParseError>)
        requires
            i <= s@.len(),
        ensures
            res == spec_parse_reroll(s@, i as int, r),
    {
        if i < s.len() && s[i] == 114 {
            let j: usize = digit_run_end_exec(s, i + 1);
            proof {
                lemma_digit_run_end(s@, i + 1);
            }
            if j == i + 1 {
                return Err(ParseError::MalformedToken);
            }
            match parse_digits(s, i + 1, j, 0xffff_ffffu64) {
                Some(v) => Roll::parse_keep(s, j, Roll { reroll: Some(v as u32), ..r }),
                None => Err(ParseError::InvalidNumber(Component::Reroll)),
            }
        } else {
            Roll::parse_keep(s, i, r)
        }
    }

    fn parse_keep(s: &[u8], i: usize, r: Roll) -> (res: Result<Roll, ParseError>)
        requires
            i <= s@.len(),
        ensures
            res == spec_parse_keep(s@, i as int, r),
    {
        if i < s.len() && (s[i] == 104 || s[i] == 108) {
            let j: usize = digit_run_end_exec(s, i + 1);
            proof {
                lemma_digit_run_end(s@, i + 1);
            }
            if j == i + 1 {
                return Err(ParseError::MalformedToken);
            }
            match parse_digits(s, i + 1, j, usize::MAX as u64) {
                Some(v) => {
                    let k = if s[i] == 104 {
                        Keep::High(v as usize)
                    } else {
                        Keep::Low(v as usize)
                    };
                    Roll::parse_modifier(s, j, Roll { keep: Some(k), ..r })
                },
                None => Err(ParseError::InvalidNumber(Component::KeepCount)),
            }
        } else {
            Roll::parse_modifier(s, i, r)
        }
    }

    fn parse_modifier(s: &[u8], i: usize, r: Roll) -> (res: Result<Roll, ParseError>)
        requires
            i <= s@.len(),
        ensures
            res == spec_parse_modifier(s@, i as int, r),
    {
        if i < s.len() && (s[i] == 43 || s[i] == 45) {
            let j: usize = digit_run_end_exec(s, i + 1);
            proof {
                lemma_digit_run_end(s@, i + 1);
            }
            if j == i + 1 {
                return Err(ParseError::MalformedToken);
            }
            if s[i] == 43 {
                match parse_digits(s, i + 1, j, 0x7fff_ffffu64) {
                    Some(v) => Roll::parse_end(s, j, Roll { modifier: Some(v as i32), ..r }),
                    None => Err(ParseError::InvalidNumber(Component::Modifier)),
                }
            } else {
                match parse_digits(s, i + 1, j, 0x8000_0000u64) {
                    Some(v) => {
                        let m: i32 = if v == 0x8000_0000u64 {
                            i32::MIN
                        } else {
                            -(v as i32)
                        };
                        Roll::parse_end(s, j, Roll { modifier: Some(m), ..r })
                    },
                    None => Err(ParseError::InvalidNumber(Component::Modifier)),
                }
            }
        } else {
            Roll::parse_end(s, i, r)
        }
    }

    fn parse_end(s: &[u8], i: usize, r: Roll) -> (res: Result<Roll, ParseError>)
        requires
            i <= s@.len(),
        ensures
            res == spec_parse_end(s@, i as int, r),
    {
        if i == s.len() {
            Ok(r)
        } else {
            Err(ParseError::MalformedToken)
        }
    }
}

} // verus!
