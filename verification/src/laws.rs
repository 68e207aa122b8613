//! Relations between the parser and the formatter.

use vstd::prelude::*;

use crate::digits::dec_digits;
use crate::digits::digit_run_end;
use crate::digits::digits_val;
use crate::digits::is_digit;
use crate::digits::lemma_dec_digits;
use crate::digits::lemma_run_with_end;
use crate::digits::all_digits;
use crate::format::seg_keep;
use crate::format::seg_modifier;
use crate::format::seg_num;
use crate::format::seg_reroll;
use crate::format::spec_notation;
use crate::parse::spec_parse;
use crate::parse::spec_parse_end;
use crate::parse::spec_parse_keep;
use crate::parse::spec_parse_modifier;
use crate::parse::spec_parse_reroll;
use crate::parse::ParseError;
use crate::roll::Keep;
use crate::roll::Roll;

verus! {

/// The roll that re-parsing the notation of `r` yields: an omitted dice
/// count reads back as one, and an explicit zero modifier, which the
/// notation does not write, reads back as absent.
pub open spec fn normal(r: Roll) -> Roll {
    Roll {
        num: if r.num > 1 {
            r.num
        } else {
            1u32
        },
        die: r.die,
        reroll: r.reroll,
        keep: r.keep,
        modifier: match r.modifier {
            Some(m) => if m == 0 {
                None
            } else {
                Some(m)
            },
            None => None,
        },
    }
}

/// The digit string of `n` sits in `s` at `i`, ended by a non-digit or the
/// end of `s`: the scanner finds exactly it, and it reads back as `n`.
proof fn lemma_digits_at(s: Seq<u8>, i: int, n: int)
    requires
        0 <= i,
        0 <= n,
        i + dec_digits(n).len() <= s.len(),
        s.subrange(i, i + dec_digits(n).len() as int) == dec_digits(n),
        i + dec_digits(n).len() == s.len() || !is_digit(s[i + dec_digits(n).len()]),
    ensures
        digit_run_end(s, i) == i + dec_digits(n).len(),
        digits_val(s.subrange(i, i + dec_digits(n).len() as int)) == n,
{
    lemma_dec_digits(n);
    let e = i + dec_digits(n).len();
    assert(all_digits(s, i, e)) by {
        assert forall|k: int| i <= k < e implies is_digit(#[trigger] s[k]) by {
            assert(s[k] == s.subrange(i, e)[k - i]);
        }
    }
    lemma_run_with_end(s, i, e);
}

/// Parsing the modifier segment from `i` fills in exactly the modifier that
/// the notation wrote.
proof fn lemma_parse_modifier_seg(s: Seq<u8>, i: int, r0: Roll, m: Option<i32>)
    requires
        0 <= i <= s.len(),
        r0.modifier == None::<i32>,
        s.subrange(i, s.len() as int) == seg_modifier(m),
    ensures
        spec_parse_modifier(s, i, r0) == Ok::<Roll, ParseError>(
            Roll { modifier: (normal(Roll { modifier: m, ..r0 })).modifier, ..r0 },
        ),
{
    let tail = s.subrange(i, s.len() as int);
    assert(tail.len() == s.len() - i);
    assert forall|x: int| 0 <= x < tail.len() implies #[trigger] tail[x] == s[i + x] by {
        assert(s.subrange(i, s.len() as int)[x] == s[i + x]);
    }
    match m {
        Some(v) => {
            if v > 0 {
                lemma_dec_digits(v as int);
                assert(tail == seq![43u8] + dec_digits(v as int));
                assert(s[i] == 43) by {
                    assert(tail[0] == (seq![43u8] + dec_digits(v as int))[0]);
                }
                let e = i + 1 + dec_digits(v as int).len();
                assert(e == s.len());
                assert(s.subrange(i + 1, e) =~= dec_digits(v as int)) by {
                    assert forall|k: int| 0 <= k < dec_digits(v as int).len() implies s.subrange(
                        i + 1,
                        e,
                    )[k] == dec_digits(v as int)[k] by {
                        assert(s.subrange(i + 1, e)[k] == s[i + 1 + k]);
                        assert(s[i + 1 + k] == tail[1 + k]);
                        assert(tail[1 + k] == (seq![43u8] + dec_digits(v as int))[1 + k]);
                    }
                }
                lemma_digits_at(s, i + 1, v as int);
                assert(digit_run_end(s, i + 1) == e);
                assert(spec_parse_modifier(s, i, r0) == spec_parse_end(
                    s,
                    e,
                    Roll { modifier: Some(v), ..r0 },
                ));
            } else if v < 0 {
                let a = -(v as int);
                lemma_dec_digits(a);
                assert(tail == seq![45u8] + dec_digits(a));
                assert(s[i] == 45) by {
                    assert(tail[0] == (seq![45u8] + dec_digits(a))[0]);
                }
                let e = i + 1 + dec_digits(a).len();
                assert(e == s.len());
                assert(s.subrange(i + 1, e) =~= dec_digits(a)) by {
                    assert forall|k: int| 0 <= k < dec_digits(a).len() implies s.subrange(
                        i + 1,
                        e,
                    )[k] == dec_digits(a)[k] by {
                        assert(s.subrange(i + 1, e)[k] == s[i + 1 + k]);
                        assert(s[i + 1 + k] == tail[1 + k]);
                        assert(tail[1 + k] == (seq![45u8] + dec_digits(a))[1 + k]);
                    }
                }
                lemma_digits_at(s, i + 1, a);
                assert(a <= 0x8000_0000);
                assert((-a) as i32 == v);
                assert(spec_parse_modifier(s, i, r0) == spec_parse_end(
                    s,
                    e,
                    Roll { modifier: Some(v), ..r0 },
                ));
            } else {
                assert(tail.len() == 0);
                assert(i == s.len());
            }
        },
        None => {
            assert(tail.len() == 0);
            assert(i == s.len());
        },
    }
}

/// Parsing the keep and modifier segments from `i` fills in exactly what the
/// notation wrote.
proof fn lemma_parse_keep_seg(s: Seq<u8>, i: int, r0: Roll, k: Option<Keep>, m: Option<i32>)
    requires
        0 <= i <= s.len(),
        r0.keep == None::<Keep>,
        r0.modifier == None::<i32>,
        s.subrange(i, s.len() as int) == seg_keep(k) + seg_modifier(m),
    ensures
        spec_parse_keep(s, i, r0) == Ok::<Roll, ParseError>(
            Roll { keep: k, modifier: (normal(Roll { modifier: m, ..r0 })).modifier, ..r0 },
        ),
{
    let tail = s.subrange(i, s.len() as int);
    assert(tail.len() == s.len() - i);
    assert forall|x: int| 0 <= x < tail.len() implies #[trigger] tail[x] == s[i + x] by {
        assert(s.subrange(i, s.len() as int)[x] == s[i + x]);
    }
    match k {
        Some(sel) => {
            let mark: u8 = match sel {
                Keep::High(_) => 104u8,
                Keep::Low(_) => 108u8,
            };
            let n: int = match sel {
                Keep::High(c) => c as int,
                Keep::Low(c) => c as int,
            };
            lemma_dec_digits(n);
            let kl = 1 + dec_digits(n).len() as int;
            assert(seg_keep(k) == seq![mark] + dec_digits(n));
            assert(s[i] == mark) by {
                assert(tail[0] == (seg_keep(k) + seg_modifier(m))[0]);
            }
            let e = i + 1 + dec_digits(n).len();
            assert(s.subrange(i + 1, e) =~= dec_digits(n)) by {
                assert forall|x: int| 0 <= x < dec_digits(n).len() implies s.subrange(i + 1, e)[x]
                    == dec_digits(n)[x] by {
                    assert(s[i + 1 + x] == tail[1 + x]);
                    assert(tail[1 + x] == (seg_keep(k) + seg_modifier(m))[1 + x]);
                    assert((seg_keep(k) + seg_modifier(m))[1 + x] == seg_keep(k)[1 + x]);
                }
            }
            assert(e == s.len() || !is_digit(s[e])) by {
                if e < s.len() {
                    assert(s[e] == tail[e - i]);
                    assert(tail[e - i] == (seg_keep(k) + seg_modifier(m))[kl]);
                    assert((seg_keep(k) + seg_modifier(m))[kl] == seg_modifier(m)[0]);
                    match m {
                        Some(v) => {
                            if v > 0 {
                                assert(seg_modifier(m)[0] == 43);
                            } else if v < 0 {
                                assert(seg_modifier(m)[0] == 45);
                            } else {
                                assert(seg_modifier(m).len() == 0);
                            }
                        },
                        None => {
                            assert(seg_modifier(m).len() == 0);
                        },
                    }
                }
            }
            lemma_digits_at(s, i + 1, n);
            assert(s[i] == 104 || s[i] == 108);
            let parsed: Keep = if s[i] == 104 {
                Keep::High(n as usize)
            } else {
                Keep::Low(n as usize)
            };
            assert(parsed == sel);
            let r1 = Roll { keep: Some(parsed), ..r0 };
            assert(spec_parse_keep(s, i, r0) == spec_parse_modifier(s, e, r1));
            assert(s.subrange(e, s.len() as int) =~= seg_modifier(m)) by {
                assert forall|x: int| 0 <= x < s.len() - e implies s.subrange(e, s.len() as int)[x]
                    == seg_modifier(m)[x] by {
                    assert(s[e + x] == tail[e - i + x]);
                    assert(tail[kl + x] == (seg_keep(k) + seg_modifier(m))[kl + x]);
                }
            }
            lemma_parse_modifier_seg(s, e, r1, m);
        },
        None => {
            assert(seg_keep(k).len() == 0);
            assert(tail =~= seg_modifier(m));
            if i < s.len() {
                assert(s[i] == tail[0]);
                match m {
                    Some(v) => {
                        if v > 0 {
                            assert(seg_modifier(m)[0] == 43);
                        } else if v < 0 {
                            assert(seg_modifier(m)[0] == 45);
                        } else {
                            assert(false);
                        }
                    },
                    None => {
                        assert(false);
                    },
                }
                assert(s[i] != 104 && s[i] != 108);
            }
            lemma_parse_modifier_seg(s, i, r0, m);
        },
    }
}

/// Parsing the reroll, keep and modifier segments from `i` fills in exactly
/// what the notation wrote.
proof fn lemma_parse_reroll_seg(
    s: Seq<u8>,
    i: int,
    r0: Roll,
    o: Option<u32>,
    k: Option<Keep>,
    m: Option<i32>,
)
    requires
        0 <= i <= s.len(),
        r0.reroll == None::<u32>,
        r0.keep == None::<Keep>,
        r0.modifier == None::<i32>,
        s.subrange(i, s.len() as int) == seg_reroll(o) + seg_keep(k) + seg_modifier(m),
    ensures
        spec_parse_reroll(s, i, r0) == Ok::<Roll, ParseError>(
            Roll {
                reroll: o,
                keep: k,
                modifier: (normal(Roll { modifier: m, ..r0 })).modifier,
                ..r0
            },
        ),
{
    let tail = s.subrange(i, s.len() as int);
    assert(tail.len() == s.len() - i);
    assert forall|x: int| 0 <= x < tail.len() implies #[trigger] tail[x] == s[i + x] by {
        assert(s.subrange(i, s.len() as int)[x] == s[i + x]);
    }
    let rest = seg_keep(k) + seg_modifier(m);
    match o {
        Some(t) => {
            lemma_dec_digits(t as int);
            let rl = 1 + dec_digits(t as int).len() as int;
            assert(s[i] == 114) by {
                assert(tail[0] == (seg_reroll(o) + seg_keep(k) + seg_modifier(m))[0]);
                assert((seg_reroll(o) + seg_keep(k) + seg_modifier(m))[0] == seg_reroll(o)[0]);
            }
            let e = i + 1 + dec_digits(t as int).len();
            assert(s.subrange(i + 1, e) =~= dec_digits(t as int)) by {
                assert forall|x: int| 0 <= x < dec_digits(t as int).len() implies s.subrange(
                    i + 1,
                    e,
                )[x] == dec_digits(t as int)[x] by {
                    assert(s[i + 1 + x] == tail[1 + x]);
                    assert(tail[1 + x] == (seg_reroll(o) + seg_keep(k) + seg_modifier(m))[1 + x]);
                    assert((seg_reroll(o) + seg_keep(k) + seg_modifier(m))[1 + x] == seg_reroll(
                        o,
                    )[1 + x]);
                }
            }
            assert(e == s.len() || !is_digit(s[e])) by {
                if e < s.len() {
                    assert(s[e] == tail[e - i]);
                    assert(tail[rl] == (seg_reroll(o) + seg_keep(k) + seg_modifier(m))[rl]);
                    assert((seg_reroll(o) + seg_keep(k) + seg_modifier(m))[rl] == rest[0]);
                    lemma_rest_head(k, m);
                }
            }
            lemma_digits_at(s, i + 1, t as int);
            let r1 = Roll { reroll: Some(t), ..r0 };
            assert(spec_parse_reroll(s, i, r0) == spec_parse_keep(s, e, r1));
            assert(s.subrange(e, s.len() as int) =~= rest) by {
                assert forall|x: int| 0 <= x < s.len() - e implies s.subrange(e, s.len() as int)[x]
                    == rest[x] by {
                    assert(s[e + x] == tail[rl + x]);
                    assert(tail[rl + x] == (seg_reroll(o) + seg_keep(k) + seg_modifier(m))[rl + x]);
                }
            }
            lemma_parse_keep_seg(s, e, r1, k, m);
        },
        None => {
            assert(seg_reroll(o).len() == 0);
            assert(tail =~= rest);
            if i < s.len() {
                assert(s[i] == rest[0]);
                lemma_rest_head(k, m);
                assert(s[i] != 114);
            }
            lemma_parse_keep_seg(s, i, r0, k, m);
        },
    }
}

/// The first byte after the die digits, when anything follows them, is one
/// of the component markers, none of which is a digit or the letter `r`
/// unless the reroll segment itself is present.
proof fn lemma_rest_head(k: Option<Keep>, m: Option<i32>)
    requires
        (seg_keep(k) + seg_modifier(m)).len() > 0,
    ensures
        !is_digit((seg_keep(k) + seg_modifier(m))[0]),
        (seg_keep(k) + seg_modifier(m))[0] == 104 || (seg_keep(k) + seg_modifier(m))[0] == 108 || (
        seg_keep(k) + seg_modifier(m))[0] == 43 || (seg_keep(k) + seg_modifier(m))[0] == 45,
{
    let rest = seg_keep(k) + seg_modifier(m);
    match k {
        Some(Keep::High(n)) => {
            assert(rest[0] == seg_keep(k)[0]);
        },
        Some(Keep::Low(n)) => {
            assert(rest[0] == seg_keep(k)[0]);
        },
        None => {
            assert(seg_keep(k).len() == 0);
            assert(rest[0] == seg_modifier(m)[0]);
            match m {
                Some(v) => {
                    if v > 0 {
                        assert(seg_modifier(m)[0] == 43);
                    } else if v < 0 {
                        assert(seg_modifier(m)[0] == 45);
                    } else {
                        assert(false);
                    }
                },
                None => {
                    assert(false);
                },
            }
        },
    }
}

/// Re-parsing the notation of any roll yields its normalized form: the one
/// roll that writes the same notation and carries the defaults explicitly.
pub proof fn lemma_notation_round_trip(r: Roll)
    ensures
        spec_parse(spec_notation(r)) == Ok::<Roll, ParseError>(normal(r)),
{
    let s = spec_notation(r);
    let dd = dec_digits(r.die as int);
    lemma_dec_digits(r.die as int);
    let a = seg_num(r.num).len() as int;
    let head = seg_num(r.num) + seq![100u8] + dd;
    let tail3 = seg_reroll(r.reroll) + seg_keep(r.keep) + seg_modifier(r.modifier);
    assert(s =~= head + tail3);
    assert(s.len() == a + 1 + dd.len() + tail3.len());

    // The dice-count digits, where present, end exactly at the `d` marker.
    assert(s[a] == 100) by {
        assert(s[a] == (head + tail3)[a]);
        assert(head[a] == (seg_num(r.num) + seq![100u8])[a]);
    }
    if r.num > 1 {
        lemma_dec_digits(r.num as int);
        assert(s.subrange(0, a) =~= dec_digits(r.num as int)) by {
            assert forall|x: int| 0 <= x < a implies s.subrange(0, a)[x] == dec_digits(
                r.num as int,
            )[x] by {
                assert(s[x] == (head + tail3)[x]);
                assert(head[x] == (seg_num(r.num) + seq![100u8])[x]);
                assert((seg_num(r.num) + seq![100u8])[x] == seg_num(r.num)[x]);
            }
        }
        lemma_digits_at(s, 0, r.num as int);
        assert(digit_run_end(s, 0) == a);
    } else {
        assert(a == 0);
        assert(!is_digit(s[0]));
        assert(digit_run_end(s, 0) == 0);
    }
    let p = digit_run_end(s, 0);
    assert(p == a);

    // The die digits follow the marker and end at the next segment or the
    // end of the token.
    let q = a + 1 + dd.len() as int;
    assert(s.subrange(a + 1, q) =~= dd) by {
        assert forall|x: int| 0 <= x < dd.len() implies s.subrange(a + 1, q)[x] == dd[x] by {
            assert(s[a + 1 + x] == (head + tail3)[a + 1 + x]);
            assert(head[a + 1 + x] == dd[x]);
        }
    }
    assert(q == s.len() || !is_digit(s[q])) by {
        if q < s.len() {
            assert(s[q] == (head + tail3)[q]);
            assert((head + tail3)[q] == tail3[0]);
            lemma_tail3_head(r.reroll, r.keep, r.modifier);
        }
    }
    lemma_digits_at(s, a + 1, r.die as int);
    assert(digit_run_end(s, a + 1) == q);
    assert(q > a + 1);

    let num_parsed: u32 = if p == 0 {
        1u32
    } else {
        digits_val(s.subrange(0, p)) as u32
    };
    assert(num_parsed == (normal(r)).num);
    let base = Roll {
        num: num_parsed,
        die: r.die,
        reroll: None,
        keep: None,
        modifier: None,
    };
    assert(spec_parse(s) == spec_parse_reroll(s, q, base));

    assert(s.subrange(q, s.len() as int) =~= tail3) by {
        assert forall|x: int| 0 <= x < s.len() - q implies s.subrange(q, s.len() as int)[x]
            == tail3[x] by {
            assert(s[q + x] == (head + tail3)[q + x]);
        }
    }
    lemma_parse_reroll_seg(s, q, base, r.reroll, r.keep, r.modifier);
    assert(spec_parse_reroll(s, q, base) == Ok::<Roll, ParseError>(normal(r)));
}

/// The first byte after the die digits, when anything follows them, is a
/// component marker and not a digit.
proof fn lemma_tail3_head(o: Option<u32>, k: Option<Keep>, m: Option<i32>)
    requires
        (seg_reroll(o) + seg_keep(k) + seg_modifier(m)).len() > 0,
    ensures
        !is_digit((seg_reroll(o) + seg_keep(k) + seg_modifier(m))[0]),
{
    let t = seg_reroll(o) + seg_keep(k) + seg_modifier(m);
    match o {
        Some(v) => {
            assert(t[0] == seg_reroll(o)[0]);
            assert(seg_reroll(o)[0] == 114);
        },
        None => {
            assert(seg_reroll(o).len() == 0);
            assert(t[0] == (seg_keep(k) + seg_modifier(m))[0]);
            lemma_rest_head(k, m);
        },
    }
}

/// For a roll already in normal form the round trip is exact.
pub proof fn lemma_notation_round_trip_exact(r: Roll)
    requires
        r.num >= 1,
        r.modifier != Some(0i32),
    ensures
        spec_parse(spec_notation(r)) == Ok::<Roll, ParseError>(r),
{
    lemma_notation_round_trip(r);
    assert(normal(r) == r);
}

} // verus!
