//! Decimal digit runs: the spec-level meaning of a run of ASCII digits and
//! its decimal value, the canonical digit string of a number, and the
//! executable scanning, parsing and printing routines built on them.

use vstd::prelude::*;

verus! {

/// `c` is an ASCII decimal digit.
pub open spec fn is_digit(c: u8) -> bool {
    48 <= c && c <= 57
}

/// Every byte of `s` in the half-open range `[i, j)` is an ASCII digit.
pub open spec fn all_digits(s: Seq<u8>, i: int, j: int) -> bool {
    forall|k: int| i <= k < j ==> is_digit(#[trigger] s[k])
}

/// The index just past the run of ASCII digits that starts at `i`.
pub open spec fn digit_run_end(s: Seq<u8>, i: int) -> int
    decreases s.len() - i
        when 0 <= i <= s.len()
{
    if i < s.len() && is_digit(s[i]) {
        digit_run_end(s, i + 1)
    } else {
        i
    }
}

pub proof fn lemma_digit_run_end(s: Seq<u8>, i: int)
    requires
        0 <= i <= s.len(),
    ensures
        i <= digit_run_end(s, i) <= s.len(),
        all_digits(s, i, digit_run_end(s, i)),
        digit_run_end(s, i) < s.len() ==> !is_digit(s[digit_run_end(s, i)]),
    decreases s.len() - i,
{
    if i < s.len() && is_digit(s[i]) {
        lemma_digit_run_end(s, i + 1);
    }
}

/// A run of digits over `[i, j)` that ends at `j` (end of string, or a
/// non-digit byte) is exactly what `digit_run_end` finds from `i`.
pub proof fn lemma_run_with_end(s: Seq<u8>, i: int, j: int)
    requires
        0 <= i <= j <= s.len(),
        all_digits(s, i, j),
        j < s.len() ==> !is_digit(s[j]),
    ensures
        digit_run_end(s, i) == j,
    decreases j - i,
{
    if i < j {
        lemma_run_with_end(s, i + 1, j);
    }
}

/// The decimal value of a digit string, most significant digit first.
pub open spec fn digits_val(s: Seq<u8>) -> int
    decreases s.len(),
{
    if s.len() == 0 {
        0
    } else {
        digits_val(s.drop_last()) * 10 + (s.last() - 48)
    }
}

proof fn lemma_digits_val_nonneg(s: Seq<u8>)
    requires
        all_digits(s, 0, s.len() as int),
    ensures
        digits_val(s) >= 0,
    decreases s.len(),
{
    if s.len() > 0 {
        assert(all_digits(s.drop_last(), 0, s.len() - 1));
        lemma_digits_val_nonneg(s.drop_last());
        assert(is_digit(s[s.len() - 1]));
    }
}

/// Extending a digit run by one digit multiplies its value by ten and adds
/// the new digit.
proof fn lemma_digits_val_step(s: Seq<u8>, a: int, k: int)
    requires
        0 <= a <= k < s.len(),
    ensures
        digits_val(s.subrange(a, k + 1)) == digits_val(s.subrange(a, k)) * 10 + (s[k] - 48),
{
    assert(s.subrange(a, k + 1).drop_last() =~= s.subrange(a, k));
    assert(s.subrange(a, k + 1).last() == s[k]);
}

/// A longer digit run never has a smaller value.
proof fn lemma_digits_val_grows(s: Seq<u8>, a: int, k: int, m: int)
    requires
        0 <= a <= k <= m <= s.len(),
        all_digits(s, a, m),
    ensures
        digits_val(s.subrange(a, k)) <= digits_val(s.subrange(a, m)),
    decreases m - k,
{
    if k < m {
        let v = digits_val(s.subrange(a, k));
        assert(all_digits(s.subrange(a, k), 0, k - a)) by {
            assert(forall|x: int| 0 <= x < k - a ==> s.subrange(a, k)[x] == s[a + x]);
        }
        lemma_digits_val_nonneg(s.subrange(a, k));
        lemma_digits_val_step(s, a, k);
        assert(is_digit(s[k]));
        assert(digits_val(s.subrange(a, k + 1)) >= v);
        lemma_digits_val_grows(s, a, k + 1, m);
    }
}

/// The canonical decimal digit string of a non-negative number.
pub open spec fn dec_digits(n: int) -> Seq<u8>
    decreases n
        when n >= 0
{
    if n < 10 {
        seq![(48 + n) as u8]
    } else {
        dec_digits(n / 10).push((48 + n % 10) as u8)
    }
}

pub proof fn lemma_dec_digits(n: int)
    requires
        n >= 0,
    ensures
        dec_digits(n).len() >= 1,
        all_digits(dec_digits(n), 0, dec_digits(n).len() as int),
        digits_val(dec_digits(n)) == n,
    decreases n,
{
    if n < 10 {
        let d = dec_digits(n);
        assert(d =~= seq![(48 + n) as u8]);
        assert(d.last() == (48 + n) as u8);
        assert(d.drop_last() =~= Seq::<u8>::empty());
        assert(digits_val(Seq::<u8>::empty()) == 0);
        assert(digits_val(d) == (48 + n) - 48);
    } else {
        lemma_dec_digits(n / 10);
        let d = dec_digits(n / 10);
        let w = d.push((48 + n % 10) as u8);
        assert(w.drop_last() =~= d);
        assert(digits_val(w) == (n / 10) * 10 + n % 10);
    }
}

/// Scans past the run of ASCII digits that starts at `i`.
pub fn digit_run_end_exec(s: &[u8], i: usize) -> (j: usize)
    requires
        i <= s@.len(),
    ensures
        j == digit_run_end(s@, i as int),
        i <= j <= s@.len(),
{
    let mut j: usize = i;
    while j < s.len() && 48 <= s[j] && s[j] <= 57
        invariant
            i <= j <= s@.len(),
            digit_run_end(s@, i as int) == digit_run_end(s@, j as int),
        decreases s@.len() - j,
    {
        assert(digit_run_end(s@, j as int) == digit_run_end(s@, j + 1));
        j = j + 1;
    }
    j
}

/// Parses the digit run over `[start, end)` as a decimal number, refusing a
/// value above `cap`.
pub fn parse_digits(s: &[u8], start: usize, end: usize, cap: u64) -> (r: Option<u64>)
    requires
        start <= end <= s@.len(),
        all_digits(s@, start as int, end as int),
    ensures
        match r {
            Some(v) => v == digits_val(s@.subrange(start as int, end as int)) && v <= cap,
            None => digits_val(s@.subrange(start as int, end as int)) > cap,
        },
{
    let mut acc: u64 = 0;
    let mut j: usize = start;
    proof {
        assert(s@.subrange(start as int, start as int) =~= Seq::<u8>::empty());
    }
    while j < end
        invariant
            start <= j <= end <= s@.len(),
            all_digits(s@, start as int, end as int),
            acc <= cap,
            acc == digits_val(s@.subrange(start as int, j as int)),
        decreases end - j,
    {
        assert(is_digit(s@[j as int]));
        let d: u8 = s[j] - 48;
        let t: u128 = acc as u128 * 10 + d as u128;
        proof {
            lemma_digits_val_step(s@, start as int, j as int);
        }
        if t > cap as u128 {
            proof {
                lemma_digits_val_grows(s@, start as int, j + 1, end as int);
            }
            return None;
        }
        acc = t as u64;
        j = j + 1;
    }
    Some(acc)
}

/// Appends the decimal digits of `n` to `out`.
pub fn push_decimal(out: &mut Vec<u8>, n: u64)
    ensures
        final(out)@ == old(out)@ + dec_digits(n as int),
    decreases n,
{
    if n < 10 {
        out.push(48 + n as u8);
        proof {
            assert(out@ =~= old(out)@ + dec_digits(n as int));
        }
    } else {
        push_decimal(out, n / 10);
        out.push(48 + (n % 10) as u8);
        proof {
            assert(out@ =~= old(out)@ + dec_digits(n as int));
        }
    }
}

} // verus!
