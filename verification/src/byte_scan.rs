//! Byte-level scanning primitives shared by the codec: decimal digit runs,
//! first occurrence of a byte or of a byte pattern, and slice equality.
//!
//! Every executable function is proved against a spec function that defines
//! the same scan mathematically over `Seq<u8>`.

use vstd::prelude::*;

verus! {

/// ASCII decimal digit.
pub open spec fn is_digit(b: u8) -> bool {
    48 <= b && b <= 57
}

/// Numeric value of one ASCII digit.
pub open spec fn digit_val(b: u8) -> nat {
    (b - 48) as nat
}

/// Value of a digit string, most significant digit first.
pub open spec fn dec_value(s: Seq<u8>) -> nat
    decreases s.len(),
{
    if s.len() == 0 {
        0
    } else {
        dec_value(s.drop_last()) * 10 + digit_val(s.last())
    }
}

/// Canonical decimal digit string of a number (no leading zeros except "0").
pub open spec fn dec_digits(n: nat) -> Seq<u8>
    decreases n,
{
    if n < 10 {
        seq![(n + 48) as u8]
    } else {
        dec_digits(n / 10).push((n % 10 + 48) as u8)
    }
}

/// All bytes of a digit string are digits.
pub open spec fn all_digits(s: Seq<u8>) -> bool {
    forall|i: int| 0 <= i < s.len() ==> is_digit(#[trigger] s[i])
}

pub proof fn lemma_dec_digits_wf(n: nat)
    ensures
        dec_digits(n).len() >= 1,
        all_digits(dec_digits(n)),
        dec_value(dec_digits(n)) == n,
    decreases n,
{
    if n < 10 {
        let s = dec_digits(n);
        assert(s =~= seq![(n + 48) as u8]);
        assert(s.drop_last() =~= Seq::<u8>::empty());
        assert(s.last() == (n + 48) as u8);
        assert(digit_val((n + 48) as u8) == n);
        assert(dec_value(s) == dec_value(s.drop_last()) * 10 + digit_val(s.last()));
        assert(dec_value(s.drop_last()) == 0);
        assert(dec_value(s) == n);
    } else {
        lemma_dec_digits_wf(n / 10);
        let p = dec_digits(n / 10);
        let s = dec_digits(n);
        assert(s =~= p.push((n % 10 + 48) as u8));
        assert(s.drop_last() =~= p);
        assert(all_digits(s)) by {
            assert(forall|i: int|
                0 <= i < s.len() ==> s[i] == (if i < p.len() {
                    p[i]
                } else {
                    (n % 10 + 48) as u8
                }));
        }
        assert(dec_value(s) == dec_value(p) * 10 + (n % 10)) by {
            assert(digit_val((n % 10 + 48) as u8) == n % 10);
        }
        assert(dec_value(p) == n / 10);
        assert(n / 10 * 10 + n % 10 == n) by (nonlinear_arith);
    }
}

/// End of the maximal digit run that starts at `i`.
pub open spec fn digit_run_end(s: Seq<u8>, i: int) -> int
    decreases s.len() - i,
{
    if i < 0 || i >= s.len() || !is_digit(s[i]) {
        i
    } else {
        digit_run_end(s, i + 1)
    }
}

pub proof fn lemma_digit_run_end_bounds(s: Seq<u8>, i: int)
    requires
        0 <= i <= s.len(),
    ensures
        i <= digit_run_end(s, i) <= s.len(),
        forall|j: int| i <= j < digit_run_end(s, i) ==> is_digit(#[trigger] s[j]),
        digit_run_end(s, i) == s.len() || !is_digit(s[digit_run_end(s, i)]),
    decreases s.len() - i,
{
    if i < s.len() && is_digit(s[i]) {
        lemma_digit_run_end_bounds(s, i + 1);
    }
}

/// On a string that is a digit run followed by a tail that is empty or does
/// not start with a digit, the maximal run from `i` ends exactly where the
/// digit part does.
pub proof fn lemma_digit_run_of_concat(s: Seq<u8>, i: int, d: Seq<u8>, t: Seq<u8>)
    requires
        0 <= i,
        i + d.len() + t.len() == s.len(),
        s.subrange(i, i + d.len() as int) =~= d,
        s.subrange(i + d.len() as int, s.len() as int) =~= t,
        all_digits(d),
        t.len() == 0 || !is_digit(t[0]),
    ensures
        digit_run_end(s, i) == i + d.len(),
        s.subrange(i, digit_run_end(s, i)) =~= d,
    decreases d.len(),
{
    if d.len() == 0 {
        if i < s.len() {
            assert(s[i] == t[0]);
        }
    } else {
        assert(s[i] == d[0]);
        assert(is_digit(d[0]));
        lemma_digit_run_of_concat(s, i + 1, d.subrange(1, d.len() as int), t);
    }
}

/// The digit-run value read back from `dec_digits(n)` is `n` again: digit
/// values compose positionally.
pub proof fn lemma_dec_value_subrange_extend(s: Seq<u8>, i: int, j: int)
    requires
        0 <= i <= j < s.len(),
    ensures
        dec_value(s.subrange(i, j + 1)) == dec_value(s.subrange(i, j)) * 10 + digit_val(s[j]),
{
    let a = s.subrange(i, j + 1);
    assert(a.drop_last() =~= s.subrange(i, j));
    assert(a.last() == s[j]);
}

/// First position at or after `from` holding byte `b`.
pub open spec fn find_byte_from(s: Seq<u8>, from: int, b: u8) -> Option<int>
    decreases s.len() - from,
{
    if from < 0 || from >= s.len() {
        None
    } else if s[from] == b {
        Some(from)
    } else {
        find_byte_from(s, from + 1, b)
    }
}

pub proof fn lemma_find_byte_from_props(s: Seq<u8>, from: int, b: u8)
    requires
        0 <= from <= s.len(),
    ensures
        match find_byte_from(s, from, b) {
            Some(k) => from <= k < s.len() && s[k] == b && forall|j: int|
                from <= j < k ==> s[j] != b,
            None => forall|j: int| from <= j < s.len() ==> s[j] != b,
        },
    decreases s.len() - from,
{
    if from < s.len() && s[from] != b {
        lemma_find_byte_from_props(s, from + 1, b);
    }
}

/// `pat` occurs in `s` starting at `i`.
pub open spec fn matches_at(s: Seq<u8>, pat: Seq<u8>, i: int) -> bool {
    0 <= i && i + pat.len() <= s.len() && s.subrange(i, i + pat.len() as int) =~= pat
}

/// First occurrence of `pat` at or after `from`.
pub open spec fn find_pat_from(s: Seq<u8>, pat: Seq<u8>, from: int) -> Option<int>
    decreases s.len() - from,
{
    if from < 0 || from + pat.len() > s.len() {
        None
    } else if matches_at(s, pat, from) {
        Some(from)
    } else {
        find_pat_from(s, pat, from + 1)
    }
}

pub proof fn lemma_find_pat_from_props(s: Seq<u8>, pat: Seq<u8>, from: int)
    requires
        0 <= from,
    ensures
        match find_pat_from(s, pat, from) {
            Some(k) => from <= k && matches_at(s, pat, k) && forall|j: int|
                from <= j < k ==> !matches_at(s, pat, j),
            None => forall|j: int| from <= j ==> !matches_at(s, pat, j),
        },
    decreases s.len() - from,
{
    if from + pat.len() > s.len() {
        assert forall|j: int| from <= j implies !matches_at(s, pat, j) by {}
    } else if !matches_at(s, pat, from) {
        lemma_find_pat_from_props(s, pat, from + 1);
    }
}

} // verus!
