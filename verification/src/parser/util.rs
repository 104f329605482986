//! Shared lexical scanning: whitespace and decimal digit runs.

use vstd::prelude::*;

verus! {

/// The whitespace characters the grammars treat as insignificant.
pub open spec fn is_space_char(c: char) -> bool {
    c == ' ' || c == '\t' || c == '\n' || c == '\r'
}

/// First position at or after `i` that does not hold whitespace.
pub open spec fn ws_end(t: Seq<char>, i: int) -> int
    decreases t.len() - i,
{
    if 0 <= i < t.len() && is_space_char(t[i]) {
        ws_end(t, i + 1)
    } else {
        i
    }
}

/// `ws_end` moves forward, never past the end.
pub proof fn lemma_ws_end(t: Seq<char>, i: int)
    requires
        0 <= i <= t.len(),
    ensures
        i <= ws_end(t, i) <= t.len(),
    decreases t.len() - i,
{
    if i < t.len() && is_space_char(t[i]) {
        lemma_ws_end(t, i + 1);
    }
}

/// Last position at or before `j` such that no whitespace stands right
/// before it.
pub open spec fn ws_rend(t: Seq<char>, j: int) -> int
    decreases j,
{
    if 0 < j <= t.len() && is_space_char(t[j - 1]) {
        ws_rend(t, j - 1)
    } else {
        j
    }
}

/// `ws_rend` moves backward, never below zero.
pub proof fn lemma_ws_rend(t: Seq<char>, j: int)
    requires
        0 <= j <= t.len(),
    ensures
        0 <= ws_rend(t, j) <= j,
    decreases j,
{
    if 0 < j && is_space_char(t[j - 1]) {
        lemma_ws_rend(t, j - 1);
    }
}

/// Whether `c` is insignificant whitespace.
pub fn is_space(c: char) -> (r: bool)
    ensures
        r == is_space_char(c),
{
    c == ' ' || c == '\t' || c == '\n' || c == '\r'
}

/// Skips whitespace from position `i`.
pub fn skip_ws(s: &str, i: usize) -> (j: usize)
    requires
        i <= s@.len(),
    ensures
        j as int == ws_end(s@, i as int),
        i <= j <= s@.len(),
{
    let n = s.unicode_len();
    let mut j = i;
    while j < n && is_space(s.get_char(j))
        invariant
            i <= j <= n,
            n == s@.len(),
            ws_end(s@, i as int) == ws_end(s@, j as int),
        decreases n - j,
    {
        j += 1;
    }
    j
}

/// Skips whitespace backward from position `j`.
pub fn skip_ws_rev(s: &str, j: usize) -> (r: usize)
    requires
        j <= s@.len(),
    ensures
        r as int == ws_rend(s@, j as int),
        r <= j,
{
    let mut k = j;
    while k > 0 && is_space(s.get_char(k - 1))
        invariant
            k <= j,
            j <= s@.len(),
            ws_rend(s@, j as int) == ws_rend(s@, k as int),
        decreases k,
    {
        k -= 1;
    }
    k
}

/// The decimal digits.
pub open spec fn is_digit_char(c: char) -> bool {
    '0' <= c && c <= '9'
}

/// The numeric value of one decimal digit.
pub open spec fn digit_val(c: char) -> nat {
    (c as int - '0' as int) as nat
}

/// First position at or after `i` that does not hold a decimal digit.
pub open spec fn digits_end(t: Seq<char>, i: int) -> int
    decreases t.len() - i,
{
    if 0 <= i < t.len() && is_digit_char(t[i]) {
        digits_end(t, i + 1)
    } else {
        i
    }
}

/// `digits_end` moves forward, never past the end.
pub proof fn lemma_digits_end(t: Seq<char>, i: int)
    requires
        0 <= i <= t.len(),
    ensures
        i <= digits_end(t, i) <= t.len(),
        forall|k: int| i <= k < digits_end(t, i) ==> is_digit_char(t[k]),
    decreases t.len() - i,
{
    if i < t.len() && is_digit_char(t[i]) {
        lemma_digits_end(t, i + 1);
    }
}

/// Whether `c` is a decimal digit.
pub fn is_digit(c: char) -> (r: bool)
    ensures
        r == is_digit_char(c),
{
    c >= '0' && c <= '9'
}

/// Scans the digit run starting at `i`.
pub fn scan_digits(s: &str, i: usize) -> (j: usize)
    requires
        i <= s@.len(),
    ensures
        j as int == digits_end(s@, i as int),
        i <= j <= s@.len(),
{
    let n = s.unicode_len();
    let mut j = i;
    while j < n && is_digit(s.get_char(j))
        invariant
            i <= j <= n,
            n == s@.len(),
            digits_end(s@, i as int) == digits_end(s@, j as int),
        decreases n - j,
    {
        j += 1;
    }
    j
}

/// A digit run bounded by a non-digit (or the end) is exactly what
/// `digits_end` finds.
pub proof fn lemma_digits_end_split(t: Seq<char>, i: int, e: int)
    requires
        0 <= i <= e <= t.len(),
        forall|j: int| i <= j < e ==> is_digit_char(#[trigger] t[j]),
        e == t.len() || !is_digit_char(t[e]),
    ensures
        digits_end(t, i) == e,
    decreases e - i,
{
    if i < e {
        lemma_digits_end_split(t, i + 1, e);
    }
}

/// The value of the digit run `t[i..j]`, read in base ten.
pub open spec fn digits_val(t: Seq<char>, i: int, j: int) -> nat
    decreases j - i,
{
    if i >= j {
        0
    } else {
        digits_val(t, i, j - 1) * 10 + digit_val(t[j - 1])
    }
}

/// A longer digit run never has a smaller value.
pub proof fn lemma_digits_val_grows(t: Seq<char>, i: int, a: int, b: int)
    requires
        i <= a <= b,
    ensures
        digits_val(t, i, a) <= digits_val(t, i, b),
    decreases b - a,
{
    if a < b {
        lemma_digits_val_grows(t, i, a, b - 1);
        assert(digits_val(t, i, b - 1) * 10 >= digits_val(t, i, b - 1)) by (nonlinear_arith);
    }
}

/// The value of the digit run `t[i..j]` where it fits in `usize`.
pub fn digit_run_value(s: &str, i: usize, j: usize) -> (r: Option<usize>)
    requires
        i <= j,
        j <= s@.len(),
        forall|k: int| i <= k < j ==> is_digit_char(s@[k]),
    ensures
        match r {
            Some(v) => v as nat == digits_val(s@, i as int, j as int),
            None => digits_val(s@, i as int, j as int) > usize::MAX,
        },
{
    let mut v: usize = 0;
    let mut k = i;
    while k < j
        invariant
            i <= k <= j,
            j <= s@.len(),
            forall|m: int| i <= m < j ==> is_digit_char(s@[m]),
            v as nat == digits_val(s@, i as int, k as int),
        decreases j - k,
    {
        let c = s.get_char(k);
        let d = (c as u32) as usize;
        let d0 = ('0' as u32) as usize;
        proof {
            assert(is_digit_char(s@[k as int]));
        }
        let dv: usize = d - d0;
        proof {
            assert(dv as nat == digit_val(s@[k as int]));
        }
        if v > (usize::MAX - dv) / 10 {
            proof {
                assert(digits_val(s@, i as int, k + 1 as int) == v as nat * 10 + dv as nat);
                assert(v as nat * 10 + dv as nat > usize::MAX as nat) by (nonlinear_arith)
                    requires
                        v as nat > ((usize::MAX - dv) as nat) / 10,
                        dv <= usize::MAX,
                ;
                lemma_digits_val_grows(s@, i as int, k + 1, j as int);
            }
            return None;
        }
        proof {
            assert(v as nat * 10 + dv as nat <= usize::MAX as nat) by (nonlinear_arith)
                requires
                    v as nat <= ((usize::MAX - dv) as nat) / 10,
                    dv <= usize::MAX,
            ;
        }
        v = v * 10 + dv;
        k += 1;
    }
    Some(v)
}

/// Splits `s` at character position `j`: the remainder first, the consumed
/// prefix second.
pub fn split_at_pos<'a>(s: &'a str, j: usize) -> (r: (&'a str, &'a str))
    requires
        j as int <= s@.len(),
    ensures
        r.0@ == s@.subrange(j as int, s@.len() as int),
        r.1@ == s@.subrange(0, j as int),
{
    let n = s.unicode_len();
    (s.substring_char(j, n), s.substring_char(0, j))
}

} // verus!
