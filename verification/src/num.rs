//! Decimal digits, 64-bit integer parsing, and the float literal grammar.

use vstd::prelude::*;

verus! {

/// An ASCII decimal digit.
pub open spec fn is_digit(c: char) -> bool {
    0x30 <= c as u32 && c as u32 <= 0x39
}

pub fn is_digit_char(c: char) -> (r: bool)
    ensures
        r == is_digit(c),
{
    let u = c as u32;
    0x30 <= u && u <= 0x39
}

/// The value of one decimal digit.
pub open spec fn digit_val(c: char) -> int {
    c as u32 - 0x30
}

/// The value of a run of decimal digits, most significant first.
pub open spec fn digits_val(s: Seq<char>) -> int
    decreases s.len(),
{
    if s.len() == 0 {
        0
    } else {
        digits_val(s.drop_last()) * 10 + digit_val(s.last())
    }
}

/// Every character of the sequence is a decimal digit.
pub open spec fn all_digits(s: Seq<char>) -> bool {
    forall|i: int| 0 <= i < s.len() ==> is_digit(s[i])
}

pub proof fn lemma_digits_val_nonneg(s: Seq<char>)
    requires
        all_digits(s),
    ensures
        digits_val(s) >= 0,
    decreases s.len(),
{
    if s.len() > 0 {
        let t = s.drop_last();
        assert forall|i: int| 0 <= i < t.len() implies is_digit(t[i]) by {
            assert(t[i] == s[i]);
        }
        lemma_digits_val_nonneg(t);
        assert(is_digit(s.last()));
    }
}

/// The value of a digit run never falls when more digits follow.
pub proof fn lemma_digits_val_prefix(s: Seq<char>, k: int)
    requires
        all_digits(s),
        0 <= k <= s.len(),
    ensures
        digits_val(s.subrange(0, k)) <= digits_val(s),
    decreases s.len(),
{
    if k == s.len() {
        assert(s.subrange(0, k) =~= s);
    } else {
        let t = s.drop_last();
        assert forall|i: int| 0 <= i < t.len() implies is_digit(t[i]) by {
            assert(t[i] == s[i]);
        }
        assert(t.subrange(0, k) =~= s.subrange(0, k));
        lemma_digits_val_prefix(t, k);
        lemma_digits_val_nonneg(t);
        assert(is_digit(s.last()));
    }
}

/// The value of the digits in `[start, end)` of `chars`, unless it exceeds
/// `limit`.
#[verifier::loop_isolation(false)]
pub fn digits_capped(chars: &Vec<char>, start: usize, end: usize, limit: u64) -> (r: Option<u64>)
    requires
        start <= end <= chars@.len(),
        forall|i: int| start <= i < end ==> is_digit(chars@[i]),
    ensures
        ({
            let ds = chars@.subrange(start as int, end as int);
            match r {
                Some(v) => digits_val(ds) <= limit && v == digits_val(ds),
                None => digits_val(ds) > limit,
            }
        }),
{
    let ghost ds = chars@.subrange(start as int, end as int);
    let mut acc: u64 = 0;
    let mut i: usize = start;
    proof {
        assert(chars@.subrange(start as int, start as int) =~= Seq::<char>::empty());
    }
    while i < end
        invariant
            start <= i <= end <= chars@.len(),
            forall|k: int| start <= k < end ==> is_digit(chars@[k]),
            acc <= limit,
            acc == digits_val(chars@.subrange(start as int, i as int)),
        decreases end - i,
    {
        let c = chars[i];
        assert(is_digit(chars@[i as int]));
        let d: u64 = (c as u32 - 0x30) as u64;
        let wide: u128 = acc as u128 * 10 + d as u128;
        proof {
            let p = chars@.subrange(start as int, i as int + 1);
            assert(p.drop_last() =~= chars@.subrange(start as int, i as int));
            assert(p.last() == chars@[i as int]);
            assert(digits_val(p) == acc * 10 + d);
        }
        if wide > limit as u128 {
            proof {
                let p = chars@.subrange(start as int, i as int + 1);
                assert forall|k: int| 0 <= k < ds.len() implies is_digit(ds[k]) by {
                    assert(ds[k] == chars@[start + k]);
                }
                assert(ds.subrange(0, i as int + 1 - start) =~= p);
                lemma_digits_val_prefix(ds, i as int + 1 - start);
            }
            return None;
        }
        acc = wide as u64;
        i += 1;
    }
    Some(acc)
}

/// The 64-bit signed integer a token denotes, by the decimal grammar: an
/// optional sign, then one or more ASCII digits, the value within the type's
/// range.
pub open spec fn parse_i64_spec(s: Seq<char>) -> Option<i64> {
    let neg = s.len() > 0 && s[0] == '-';
    let ds = if s.len() > 0 && (s[0] == '+' || s[0] == '-') {
        s.drop_first()
    } else {
        s
    };
    if ds.len() > 0 && all_digits(ds) {
        if neg {
            if -digits_val(ds) >= i64::MIN {
                Some((-digits_val(ds)) as i64)
            } else {
                None
            }
        } else {
            if digits_val(ds) <= i64::MAX {
                Some(digits_val(ds) as i64)
            } else {
                None
            }
        }
    } else {
        None
    }
}

#[verifier::loop_isolation(false)]
pub fn parse_i64(chars: &Vec<char>) -> (r: Option<i64>)
    ensures
        r == parse_i64_spec(chars@),
{
    let n = chars.len();
    let has_sign = n > 0 && (chars[0] == '+' || chars[0] == '-');
    let neg = has_sign && chars[0] == '-';
    let start: usize = if has_sign {
        1
    } else {
        0
    };
    let ghost ds = if has_sign {
        chars@.drop_first()
    } else {
        chars@
    };
    proof {
        if has_sign {
            assert(ds =~= chars@.subrange(1, n as int));
        } else {
            assert(chars@.subrange(0, n as int) =~= chars@);
        }
    }
    if start >= n {
        return None;
    }
    let mut i: usize = start;
    while i < n
        invariant
            start <= i <= n,
            n == chars@.len(),
            start == if has_sign { 1int } else { 0int },
            ds == chars@.subrange(start as int, n as int),
            forall|k: int| start <= k < i ==> is_digit(chars@[k]),
        decreases n - i,
    {
        if !is_digit_char(chars[i]) {
            proof {
                assert(ds[i - start] == chars@[i as int]);
            }
            return None;
        }
        i += 1;
    }
    proof {
        assert forall|k: int| 0 <= k < ds.len() implies is_digit(ds[k]) by {
            assert(ds[k] == chars@[start + k]);
        }
    }
    let limit: u64 = if neg {
        9223372036854775808
    } else {
        9223372036854775807
    };
    match digits_capped(chars, start, n, limit) {
        None => None,
        Some(v) => {
            if neg {
                if v == 9223372036854775808 {
                    Some(i64::MIN)
                } else {
                    Some(-(v as i64))
                }
            } else {
                Some(v as i64)
            }
        },
    }
}

/// The length of the run of decimal digits starting at `i`.
pub open spec fn digit_run(s: Seq<char>, i: int) -> int
    decreases s.len() - i,
        when 0 <= i <= s.len()
{
    if i < s.len() && is_digit(s[i]) {
        1 + digit_run(s, i + 1)
    } else {
        0
    }
}

/// The position just after the run of decimal digits starting at `from`.
#[verifier::loop_isolation(false)]
pub fn scan_digits(chars: &Vec<char>, from: usize) -> (r: usize)
    requires
        from <= chars@.len(),
    ensures
        from <= r <= chars@.len(),
        r - from == digit_run(chars@, from as int),
        forall|k: int| from <= k < r ==> is_digit(chars@[k]),
        r < chars@.len() ==> !is_digit(chars@[r as int]),
{
    let mut j = from;
    while j < chars.len() && is_digit_char(chars[j])
        invariant
            from <= j <= chars@.len(),
            digit_run(chars@, from as int) == (j - from) + digit_run(chars@, j as int),
            forall|k: int| from <= k < j ==> is_digit(chars@[k]),
        decreases chars@.len() - j,
    {
        j += 1;
    }
    j
}

/// A character matches a lower-case letter, case-insensitively.
pub open spec fn eq_ci(c: char, l: char) -> bool {
    c == l || c as u32 + 0x20 == l as u32
}

pub fn eq_ci_char(c: char, l: char) -> (r: bool)
    ensures
        r == eq_ci(c, l),
{
    c == l || c as u32 + 0x20 == l as u32
}

/// The sequence spells the given lower-case word, case-insensitively.
pub open spec fn matches_ci(s: Seq<char>, w: Seq<char>) -> bool {
    s.len() == w.len() && forall|i: int| 0 <= i < s.len() ==> eq_ci(s[i], w[i])
}

pub open spec fn w_inf() -> Seq<char> {
    seq!['i', 'n', 'f']
}

pub open spec fn w_infinity() -> Seq<char> {
    seq!['i', 'n', 'f', 'i', 'n', 'i', 't', 'y']
}

pub open spec fn w_nan() -> Seq<char> {
    seq!['n', 'a', 'n']
}

/// The sequence spells `inf`, `infinity` or `nan`, case-insensitively.
fn ci_keyword(t: &Vec<char>) -> (r: bool)
    ensures
        r == (matches_ci(t@, w_inf()) || matches_ci(t@, w_infinity()) || matches_ci(t@, w_nan())),
{
    if t.len() == 3 {
        let inf = eq_ci_char(t[0], 'i') && eq_ci_char(t[1], 'n') && eq_ci_char(t[2], 'f');
        let nan = eq_ci_char(t[0], 'n') && eq_ci_char(t[1], 'a') && eq_ci_char(t[2], 'n');
        proof {
            if matches_ci(t@, w_inf()) {
                assert(eq_ci(t@[0], 'i') && eq_ci(t@[1], 'n') && eq_ci(t@[2], 'f'));
            }
            if matches_ci(t@, w_nan()) {
                assert(eq_ci(t@[0], 'n') && eq_ci(t@[1], 'a') && eq_ci(t@[2], 'n'));
            }
        }
        inf || nan
    } else if t.len() == 8 {
        let infinity = eq_ci_char(t[0], 'i') && eq_ci_char(t[1], 'n') && eq_ci_char(t[2], 'f')
            && eq_ci_char(t[3], 'i') && eq_ci_char(t[4], 'n') && eq_ci_char(t[5], 'i')
            && eq_ci_char(t[6], 't') && eq_ci_char(t[7], 'y');
        proof {
            if matches_ci(t@, w_infinity()) {
                assert(eq_ci(t@[0], 'i') && eq_ci(t@[1], 'n') && eq_ci(t@[2], 'f') && eq_ci(
                    t@[3],
                    'i',
                ) && eq_ci(t@[4], 'n') && eq_ci(t@[5], 'i') && eq_ci(t@[6], 't') && eq_ci(
                    t@[7],
                    'y',
                ));
            }
        }
        infinity
    } else {
        false
    }
}

/// The exponent part of a float literal: `e` or `E`, an optional sign, then
/// one or more digits reaching the token's end.
pub open spec fn is_exponent(t: Seq<char>, i: int) -> bool {
    0 <= i && i < t.len() && (t[i] == 'e' || t[i] == 'E') && {
        let j = if i + 1 < t.len() && (t[i + 1] == '+' || t[i + 1] == '-') {
            i + 2
        } else {
            i + 1
        };
        let d = digit_run(t, j);
        d >= 1 && j + d == t.len()
    }
}

fn check_exponent(t: &Vec<char>, i: usize) -> (r: bool)
    requires
        i <= t@.len(),
    ensures
        r == is_exponent(t@, i as int),
{
    if i >= t.len() {
        return false;
    }
    let c = t[i];
    if c != 'e' && c != 'E' {
        return false;
    }
    let j: usize = if i + 1 < t.len() && (t[i + 1] == '+' || t[i + 1] == '-') {
        i + 2
    } else {
        i + 1
    };
    let k = scan_digits(t, j);
    k > j && k == t.len()
}

/// A decimal number: digits, an optional point with digits on at least one
/// side, and an optional exponent.
pub open spec fn is_number(t: Seq<char>) -> bool {
    let d1 = digit_run(t, 0);
    if d1 < t.len() && t[d1] == '.' {
        let d2 = digit_run(t, d1 + 1);
        let m = d1 + 1 + d2;
        (d1 >= 1 || d2 >= 1) && (m == t.len() || is_exponent(t, m))
    } else {
        d1 >= 1 && (d1 == t.len() || is_exponent(t, d1))
    }
}

/// A token accepted as a 64-bit float literal, by the documented grammar: an
/// optional sign, then `inf`, `infinity` or `nan` (case-insensitively) or a
/// decimal number.  Acceptance depends on the token's text alone; out-of-range
/// magnitudes round to infinity rather than fail.
pub open spec fn is_float_token(s: Seq<char>) -> bool {
    let t = if s.len() > 0 && (s[0] == '+' || s[0] == '-') {
        s.drop_first()
    } else {
        s
    };
    matches_ci(t, w_inf()) || matches_ci(t, w_infinity()) || matches_ci(t, w_nan()) || is_number(t)
}

/// A copy of the characters from `from` to the end.
#[verifier::loop_isolation(false)]
fn copy_from(chars: &Vec<char>, from: usize) -> (r: Vec<char>)
    requires
        from <= chars@.len(),
    ensures
        r@ == chars@.subrange(from as int, chars@.len() as int),
{
    let mut r: Vec<char> = Vec::new();
    let mut i: usize = from;
    proof {
        assert(r@ =~= chars@.subrange(from as int, from as int));
    }
    while i < chars.len()
        invariant
            from <= i <= chars@.len(),
            r@ == chars@.subrange(from as int, i as int),
        decreases chars@.len() - i,
    {
        r.push(chars[i]);
        proof {
            assert(r@ =~= chars@.subrange(from as int, i as int + 1));
        }
        i += 1;
    }
    r
}

#[verifier::loop_isolation(false)]
#[verifier::rlimit(30)]
pub fn is_float_literal(chars: &Vec<char>) -> (r: bool)
    ensures
        r == is_float_token(chars@),
{
    let n = chars.len();
    let has_sign = n > 0 && (chars[0] == '+' || chars[0] == '-');
    let t = if has_sign {
        copy_from(chars, 1)
    } else {
        copy_from(chars, 0)
    };
    proof {
        if has_sign {
            assert(chars@.drop_first() =~= chars@.subrange(1, n as int));
        } else {
            assert(chars@.subrange(0, n as int) =~= chars@);
        }
    }
    if ci_keyword(&t) {
        return true;
    }
    let j1 = scan_digits(&t, 0);
    if j1 < t.len() && t[j1] == '.' {
        let j2 = scan_digits(&t, j1 + 1);
        if j1 == 0 && j2 == j1 + 1 {
            return false;
        }
        if j2 == t.len() {
            return true;
        }
        check_exponent(&t, j2)
    } else {
        if j1 == 0 {
            return false;
        }
        if j1 == t.len() {
            return true;
        }
        check_exponent(&t, j1)
    }
}

} // verus!
