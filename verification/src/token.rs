//! The row tokenizer and the escape table.

use vstd::prelude::*;

verus! {

use crate::text::chars_of;
use crate::text::string_of;

/// The character an escape introducer turns the following character into.
pub open spec fn esc(c: char) -> char {
    if c == 'n' {
        '\n'
    } else if c == 't' {
        '\t'
    } else if c == 'r' {
        '\r'
    } else {
        c
    }
}

/// The resolution of one escaped character: `n`, `t` and `r` name newline,
/// tab and carriage return; any other character stands for itself.
pub fn unescape_char(c: char) -> (r: char)
    ensures
        r == esc(c),
{
    match c {
        'n' => '\n',
        't' => '\t',
        'r' => '\r',
        _ => c,
    }
}

/// The rest of a token's text with its backslash escapes resolved; `acc`
/// holds what is already resolved, `escaped` whether a backslash was just
/// read.  A trailing lone backslash is dropped.
pub open spec fn unesc_from(s: Seq<char>, i: int, acc: Seq<char>, escaped: bool) -> Seq<char>
    decreases s.len() - i,
        when 0 <= i <= s.len()
{
    if i >= s.len() {
        acc
    } else if escaped {
        unesc_from(s, i + 1, acc.push(esc(s[i])), false)
    } else if s[i] == '\\' {
        unesc_from(s, i + 1, acc, true)
    } else {
        unesc_from(s, i + 1, acc.push(s[i]), false)
    }
}

/// A token's text with its backslash escapes resolved.
pub open spec fn unescape(s: Seq<char>) -> Seq<char> {
    unesc_from(s, 0, Seq::empty(), false)
}

pub fn unescape_string(value: &str) -> (r: String)
    ensures
        r@ == unescape(value@),
{
    let chars = chars_of(value);
    let mut acc: Vec<char> = Vec::new();
    let mut escaped = false;
    let mut i: usize = 0;
    while i < chars.len()
        invariant
            i <= chars.len(),
            chars@ == value@,
            unescape(value@) == unesc_from(value@, i as int, acc@, escaped),
        decreases chars.len() - i,
    {
        let c = chars[i];
        if escaped {
            acc.push(unescape_char(c));
            escaped = false;
        } else if c == '\\' {
            escaped = true;
        } else {
            acc.push(c);
        }
        i += 1;
    }
    string_of(&acc)
}

/// The rest of a row cut into tokens: `cur` holds the current token's text so
/// far, `in_quote` and `escaped` the tokenizer's two flags.  At the end the
/// final token is kept when it is non-empty or the line ends in a separator.
pub open spec fn split_from(
    s: Seq<char>,
    i: int,
    cur: Seq<char>,
    in_quote: bool,
    escaped: bool,
) -> Seq<Seq<char>>
    decreases s.len() - i,
        when 0 <= i <= s.len()
{
    if i >= s.len() {
        if cur.len() > 0 || (s.len() > 0 && s.last() == '|') {
            seq![cur]
        } else {
            Seq::empty()
        }
    } else if escaped {
        split_from(s, i + 1, cur.push(esc(s[i])), in_quote, false)
    } else if s[i] == '\\' {
        split_from(s, i + 1, cur, in_quote, true)
    } else if s[i] == '"' {
        split_from(s, i + 1, cur, !in_quote, false)
    } else if s[i] == '|' && !in_quote {
        seq![cur] + split_from(s, i + 1, Seq::empty(), in_quote, false)
    } else {
        split_from(s, i + 1, cur.push(s[i]), in_quote, false)
    }
}

/// One row's raw text cut into positional tokens: `|` separates tokens
/// outside quotes, quote marks are structural and never kept, and backslash
/// escapes are resolved as they are read.
pub open spec fn split_row_spec(s: Seq<char>) -> Seq<Seq<char>> {
    split_from(s, 0, Seq::empty(), false, false)
}

pub fn split_row(line: &str) -> (r: Vec<String>)
    ensures
        r.deep_view() == split_row_spec(line@),
{
    let chars = chars_of(line);
    let mut values: Vec<String> = Vec::new();
    let mut cur: Vec<char> = Vec::new();
    let mut in_quote = false;
    let mut escaped = false;
    let mut i: usize = 0;
    proof {
        assert(values.deep_view() + split_row_spec(line@) =~= split_row_spec(line@));
    }
    while i < chars.len()
        invariant
            i <= chars.len(),
            chars@ == line@,
            split_row_spec(line@) == values.deep_view() + split_from(
                line@,
                i as int,
                cur@,
                in_quote,
                escaped,
            ),
        decreases chars.len() - i,
    {
        let c = chars[i];
        if escaped {
            cur.push(unescape_char(c));
            escaped = false;
        } else if c == '\\' {
            escaped = true;
        } else if c == '"' {
            in_quote = !in_quote;
        } else if c == '|' && !in_quote {
            let tok = string_of(&cur);
            let ghost prev = values.deep_view();
            let ghost rest = split_from(line@, i as int + 1, Seq::<char>::empty(), in_quote, false);
            values.push(tok);
            proof {
                assert(values.deep_view() =~= prev.push(cur@));
                assert(prev + (seq![cur@] + rest) =~= prev.push(cur@) + rest);
            }
            cur = Vec::new();
        } else {
            cur.push(c);
        }
        i += 1;
    }
    if cur.len() > 0 || (chars.len() > 0 && chars[chars.len() - 1] == '|') {
        let tok = string_of(&cur);
        let ghost prev = values.deep_view();
        values.push(tok);
        proof {
            assert(values.deep_view() =~= prev.push(cur@));
            assert(prev + seq![cur@] =~= prev.push(cur@));
        }
    } else {
        proof {
            assert(values.deep_view() + Seq::<Seq<char>>::empty() =~= values.deep_view());
        }
    }
    values
}

} // verus!
