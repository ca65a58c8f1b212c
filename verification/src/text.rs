//! Characters, whitespace, trimming, and the cut of a document into lines.

use vstd::prelude::*;

verus! {

use vstd::string::StrSliceExecFns;

/// A character of Unicode's `White_Space` set, the set that trimming removes.
pub open spec fn is_ws(c: char) -> bool {
    c == ' ' || c == '\t' || c == '\n' || c == '\r' || c as u32 == 0x0b || c as u32 == 0x0c
        || c as u32 == 0x85 || c as u32 == 0xa0 || c as u32 == 0x1680
        || (0x2000 <= c as u32 && c as u32 <= 0x200a) || c as u32 == 0x2028
        || c as u32 == 0x2029 || c as u32 == 0x202f || c as u32 == 0x205f || c as u32 == 0x3000
}

pub fn is_ws_char(c: char) -> (r: bool)
    ensures
        r == is_ws(c),
{
    let u = c as u32;
    u == 0x20 || u == 0x09 || u == 0x0a || u == 0x0d || u == 0x0b || u == 0x0c || u == 0x85
        || u == 0xa0 || u == 0x1680 || (0x2000 <= u && u <= 0x200a) || u == 0x2028 || u == 0x2029
        || u == 0x202f || u == 0x205f || u == 0x3000
}

/// The sequence with leading whitespace removed.
pub open spec fn trim_front(s: Seq<char>) -> Seq<char>
    decreases s.len(),
{
    if s.len() > 0 && is_ws(s[0]) {
        trim_front(s.drop_first())
    } else {
        s
    }
}

/// The sequence with trailing whitespace removed.
pub open spec fn trim_back(s: Seq<char>) -> Seq<char>
    decreases s.len(),
{
    if s.len() > 0 && is_ws(s.last()) {
        trim_back(s.drop_last())
    } else {
        s
    }
}

/// The sequence with the whitespace at both ends removed.
pub open spec fn trim(s: Seq<char>) -> Seq<char> {
    trim_back(trim_front(s))
}

proof fn lemma_trim_front_at(s: Seq<char>, a: int)
    requires
        0 <= a <= s.len(),
        forall|i: int| 0 <= i < a ==> is_ws(s[i]),
        a < s.len() ==> !is_ws(s[a]),
    ensures
        trim_front(s) == s.subrange(a, s.len() as int),
    decreases a,
{
    if a == 0 {
        assert(s.subrange(0, s.len() as int) =~= s);
    } else {
        let t = s.drop_first();
        assert forall|i: int| 0 <= i < a - 1 implies is_ws(t[i]) by {
            assert(t[i] == s[i + 1]);
        }
        assert(a - 1 < t.len() ==> t[a - 1] == s[a]);
        lemma_trim_front_at(t, a - 1);
        assert(t.subrange(a - 1, t.len() as int) =~= s.subrange(a, s.len() as int));
    }
}

proof fn lemma_trim_back_at(s: Seq<char>, b: int)
    requires
        0 <= b <= s.len(),
        forall|i: int| b <= i < s.len() ==> is_ws(s[i]),
        b > 0 ==> !is_ws(s[b - 1]),
    ensures
        trim_back(s) == s.subrange(0, b),
    decreases s.len() - b,
{
    if b == s.len() {
        assert(s.subrange(0, b) =~= s);
    } else {
        let t = s.drop_last();
        assert(is_ws(s.last()));
        assert forall|i: int| b <= i < t.len() implies is_ws(t[i]) by {
            assert(t[i] == s[i]);
        }
        assert(b > 0 ==> t[b - 1] == s[b - 1]);
        lemma_trim_back_at(t, b);
        assert(t.subrange(0, b) =~= s.subrange(0, b));
    }
}

/// A copy of the characters with the whitespace at both ends removed.
pub fn trim_chars(v: &Vec<char>) -> (r: Vec<char>)
    ensures
        r@ == trim(v@),
{
    let n = v.len();
    let mut a: usize = 0;
    while a < n && is_ws_char(v[a])
        invariant
            n == v.len(),
            a <= n,
            forall|i: int| 0 <= i < a ==> is_ws(v@[i]),
        decreases n - a,
    {
        a += 1;
    }
    let mut b: usize = n;
    while b > a && is_ws_char(v[b - 1])
        invariant
            n == v.len(),
            a <= b <= n,
            forall|i: int| b <= i < n ==> is_ws(v@[i]),
        decreases b,
    {
        b -= 1;
    }
    let mut r: Vec<char> = Vec::new();
    let mut i: usize = a;
    proof {
        assert(r@ =~= v@.subrange(a as int, a as int));
    }
    while i < b
        invariant
            n == v.len(),
            a <= i <= b <= n,
            r@ == v@.subrange(a as int, i as int),
        decreases b - i,
    {
        r.push(v[i]);
        proof {
            assert(r@ =~= v@.subrange(a as int, i as int + 1));
        }
        i += 1;
    }
    proof {
        lemma_trim_front_at(v@, a as int);
        let t = v@.subrange(a as int, n as int);
        assert forall|i: int| b - a <= i < t.len() implies is_ws(t[i]) by {
            assert(t[i] == v@[a + i]);
        }
        assert(b - a > 0 ==> t[b - a - 1] == v@[b - 1]);
        lemma_trim_back_at(t, b as int - a as int);
        assert(t.subrange(0, b as int - a as int) =~= v@.subrange(a as int, b as int));
    }
    r
}

/// All characters of a string slice, in order.
pub fn chars_of(s: &str) -> (r: Vec<char>)
    ensures
        r@ == s@,
{
    let n = s.unicode_len();
    let mut r: Vec<char> = Vec::new();
    let mut i: usize = 0;
    while i < n
        invariant
            n == s@.len(),
            i <= n,
            r@ == s@.subrange(0, i as int),
        decreases n - i,
    {
        let c = s.get_char(i);
        r.push(c);
        proof {
            assert(r@ =~= s@.subrange(0, i as int + 1));
        }
        i += 1;
    }
    proof {
        assert(s@.subrange(0, n as int) =~= s@);
    }
    r
}

/// Relies on `String::push`: appends the given character to the end of the string.
#[verifier::external_body]
fn push_char(s: &mut String, c: char)
    ensures
        final(s)@ == old(s)@.push(c),
{
    s.push(c);
}

/// A `String` holding exactly the given characters.
pub fn string_of(v: &Vec<char>) -> (s: String)
    ensures
        s@ == v@,
{
    let mut s = String::new();
    let mut i: usize = 0;
    proof {
        assert(s@ =~= v@.subrange(0, 0));
    }
    while i < v.len()
        invariant
            i <= v.len(),
            s@ == v@.subrange(0, i as int),
        decreases v.len() - i,
    {
        push_char(&mut s, v[i]);
        proof {
            assert(s@ =~= v@.subrange(0, i as int + 1));
        }
        i += 1;
    }
    proof {
        assert(v@.subrange(0, v@.len() as int) =~= v@);
    }
    s
}

/// A copy of the characters in `[from, to)`.
pub fn copy_range(v: &Vec<char>, from: usize, to: usize) -> (r: Vec<char>)
    requires
        from <= to <= v@.len(),
    ensures
        r@ == v@.subrange(from as int, to as int),
{
    let mut r: Vec<char> = Vec::new();
    let mut i: usize = from;
    proof {
        assert(r@ =~= v@.subrange(from as int, from as int));
    }
    while i < to
        invariant
            from <= i <= to <= v@.len(),
            r@ == v@.subrange(from as int, i as int),
        decreases to - i,
    {
        r.push(v[i]);
        proof {
            assert(r@ =~= v@.subrange(from as int, i as int + 1));
        }
        i += 1;
    }
    r
}

/// The first sequence begins with the second.
pub open spec fn starts_with(s: Seq<char>, p: Seq<char>) -> bool {
    p.len() <= s.len() && s.subrange(0, p.len() as int) == p
}

/// The keyword that opens a schema block.
pub open spec fn kw_schema() -> Seq<char> {
    seq!['@', 's', 'c', 'h', 'e', 'm', 'a']
}

/// The keyword that opens a data block.
pub open spec fn kw_data() -> Seq<char> {
    seq!['@', 'd', 'a', 't', 'a']
}

/// The line that closes a schema or data block.
pub open spec fn kw_end() -> Seq<char> {
    seq!['@', 'e', 'n', 'd']
}

pub fn starts_with_schema(v: &Vec<char>) -> (r: bool)
    ensures
        r == starts_with(v@, kw_schema()),
{
    proof {
        if starts_with(v@, kw_schema()) {
            assert forall|i: int| 0 <= i < 7 implies v@[i] == kw_schema()[i] by {
                assert(v@.subrange(0, 7)[i] == v@[i]);
            }
        }
    }
    if v.len() >= 7 && v[0] == '@' && v[1] == 's' && v[2] == 'c' && v[3] == 'h' && v[4] == 'e'
        && v[5] == 'm' && v[6] == 'a' {
        proof {
            assert(v@.subrange(0, 7) =~= kw_schema());
        }
        true
    } else {
        false
    }
}

pub fn starts_with_data(v: &Vec<char>) -> (r: bool)
    ensures
        r == starts_with(v@, kw_data()),
{
    proof {
        if starts_with(v@, kw_data()) {
            assert forall|i: int| 0 <= i < 5 implies v@[i] == kw_data()[i] by {
                assert(v@.subrange(0, 5)[i] == v@[i]);
            }
        }
    }
    if v.len() >= 5 && v[0] == '@' && v[1] == 'd' && v[2] == 'a' && v[3] == 't' && v[4] == 'a' {
        proof {
            assert(v@.subrange(0, 5) =~= kw_data());
        }
        true
    } else {
        false
    }
}

pub fn is_end_marker(v: &Vec<char>) -> (r: bool)
    ensures
        r == (v@ == kw_end()),
{
    if v.len() == 4 && v[0] == '@' && v[1] == 'e' && v[2] == 'n' && v[3] == 'd' {
        proof {
            assert(v@ =~= kw_end());
        }
        true
    } else {
        proof {
            if v@ == kw_end() {
                assert(v@[0] == '@' && v@[1] == 'e' && v@[2] == 'n' && v@[3] == 'd');
            }
        }
        false
    }
}

/// The rest of the document from position `i`, cut at newlines, each line
/// trimmed; `cur` holds the characters of the current line read so far.
pub open spec fn split_lines_from(s: Seq<char>, i: int, cur: Seq<char>) -> Seq<Seq<char>>
    decreases s.len() - i,
        when 0 <= i <= s.len()
{
    if i >= s.len() {
        seq![trim(cur)]
    } else if s[i] == '\n' {
        seq![trim(cur)] + split_lines_from(s, i + 1, Seq::empty())
    } else {
        split_lines_from(s, i + 1, cur.push(s[i]))
    }
}

/// The document cut at newlines, each line trimmed.
pub open spec fn lines_of(s: Seq<char>) -> Seq<Seq<char>> {
    split_lines_from(s, 0, Seq::empty())
}

/// The document's trimmed lines, as strings.
pub fn lines_vec(input: &str) -> (r: Vec<String>)
    ensures
        r.deep_view() == lines_of(input@),
{
    let chars = chars_of(input);
    let mut r: Vec<String> = Vec::new();
    let mut cur: Vec<char> = Vec::new();
    let mut i: usize = 0;
    proof {
        assert(r.deep_view() + split_lines_from(input@, 0, cur@) =~= lines_of(input@));
    }
    while i < chars.len()
        invariant
            i <= chars.len(),
            chars@ == input@,
            lines_of(input@) == r.deep_view() + split_lines_from(input@, i as int, cur@),
        decreases chars.len() - i,
    {
        let c = chars[i];
        if c == '\n' {
            let t = trim_chars(&cur);
            let line = string_of(&t);
            let ghost prev = r.deep_view();
            let ghost rest = split_lines_from(input@, i as int + 1, Seq::<char>::empty());
            r.push(line);
            proof {
                assert(r.deep_view() =~= prev.push(trim(cur@)));
                assert(prev + (seq![trim(cur@)] + rest) =~= prev.push(trim(cur@)) + rest);
            }
            cur = Vec::new();
        } else {
            cur.push(c);
        }
        i += 1;
    }
    let t = trim_chars(&cur);
    let line = string_of(&t);
    let ghost prev = r.deep_view();
    r.push(line);
    proof {
        assert(r.deep_view() =~= prev.push(trim(cur@)));
        assert(prev + seq![trim(cur@)] =~= prev.push(trim(cur@)));
    }
    r
}

} // verus!
