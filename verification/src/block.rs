//! The data block parser: header matching, schema resolution, and rows.

use vstd::prelude::*;

verus! {

use crate::model::AxonValue;
use crate::model::BlockView;
use crate::model::DataBlock;
use crate::model::ErrorView;
use crate::model::lemma_upsert_unique;
use crate::model::row_upsert;
use crate::model::unique_keys;
use crate::model::upsert_entry;
use crate::model::ParseError;
use crate::model::Row;
use crate::model::RowView;
use crate::model::Schema;
use crate::model::SchemaView;
use crate::model::ValueView;
use crate::num::digit_run;
use crate::num::digits_capped;
use crate::num::digits_val;
use crate::num::is_digit;
use crate::num::scan_digits;
use crate::text::chars_of;
use crate::text::copy_range;
use crate::text::is_end_marker;
use crate::text::is_ws;
use crate::text::is_ws_char;
use crate::text::kw_data;
use crate::text::kw_end;
use crate::text::string_of;
use crate::text::trim;
use crate::text::trim_chars;
use crate::token::split_row;
use crate::token::split_row_spec;
use crate::value::coerce_token;
use crate::value::parse_value;

pub uninterp spec fn is_unicode_alnum(c: char) -> bool;

/// Relies on `char::is_alphanumeric`: whether the character is a letter or
/// number by Unicode's general categories; the result depends on the
/// character alone.
#[verifier::external_body]
fn is_alnum_char(c: char) -> (r: bool)
    ensures
        r == is_unicode_alnum(c),
{
    c.is_alphanumeric()
}

/// A word character of a data header's schema name: an ASCII letter, digit
/// or underscore, or a non-ASCII letter or number.
pub open spec fn is_word(c: char) -> bool {
    (0x41 <= c as u32 && c as u32 <= 0x5a) || (0x61 <= c as u32 && c as u32 <= 0x7a) || (0x30 <= c
        as u32 && c as u32 <= 0x39) || c == '_' || (0x7f < c as u32 && is_unicode_alnum(c))
}

fn is_word_char(c: char) -> (r: bool)
    ensures
        r == is_word(c),
{
    let u = c as u32;
    if (0x41 <= u && u <= 0x5a) || (0x61 <= u && u <= 0x7a) || (0x30 <= u && u <= 0x39) || c
        == '_' {
        true
    } else if u > 0x7f {
        is_alnum_char(c)
    } else {
        false
    }
}

/// The length of the whitespace run starting at `i`.
pub open spec fn ws_run(s: Seq<char>, i: int) -> int
    decreases s.len() - i,
        when 0 <= i <= s.len()
{
    if i < s.len() && is_ws(s[i]) {
        1 + ws_run(s, i + 1)
    } else {
        0
    }
}

/// The length of the word-character run starting at `i`.
pub open spec fn word_run(s: Seq<char>, i: int) -> int
    decreases s.len() - i,
        when 0 <= i <= s.len()
{
    if i < s.len() && is_word(s[i]) {
        1 + word_run(s, i + 1)
    } else {
        0
    }
}

#[verifier::loop_isolation(false)]
fn scan_ws(l: &Vec<char>, from: usize) -> (r: usize)
    requires
        from <= l@.len(),
    ensures
        from <= r <= l@.len(),
        r - from == ws_run(l@, from as int),
{
    let mut j = from;
    while j < l.len() && is_ws_char(l[j])
        invariant
            from <= j <= l@.len(),
            ws_run(l@, from as int) == (j - from) + ws_run(l@, j as int),
        decreases l@.len() - j,
    {
        j += 1;
    }
    j
}

#[verifier::loop_isolation(false)]
fn scan_word(l: &Vec<char>, from: usize) -> (r: usize)
    requires
        from <= l@.len(),
    ensures
        from <= r <= l@.len(),
        r - from == word_run(l@, from as int),
{
    let mut j = from;
    while j < l.len() && is_word_char(l[j])
        invariant
            from <= j <= l@.len(),
            word_run(l@, from as int) == (j - from) + word_run(l@, j as int),
        decreases l@.len() - j,
    {
        j += 1;
    }
    j
}

/// The header match attempted at position `p`: the keyword, then at least
/// one whitespace character, a non-empty run of word characters as the name,
/// and a non-empty bracketed digit run as the count.  Text after the closing
/// bracket is ignored.
pub open spec fn try_header_at(s: Seq<char>, p: int) -> Option<(Seq<char>, Seq<char>)> {
    if 0 <= p && p + 5 <= s.len() && s.subrange(p, p + 5) == kw_data() {
        let w = ws_run(s, p + 5);
        let ns = p + 5 + w;
        let nw = word_run(s, ns);
        let ds = ns + nw + 1;
        let nd = digit_run(s, ds);
        if w >= 1 && nw >= 1 && ns + nw < s.len() && s[ns + nw] == '[' && nd >= 1 && ds + nd
            < s.len() && s[ds + nd] == ']' {
            Some((s.subrange(ns, ns + nw), s.subrange(ds, ds + nd)))
        } else {
            None
        }
    } else {
        None
    }
}

/// The leftmost successful header match at or after position `p`.
pub open spec fn find_header(s: Seq<char>, p: int) -> Option<(Seq<char>, Seq<char>)>
    decreases s.len() - p,
        when 0 <= p
{
    if p + 5 > s.len() {
        None
    } else if try_header_at(s, p) is Some {
        try_header_at(s, p)
    } else {
        find_header(s, p + 1)
    }
}

/// The schema name and digit count a data header line captures, if the line
/// matches `@data <name>[<digits>]` anywhere.
pub open spec fn match_data_header(s: Seq<char>) -> Option<(Seq<char>, Seq<char>)> {
    find_header(s, 0)
}

#[verifier::loop_isolation(false)]
#[verifier::rlimit(30)]
fn find_data_header(l: &Vec<char>) -> (r: Option<(Vec<char>, Vec<char>)>)
    ensures
        match r {
            Some(nd) => match_data_header(l@) == Some((nd.0@, nd.1@)) && nd.1@.len() >= 1 && (
            forall|k: int| 0 <= k < nd.1@.len() ==> is_digit(nd.1@[k])),
            None => match_data_header(l@) == None::<(Seq<char>, Seq<char>)>,
        },
{
    let n = l.len();
    if n < 5 {
        return None;
    }
    let mut p: usize = 0;
    while p <= n - 5
        invariant
            n == l@.len(),
            5 <= n,
            p <= n,
            find_header(l@, 0) == find_header(l@, p as int),
        decreases n - p,
    {
        if l[p] == '@' && l[p + 1] == 'd' && l[p + 2] == 'a' && l[p + 3] == 't' && l[p + 4]
            == 'a' {
            proof {
                assert(l@.subrange(p as int, p as int + 5) =~= kw_data());
            }
            let ws_end = scan_ws(l, p + 5);
            let name_end = if ws_end > p + 5 {
                scan_word(l, ws_end)
            } else {
                ws_end
            };
            if ws_end > p + 5 && name_end > ws_end && name_end < n && l[name_end] == '[' {
                let dig_end = scan_digits(l, name_end + 1);
                if dig_end > name_end + 1 && dig_end < n && l[dig_end] == ']' {
                    let name = copy_range(l, ws_end, name_end);
                    let digits = copy_range(l, name_end + 1, dig_end);
                    proof {
                        assert(try_header_at(l@, p as int) == Some((name@, digits@)));
                    }
                    return Some((name, digits));
                }
            }
        } else {
            proof {
                if try_header_at(l@, p as int) is Some {
                    assert(l@.subrange(p as int, p as int + 5) == kw_data());
                    assert(l@[p as int] == '@' && l@[p + 1] == 'd' && l@[p + 2] == 'a' && l@[p + 3]
                        == 't' && l@[p + 4] == 'a') by {
                        let kw = l@.subrange(p as int, p as int + 5);
                        assert(kw[0] == l@[p as int] && kw[1] == l@[p + 1] && kw[2] == l@[p + 2]
                            && kw[3] == l@[p + 3] && kw[4] == l@[p + 4]);
                    }
                }
            }
        }
        p += 1;
    }
    None
}

/// The first schema of the catalog carrying the name, in declaration order.
pub open spec fn find_schema(schemas: Seq<SchemaView>, name: Seq<char>) -> Option<SchemaView>
    decreases schemas.len(),
{
    if schemas.len() == 0 {
        None
    } else if schemas[0].name == name {
        Some(schemas[0])
    } else {
        find_schema(schemas.drop_first(), name)
    }
}

/// Resolution order: lookup takes the first declared schema with the name.
/// Whenever entry `i` carries the name and no earlier entry does, the lookup
/// yields entry `i`, whatever later entries declare under the same name.
pub proof fn lemma_first_schema_wins(schemas: Seq<SchemaView>, name: Seq<char>, i: int)
    requires
        0 <= i < schemas.len(),
        schemas[i].name == name,
        forall|j: int| 0 <= j < i ==> schemas[j].name != name,
    ensures
        find_schema(schemas, name) == Some(schemas[i]),
    decreases i,
{
    if i == 0 {
    } else {
        let t = schemas.drop_first();
        assert(schemas[0].name != name);
        assert(t[i - 1] == schemas[i]);
        assert forall|j: int| 0 <= j < i - 1 implies t[j].name != name by {
            assert(t[j] == schemas[j + 1]);
        }
        lemma_first_schema_wins(t, name, i - 1);
    }
}

#[verifier::loop_isolation(false)]
fn lookup_schema<'a>(schemas: &'a Vec<Schema>, name: &String) -> (r: Option<&'a Schema>)
    ensures
        match r {
            Some(s) => find_schema(schemas.deep_view(), name@) == Some(s@),
            None => find_schema(schemas.deep_view(), name@) == None::<SchemaView>,
        },
{
    let ghost sdv = schemas.deep_view();
    let mut k: usize = 0;
    proof {
        assert(sdv.skip(0) =~= sdv);
    }
    while k < schemas.len()
        invariant
            k <= schemas@.len(),
            sdv == schemas.deep_view(),
            find_schema(sdv, name@) == find_schema(sdv.skip(k as int), name@),
        decreases schemas@.len() - k,
    {
        proof {
            assert(sdv.skip(k as int)[0] == sdv[k as int]);
            assert(sdv[k as int] == schemas@[k as int]@);
        }
        if schemas[k].name == *name {
            return Some(&schemas[k]);
        }
        proof {
            assert(sdv.skip(k as int).drop_first() =~= sdv.skip(k as int + 1));
        }
        k += 1;
    }
    None
}

/// A numeric coercion failure charged to the field it happened under.
pub open spec fn set_err_field(e: ErrorView, f: Seq<char>) -> ErrorView {
    match e {
        ErrorView::InvalidInteger(t, _) => ErrorView::InvalidInteger(t, f),
        ErrorView::InvalidFloat(t, _) => ErrorView::InvalidFloat(t, f),
        _ => e,
    }
}

fn with_field_name(e: ParseError, name: String) -> (r: ParseError)
    ensures
        r@ == set_err_field(e@, name@),
{
    match e {
        ParseError::InvalidInteger(t, _) => ParseError::InvalidInteger(t, name),
        ParseError::InvalidFloat(t, _) => ParseError::InvalidFloat(t, name),
        other => other,
    }
}

/// The entries the row's tokens add from position `i` on: token `i` is
/// coerced under field `i`'s type and inserted as a mapping insert, so a
/// later field under the same name replaces the earlier binding; fields
/// beyond the tokens stay absent; tokens beyond the fields are ignored.
pub open spec fn row_from(
    tokens: Seq<Seq<char>>,
    fields: Seq<crate::model::FieldView>,
    i: int,
    acc: RowView,
) -> Result<RowView, ErrorView>
    decreases fields.len() - i,
{
    if i >= fields.len() || i >= tokens.len() {
        Ok(acc)
    } else {
        match coerce_token(tokens[i], fields[i].field_type) {
            Ok(v) => row_from(tokens, fields, i + 1, row_upsert(acc, fields[i].name, v)),
            Err(e) => Err(set_err_field(e, fields[i].name)),
        }
    }
}

proof fn lemma_row_from_unique(
    tokens: Seq<Seq<char>>,
    fields: Seq<crate::model::FieldView>,
    i: int,
    acc: RowView,
)
    requires
        unique_keys(acc),
    ensures
        row_from(tokens, fields, i, acc) matches Ok(r) ==> unique_keys(r),
    decreases fields.len() - i,
{
    if i >= fields.len() || i >= tokens.len() {
    } else {
        match coerce_token(tokens[i], fields[i].field_type) {
            Ok(v) => {
                lemma_upsert_unique(acc, fields[i].name, v);
                lemma_row_from_unique(tokens, fields, i + 1, row_upsert(acc, fields[i].name, v));
            },
            Err(_) => {},
        }
    }
}

/// Keys are unique within a row: positional assembly inserts as a mapping
/// does, so a parsed row holds at most one entry per field name, even when
/// the schema declares a name twice.
pub proof fn lemma_row_keys_unique(line: Seq<char>, schema: SchemaView)
    ensures
        parse_row_spec(line, schema) matches Ok(r) ==> unique_keys(r),
{
    lemma_row_from_unique(split_row_spec(line), schema.fields, 0, Seq::empty());
}

/// One row line parsed against a schema: the line's tokens matched to the
/// schema's fields by position.
pub open spec fn parse_row_spec(line: Seq<char>, schema: SchemaView) -> Result<
    RowView,
    ErrorView,
> {
    row_from(split_row_spec(line), schema.fields, 0, Seq::empty())
}

fn is_underscore(s: &String) -> (r: bool)
    ensures
        r == (s@ == seq!['_']),
{
    let c = chars_of(s.as_str());
    if c.len() == 1 && c[0] == '_' {
        proof {
            assert(s@ =~= seq!['_']);
        }
        true
    } else {
        proof {
            if s@ == seq!['_'] {
                assert(s@.len() == 1 && s@[0] == '_');
            }
        }
        false
    }
}

/// One row parsed against a schema: the raw line is tokenized, each token is
/// coerced under the field at its position (the `_` sentinel giving Null),
/// and fields without a token are left absent from the row.
#[verifier::loop_isolation(false)]
pub fn parse_row(line: &str, schema: &Schema) -> (r: Result<Row, ParseError>)
    ensures
        match r {
            Ok(row) => parse_row_spec(line@, schema@) == Ok::<RowView, ErrorView>(row@),
            Err(e) => parse_row_spec(line@, schema@) == Err::<RowView, ErrorView>(e@),
        },
{
    let tokens = split_row(line);
    let mut entries: Vec<(String, AxonValue)> = Vec::new();
    let nf = schema.fields.len();
    let nt = tokens.len();
    let mut i: usize = 0;
    proof {
        assert(entries.deep_view() =~= Seq::<(Seq<char>, ValueView)>::empty());
    }
    while i < nf && i < nt
        invariant
            i <= nf,
            nf == schema.fields@.len(),
            nt == tokens@.len(),
            parse_row_spec(line@, schema@) == row_from(
                tokens.deep_view(),
                schema@.fields,
                i as int,
                entries.deep_view(),
            ),
        decreases nf - i,
    {
        proof {
            assert(tokens.deep_view()[i as int] == tokens@[i as int]@);
            assert(schema@.fields[i as int] == schema.fields@[i as int]@);
        }
        let field = &schema.fields[i];
        let tok = &tokens[i];
        if is_underscore(tok) {
            upsert_entry(&mut entries, field.name.clone(), AxonValue::Null);
        } else {
            match parse_value(tok.as_str(), &field.field_type) {
                Ok(v) => {
                    upsert_entry(&mut entries, field.name.clone(), v);
                },
                Err(e) => {
                    return Err(with_field_name(e, field.name.clone()));
                },
            }
        }
        i += 1;
    }
    Ok(Row { entries })
}

/// The rows the body lines from `i` add to `acc`, and the position after the
/// terminator (or the input's end when the block is unterminated).
pub open spec fn block_body(
    lines: Seq<Seq<char>>,
    i: int,
    acc: Seq<RowView>,
    schema: SchemaView,
) -> Result<(Seq<RowView>, int), ErrorView>
    decreases lines.len() - i,
{
    if i >= lines.len() {
        Ok((acc, i))
    } else {
        let l = trim(lines[i]);
        if l == kw_end() {
            Ok((acc, i + 1))
        } else if l.len() == 0 {
            block_body(lines, i + 1, acc, schema)
        } else {
            match parse_row_spec(l, schema) {
                Ok(row) => block_body(lines, i + 1, acc.push(row), schema),
                Err(e) => Err(e),
            }
        }
    }
}

/// The data block a `@data` section declares: the header must match
/// `@data <name>[<digits>]` and name an already declared schema; the count
/// is stored as declared and never checked against the rows; every non-blank
/// body line before the terminator is one row.
pub open spec fn parse_data_block_spec(
    lines: Seq<Seq<char>>,
    start: int,
    schemas: Seq<SchemaView>,
) -> Result<(BlockView, int), ErrorView> {
    let header = lines[start];
    match match_data_header(header) {
        None => Err(ErrorView::InvalidDataHeader(header)),
        Some(nd) => if digits_val(nd.1) > usize::MAX {
            Err(ErrorView::InvalidDataHeader(header))
        } else {
            match find_schema(schemas, nd.0) {
                None => Err(ErrorView::SchemaNotFound(nd.0)),
                Some(schema) => match block_body(lines, start + 1, Seq::empty(), schema) {
                    Ok(done) => Ok(
                        (
                            BlockView {
                                schema_name: nd.0,
                                count: digits_val(nd.1),
                                rows: done.0,
                            },
                            done.1,
                        ),
                    ),
                    Err(e) => Err(e),
                },
            }
        },
    }
}

/// The number of non-blank row lines from `i` up to the block's terminator
/// (or the input's end).
pub open spec fn count_row_lines(lines: Seq<Seq<char>>, i: int) -> int
    decreases lines.len() - i,
{
    if i >= lines.len() {
        0
    } else {
        let l = trim(lines[i]);
        if l == kw_end() {
            0
        } else if l.len() == 0 {
            count_row_lines(lines, i + 1)
        } else {
            1 + count_row_lines(lines, i + 1)
        }
    }
}

proof fn lemma_block_body_count(lines: Seq<Seq<char>>, i: int, acc: Seq<RowView>, schema: SchemaView)
    ensures
        block_body(lines, i, acc, schema) matches Ok(done) ==> done.0.len() == acc.len()
            + count_row_lines(lines, i),
    decreases lines.len() - i,
{
    if i >= lines.len() {
    } else {
        let l = trim(lines[i]);
        if l == kw_end() {
        } else if l.len() == 0 {
            lemma_block_body_count(lines, i + 1, acc, schema);
        } else {
            match parse_row_spec(l, schema) {
                Ok(row) => {
                    lemma_block_body_count(lines, i + 1, acc.push(row), schema);
                },
                Err(_) => {},
            }
        }
    }
}

/// The declared count is never validated: a successful data block carries
/// the header's digits as its count, while its rows are exactly one per
/// non-blank body line before the terminator — the two are independent.
pub proof fn lemma_count_never_validated(
    lines: Seq<Seq<char>>,
    start: int,
    schemas: Seq<SchemaView>,
)
    ensures
        parse_data_block_spec(lines, start, schemas) matches Ok(done) ==> (match_data_header(
            lines[start],
        ) matches Some(nd) && done.0.count == digits_val(nd.1) && done.0.rows.len()
            == count_row_lines(lines, start + 1)),
{
    match match_data_header(lines[start]) {
        Some(nd) => match find_schema(schemas, nd.0) {
            Some(schema) => {
                lemma_block_body_count(lines, start + 1, Seq::empty(), schema);
            },
            None => {},
        },
        None => {},
    }
}

/// One `@data Name[count] ... @end` block parsed from the line at
/// `start_index`, resolving `Name` against the schemas declared so far.
#[verifier::loop_isolation(false)]
pub fn parse_data_block(lines: &Vec<String>, start_index: usize, schemas: &Vec<Schema>) -> (r:
    Result<(DataBlock, usize), ParseError>)
    requires
        start_index < lines@.len(),
    ensures
        match r {
            Ok((b, j)) => parse_data_block_spec(
                lines.deep_view(),
                start_index as int,
                schemas.deep_view(),
            ) == Ok::<(BlockView, int), ErrorView>((b@, j as int)) && start_index < j
                <= lines@.len(),
            Err(e) => parse_data_block_spec(
                lines.deep_view(),
                start_index as int,
                schemas.deep_view(),
            ) == Err::<(BlockView, int), ErrorView>(e@),
        },
{
    let ghost ldv = lines.deep_view();
    proof {
        assert(ldv[start_index as int] == lines@[start_index as int]@);
    }
    let hdr = chars_of(lines[start_index].as_str());
    let found = find_data_header(&hdr);
    match found {
        None => Err(ParseError::InvalidDataHeader(lines[start_index].clone())),
        Some((name_chars, digit_chars)) => {
            proof {
                assert(digit_chars@.subrange(0, digit_chars@.len() as int) =~= digit_chars@);
            }
            let count_wide = digits_capped(&digit_chars, 0, digit_chars.len(), usize::MAX as u64);
            match count_wide {
                None => Err(ParseError::InvalidDataHeader(lines[start_index].clone())),
                Some(cnt) => {
                    let count = cnt as usize;
                    let name = string_of(&name_chars);
                    let looked = lookup_schema(schemas, &name);
                    match looked {
                        None => Err(ParseError::SchemaNotFound(name)),
                        Some(schema) => {
                            let n = lines.len();
                            let mut rows: Vec<Row> = Vec::new();
                            let mut i: usize = start_index + 1;
                            proof {
                                assert(rows.deep_view() =~= Seq::<RowView>::empty());
                            }
                            while i < n
                                invariant
                                    n == lines@.len(),
                                    start_index + 1 <= i <= n,
                                    ldv == lines.deep_view(),
                                    block_body(ldv, start_index as int + 1, Seq::empty(), schema@)
                                        == block_body(ldv, i as int, rows.deep_view(), schema@),
                                decreases n - i,
                            {
                                proof {
                                    assert(ldv[i as int] == lines@[i as int]@);
                                }
                                let lc = chars_of(lines[i].as_str());
                                let lt = trim_chars(&lc);
                                if is_end_marker(&lt) {
                                    return Ok(
                                        (DataBlock { schema_name: name, count, rows }, i + 1),
                                    );
                                }
                                if lt.len() > 0 {
                                    let row_line = string_of(&lt);
                                    match parse_row(row_line.as_str(), schema) {
                                        Ok(row) => {
                                            let ghost prev = rows.deep_view();
                                            let ghost rv = row@;
                                            rows.push(row);
                                            proof {
                                                assert(rows.deep_view() =~= prev.push(rv));
                                            }
                                        },
                                        Err(e) => {
                                            return Err(e);
                                        },
                                    }
                                }
                                i += 1;
                            }
                            Ok((DataBlock { schema_name: name, count, rows }, i))
                        },
                    }
                },
            }
        },
    }
}

} // verus!
