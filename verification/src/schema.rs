//! The schema block parser.

use vstd::prelude::*;

verus! {

use crate::model::AxonType;
use crate::model::ErrorView;
use crate::model::FieldDefinition;
use crate::model::FieldView;
use crate::model::ParseError;
use crate::model::Schema;
use crate::model::SchemaView;
use crate::model::from_code_spec;
use crate::text::chars_of;
use crate::text::copy_range;
use crate::text::is_end_marker;
use crate::text::kw_end;
use crate::text::kw_schema;
use crate::text::starts_with;
use crate::text::starts_with_schema;
use crate::text::string_of;
use crate::text::trim;
use crate::text::trim_chars;

/// The position of the first `:` at or after `i`, or the length when none.
pub open spec fn first_colon_from(s: Seq<char>, i: int) -> int
    decreases s.len() - i,
{
    if i >= s.len() {
        s.len() as int
    } else if s[i] == ':' {
        i
    } else {
        first_colon_from(s, i + 1)
    }
}

proof fn lemma_first_colon_bounds(s: Seq<char>, i: int)
    requires
        0 <= i <= s.len(),
    ensures
        i <= first_colon_from(s, i) <= s.len(),
    decreases s.len() - i,
{
    if i < s.len() && s[i] != ':' {
        lemma_first_colon_bounds(s, i + 1);
    }
}

#[verifier::loop_isolation(false)]
fn first_colon(l: &Vec<char>) -> (r: usize)
    ensures
        r <= l@.len(),
        r == first_colon_from(l@, 0),
{
    let mut i: usize = 0;
    while i < l.len()
        invariant
            i <= l@.len(),
            first_colon_from(l@, 0) == first_colon_from(l@, i as int),
        decreases l@.len() - i,
    {
        if l[i] == ':' {
            return i;
        }
        i += 1;
    }
    i
}

/// The field a trimmed schema body line declares; `None` when the line
/// holds no colon (a blank line among them); otherwise the line splits at
/// its first colon into a name and a type annotation, and the annotation's
/// errors are fatal.
pub open spec fn line_field(l: Seq<char>) -> Result<Option<FieldView>, ErrorView> {
    let k = first_colon_from(l, 0);
    if k == l.len() {
        Ok(None)
    } else {
        let name = trim(l.subrange(0, k));
        let tspec = trim(l.subrange(k + 1, l.len() as int));
        if tspec.len() == 0 {
            Err(ErrorView::EmptyTypeSpec(name))
        } else {
            let nullable = tspec.last() == '?';
            let t2 = if nullable {
                tspec.drop_last()
            } else {
                tspec
            };
            if t2.len() == 0 {
                Err(ErrorView::EmptyTypeSpec(name))
            } else {
                match from_code_spec(t2[0]) {
                    Ok(ft) => Ok(
                        Some(FieldView { name, field_type: ft, is_nullable: nullable }),
                    ),
                    Err(_) => Err(ErrorView::UnknownTypeCode(t2[0])),
                }
            }
        }
    }
}

#[verifier::loop_isolation(false)]
fn parse_field_line(l: &Vec<char>) -> (r: Result<Option<FieldDefinition>, ParseError>)
    ensures
        match r {
            Ok(Some(fd)) => line_field(l@) == Ok::<Option<FieldView>, ErrorView>(Some(fd@)),
            Ok(None) => line_field(l@) == Ok::<Option<FieldView>, ErrorView>(None),
            Err(e) => line_field(l@) == Err::<Option<FieldView>, ErrorView>(e@),
        },
{
    let k = first_colon(l);
    if k == l.len() {
        return Ok(None);
    }
    let name_raw = copy_range(l, 0, k);
    let name_chars = trim_chars(&name_raw);
    let tspec_raw = copy_range(l, k + 1, l.len());
    let tspec = trim_chars(&tspec_raw);
    if tspec.len() == 0 {
        return Err(ParseError::EmptyTypeSpec(string_of(&name_chars)));
    }
    let is_nullable = tspec[tspec.len() - 1] == '?';
    let t2 = if is_nullable {
        let t = copy_range(&tspec, 0, tspec.len() - 1);
        proof {
            assert(tspec@.subrange(0, tspec@.len() - 1) =~= tspec@.drop_last());
        }
        t
    } else {
        tspec
    };
    if t2.len() == 0 {
        return Err(ParseError::EmptyTypeSpec(string_of(&name_chars)));
    }
    match AxonType::from_code(t2[0]) {
        Ok(ft) => Ok(
            Some(FieldDefinition { name: string_of(&name_chars), field_type: ft, is_nullable }),
        ),
        Err(e) => {
            proof {
                assert(e@ == ErrorView::UnknownTypeCode(t2@[0]));
            }
            Err(e)
        },
    }
}

/// The fields the body lines from `i` add to `acc`, and the position after
/// the terminator (or the input's end when the block is unterminated).
pub open spec fn schema_body(lines: Seq<Seq<char>>, i: int, acc: Seq<FieldView>) -> Result<
    (Seq<FieldView>, int),
    ErrorView,
>
    decreases lines.len() - i,
{
    if i >= lines.len() {
        Ok((acc, i))
    } else {
        let l = trim(lines[i]);
        if l == kw_end() {
            Ok((acc, i + 1))
        } else {
            match line_field(l) {
                Ok(None) => schema_body(lines, i + 1, acc),
                Ok(Some(f)) => schema_body(lines, i + 1, acc.push(f)),
                Err(e) => Err(e),
            }
        }
    }
}

/// The schema a block declares: its name is the trimmed header after the
/// keyword, its fields come from the body lines up to the terminator.  The
/// returned position is the one after the terminator.
pub open spec fn parse_schema_spec(lines: Seq<Seq<char>>, start: int) -> Result<
    (SchemaView, int),
    ErrorView,
> {
    let header = trim(lines[start]);
    let name = if starts_with(header, kw_schema()) {
        trim(header.skip(7))
    } else {
        header
    };
    match schema_body(lines, start + 1, Seq::empty()) {
        Ok((fields, j)) => Ok((SchemaView { name, fields }, j)),
        Err(e) => Err(e),
    }
}

/// One `@schema ... @end` block parsed from the line at `start_index`: the
/// schema's name and ordered fields, and the index after the terminator.  A
/// missing terminator ends the block at the input's end without error.
#[verifier::loop_isolation(false)]
pub fn parse_schema(lines: &Vec<String>, start_index: usize) -> (r: Result<
    (Schema, usize),
    ParseError,
>)
    requires
        start_index < lines@.len(),
    ensures
        match r {
            Ok((s, j)) => parse_schema_spec(lines.deep_view(), start_index as int)
                == Ok::<(SchemaView, int), ErrorView>((s@, j as int)) && start_index < j
                <= lines@.len(),
            Err(e) => parse_schema_spec(lines.deep_view(), start_index as int) == Err::<
                (SchemaView, int),
                ErrorView,
            >(e@),
        },
{
    proof {
        assert(lines.deep_view().len() == lines@.len());
        assert(lines.deep_view()[start_index as int] == lines@[start_index as int]@);
    }
    let hdr = chars_of(lines[start_index].as_str());
    let hdr_t = trim_chars(&hdr);
    let name_chars = if starts_with_schema(&hdr_t) {
        let rest = copy_range(&hdr_t, 7, hdr_t.len());
        proof {
            assert(hdr_t@.subrange(7, hdr_t@.len() as int) =~= hdr_t@.skip(7));
        }
        trim_chars(&rest)
    } else {
        hdr_t
    };
    let schema_name = string_of(&name_chars);
    let n = lines.len();
    let mut fields: Vec<FieldDefinition> = Vec::new();
    let mut i: usize = start_index + 1;
    let ghost ldv = lines.deep_view();
    proof {
        assert(fields.deep_view() =~= Seq::<FieldView>::empty());
    }
    while i < n
        invariant
            n == lines@.len(),
            start_index + 1 <= i <= lines@.len(),
            schema_body(ldv, start_index as int + 1, Seq::empty()) == schema_body(
                ldv,
                i as int,
                fields.deep_view(),
            ),
        decreases lines@.len() - i,
    {
        proof {
            assert(ldv[i as int] == lines@[i as int]@);
        }
        let lc = chars_of(lines[i].as_str());
        let lt = trim_chars(&lc);
        if is_end_marker(&lt) {
            return Ok((Schema { name: schema_name, fields }, i + 1));
        }
        match parse_field_line(&lt) {
            Ok(None) => (),
            Ok(Some(fd)) => {
                let ghost prev = fields.deep_view();
                fields.push(fd);
                proof {
                    assert(fields.deep_view() =~= prev.push(fd@));
                }
            },
            Err(e) => {
                return Err(e);
            },
        }
        i += 1;
    }
    Ok((Schema { name: schema_name, fields }, i))
}

/// A schema body line that counts toward the field total: one holding a
/// colon (such a line is never blank).
pub open spec fn is_field_candidate(l: Seq<char>) -> bool {
    first_colon_from(trim(l), 0) < trim(l).len()
}

/// The number of field-candidate lines from `i` up to the block's terminator
/// (or the input's end).
pub open spec fn count_candidates(lines: Seq<Seq<char>>, i: int) -> int
    decreases lines.len() - i,
{
    if i >= lines.len() {
        0
    } else if trim(lines[i]) == kw_end() {
        0
    } else {
        (if is_field_candidate(lines[i]) {
            1int
        } else {
            0int
        }) + count_candidates(lines, i + 1)
    }
}

proof fn lemma_schema_body_count(lines: Seq<Seq<char>>, i: int, acc: Seq<FieldView>)
    ensures
        schema_body(lines, i, acc) matches Ok(done) ==> done.0.len() == acc.len()
            + count_candidates(lines, i),
    decreases lines.len() - i,
{
    if i >= lines.len() {
    } else {
        let l = trim(lines[i]);
        if l == kw_end() {
        } else {
            lemma_first_colon_bounds(l, 0);
            match line_field(l) {
                Ok(None) => {
                    lemma_schema_body_count(lines, i + 1, acc);
                },
                Ok(Some(f)) => {
                    lemma_schema_body_count(lines, i + 1, acc.push(f));
                },
                Err(_) => {},
            }
        }
    }
}

/// Every valid schema block declares exactly one field per non-blank,
/// colon-containing body line before the terminator: the number of parsed
/// field definitions equals the number of such lines.
pub proof fn lemma_schema_field_count(lines: Seq<Seq<char>>, start: int)
    ensures
        parse_schema_spec(lines, start) matches Ok(done) ==> done.0.fields.len()
            == count_candidates(lines, start + 1),
{
    lemma_schema_body_count(lines, start + 1, Seq::empty());
}

} // verus!
