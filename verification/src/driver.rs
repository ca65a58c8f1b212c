//! The document driver: one scan over the trimmed lines, dispatching on the
//! `@schema` and `@data` prefixes and skipping every other line.

use vstd::prelude::*;

verus! {

use crate::block::parse_data_block;
use crate::block::parse_data_block_spec;
use crate::model::BlockView;
use crate::model::DataBlock;
use crate::model::DocView;
use crate::model::ErrorView;
use crate::model::ParseError;
use crate::model::ParseResult;
use crate::model::Schema;
use crate::model::SchemaView;
use crate::schema::parse_schema;
use crate::schema::parse_schema_spec;
use crate::text::chars_of;
use crate::text::kw_data;
use crate::text::kw_schema;
use crate::text::lines_of;
use crate::text::lines_vec;
use crate::text::starts_with;
use crate::text::starts_with_data;
use crate::text::starts_with_schema;

/// The step to the next line after a block: the block parsers always return
/// a position in `(i, len]`, so the clamp only serves the termination
/// measure.
pub open spec fn clamp_step(i: int, j: int, len: int) -> int {
    if j <= i {
        i + 1
    } else if j > len {
        len
    } else {
        j
    }
}

/// The rest of the document parsed from line `i`, with the schemas and data
/// blocks accumulated so far: a `@schema` prefix opens a schema block, a
/// `@data` prefix opens a data block resolved against the schemas read so
/// far, and every other line is skipped.
pub open spec fn parse_from(
    lines: Seq<Seq<char>>,
    i: int,
    schemas: Seq<SchemaView>,
    blocks: Seq<BlockView>,
) -> Result<DocView, ErrorView>
    decreases lines.len() - i,
        when 0 <= i
{
    if i >= lines.len() {
        Ok(DocView { schemas, data_blocks: blocks })
    } else {
        let l = lines[i];
        if starts_with(l, kw_schema()) {
            match parse_schema_spec(lines, i) {
                Ok(done) => parse_from(
                    lines,
                    clamp_step(i, done.1, lines.len() as int),
                    schemas.push(done.0),
                    blocks,
                ),
                Err(e) => Err(e),
            }
        } else if starts_with(l, kw_data()) {
            match parse_data_block_spec(lines, i, schemas) {
                Ok(done) => parse_from(
                    lines,
                    clamp_step(i, done.1, lines.len() as int),
                    schemas,
                    blocks.push(done.0),
                ),
                Err(e) => Err(e),
            }
        } else {
            parse_from(lines, i + 1, schemas, blocks)
        }
    }
}

/// The whole document parsed: its trimmed lines scanned once from the top.
pub open spec fn spec_parse(s: Seq<char>) -> Result<DocView, ErrorView> {
    parse_from(lines_of(s), 0, Seq::empty(), Seq::empty())
}

/// The parse of a whole AXON document: every `@schema` block and every
/// `@data` block in encounter order, or the first fatal error.  Unrecognized
/// and blank lines are skipped without error.
#[verifier::loop_isolation(false)]
pub fn parse(input: &str) -> (r: Result<ParseResult, ParseError>)
    ensures
        match r {
            Ok(p) => spec_parse(input@) == Ok::<DocView, ErrorView>(p@),
            Err(e) => spec_parse(input@) == Err::<DocView, ErrorView>(e@),
        },
{
    let lines = lines_vec(input);
    let ghost ldv = lines.deep_view();
    let n = lines.len();
    let mut schemas: Vec<Schema> = Vec::new();
    let mut data_blocks: Vec<DataBlock> = Vec::new();
    let mut i: usize = 0;
    proof {
        assert(schemas.deep_view() =~= Seq::<SchemaView>::empty());
        assert(data_blocks.deep_view() =~= Seq::<BlockView>::empty());
    }
    while i < n
        invariant
            n == lines@.len(),
            i <= n,
            ldv == lines.deep_view(),
            spec_parse(input@) == parse_from(
                ldv,
                i as int,
                schemas.deep_view(),
                data_blocks.deep_view(),
            ),
        decreases n - i,
    {
        proof {
            assert(ldv[i as int] == lines@[i as int]@);
        }
        let lc = chars_of(lines[i].as_str());
        if starts_with_schema(&lc) {
            match parse_schema(&lines, i) {
                Ok((sch, j)) => {
                    let ghost prev = schemas.deep_view();
                    let ghost sv = sch@;
                    schemas.push(sch);
                    proof {
                        assert(schemas.deep_view() =~= prev.push(sv));
                    }
                    i = j;
                },
                Err(e) => {
                    return Err(e);
                },
            }
        } else if starts_with_data(&lc) {
            match parse_data_block(&lines, i, &schemas) {
                Ok((blk, j)) => {
                    let ghost prev = data_blocks.deep_view();
                    let ghost bv = blk@;
                    data_blocks.push(blk);
                    proof {
                        assert(data_blocks.deep_view() =~= prev.push(bv));
                    }
                    i = j;
                },
                Err(e) => {
                    return Err(e);
                },
            }
        } else {
            i += 1;
        }
    }
    Ok(ParseResult { schemas, data_blocks })
}

} // verus!
