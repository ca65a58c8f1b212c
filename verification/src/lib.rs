//! A verified parser for the AXON textual data-interchange format.
//!
//! An AXON document interleaves `@schema ... @end` blocks, which declare
//! ordered lists of typed fields, with `@data Name[count] ... @end` blocks,
//! whose rows are split at `|` separators (honouring quotes and backslash
//! escapes) and coerced to the declared field types.  `parse` is the entry
//! point; its contract ties the result to a mathematical model of the whole
//! grammar, built from spec functions over sequences of characters.

pub mod block;
pub mod driver;
pub mod model;
pub mod num;
pub mod schema;
pub mod text;
pub mod token;
pub mod value;

pub use block::parse_data_block;
pub use block::parse_row;
pub use driver::parse;
pub use model::AxonType;
pub use model::AxonValue;
pub use model::DataBlock;
pub use model::FieldDefinition;
pub use model::ParseError;
pub use model::ParseResult;
pub use model::Row;
pub use model::Schema;
pub use schema::parse_schema;
pub use token::split_row;
pub use token::unescape_char;
pub use token::unescape_string;
pub use value::parse_value;
