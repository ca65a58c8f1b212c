//! Coercion of raw row tokens into typed values.

use vstd::prelude::*;

verus! {

use crate::model::AxonType;
use crate::model::AxonValue;
use crate::model::ErrorView;
use crate::model::ParseError;
use crate::model::ValueView;
use crate::num::is_float_literal;
use crate::num::is_float_token;
use crate::num::parse_i64;
use crate::num::parse_i64_spec;
use crate::text::chars_of;
use crate::token::unescape;
use crate::token::unescape_string;

/// The value a token denotes under a declared type.  A failed numeric parse
/// carries the token and a still-empty field name; the row parser fills the
/// name in.
pub open spec fn coerce(token: Seq<char>, ft: AxonType) -> Result<ValueView, ErrorView> {
    match ft {
        AxonType::String => Ok(ValueView::String(unescape(token))),
        AxonType::Integer => match parse_i64_spec(token) {
            Some(n) => Ok(ValueView::Integer(n)),
            None => Err(ErrorView::InvalidInteger(token, Seq::empty())),
        },
        AxonType::Float => if is_float_token(token) {
            Ok(ValueView::Float(token))
        } else {
            Err(ErrorView::InvalidFloat(token, Seq::empty()))
        },
        AxonType::Boolean => Ok(ValueView::Boolean(token == seq!['1'])),
        AxonType::Timestamp => Ok(ValueView::Timestamp(token)),
    }
}

/// The value a row token produces: the sentinel `_` is Null whatever the
/// declared type; every other token is coerced by the type.
pub open spec fn coerce_token(token: Seq<char>, ft: AxonType) -> Result<ValueView, ErrorView> {
    if token == seq!['_'] {
        Ok(ValueView::Null)
    } else {
        coerce(token, ft)
    }
}

/// The null sentinel wins over every declared type: a row token of exactly
/// `_` coerces to Null, nullable or not, even for an Integer field.
pub proof fn lemma_null_sentinel(token: Seq<char>, ft: AxonType)
    ensures
        token == seq!['_'] ==> coerce_token(token, ft) == Ok::<ValueView, ErrorView>(
            ValueView::Null,
        ),
{
}

/// One token coerced to the declared field type: a String token is
/// unescaped, an Integer or Float token must parse as its type, a Boolean is
/// true exactly on the token `1`, and a Timestamp is kept verbatim.
pub fn parse_value(value: &str, axon_type: &AxonType) -> (r: Result<AxonValue, ParseError>)
    ensures
        match r {
            Ok(v) => coerce(value@, *axon_type) == Ok::<ValueView, ErrorView>(v@),
            Err(e) => coerce(value@, *axon_type) == Err::<ValueView, ErrorView>(e@),
        },
{
    match axon_type {
        AxonType::String => Ok(AxonValue::String(unescape_string(value))),
        AxonType::Integer => {
            let chars = chars_of(value);
            match parse_i64(&chars) {
                Some(n) => Ok(AxonValue::Integer(n)),
                None => Err(ParseError::InvalidInteger(value.to_owned(), String::new())),
            }
        },
        AxonType::Float => {
            let chars = chars_of(value);
            if is_float_literal(&chars) {
                Ok(AxonValue::Float(value.to_owned()))
            } else {
                Err(ParseError::InvalidFloat(value.to_owned(), String::new()))
            }
        },
        AxonType::Boolean => {
            let chars = chars_of(value);
            let is_one = chars.len() == 1 && chars[0] == '1';
            proof {
                if is_one {
                    assert(value@ =~= seq!['1']);
                } else if value@ == seq!['1'] {
                    assert(value@.len() == 1 && value@[0] == '1');
                }
            }
            Ok(AxonValue::Boolean(is_one))
        },
        AxonType::Timestamp => Ok(AxonValue::Timestamp(value.to_owned())),
    }
}

} // verus!
