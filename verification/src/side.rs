//! The side field: exactly the lowercase literals `"ask"` and `"bid"`.

use vstd::prelude::*;
use vstd::string::StringExecFns;

use crate::errors::DecodeError;
use crate::text::str_eq;

verus! {

/// Which side of the book a record belongs to.
#[derive(Clone, Copy, Debug, PartialEq, Eq, Structural)]
pub enum Side {
    Ask,
    Bid,
}

/// The wire text of a side.
pub open spec fn side_text(s: Side) -> Seq<char> {
    match s {
        Side::Ask => "ask"@,
        Side::Bid => "bid"@,
    }
}

/// The side a wire text stands for, if any; parsing is case-sensitive and
/// admits no other value.
pub open spec fn parse_side(s: Seq<char>) -> Option<Side> {
    if s == "ask"@ {
        Some(Side::Ask)
    } else if s == "bid"@ {
        Some(Side::Bid)
    } else {
        None
    }
}

/// Renders a side as its exact wire literal.
pub fn encode_side(s: &Side) -> (r: String)
    ensures
        r@ == side_text(*s),
{
    match s {
        Side::Ask => String::from_str("ask"),
        Side::Bid => String::from_str("bid"),
    }
}

/// Accepts exactly `"ask"` and `"bid"`; anything else is an
/// [`DecodeError::InvalidEnumValue`].
pub fn decode_side(s: &str) -> (r: Result<Side, DecodeError>)
    ensures
        match parse_side(s@) {
            Some(sd) => r == Ok::<Side, DecodeError>(sd),
            None => r == Err::<Side, DecodeError>(DecodeError::InvalidEnumValue),
        },
{
    if str_eq(s, "ask") {
        Ok(Side::Ask)
    } else if str_eq(s, "bid") {
        Ok(Side::Bid)
    } else {
        Err(DecodeError::InvalidEnumValue)
    }
}

/// Law: decoding an encoded side returns it, for both sides.
pub proof fn lemma_side_round_trip(s: Side)
    ensures
        parse_side(side_text(s)) == Some(s),
{
    assert("ask"@ != "bid"@) by {
        reveal_strlit("ask");
        reveal_strlit("bid");
        assert("ask"@[0] == 'a' && "bid"@[0] == 'b');
    }
}

} // verus!
