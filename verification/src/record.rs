//! The aggregate market-data record and its wire codec.
//!
//! A record travels as a JSON object with four string fields: `market`,
//! `price`, `quantity` and `side`. Decoding parses the object through
//! serde_json, then decodes each field independently; the first failing
//! field, in declaration order, decides the error and no partial record is
//! returned. Encoding renders the canonical JSON text directly.

use vstd::prelude::*;
use vstd::string::StringExecFns;

use crate::decimal::{dec_of, decimal_string, decode_number, encode_number, number_ok, Decimal};
use crate::errors::DecodeError;
use crate::escape::{escape_json, json_escaped};
use crate::json::{json_obj_of, obj_get, parse_object, value_as_str};
use crate::mappings::MarketMappings;
use crate::side::{decode_side, encode_side, parse_side, side_text, Side};
use crate::symbols::{to_external, to_internal, translate};

verus! {

/// One market-data record in internal form.
pub struct MarketDataRecord {
    /// Internal canonical symbol.
    pub market: String,
    /// Non-negative finite price.
    pub price: Decimal,
    /// Non-negative finite quantity.
    pub quantity: Decimal,
    /// Which side of the book.
    pub side: Side,
}

/// A field of an abstract parsed object: its text when present as a string,
/// nothing when absent or not a string.
pub open spec fn field_of(f: Map<Seq<char>, Option<Seq<char>>>, k: Seq<char>) -> Option<Seq<char>> {
    if f.contains_key(k) {
        f[k]
    } else {
        None
    }
}

/// What decoding the four field texts must return: the first failing field
/// in declaration order decides the error; on success every field of the
/// record is pinned down.
pub open spec fn decode_fields_post(
    r: Result<MarketDataRecord, DecodeError>,
    mk: Seq<char>,
    p: Seq<char>,
    q: Seq<char>,
    sd: Seq<char>,
    m: MarketMappings,
) -> bool {
    if !number_ok(p) {
        r matches Err(e) && e == DecodeError::InvalidNumber
    } else if !number_ok(q) {
        r matches Err(e) && e == DecodeError::InvalidNumber
    } else if parse_side(sd) is None {
        r matches Err(e) && e == DecodeError::InvalidEnumValue
    } else {
        &&& r is Ok
        &&& (r->Ok_0).market@ == translate(m.lookup_fwd(mk), mk)
        &&& (r->Ok_0).price == dec_of(p)
        &&& (r->Ok_0).quantity == dec_of(q)
        &&& Some((r->Ok_0).side) == parse_side(sd)
        &&& (r->Ok_0).price.wf()
        &&& (r->Ok_0).quantity.wf()
    }
}

/// Decodes the four field texts of a record against a given mapping table.
pub fn decode_fields(market: &str, price: &str, quantity: &str, side: &str, m: &MarketMappings) -> (r:
    Result<MarketDataRecord, DecodeError>)
    ensures
        decode_fields_post(r, market@, price@, quantity@, side@, *m),
{
    let p = match decode_number(price) {
        Err(e) => {
            return Err(e);
        },
        Ok(v) => v,
    };
    let q = match decode_number(quantity) {
        Err(e) => {
            return Err(e);
        },
        Ok(v) => v,
    };
    let sd = match decode_side(side) {
        Err(e) => {
            return Err(e);
        },
        Ok(v) => v,
    };
    let mk = to_internal(market, m);
    Ok(MarketDataRecord { market: mk, price: p, quantity: q, side: sd })
}

/// What decoding a wire text must return: a text that is no JSON object, or
/// an object missing one of the four string fields, is malformed; otherwise
/// the field texts decide, as in [`decode_fields_post`].
pub open spec fn decode_post(
    r: Result<MarketDataRecord, DecodeError>,
    text: Seq<char>,
    m: MarketMappings,
) -> bool {
    match json_obj_of(text) {
        None => r matches Err(e) && e == DecodeError::MalformedRecord,
        Some(f) => {
            if field_of(f, "market"@) is None || field_of(f, "price"@) is None || field_of(
                f,
                "quantity"@,
            ) is None || field_of(f, "side"@) is None {
                r matches Err(e) && e == DecodeError::MalformedRecord
            } else {
                decode_fields_post(
                    r,
                    field_of(f, "market"@)->Some_0,
                    field_of(f, "price"@)->Some_0,
                    field_of(f, "quantity"@)->Some_0,
                    field_of(f, "side"@)->Some_0,
                    m,
                )
            }
        },
    }
}

/// Decodes one wire text into an internal record, translating the market
/// symbol through the given mapping table.
pub fn decode(text: &str, m: &MarketMappings) -> (r: Result<MarketDataRecord, DecodeError>)
    ensures
        decode_post(r, text@, *m),
{
    let obj = match parse_object(text) {
        Err(_) => {
            return Err(DecodeError::MalformedRecord);
        },
        Ok(o) => o,
    };
    let market = match obj_get(&obj, "market") {
        None => {
            return Err(DecodeError::MalformedRecord);
        },
        Some(v) => match value_as_str(v) {
            None => {
                return Err(DecodeError::MalformedRecord);
            },
            Some(s) => s,
        },
    };
    let price = match obj_get(&obj, "price") {
        None => {
            return Err(DecodeError::MalformedRecord);
        },
        Some(v) => match value_as_str(v) {
            None => {
                return Err(DecodeError::MalformedRecord);
            },
            Some(s) => s,
        },
    };
    let quantity = match obj_get(&obj, "quantity") {
        None => {
            return Err(DecodeError::MalformedRecord);
        },
        Some(v) => match value_as_str(v) {
            None => {
                return Err(DecodeError::MalformedRecord);
            },
            Some(s) => s,
        },
    };
    let side = match obj_get(&obj, "side") {
        None => {
            return Err(DecodeError::MalformedRecord);
        },
        Some(v) => match value_as_str(v) {
            None => {
                return Err(DecodeError::MalformedRecord);
            },
            Some(s) => s,
        },
    };
    decode_fields(market, price, quantity, side, m)
}

/// The wire text of a record, from its four rendered field texts.
pub open spec fn record_json(mkt: Seq<char>, p: Seq<char>, q: Seq<char>, sd: Seq<char>) -> Seq<
    char,
> {
    "{\"market\":\""@ + mkt + "\",\"price\":\""@ + p + "\",\"quantity\":\""@ + q + "\",\"side\":\""@
        + sd + "\"}"@
}

/// The full wire text of a record under a mapping table: the market symbol
/// reverse-translated and escaped, price and quantity in canonical decimal
/// form, the side as its literal.
pub open spec fn encoded_record(rec: MarketDataRecord, m: MarketMappings) -> Seq<char> {
    record_json(
        json_escaped(translate(m.lookup_rev(rec.market@), rec.market@)),
        decimal_string(rec.price),
        decimal_string(rec.quantity),
        side_text(rec.side),
    )
}

/// Encodes an internal record into its wire text, translating the market
/// symbol back through the given mapping table.
pub fn encode(rec: &MarketDataRecord, m: &MarketMappings) -> (r: String)
    ensures
        r@ == encoded_record(*rec, *m),
{
    let mut out = String::from_str("{\"market\":\"");
    let ext = to_external(rec.market.as_str(), m);
    let esc = escape_json(ext.as_str());
    out.append(esc.as_str());
    out.append("\",\"price\":\"");
    let p = encode_number(&rec.price);
    out.append(p.as_str());
    out.append("\",\"quantity\":\"");
    let q = encode_number(&rec.quantity);
    out.append(q.as_str());
    out.append("\",\"side\":\"");
    let sd = encode_side(&rec.side);
    out.append(sd.as_str());
    out.append("\"}");
    proof {
        assert(out@ =~= encoded_record(*rec, *m));
    }
    out
}

/// Law: decoding the field texts that encoding produced returns the record
/// exactly, for any record whose numbers are canonical and whose market
/// symbol the table either holds as an internal symbol or knows in neither
/// direction (an internal symbol that only the forward mapping knows would
/// come back translated, not unchanged).
pub proof fn lemma_record_fields_round_trip(
    rec: MarketDataRecord,
    m: MarketMappings,
    r: Result<MarketDataRecord, DecodeError>,
)
    requires
        m.wf(),
        rec.price.wf(),
        rec.quantity.wf(),
        m.lookup_rev(rec.market@) is Some || m.lookup_fwd(rec.market@) is None,
        decode_fields_post(
            r,
            translate(m.lookup_rev(rec.market@), rec.market@),
            decimal_string(rec.price),
            decimal_string(rec.quantity),
            side_text(rec.side),
            m,
        ),
    ensures
        r is Ok,
        (r->Ok_0).market@ == rec.market@,
        (r->Ok_0).price == rec.price,
        (r->Ok_0).quantity == rec.quantity,
        (r->Ok_0).side == rec.side,
{
    crate::decimal::lemma_decimal_round_trip(rec.price);
    crate::decimal::lemma_decimal_round_trip(rec.quantity);
    crate::side::lemma_side_round_trip(rec.side);
    let ext = translate(m.lookup_rev(rec.market@), rec.market@);
    if m.lookup_rev(rec.market@) is Some {
        let v = m.lookup_rev(rec.market@)->Some_0;
        crate::mappings::lemma_mapping_inverse_rev(m, rec.market@, v);
        assert(translate(m.lookup_fwd(ext), ext) == rec.market@);
    } else {
        assert(ext == rec.market@);
        assert(translate(m.lookup_fwd(ext), ext) == rec.market@);
    }
}

} // verus!
