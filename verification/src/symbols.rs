//! Pure symbol translation through a given mapping table, with
//! fallback-to-identity for symbols the table does not hold.

use vstd::prelude::*;
use vstd::string::StringExecFns;

use crate::mappings::{lemma_mapping_inverse, lookup_forward, lookup_reverse, MarketMappings};

verus! {

/// Identity fallback over a lookup result: the translated symbol when the
/// table holds the key, the key itself otherwise.
pub open spec fn translate(found: Option<Seq<char>>, k: Seq<char>) -> Seq<char> {
    match found {
        Some(v) => v,
        None => k,
    }
}

/// Translates an external symbol to the internal canonical one; an unknown
/// symbol passes through unchanged.
pub fn to_internal(external: &str, m: &MarketMappings) -> (r: String)
    ensures
        r@ == translate(m.lookup_fwd(external@), external@),
{
    match lookup_forward(&m.pairs, external) {
        Some(v) => v,
        None => String::from_str(external),
    }
}

/// Translates an internal symbol back to the external one; an unknown symbol
/// passes through unchanged.
pub fn to_external(internal: &str, m: &MarketMappings) -> (r: String)
    ensures
        r@ == translate(m.lookup_rev(internal@), internal@),
{
    match lookup_reverse(&m.pairs, internal) {
        Some(v) => v,
        None => String::from_str(internal),
    }
}

/// Law: over a well-formed table, a symbol the forward mapping holds comes
/// back unchanged from translating in and then out again.
pub proof fn lemma_symbol_round_trip(m: MarketMappings, s: Seq<char>)
    requires
        m.wf(),
        m.lookup_fwd(s) is Some,
    ensures
        translate(m.lookup_rev(translate(m.lookup_fwd(s), s)), translate(m.lookup_fwd(s), s)) == s,
{
    let v = m.lookup_fwd(s)->Some_0;
    lemma_mapping_inverse(m, s, v);
}

/// Law: a symbol absent from both directions of the table translates to
/// itself, both inward and outward.
pub proof fn lemma_identity_fallback(m: MarketMappings, u: Seq<char>)
    requires
        m.lookup_fwd(u) is None,
        m.lookup_rev(u) is None,
    ensures
        translate(m.lookup_fwd(u), u) == u,
        translate(m.lookup_rev(u), u) == u,
{
}

} // verus!
