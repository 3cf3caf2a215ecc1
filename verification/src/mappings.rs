//! The bidirectional symbol-translation table.
//!
//! A [`MarketMappings`] is an immutable-per-snapshot list of pairs
//! `(external, internal)`, where the internal symbol is derived from the
//! external one by appending the canonical quote-currency suffix. Keys are
//! unique within each direction, so the forward and reverse mappings are
//! mutual inverses by construction.

use vstd::prelude::*;
use vstd::string::StringExecFns;

use crate::errors::BuildError;
use crate::text::str_eq;

verus! {

/// The fixed normalization rule: an internal symbol is the external one with
/// the canonical quote-currency suffix appended.
pub open spec fn normalized(s: Seq<char>) -> Seq<char> {
    s + "/BTC"@
}

/// First match of an external key in a pair list, front to back.
pub open spec fn spec_lookup_fwd(ps: Seq<(String, String)>, k: Seq<char>) -> Option<Seq<char>>
    decreases ps.len(),
{
    if ps.len() == 0 {
        None
    } else if ps[0].0@ == k {
        Some(ps[0].1@)
    } else {
        spec_lookup_fwd(ps.skip(1), k)
    }
}

/// First match of an internal key in a pair list, front to back.
pub open spec fn spec_lookup_rev(ps: Seq<(String, String)>, k: Seq<char>) -> Option<Seq<char>>
    decreases ps.len(),
{
    if ps.len() == 0 {
        None
    } else if ps[0].1@ == k {
        Some(ps[0].0@)
    } else {
        spec_lookup_rev(ps.skip(1), k)
    }
}

/// Keys are unique in both directions.
pub open spec fn wf_pairs(ps: Seq<(String, String)>) -> bool {
    forall|i: int, j: int|
        0 <= i < j < ps.len() ==> #[trigger] ps[i].0@ != #[trigger] ps[j].0@ && ps[i].1@
            != ps[j].1@
}

/// A bidirectional lookup between external and internal market symbols.
#[derive(Clone)]
pub struct MarketMappings {
    /// One entry per configured market: `(external symbol, internal symbol)`.
    pub pairs: Vec<(String, String)>,
}

impl MarketMappings {
    /// Forward mapping: external symbol to internal symbol.
    pub open spec fn lookup_fwd(self, k: Seq<char>) -> Option<Seq<char>> {
        spec_lookup_fwd(self.pairs@, k)
    }

    /// Reverse mapping: internal symbol to external symbol.
    pub open spec fn lookup_rev(self, k: Seq<char>) -> Option<Seq<char>> {
        spec_lookup_rev(self.pairs@, k)
    }

    /// Well-formedness: keys unique within each direction, and every internal
    /// symbol is the normalization of its external one.
    pub open spec fn wf(self) -> bool {
        &&& wf_pairs(self.pairs@)
        &&& forall|i: int|
            0 <= i < self.pairs@.len() ==> (#[trigger] self.pairs@[i].1)@ == normalized(
                self.pairs@[i].0@,
            )
    }
}

/// A forward lookup finds a key exactly when some pair holds it, and then
/// returns that pair's internal symbol.
pub proof fn lemma_lookup_fwd_index(ps: Seq<(String, String)>, k: Seq<char>)
    ensures
        (spec_lookup_fwd(ps, k) is None) <==> (forall|i: int|
            0 <= i < ps.len() ==> (#[trigger] ps[i].0)@ != k),
        spec_lookup_fwd(ps, k) matches Some(v) ==> exists|i: int|
            0 <= i < ps.len() && (#[trigger] ps[i].0)@ == k && ps[i].1@ == v,
    decreases ps.len(),
{
    if ps.len() > 0 {
        if ps[0].0@ == k {
            assert((ps[0].0)@ == k && ps[0].1@ == ps[0].1@);
        } else {
            lemma_lookup_fwd_index(ps.skip(1), k);
            assert(forall|i: int|
                0 <= i < ps.skip(1).len() ==> #[trigger] ps.skip(1)[i] == ps[i + 1]);
            if spec_lookup_fwd(ps, k) is None {
                assert forall|i: int| 0 <= i < ps.len() implies (#[trigger] ps[i].0)@ != k by {
                    if i > 0 {
                        assert(ps.skip(1)[i - 1] == ps[i]);
                    }
                }
            } else {
                let v = spec_lookup_fwd(ps, k)->Some_0;
                let i = choose|i: int|
                    0 <= i < ps.skip(1).len() && (#[trigger] ps.skip(1)[i].0)@ == k && ps.skip(
                        1,
                    )[i].1@ == v;
                assert(ps[i + 1].0@ == k && ps[i + 1].1@ == v);
            }
        }
    }
}

/// Reverse counterpart of [`lemma_lookup_fwd_index`].
pub proof fn lemma_lookup_rev_index(ps: Seq<(String, String)>, k: Seq<char>)
    ensures
        (spec_lookup_rev(ps, k) is None) <==> (forall|i: int|
            0 <= i < ps.len() ==> (#[trigger] ps[i].1)@ != k),
        spec_lookup_rev(ps, k) matches Some(v) ==> exists|i: int|
            0 <= i < ps.len() && (#[trigger] ps[i].1)@ == k && ps[i].0@ == v,
    decreases ps.len(),
{
    if ps.len() > 0 {
        if ps[0].1@ == k {
            assert((ps[0].1)@ == k && ps[0].0@ == ps[0].0@);
        } else {
            lemma_lookup_rev_index(ps.skip(1), k);
            assert(forall|i: int|
                0 <= i < ps.skip(1).len() ==> #[trigger] ps.skip(1)[i] == ps[i + 1]);
            if spec_lookup_rev(ps, k) is None {
                assert forall|i: int| 0 <= i < ps.len() implies (#[trigger] ps[i].1)@ != k by {
                    if i > 0 {
                        assert(ps.skip(1)[i - 1] == ps[i]);
                    }
                }
            } else {
                let v = spec_lookup_rev(ps, k)->Some_0;
                let i = choose|i: int|
                    0 <= i < ps.skip(1).len() && (#[trigger] ps.skip(1)[i].1)@ == k && ps.skip(
                        1,
                    )[i].0@ == v;
                assert(ps[i + 1].1@ == k && ps[i + 1].0@ == v);
            }
        }
    }
}

/// In a well-formed table the reverse mapping inverts the forward one.
pub proof fn lemma_mapping_inverse(m: MarketMappings, k: Seq<char>, v: Seq<char>)
    requires
        m.wf(),
        m.lookup_fwd(k) == Some(v),
    ensures
        m.lookup_rev(v) == Some(k),
{
    let ps = m.pairs@;
    lemma_lookup_fwd_index(ps, k);
    let i = choose|i: int| 0 <= i < ps.len() && (#[trigger] ps[i].0)@ == k && ps[i].1@ == v;
    lemma_lookup_rev_index(ps, v);
    assert(!(spec_lookup_rev(ps, v) is None));
    let w = spec_lookup_rev(ps, v)->Some_0;
    let j = choose|j: int| 0 <= j < ps.len() && (#[trigger] ps[j].1)@ == v && ps[j].0@ == w;
    assert(i == j);
}

/// In a well-formed table the forward mapping inverts the reverse one.
pub proof fn lemma_mapping_inverse_rev(m: MarketMappings, k: Seq<char>, v: Seq<char>)
    requires
        m.wf(),
        m.lookup_rev(k) == Some(v),
    ensures
        m.lookup_fwd(v) == Some(k),
{
    let ps = m.pairs@;
    lemma_lookup_rev_index(ps, k);
    let i = choose|i: int| 0 <= i < ps.len() && (#[trigger] ps[i].1)@ == k && ps[i].0@ == v;
    lemma_lookup_fwd_index(ps, v);
    assert(!(spec_lookup_fwd(ps, v) is None));
    let w = spec_lookup_fwd(ps, v)->Some_0;
    let j = choose|j: int| 0 <= j < ps.len() && (#[trigger] ps[j].0)@ == v && ps[j].1@ == w;
    assert(i == j);
}

/// Appending a pair at the back leaves earlier matches untouched and serves
/// as a fallback for keys the list did not hold.
pub proof fn lemma_lookup_fwd_push(ps: Seq<(String, String)>, p: (String, String), k: Seq<char>)
    ensures
        spec_lookup_fwd(ps.push(p), k) == (if spec_lookup_fwd(ps, k) is Some {
            spec_lookup_fwd(ps, k)
        } else if p.0@ == k {
            Some(p.1@)
        } else {
            None
        }),
    decreases ps.len(),
{
    if ps.len() == 0 {
        assert(ps.push(p).len() == 1);
        assert(ps.push(p)[0] == p);
        assert(ps.push(p).skip(1) =~= ps);
    } else {
        assert(ps.push(p)[0] == ps[0]);
        assert(ps.push(p).skip(1) =~= ps.skip(1).push(p));
        lemma_lookup_fwd_push(ps.skip(1), p, k);
    }
}

/// Appending one suffix to two sequences keeps them apart exactly when they
/// were apart.
pub proof fn lemma_append_suffix_injective(a: Seq<char>, b: Seq<char>, c: Seq<char>)
    requires
        a + c == b + c,
    ensures
        a == b,
{
    assert((a + c).len() == a.len() + c.len());
    assert((b + c).len() == b.len() + c.len());
    assert(a =~= (a + c).take(a.len() as int));
    assert(b =~= (b + c).take(b.len() as int));
}

/// Exec forward scan; its result agrees with the spec-level lookup.
pub fn lookup_forward(pairs: &Vec<(String, String)>, k: &str) -> (r: Option<String>)
    ensures
        match r {
            Some(v) => spec_lookup_fwd(pairs@, k@) == Some(v@),
            None => spec_lookup_fwd(pairs@, k@) is None,
        },
{
    let n = pairs.len();
    let mut i: usize = 0;
    proof {
        assert(pairs@.skip(0) =~= pairs@);
    }
    while i < n
        invariant
            n == pairs@.len(),
            i <= n,
            spec_lookup_fwd(pairs@, k@) == spec_lookup_fwd(pairs@.skip(i as int), k@),
        decreases n - i,
    {
        let p = &pairs[i];
        proof {
            assert(pairs@.skip(i as int)[0] == pairs@[i as int]);
            assert(pairs@.skip(i as int).skip(1) =~= pairs@.skip(i as int + 1));
        }
        if str_eq(p.0.as_str(), k) {
            return Some(p.1.clone());
        }
        i += 1;
    }
    proof {
        assert(pairs@.skip(n as int) =~= Seq::<(String, String)>::empty());
    }
    None
}

/// Exec reverse scan; its result agrees with the spec-level lookup.
pub fn lookup_reverse(pairs: &Vec<(String, String)>, k: &str) -> (r: Option<String>)
    ensures
        match r {
            Some(v) => spec_lookup_rev(pairs@, k@) == Some(v@),
            None => spec_lookup_rev(pairs@, k@) is None,
        },
{
    let n = pairs.len();
    let mut i: usize = 0;
    proof {
        assert(pairs@.skip(0) =~= pairs@);
    }
    while i < n
        invariant
            n == pairs@.len(),
            i <= n,
            spec_lookup_rev(pairs@, k@) == spec_lookup_rev(pairs@.skip(i as int), k@),
        decreases n - i,
    {
        let p = &pairs[i];
        proof {
            assert(pairs@.skip(i as int)[0] == pairs@[i as int]);
            assert(pairs@.skip(i as int).skip(1) =~= pairs@.skip(i as int + 1));
        }
        if str_eq(p.1.as_str(), k) {
            return Some(p.0.clone());
        }
        i += 1;
    }
    proof {
        assert(pairs@.skip(n as int) =~= Seq::<(String, String)>::empty());
    }
    None
}

/// The entries of a symbol list are pairwise distinct.
pub open spec fn distinct_views(ss: Seq<String>) -> bool {
    forall|i: int, j: int| 0 <= i < j < ss.len() ==> (#[trigger] ss[i])@ != (#[trigger] ss[j])@
}

/// Appends the canonical quote-currency suffix to an external symbol.
pub fn normalize(s: &String) -> (r: String)
    ensures
        r@ == normalized(s@),
{
    let t = s.clone();
    t.concat("/BTC")
}

impl MarketMappings {
    /// Builds a table from a configured list of external symbols, one pair
    /// per entry, rejecting a list that repeats a symbol.
    pub fn build(symbols: &Vec<String>) -> (r: Result<MarketMappings, BuildError>)
        ensures
            (r is Ok) <==> distinct_views(symbols@),
            r matches Ok(m) ==> {
                &&& m.wf()
                &&& m.pairs@.len() == symbols@.len()
                &&& forall|i: int|
                    0 <= i < symbols@.len() ==> (#[trigger] m.pairs@[i].0)@ == symbols@[i]@
                        && m.pairs@[i].1@ == normalized(symbols@[i]@)
            },
            r matches Err(e) ==> e == BuildError::DuplicateMapping,
    {
        let n = symbols.len();
        let mut pairs: Vec<(String, String)> = Vec::new();
        let mut i: usize = 0;
        while i < n
            invariant
                n == symbols@.len(),
                i <= n,
                pairs@.len() == i,
                distinct_views(symbols@.take(i as int)),
                wf_pairs(pairs@),
                forall|j: int|
                    0 <= j < i ==> (#[trigger] pairs@[j].0)@ == symbols@[j]@ && pairs@[j].1@
                        == normalized(symbols@[j]@),
            decreases n - i,
        {
            let s = &symbols[i];
            match lookup_forward(&pairs, s.as_str()) {
                Some(_) => {
                    proof {
                        lemma_lookup_fwd_index(pairs@, s@);
                        let j = choose|j: int|
                            0 <= j < pairs@.len() && (#[trigger] pairs@[j].0)@ == s@;
                        assert(symbols@[j]@ == symbols@[i as int]@);
                        assert(!distinct_views(symbols@));
                    }
                    return Err(BuildError::DuplicateMapping);
                },
                None => {
                    proof {
                        lemma_lookup_fwd_index(pairs@, s@);
                    }
                    let internal = normalize(s);
                    let p = (s.clone(), internal);
                    proof {
                        assert forall|j: int| 0 <= j < pairs@.len() implies (
                        #[trigger] pairs@[j].1)@ != p.1@ by {
                            if pairs@[j].1@ == p.1@ {
                                lemma_append_suffix_injective(pairs@[j].0@, s@, "/BTC"@);
                            }
                        }
                        assert forall|j1: int, j2: int|
                            0 <= j1 < j2 < i + 1 implies (#[trigger] symbols@.take(
                            i as int + 1,
                        )[j1])@ != (#[trigger] symbols@.take(i as int + 1)[j2])@ by {
                            if j2 == i {
                                assert(pairs@[j1].0@ == symbols@[j1]@);
                                assert(pairs@[j1].0@ != s@);
                            } else {
                                assert(symbols@.take(i as int)[j1] == symbols@[j1]);
                                assert(symbols@.take(i as int)[j2] == symbols@[j2]);
                            }
                        }
                        assert(distinct_views(symbols@.take(i as int + 1)));
                    }
                    pairs.push(p);
                    i += 1;
                },
            }
        }
        proof {
            assert(symbols@.take(n as int) =~= symbols@);
        }
        Ok(MarketMappings { pairs })
    }
}

/// Host and port of the excluded configuration store, plus the configured
/// list of external market symbols; only the symbol list feeds the core.
pub struct GeckoConfig {
    pub db_host: String,
    pub db_port: u16,
    pub markets: Vec<String>,
}

/// Stand-in for the excluded database collaborator.
#[derive(Clone, Debug)]
pub struct DbConnection {}

/// A symbol occurs somewhere in a configured list.
pub open spec fn in_list(ss: Seq<String>, k: Seq<char>) -> bool {
    exists|i: int| 0 <= i < ss.len() && (#[trigger] ss[i])@ == k
}

/// Builds the active table from the configuration, one pair per distinct
/// configured market; a repeated entry is collapsed rather than rejected.
pub fn load_market_mappings(config: &GeckoConfig, db_connection: &DbConnection) -> (r:
    MarketMappings)
    ensures
        r.wf(),
        forall|k: Seq<char>|
            #[trigger] r.lookup_fwd(k) == (if in_list(config.markets@, k) {
                Some(normalized(k))
            } else {
                None::<Seq<char>>
            }),
{
    let n = config.markets.len();
    let mut pairs: Vec<(String, String)> = Vec::new();
    let mut i: usize = 0;
    while i < n
        invariant
            n == config.markets@.len(),
            i <= n,
            wf_pairs(pairs@),
            forall|j: int|
                0 <= j < pairs@.len() ==> (#[trigger] pairs@[j].1)@ == normalized(pairs@[j].0@),
            forall|k: Seq<char>|
                #[trigger] spec_lookup_fwd(pairs@, k) == (if in_list(config.markets@.take(i as int), k) {
                    Some(normalized(k))
                } else {
                    None::<Seq<char>>
                }),
        decreases n - i,
    {
        let s = &config.markets[i];
        let ghost old_pairs = pairs@;
        match lookup_forward(&pairs, s.as_str()) {
            Some(_) => {
                proof {
                    assert(in_list(config.markets@.take(i as int), s@));
                    assert forall|k: Seq<char>|
                        in_list(config.markets@.take(i as int + 1), k) implies in_list(
                        config.markets@.take(i as int), k) by {
                        let j = choose|j: int|
                            0 <= j < config.markets@.take(i as int + 1).len() && (
                            #[trigger] config.markets@.take(i as int + 1)[j])@ == k;
                        if j == i {
                            assert(config.markets@.take(i as int)[choose|j2: int|
                                0 <= j2 < i && (#[trigger] config.markets@.take(i as int)[j2])@
                                    == s@]@ == k);
                        } else {
                            assert(config.markets@.take(i as int)[j]@ == k);
                        }
                    }
                    assert forall|k: Seq<char>|
                        in_list(config.markets@.take(i as int), k) implies in_list(
                        config.markets@.take(i as int + 1), k) by {
                        let j = choose|j: int|
                            0 <= j < i && (#[trigger] config.markets@.take(i as int)[j])@ == k;
                        assert(config.markets@.take(i as int + 1)[j]@ == k);
                    }
                }
            },
            None => {
                proof {
                    lemma_lookup_fwd_index(pairs@, s@);
                }
                let internal = normalize(s);
                let p = (s.clone(), internal);
                proof {
                    assert forall|j: int| 0 <= j < pairs@.len() implies (#[trigger] pairs@[j].1)@
                        != p.1@ by {
                        if pairs@[j].1@ == p.1@ {
                            lemma_append_suffix_injective(pairs@[j].0@, s@, "/BTC"@);
                        }
                    }
                }
                pairs.push(p);
                proof {
                    assert forall|k: Seq<char>| true implies #[trigger] spec_lookup_fwd(pairs@, k)
                        == (if in_list(config.markets@.take(i as int + 1), k) {
                        Some(normalized(k))
                    } else {
                        None::<Seq<char>>
                    }) by {
                        lemma_lookup_fwd_push(old_pairs, p, k);
                        if in_list(config.markets@.take(i as int + 1), k) {
                            let j = choose|j: int|
                                0 <= j < i + 1 && (#[trigger] config.markets@.take(
                                    i as int + 1,
                                )[j])@ == k;
                            if j < i {
                                assert(config.markets@.take(i as int)[j]@ == k);
                                assert(in_list(config.markets@.take(i as int), k));
                            } else {
                                assert(k == s@);
                            }
                        } else {
                            assert(!in_list(config.markets@.take(i as int), k)) by {
                                if in_list(config.markets@.take(i as int), k) {
                                    let j = choose|j: int|
                                        0 <= j < i && (#[trigger] config.markets@.take(
                                            i as int,
                                        )[j])@ == k;
                                    assert(config.markets@.take(i as int + 1)[j]@ == k);
                                }
                            }
                            assert(k != s@) by {
                                if k == s@ {
                                    assert(config.markets@.take(i as int + 1)[i as int]@ == k);
                                }
                            }
                        }
                    }
                }
            },
        }
        i += 1;
    }
    proof {
        assert(config.markets@.take(n as int) =~= config.markets@);
    }
    MarketMappings { pairs }
}

} // verus!
