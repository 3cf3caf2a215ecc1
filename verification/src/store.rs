//! The process-wide store of the active mapping table.
//!
//! Many threads read concurrently; a rebuild constructs a complete new table
//! off-lock and swaps it in under a brief exclusive lock, so a reader only
//! ever observes a fully-old or fully-new table, never a mix. Each codec
//! call copies the current table out under a short-lived read lock and works
//! on the copy.

use vstd::prelude::*;

use crate::errors::{BuildError, DecodeError};
use crate::mappings::{distinct_views, load_market_mappings, DbConnection, GeckoConfig,
    MarketMappings};
use crate::record::{decode, decode_post, encode, encoded_record, MarketDataRecord};

verus! {

/// Concurrently readable holder of the active [`MarketMappings`]. Only
/// well-formed tables are ever stored (see [`SharedMappingStore::new`] and
/// [`rebuild_mappings`]), so every snapshot is well-formed.
#[verifier::external_body]
pub struct SharedMappingStore {
    inner: parking_lot::RwLock<MarketMappings>,
}

impl SharedMappingStore {
    /// Relies on `parking_lot::RwLock::new`: the store starts out holding
    /// exactly the given table.
    #[verifier::external_body]
    pub fn new(m: MarketMappings) -> (r: SharedMappingStore)
        requires
            m.wf(),
    {
        SharedMappingStore { inner: parking_lot::RwLock::new(m) }
    }

    /// Relies on `parking_lot::RwLock::read`: returns a copy of some table
    /// the store held during the call. The store only ever holds well-formed
    /// tables, so the copy is well-formed.
    #[verifier::external_body]
    pub fn snapshot(&self) -> (r: MarketMappings)
        ensures
            r.wf(),
    {
        self.inner.read().clone()
    }

    /// Relies on `parking_lot::RwLock::write`: replaces the held table with
    /// the given one, whole, under an exclusive lock.
    #[verifier::external_body]
    fn replace(&self, m: MarketMappings)
        requires
            m.wf(),
    {
        *self.inner.write() = m;
    }
}

/// Builds a complete new table from the symbol list and atomically swaps it
/// in; on a duplicate symbol the store is left untouched and the error
/// returned.
pub fn rebuild_mappings(store: &SharedMappingStore, symbols: &Vec<String>) -> (r: Result<
    (),
    BuildError,
>)
    ensures
        (r is Ok) <==> distinct_views(symbols@),
        r matches Err(e) ==> e == BuildError::DuplicateMapping,
{
    match MarketMappings::build(symbols) {
        Ok(m) => {
            store.replace(m);
            Ok(())
        },
        Err(e) => Err(e),
    }
}

/// The application root: configuration turned into a live mapping store.
pub struct GeckoApplication {
    pub store: SharedMappingStore,
}

impl GeckoApplication {
    /// Builds the initial table from the configured markets and wraps it in
    /// the shared store.
    pub fn new(config: GeckoConfig) -> (r: GeckoApplication) {
        let db_connection = DbConnection {};
        let m = load_market_mappings(&config, &db_connection);
        GeckoApplication { store: SharedMappingStore::new(m) }
    }
}

/// Decodes against the table the store holds at call time: the result is
/// what [`decode`] returns for some well-formed table.
pub fn decode_shared(text: &str, store: &SharedMappingStore) -> (r: Result<
    MarketDataRecord,
    DecodeError,
>)
    ensures
        exists|m: MarketMappings| m.wf() && #[trigger] decode_post(r, text@, m),
{
    let m = store.snapshot();
    let r = decode(text, &m);
    proof {
        assert(decode_post(r, text@, m));
    }
    r
}

/// Encodes against the table the store holds at call time: the result is
/// the wire text of the record under some well-formed table.
pub fn encode_shared(rec: &MarketDataRecord, store: &SharedMappingStore) -> (r: String)
    ensures
        exists|m: MarketMappings| m.wf() && r@ == #[trigger] encoded_record(*rec, m),
{
    let m = store.snapshot();
    let r = encode(rec, &m);
    proof {
        assert(r@ == encoded_record(*rec, m));
    }
    r
}

} // verus!
