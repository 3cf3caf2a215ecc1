//! Normalization of market-data records from an external feed into an
//! internal canonical form, and back.
//!
//! The core is a bidirectional symbol-translation table consulted on every
//! encode and decode of a market identifier, together with strict codecs for
//! the price, quantity and side fields of a record. The shared, concurrently
//! readable store of the active translation table supports atomic rebuilds.

pub mod decimal;
pub mod errors;
pub mod escape;
pub mod json;
pub mod mappings;
pub mod record;
pub mod side;
pub mod store;
pub mod symbols;
pub mod text;
