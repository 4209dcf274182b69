//! A verified reconciliation engine for PAD objects: signed, resource-scoped
//! authorization objects keyed by autonomous-system number.
//!
//! The engine keeps three pieces of state in agreement: a table of PAD
//! *definitions* (AS number and target URI), the resource set currently bound
//! to the issuing key, and a store of issued-object *records*. Reconciliation
//! computes the minimal batch of re-issuances and removals, invoking a signing
//! boundary for each object it needs, and a separate commit step applies the
//! batch to the store only once every signing call has succeeded.

pub mod batch;
pub mod defs;
pub mod display;
pub mod keyed;
pub mod objects;
pub mod record;
pub mod signer;
pub mod table;
pub mod uri;
