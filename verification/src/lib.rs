//! A content-addressed triple store with multi-key secondary indexing.
//!
//! Each record (`LinkExpression`) is a subject/predicate/object triple plus
//! provenance.  Records are registered in a secondary index under every
//! `(index key, tag)` permutation that the configured indexing strategy
//! derives from the triple, so that queries may name any non-empty subset of
//! the three fields.  Writes are spread over chunked buckets to avoid
//! hot-spotting a single index key, a time-ordered index answers range
//! queries, and a presence tracker maintains the set of recently active
//! peers used as the fan-out target for write-time notifications.
//!
//! The storage substrate (content-addressed entries, links, the time-ordered
//! index) is modelled by the verified in-memory [`store::Store`]; a host
//! environment supplies the current time and delivers notifications.

pub mod errors;
pub mod inputs;
pub mod utils;
pub mod store;
pub mod methods;
pub mod laws;
pub mod zome;
pub mod acai;
pub mod anchors;
