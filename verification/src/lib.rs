//! Maintenance engine for a browser's persisted cookie store: it compiles a
//! user-kept whitelist of regular-expression patterns into one matcher,
//! classifies every stored cookie domain as allowed or condemned against it,
//! and previews or atomically deletes the rows of the condemned domains.

pub mod classify;
pub mod store;
pub mod whitelist;
