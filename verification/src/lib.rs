//! Verified core of a stateful client for a paginated, OAuth2-protected
//! REST API: session/token management with persistent storage, a cancellable
//! paginated bulk-fetch engine with progress reporting, and the record
//! transformations (division sorting, date-field normalization) that the
//! client applies to fetched data.

pub mod api;
pub mod divisions;
pub mod errors;
pub mod fetch;
pub mod jsonv;
pub mod outside;
pub mod session;
pub mod text;
pub mod token;
pub mod transact;
