//! A small, fully specified HTTP user service core: routing, the JSON texts
//! the service emits and accepts, and the mapping from request and database
//! outcome to response. The surrounding process does the network and database
//! I/O and hands this crate plain values.
pub mod handlers;
pub mod json;
pub mod parse;
pub mod router;
pub mod user;
