//! Remaps fields of an inbound JSON body into a new document, route by route, and
//! decides how that document is forwarded.
//!
//! `path` reads and writes documents along paths of keys and indexes, `dispatch`
//! builds the outgoing document of a request and decides what is done with it, and
//! `laws` states what holds of both.  Contracts speak of the mathematical values in
//! `model`.

pub mod config;
pub mod dispatch;
pub mod json;
pub mod laws;
pub mod model;
pub mod path;
pub mod text;
