//! The core of a document service behind a session guard.
//!
//! The service keeps schema-free documents in named collections and lets its
//! clients insert, read, patch and delete them by field. Every protected
//! request first passes the session guard, which admits it when its `session`
//! cookie names a session that has not expired, and then moves the session's
//! expiry on.
//!
//! Nothing here reads a socket, a clock file or a disk. The guard
//! ([`guard`]) and the service ([`service`]) decide what is to be asked of
//! the document store and what its replies mean; the store itself is whoever
//! performs the requests of the [`protocol`]. What a request does to a store
//! is laid down in [`model`], and [`store`] holds a store in memory that is
//! proved to do just that. [`laws`] states what follows for every store that
//! keeps to the model.

pub mod cookie;
pub mod document;
pub mod driver;
pub mod guard;
pub mod ident;
pub mod laws;
pub mod model;
pub mod protocol;
pub mod search;
pub mod service;
pub mod store;
pub mod value;
