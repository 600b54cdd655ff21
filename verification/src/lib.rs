//! A minimal HTTP/1.1 service core for a single "users" resource.
//!
//! The crate holds the protocol layer of a tiny CRUD service: a wire codec
//! that parses a raw request buffer and renders responses, a form decoder,
//! a router, the four resource handlers, and a storage model that states
//! the contract the relational store is relied on for. Socket and database
//! I/O live outside the library; everything here is verified, except the
//! one call into the form-decoding crate, which stands behind a stated
//! contract.

pub mod codec;
pub mod form;
pub mod json;
pub mod store;
pub mod router;
pub mod handlers;
pub mod laws;
