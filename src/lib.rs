//! A static file server's request handling: path normalization and
//! containment, directory listings, and the per-request routing steps.
pub mod path;
pub mod escape;
pub mod listing;
pub mod router;
pub mod cli;
