//! A small JSON REST routing core.
//!
//! Routes live in a 256-way byte-indexed prefix tree. Each stored endpoint
//! bundles up to six (method, arity, handler) slots together with its
//! materialized configuration. Registration, composition with configuration
//! inheritance, longest-prefix dispatch, URL parameter parsing and
//! response/error materialization are all verified; the HTTP transport and
//! JSON serialization of user types stay outside the library.

pub mod config;
pub mod error;
pub mod prefix_tree;
pub mod request;
pub mod response;
pub mod router;
pub mod segments;

pub use config::Config;
pub use error::Error;
pub use request::Request;
pub use response::Response;
pub use router::Router;
