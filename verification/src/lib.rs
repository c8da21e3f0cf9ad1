//! A bridge between JSON text and the values of an embedding scripting host.
//!
//! `decode` turns a host string that holds a JSON document into a host value,
//! and `encode` turns a host value back into JSON text. The text itself is
//! read and written by `serde_json`; what is verified here is the mapping
//! between the two value spaces and the way in which failures are reported.
//!
//! - `json` holds what is taken on trust about `serde_json`.
//! - `value` holds the host's values as trees, and `graph` the same values as
//!   the host keeps them, with tables that are shared and may hold themselves.
//! - `bridge` maps documents to host values and back.
//! - `codec` holds `decode` and `encode`, and `failure` what they report.
//! - `module` holds the export table and the two calling conventions.
//! - `laws` holds what is proved of all of this together.

pub mod json;
pub mod value;
pub mod bridge;
pub mod failure;
pub mod codec;
pub mod graph;
pub mod module;
pub mod laws;
