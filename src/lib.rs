//! A schema-driven XML element parser.
//!
//! A `SchemaSet` describes element shapes as plain data: attribute slots,
//! child slots and an optional text slot, each with an occurrence rule.
//! The engine walks a sequence of located XML events against one schema and
//! assembles the matched values, or stops at the first error with its position.

pub mod attributes;
pub mod decode;
pub mod dispatch;
pub mod document;
pub mod engine;
pub mod error;
pub mod event;
pub mod laws;
pub mod schema;
pub mod text;
