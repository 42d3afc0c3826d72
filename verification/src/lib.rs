//! A verified core of a JSON serializer for dynamically typed object graphs:
//! the recursive engine that turns sequence-like containers (lists and
//! tuples of classified element values) into their JSON array form.
//!
//! The engine walks a container depth-first, dispatches each element on its
//! classified kind, tracks the nesting depth of the current path against a
//! configured maximum, and appends the JSON bytes to a caller-owned sink.
//! Contracts state the exact bytes produced and exactly when serialization
//! succeeds.

pub mod error;
pub mod state;
pub mod emit;
pub mod json;
pub mod laws;
pub mod list;
pub mod value;

pub use error::SerializeError;
pub use list::BorrowedListSerializer;
pub use list::ListTupleSerializer;
pub use list::ZeroListSerializer;
pub use state::SerializerState;
pub use value::Value;
