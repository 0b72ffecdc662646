//! A verified model of a small personal note graph: entities identified by
//! aliases, annotated with free-text snippets, and connected by relations
//! that may carry snippets of their own.
//!
//! The store is an in-memory relational model with explicit id assignment;
//! callers that persist it to disk do so outside this crate.

pub mod delete;
pub mod edit;
pub mod facts;
pub mod find;
pub mod item;
pub mod list;
pub mod picker;
pub mod store;
pub mod text;
pub mod utils;
