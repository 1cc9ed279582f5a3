//! Mass-move core: wildcard pattern matching over file names and
//! placeholder substitution into rename templates.
//!
//! The matching and filling engine is pure computation over text and is
//! fully verified. Directory walking, argument parsing and the actual
//! rename calls are external collaborators and live outside this crate's
//! verified code.

pub mod controller;
pub mod filesystem;
pub mod matcher;
pub mod template;
pub mod text;
