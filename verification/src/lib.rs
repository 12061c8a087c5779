//! Recovers a structural model from machine-generated Java value-object
//! sources — fields, types, nullability, inheritance and polymorphic
//! subclass sets, read purely from syntax and binding annotations — and
//! maps it into a generation model for idiomatic immutable Kotlin wrappers
//! with bidirectional conversion.
//!
//! - `files` selects the source files worth parsing.
//! - `parsetree` is the parse substrate: a concrete syntax tree and
//!   pattern queries over it, reduced to plain capture data.
//! - `javaparser` extracts one file's declaration model from the captures.
//! - `convert` resolves superclass chains and maps the model into the
//!   generation model: renaming, conversion flags, import consolidation
//!   and field-count chunking.
//! - `kotlinprinter` holds the generation model, its shape dispatch and
//!   the per-field source snippets the emitter interpolates.

pub mod convert;
pub mod files;
pub mod javaparser;
pub mod kotlinprinter;
pub mod parsetree;
pub mod strutil;
