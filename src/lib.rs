//! Declarative field validation: rule parsing, definition checks, validator
//! synthesis and the structured error tree that a validation run produces.
//!
//! A shape (a record, a tuple or a tagged union) is described with plain
//! values: each field with its annotation items. [`shape::check_shape`]
//! collects every definition error of it, or yields a [`validate::Validation`]
//! whose fields carry their rules in priority order. A run of that validation
//! over what was observed of an instance builds the [`errors::ErrorTree`].
pub mod annotation;
pub mod errors;
pub mod field;
pub mod pattern;
pub mod rule;
pub mod shape;
pub mod validate;
