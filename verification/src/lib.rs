//! Compiled-expression engine for a small transformation language.
//!
//! Untrusted scripts are compiled once into an immutable expression tree and
//! then evaluated once per incoming record against a dynamically typed value
//! model. Every expression node satisfies a two-phase contract: at compile
//! time it derives a conservative static type description (`TypeDef`), and at
//! run time it produces a `Value`, propagating dynamic type errors.
//!
//! The crate also ships a small compliance harness that checks a pipeline
//! component's emitted lifecycle events and counter metrics against a
//! declared specification, using an explicit accumulator instead of hidden
//! global state.

pub mod kind;
pub mod value;
pub mod typedef;
pub mod expression;
pub mod function;
pub mod compliance;
