//! A tiny language of integer arithmetic and `let` bindings.
//!
//! Text is scanned by the primitives of [`utils`], parsed into the nodes of
//! [`expression`], [`binding_definition`] and [`binding_usage`], and evaluated
//! against an [`environment`]. Every parser takes the unconsumed input and
//! hands back the remainder beside the node it has read; the grammar each of
//! them accepts is given as a function on sequences of characters, and the
//! parser is proved to compute exactly that function.

pub mod error;
pub mod utils;
pub mod value;
pub mod expression;
pub mod environment;
pub mod binding_definition;
pub mod binding_usage;

pub use crate::expression::{Expression, Number, Operation};
