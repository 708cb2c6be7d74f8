//! What evaluation yields.

use vstd::prelude::*;

verus! {

/// A runtime value, as opposed to the [`Number`](crate::expression::Number)
/// that was written in the source text.
#[derive(Debug, Clone, Copy, PartialEq, Eq)]
pub enum Value {
    /// A signed 32-bit integer.
    Number(i32),
}

} // verus!
