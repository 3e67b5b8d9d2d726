//! Budgets for truncated texts.

use vstd::prelude::*;

verus! {

/// How much of a text may stay.
#[derive(Clone, Copy, Debug, PartialEq, Eq, Structural)]
pub enum TruncationPolicy {
    /// A number of bytes.
    Bytes(usize),
    /// An approximate number of tokens.
    Tokens(usize),
}

} // verus!
