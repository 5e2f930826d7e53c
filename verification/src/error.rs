//! What can go wrong.

use vstd::prelude::*;

verus! {

/// What can go wrong while a plan is optimized or evaluated.
#[derive(Clone, Copy, Debug, PartialEq, Eq, Structural)]
pub enum Error {
    /// A referenced column is absent from a schema, or a schema would name
    /// one column twice.
    Schema,
    /// A pass met a node shape that an earlier pass should have removed or
    /// prepared.
    Precedence,
    /// A named relation is not available.
    SourceAccess,
    /// A logical operator or comparator is not known.
    UnsupportedOperator,
}

} // verus!
