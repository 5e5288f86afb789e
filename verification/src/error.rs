//! What can go wrong in the codec and in the generator.

use vstd::prelude::*;

verus! {

/// The ways in which an operation on identifiers fails.
#[derive(Debug, Clone, Copy, PartialEq, Eq, Structural)]
pub enum UlidError {
    /// The text does not have exactly 26 characters.
    InvalidLength,
    /// The text has 26 characters, one of which is not a symbol of the
    /// alphabet.
    InvalidCharacter,
    /// The text has 26 symbols whose value does not fit in 128 bits.
    Overflow,
    /// The timestamp does not fit in 48 bits.
    TimestampOverflow,
    /// The random payload is at its maximum and cannot be incremented.
    RandomOverflow,
}

} // verus!
