//! What can go wrong while a filter is built.

use vstd::prelude::*;

verus! {

/// The ways in which an operation on a filter fails.
#[derive(Clone, Copy, Debug, PartialEq, Eq, Structural)]
pub enum FilterError {
    /// The text is not an address of 20 bytes in hexadecimal.
    AddressParseError,
    /// The text is not a string of bytes in hexadecimal.
    HexParseError,
    /// The place asked for is missing from the tree or is a condition, which
    /// has no children.
    InvalidAttachment,
}

} // verus!
