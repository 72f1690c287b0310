use vstd::prelude::*;

verus! {

/// Why a byte string was not accepted as an encoding.
#[derive(Clone, Copy, Debug, PartialEq, Eq, Structural)]
pub enum Error {
    /// The input does not have the fixed length of the value it should
    /// encode.
    InvalidLength,
}

} // verus!
