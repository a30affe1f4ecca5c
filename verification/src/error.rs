use vstd::prelude::*;

verus! {

/// Why a file could not be converted.
#[derive(Clone, Copy, Debug, PartialEq, Eq, Structural)]
pub enum ParseError {
    /// The file's name does not have the expected fields, or one of its
    /// parameters is not a number.
    Metadata,
    /// A block has no time in its header, a row has fewer than three fields,
    /// or a field that should be a number is not one.
    Format,
    /// The blocks do not fit into one cube of shape (time, wavelength, angle).
    Shape,
}

} // verus!
