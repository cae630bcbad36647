//! The failures that the library reports to its callers.

use vstd::prelude::*;

verus! {

/// Why an operation refused its arguments.
///
/// "Nothing found" is never an error: searches report it as `None` or as an
/// empty list.
#[derive(Clone, Copy, Debug, PartialEq, Eq, Structural)]
pub enum BitmapError {
    /// A point or rectangle is not contained in the buffer's bounds.
    OutOfBounds,
    /// An argument cannot be used at all: a needle without pixels, or a
    /// sample list whose length is not width times height.
    InvalidArgument,
    /// A file format or extension that is not one of the known formats.
    InvalidFormat,
    /// The codec could not decode the bytes, or could not encode the buffer.
    CodecFailure,
}

} // verus!
