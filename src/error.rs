use vstd::prelude::*;

verus! {

/// Why a piece of an EXIF block could not be decoded.
#[derive(Debug, Clone, Copy, PartialEq, Eq, Structural)]
pub enum FormatError {
    /// The byte order marker is neither `MM` nor `II`.
    UnrecognizedEndianMarker,
    /// A read needs more bytes than the buffer holds from where it starts.
    InsufficientBytes,
    /// A directory entry names a format code outside `1..=12`.
    UnknownTagFormat,
    /// Component count times component width does not fit in 32 bits.
    ComponentCountOverflow,
    /// Text that should be UTF-8 is not.
    InvalidUtf8,
    /// An out-of-line value lies, wholly or in part, past the buffer's end.
    OffsetOutOfRange,
}

} // verus!
