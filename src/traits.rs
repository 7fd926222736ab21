use vstd::prelude::*;

verus! {

/// Byte order of the multi-byte fields of one EXIF block.
#[derive(Debug, Clone, Copy, PartialEq, Eq, Structural)]
pub enum Endian {
    /// Most significant byte first (marker `MM`).
    Big,
    /// Least significant byte first (marker `II`).
    Little,
}

/// A fixed-width number that can be read from bytes in either byte order.
pub trait EndianRead: Sized {
    /// The value that `bytes` hold at their start in byte order `endian`,
    /// or `None` when they are too short.
    spec fn spec_from_endian_bytes(endian: Endian, bytes: Seq<u8>) -> Option<Self>;

    /// Reads the value at the start of `bytes`.
    fn from_endian_bytes(endian: &Endian, bytes: &[u8]) -> (r: Option<Self>)
        ensures
            r == Self::spec_from_endian_bytes(*endian, bytes@),
    ;

    /// Reads the value that starts `offset` bytes into `bytes`.
    fn from_offset_endian_bytes(endian: &Endian, bytes: &[u8], offset: usize) -> (r: Option<Self>)
        ensures
            r == (if offset <= bytes@.len() {
                Self::spec_from_endian_bytes(*endian, bytes@.skip(offset as int))
            } else {
                None
            }),
    ;
}

} // verus!
