use vstd::prelude::*;

verus! {

/// Every failure the reader can report.
#[derive(Debug, Clone, Copy, PartialEq, Eq, Structural)]
pub enum BlendError {
    /// The file cannot be opened or fully read.
    IoError,
    /// The file does not start with `BLENDER` and a three-digit version.
    BadMagic,
    /// The pointer-width marker is neither `-` nor `_`.
    BadArchMarker,
    /// The byte-order marker is neither `v` nor `V`.
    BadEndianMarker,
    /// A typed read runs past the end of the content.
    OutOfBounds,
    /// No block with code `DNA1` is indexed.
    MissingDNA,
    /// The structure catalog is malformed.
    BadDNA,
    /// No record carries the requested name.
    UnknownRecord,
    /// No member carries the requested identifier.
    UnknownMember,
    /// A pointer address is not present in the block index.
    DanglingPointer,
    /// An intermediate path segment is a pointer to a pointer.
    UnsupportedIndirection,
}

} // verus!
