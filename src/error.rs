use vstd::prelude::*;

verus! {

/// The failures shared by every packable type.
#[derive(Clone, Copy, Debug, PartialEq, Eq, Structural)]
pub enum PackingError {
    InvalidValue,
    BitsError,
    BufferTooSmall,
    NotImplemented,
    MoreThanOneDynamicType,
    /// The packed size of the type cannot be known without an instance of it.
    InstanceRequiredForSize,
    /// A buffer to pack into does not have the packed size.
    BufferSizeMismatch { expected: usize, actual: usize },
    /// A buffer to unpack from is not a whole number of elements.
    BufferModMismatch { actual_size: usize, modulo_required: usize },
    SliceIndexingError { slice_len: usize },
    /// An element type reports a packed size of zero bytes, so a buffer
    /// cannot be divided into elements.
    ZeroSizedElement,
    /// A packed size does not fit in `usize`.
    SizeOverflow,
    InternalError,
}

} // verus!
