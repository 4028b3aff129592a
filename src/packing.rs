use vstd::prelude::*;

use crate::error::PackingError;

verus! {

/// A type that packs itself into, and unpacks itself from, a byte buffer.
///
/// Its behaviour is described by the spec functions below: `spec_pack`
/// gives the bytes that packing writes into a buffer of a given length (or
/// the error), `spec_unpacks` tells which results unpacking a given buffer
/// may produce, and the two size functions give what `packed_bytes_size`
/// returns without and with an instance. Their default bodies describe a
/// type that implements none of it; a verified implementation that does
/// more states so by overriding them.
pub trait PackedStructSlice: Sized {
    /// What packing `self` into a buffer of `out_len` bytes produces.
    open spec fn spec_pack(&self, out_len: usize) -> Result<Seq<u8>, PackingError> {
        Err(PackingError::NotImplemented)
    }

    /// Whether `r` is a result of unpacking `src`.
    open spec fn spec_unpacks(src: Seq<u8>, r: Result<Self, PackingError>) -> bool {
        r == Err::<Self, PackingError>(PackingError::NotImplemented)
    }

    /// The packed size of the type, known without an instance.
    open spec fn spec_fixed_size() -> Result<usize, PackingError> {
        Err(PackingError::InstanceRequiredForSize)
    }

    /// The packed size of one instance.
    open spec fn spec_instance_size(&self) -> Result<usize, PackingError> {
        Err(PackingError::NotImplemented)
    }

    /// Writes the packed form of `self` into `output`, which keeps its
    /// length.
    ///
    /// On an error the contents of `output` are unspecified.
    fn pack_to_slice(&self, output: &mut [u8]) -> (r: Result<(), PackingError>)
        ensures
            final(output)@.len() == old(output)@.len(),
            match self.spec_pack(old(output)@.len() as usize) {
                Ok(b) => r is Ok && final(output)@ == b,
                Err(e) => r == Err::<(), PackingError>(e),
            },
    ;

    /// Builds a value from its packed form in `src`.
    fn unpack_from_slice(src: &[u8]) -> (r: Result<Self, PackingError>)
        ensures
            Self::spec_unpacks(src@, r),
    ;

    /// The packed size of `opt_self`, or of the type where it is `None`.
    fn packed_bytes_size(opt_self: Option<&Self>) -> (r: Result<usize, PackingError>)
        ensures
            match opt_self {
                None => r == Self::spec_fixed_size(),
                Some(s) => r == s.spec_instance_size(),
            },
    ;
}

} // verus!
