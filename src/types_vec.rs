//! Packing of vectors of structures that have a statically known size.
use vstd::prelude::*;
use vstd::arithmetic::div_mod::{lemma_div_by_multiple, lemma_mod_multiples_basic};
use vstd::slice::slice_subrange;

use crate::error::PackingError;
use crate::packing::PackedStructSlice;

verus! {

/// The `size`-byte window of element `i` in a buffer of packed elements.
pub open spec fn window(bytes: Seq<u8>, i: int, size: int) -> Seq<u8> {
    bytes.subrange(i * size, (i + 1) * size)
}

/// The packed size of a sequence of `len` elements of type `T`: `len` times
/// the fixed size of `T`, or the error of that size query.
pub open spec fn seq_packed_size<T: PackedStructSlice>(len: nat) -> Result<usize, PackingError> {
    match T::spec_fixed_size() {
        Err(e) => Err(e),
        Ok(size) => if len * size <= usize::MAX {
            Ok((len * size) as usize)
        } else {
            Err(PackingError::SizeOverflow)
        },
    }
}

/// Packing the elements of `s`, in order, each into a window of `size`
/// bytes: the concatenation of their packed forms, or the error of the
/// first element that fails.
pub open spec fn pack_elements<T: PackedStructSlice>(s: Seq<T>, size: usize) -> Result<
    Seq<u8>,
    PackingError,
>
    decreases s.len(),
{
    if s.len() == 0 {
        Ok(Seq::empty())
    } else {
        match pack_elements(s.drop_last(), size) {
            Err(e) => Err(e),
            Ok(b) => match s.last().spec_pack(size) {
                Err(e) => Err(e),
                Ok(x) => Ok(b + x),
            },
        }
    }
}

/// Whether unpacking the window `w` can give some element.
pub open spec fn unpacks_some<T: PackedStructSlice>(w: Seq<u8>) -> bool {
    exists|x: T| T::spec_unpacks(w, Ok(x))
}

/// Whether `r` is a result of unpacking the `src.len() / size` windows of
/// `src` in order: all the elements, or the error of the first window that
/// fails.
pub open spec fn unpacks_elements<T: PackedStructSlice>(
    src: Seq<u8>,
    size: usize,
    r: Result<Vec<T>, PackingError>,
) -> bool {
    let n = src.len() as int / size as int;
    match r {
        Ok(v) => v@.len() == n && forall|i: int|
            0 <= i < n ==> T::spec_unpacks(#[trigger] window(src, i, size as int), Ok(v@[i])),
        Err(e) => exists|k: int|
            0 <= k < n && (forall|i: int|
                0 <= i < k ==> unpacks_some::<T>(#[trigger] window(src, i, size as int)))
                && T::spec_unpacks(#[trigger] window(src, k, size as int), Err(e)),
    }
}

/// An error of a prefix of the elements is the error of them all.
proof fn lemma_pack_prefix_error<T: PackedStructSlice>(s: Seq<T>, size: usize, k: int)
    requires
        0 <= k <= s.len(),
        pack_elements(s.take(k), size) is Err,
    ensures
        pack_elements(s, size) == pack_elements(s.take(k), size),
    decreases s.len(),
{
    if k == s.len() {
        assert(s.take(k) =~= s);
    } else {
        assert(s.drop_last().take(k) =~= s.take(k));
        lemma_pack_prefix_error(s.drop_last(), size, k);
    }
}

/// This can only be used as a vector of structures that have a statically
/// known size.
impl<T: PackedStructSlice> PackedStructSlice for Vec<T> {
    open spec fn spec_pack(&self, out_len: usize) -> Result<Seq<u8>, PackingError> {
        match self.spec_instance_size() {
            Err(e) => Err(e),
            Ok(expected) => if out_len != expected {
                Err(PackingError::BufferSizeMismatch { expected, actual: out_len })
            } else {
                pack_elements(self@, T::spec_fixed_size()->Ok_0)
            },
        }
    }

    open spec fn spec_unpacks(src: Seq<u8>, r: Result<Self, PackingError>) -> bool {
        match T::spec_fixed_size() {
            Err(e) => r == Err::<Self, PackingError>(e),
            Ok(size) => if size == 0 {
                r == Err::<Self, PackingError>(PackingError::ZeroSizedElement)
            } else if src.len() as int % size as int != 0 {
                r == Err::<Self, PackingError>(
                    PackingError::BufferModMismatch {
                        actual_size: src.len() as usize,
                        modulo_required: size,
                    },
                )
            } else {
                unpacks_elements(src, size, r)
            },
        }
    }

    open spec fn spec_fixed_size() -> Result<usize, PackingError> {
        Err(PackingError::InstanceRequiredForSize)
    }

    open spec fn spec_instance_size(&self) -> Result<usize, PackingError> {
        seq_packed_size::<T>(self@.len())
    }

    /// Packs the elements, in order, into consecutive windows of the element
    /// size. The length of `output` is checked before any element is packed;
    /// when an element fails, the windows of the elements before it stay
    /// written.
    fn pack_to_slice(&self, output: &mut [u8]) -> (r: Result<(), PackingError>)
        ensures
            match seq_packed_size::<T>(self@.len()) {
                Err(e) => r == Err::<(), PackingError>(e),
                Ok(expected) => if old(output)@.len() != expected {
                    r == Err::<(), PackingError>(
                        PackingError::BufferSizeMismatch {
                            expected,
                            actual: old(output)@.len() as usize,
                        },
                    )
                } else {
                    match pack_elements(self@, T::spec_fixed_size()->Ok_0) {
                        Ok(b) => r is Ok && final(output)@ == b,
                        Err(e) => r == Err::<(), PackingError>(e),
                    }
                },
            },
    {
        let expected_size = match Self::packed_bytes_size(Some(self)) {
            Ok(n) => n,
            Err(e) => return Err(e),
        };
        if output.len() != expected_size {
            return Err(PackingError::BufferSizeMismatch { expected: expected_size, actual: output.len() });
        }
        let size = match T::packed_bytes_size(None) {
            Ok(size) => size,
            Err(e) => return Err(e),
        };
        let ghost out_len = output@.len();
        let mut i: usize = 0;
        while i < self.len()
            invariant
                0 <= i <= self@.len(),
                T::spec_fixed_size() == Ok::<usize, PackingError>(size),
                out_len == expected_size,
                out_len == old(output)@.len(),
                expected_size == self@.len() * size,
                output@.len() == out_len,
                pack_elements(self@.take(i as int), size) matches Ok(b) && output@.subrange(
                    0,
                    i * size,
                ) == b,
            decreases self@.len() - i,
        {
            assert(i * size + size == (i + 1) * size <= self@.len() * size) by (nonlinear_arith)
                requires
                    i < self@.len(),
            ;
            let base = i * size;
            let mut buf: Vec<u8> = vec![0u8; size];
            match self[i].pack_to_slice(buf.as_mut_slice()) {
                Ok(()) => {},
                Err(e) => {
                    proof {
                        assert(self@.take(i + 1).drop_last() =~= self@.take(i as int));
                        assert(self@.take(i + 1).last() == self@[i as int]);
                        assert(pack_elements(self@.take(i + 1), size) == Err::<Seq<u8>, PackingError>(e));
                        lemma_pack_prefix_error(self@, size, i + 1);
                    }
                    return Err(e);
                },
            }
            let ghost prefix = output@.subrange(0, base as int);
            let mut j: usize = 0;
            while j < size
                invariant
                    0 <= j <= size,
                    base + size <= out_len,
                    out_len == expected_size,
                    output@.len() == out_len,
                    buf@.len() == size,
                    output@.subrange(0, base as int) == prefix,
                    forall|k: int| 0 <= k < j ==> output@[base + k] == buf@[k],
                decreases size - j,
            {
                output[base + j] = buf[j];
                j += 1;
            }
            proof {
                assert(self@.take(i + 1).drop_last() =~= self@.take(i as int));
                assert(output@.subrange(0, base + size) =~= prefix + buf@);
            }
            i += 1;
        }
        proof {
            assert(self@.take(i as int) =~= self@);
            assert(output@.subrange(0, i * size) =~= output@);
        }
        Ok(())
    }

    /// Unpacks one element from each window of the element size, in order.
    /// An element type of size zero is refused with `ZeroSizedElement`.
    fn unpack_from_slice(src: &[u8]) -> (r: Result<Self, PackingError>)
        ensures
            match T::spec_fixed_size() {
                Err(e) => r == Err::<Self, PackingError>(e),
                Ok(size) => if size == 0 {
                    r == Err::<Self, PackingError>(PackingError::ZeroSizedElement)
                } else if src@.len() as int % size as int != 0 {
                    r == Err::<Self, PackingError>(
                        PackingError::BufferModMismatch {
                            actual_size: src@.len() as usize,
                            modulo_required: size,
                        },
                    )
                } else {
                    unpacks_elements(src@, size, r)
                },
            },
    {
        let size = match T::packed_bytes_size(None) {
            Ok(size) => size,
            Err(e) => return Err(e),
        };
        if size == 0 {
            return Err(PackingError::ZeroSizedElement);
        }
        let modulo = src.len() % size;
        if modulo != 0 {
            return Err(PackingError::BufferModMismatch { actual_size: src.len(), modulo_required: size });
        }
        let n = src.len() / size;
        assert(n * size == src@.len()) by (nonlinear_arith)
            requires
                n == src@.len() as int / size as int,
                src@.len() as int % size as int == 0,
                size > 0,
        ;
        let mut vec: Vec<T> = Vec::with_capacity(n);
        let mut i: usize = 0;
        while i < n
            invariant
                0 <= i <= n,
                size > 0,
                n == src@.len() as int / size as int,
                n * size == src@.len(),
                src@.len() as int % size as int == 0,
                T::spec_fixed_size() == Ok::<usize, PackingError>(size),
                src@.len() <= usize::MAX,
                vec@.len() == i,
                forall|k: int|
                    0 <= k < i ==> T::spec_unpacks(#[trigger] window(src@, k, size as int), Ok(vec@[k])),
            decreases n - i,
        {
            assert(i * size + size == (i + 1) * size <= n * size) by (nonlinear_arith)
                requires
                    i < n,
            ;
            let w = slice_subrange(src, i * size, (i + 1) * size);
            assert(w@ == window(src@, i as int, size as int));
            match T::unpack_from_slice(w) {
                Ok(item) => vec.push(item),
                Err(e) => {
                    proof {
                        assert forall|k: int| 0 <= k < i implies unpacks_some::<T>(
                            #[trigger] window(src@, k, size as int),
                        ) by {
                            assert(T::spec_unpacks(window(src@, k, size as int), Ok(vec@[k])));
                        }
                        assert(T::spec_unpacks(window(src@, i as int, size as int), Err(e)));
                    }
                    return Err(e);
                },
            }
            i += 1;
        }
        Ok(vec)
    }

    fn packed_bytes_size(opt_self: Option<&Self>) -> (r: Result<usize, PackingError>)
        ensures
            match opt_self {
                None => r == Err::<usize, PackingError>(PackingError::InstanceRequiredForSize),
                Some(s) => r == seq_packed_size::<T>(s@.len()),
            },
    {
        match opt_self {
            None => Err(PackingError::InstanceRequiredForSize),
            Some(s) => {
                let size = match T::packed_bytes_size(None) {
                    Ok(size) => size,
                    Err(e) => return Err(e),
                };
                match s.len().checked_mul(size) {
                    Some(n) => Ok(n),
                    None => Err(PackingError::SizeOverflow),
                }
            },
        }
    }
}

/// An element type of fixed, positive packed size, each value of which packs
/// into a buffer of that size, filling it, and unpacks from those bytes to
/// itself.
pub open spec fn conforming<T: PackedStructSlice>() -> bool {
    &&& T::spec_fixed_size() matches Ok(size) && size > 0
    &&& forall|e: T|
        #[trigger] e.spec_pack(T::spec_fixed_size()->Ok_0) matches Ok(b) && b.len()
            == T::spec_fixed_size()->Ok_0
    &&& forall|e: T, r: Result<T, PackingError>|
        T::spec_unpacks(#[trigger] e.spec_pack(T::spec_fixed_size()->Ok_0)->Ok_0, r) ==> r
            == Ok::<T, PackingError>(e)
}

/// Elements that all pack give a packed sequence.
proof fn lemma_pack_elements_ok<T: PackedStructSlice>(s: Seq<T>, size: usize)
    requires
        forall|i: int| 0 <= i < s.len() ==> (#[trigger] s[i]).spec_pack(size) is Ok,
    ensures
        pack_elements(s, size) is Ok,
    decreases s.len(),
{
    if s.len() > 0 {
        lemma_pack_elements_ok(s.drop_last(), size);
    }
}

/// Window `i` of a packed sequence holds the packed form of element `i`.
proof fn lemma_pack_elements_windows<T: PackedStructSlice>(s: Seq<T>, size: usize)
    requires
        pack_elements(s, size) is Ok,
        forall|i: int|
            0 <= i < s.len() ==> ((#[trigger] s[i]).spec_pack(size) matches Ok(x) ==> x.len()
                == size),
    ensures
        pack_elements(s, size)->Ok_0.len() == s.len() * size,
        forall|i: int|
            0 <= i < s.len() ==> (#[trigger] s[i]).spec_pack(size) is Ok && window(
                pack_elements(s, size)->Ok_0,
                i,
                size as int,
            ) == s[i].spec_pack(size)->Ok_0,
    decreases s.len(),
{
    if s.len() > 0 {
        let n = s.len() - 1;
        let prev = s.drop_last();
        assert forall|i: int|
            0 <= i < prev.len() implies ((#[trigger] prev[i]).spec_pack(size) matches Ok(x)
            ==> x.len() == size) by {
            assert(prev[i] == s[i]);
        }
        lemma_pack_elements_windows(prev, size);
        let b = pack_elements(prev, size)->Ok_0;
        let x = s.last().spec_pack(size)->Ok_0;
        assert(x.len() == size);
        assert(b.len() == n * size);
        assert(n * size + size == s.len() * size) by (nonlinear_arith)
            requires
                n == s.len() - 1,
        ;
        assert forall|i: int| 0 <= i < s.len() implies (#[trigger] s[i]).spec_pack(size) is Ok
            && window(pack_elements(s, size)->Ok_0, i, size as int) == s[i].spec_pack(size)->Ok_0 by {
            if i < n {
                assert(0 <= i * size && i * size + size <= n * size) by (nonlinear_arith)
                    requires
                        0 <= i < n,
                ;
                assert((i + 1) * size == i * size + size) by (nonlinear_arith);
                assert(prev[i] == s[i]);
                assert(window(b + x, i, size as int) =~= window(b, i, size as int));
            } else {
                assert((i + 1) * size == n * size + size) by (nonlinear_arith)
                    requires
                        i == n,
                ;
                assert(window(b + x, i, size as int) =~= x);
            }
        }
    }
}

/// Round trip: for a conforming element type, a vector packs into a buffer
/// of its packed size, and unpacking those bytes gives back the same
/// elements in the same order.
pub proof fn lemma_round_trip<T: PackedStructSlice>(v: Vec<T>)
    requires
        conforming::<T>(),
        v@.len() * T::spec_fixed_size()->Ok_0 <= usize::MAX,
    ensures
        ({
            let n = (v@.len() * T::spec_fixed_size()->Ok_0) as usize;
            &&& v.spec_pack(n) is Ok
            &&& forall|r: Result<Vec<T>, PackingError>|
                #[trigger] Vec::<T>::spec_unpacks(v.spec_pack(n)->Ok_0, r) ==> (r matches Ok(w)
                    && w@ == v@)
        }),
{
    let size = T::spec_fixed_size()->Ok_0;
    let n = (v@.len() * size) as usize;
    assert forall|i: int| 0 <= i < v@.len() implies (#[trigger] v@[i]).spec_pack(size) is Ok by {
        assert(v@[i].spec_pack(size) is Ok);
    }
    lemma_pack_elements_ok(v@, size);
    lemma_pack_elements_windows(v@, size);
    let b = v.spec_pack(n)->Ok_0;
    assert(b.len() as int % size as int == 0) by {
        lemma_mod_multiples_basic(v@.len() as int, size as int);
    }
    assert(b.len() as int / size as int == v@.len()) by {
        lemma_div_by_multiple(v@.len() as int, size as int);
    }
    assert forall|r: Result<Vec<T>, PackingError>|
        #[trigger] Vec::<T>::spec_unpacks(b, r) implies (r matches Ok(w) && w@ == v@) by {
        match r {
            Ok(w) => {
                assert forall|i: int| 0 <= i < v@.len() implies w@[i] == v@[i] by {
                    assert(T::spec_unpacks(window(b, i, size as int), Ok(w@[i])));
                    assert(T::spec_unpacks(v@[i].spec_pack(size)->Ok_0, Ok(w@[i])));
                }
                assert(w@ =~= v@);
            },
            Err(e) => {
                let k = choose|k: int|
                    0 <= k < v@.len() && T::spec_unpacks(
                        #[trigger] window(b, k, size as int),
                        Err(e),
                    );
                assert(T::spec_unpacks(v@[k].spec_pack(size)->Ok_0, Err(e)));
            },
        }
    }
}

/// Size law: the packed size of a vector is its length times the fixed
/// size of its elements.
pub proof fn lemma_size_law<T: PackedStructSlice>(v: Vec<T>)
    requires
        T::spec_fixed_size() is Ok,
        v@.len() * T::spec_fixed_size()->Ok_0 <= usize::MAX,
    ensures
        v.spec_instance_size() == Ok::<usize, PackingError>(
            (v@.len() * T::spec_fixed_size()->Ok_0) as usize,
        ),
{
}

/// Packing into a buffer whose length is not the packed size fails with
/// `BufferSizeMismatch`, carrying the packed size and the buffer's length.
pub proof fn lemma_pack_size_mismatch<T: PackedStructSlice>(v: Vec<T>, out_len: usize)
    requires
        T::spec_fixed_size() is Ok,
        v@.len() * T::spec_fixed_size()->Ok_0 <= usize::MAX,
        out_len != v@.len() * T::spec_fixed_size()->Ok_0,
    ensures
        v.spec_pack(out_len) == Err::<Seq<u8>, PackingError>(
            PackingError::BufferSizeMismatch {
                expected: (v@.len() * T::spec_fixed_size()->Ok_0) as usize,
                actual: out_len,
            },
        ),
{
}

/// Unpacking from a buffer whose length is not a multiple of the element
/// size fails with `BufferModMismatch`, carrying the buffer's length and
/// the element size.
pub proof fn lemma_unpack_mod_mismatch<T: PackedStructSlice>(
    src: Seq<u8>,
    r: Result<Vec<T>, PackingError>,
)
    requires
        T::spec_fixed_size() matches Ok(size) && size > 0,
        src.len() <= usize::MAX,
        src.len() as int % T::spec_fixed_size()->Ok_0 as int != 0,
        Vec::<T>::spec_unpacks(src, r),
    ensures
        r == Err::<Vec<T>, PackingError>(
            PackingError::BufferModMismatch {
                actual_size: src.len() as usize,
                modulo_required: T::spec_fixed_size()->Ok_0,
            },
        ),
{
}

/// An empty vector packs into an empty buffer, writing nothing.
pub proof fn lemma_pack_empty<T: PackedStructSlice>(v: Vec<T>)
    requires
        T::spec_fixed_size() is Ok,
        v@.len() == 0,
    ensures
        v.spec_pack(0) == Ok::<Seq<u8>, PackingError>(Seq::empty()),
{
}

/// An empty buffer unpacks, for an element type of positive size, into an
/// empty vector.
pub proof fn lemma_unpack_empty<T: PackedStructSlice>(r: Result<Vec<T>, PackingError>)
    requires
        T::spec_fixed_size() matches Ok(size) && size > 0,
        Vec::<T>::spec_unpacks(Seq::empty(), r),
    ensures
        r matches Ok(w) && w@.len() == 0,
{
}

/// When element `k` is the first that fails to pack, packing the vector
/// into a buffer of its packed size fails with that element's error.
pub proof fn lemma_element_error<T: PackedStructSlice>(v: Vec<T>, k: int)
    requires
        T::spec_fixed_size() is Ok,
        v@.len() * T::spec_fixed_size()->Ok_0 <= usize::MAX,
        0 <= k < v@.len(),
        forall|i: int| 0 <= i < k ==> (#[trigger] v@[i]).spec_pack(T::spec_fixed_size()->Ok_0) is Ok,
        v@[k].spec_pack(T::spec_fixed_size()->Ok_0) is Err,
    ensures
        v.spec_pack((v@.len() * T::spec_fixed_size()->Ok_0) as usize) == v@[k].spec_pack(
            T::spec_fixed_size()->Ok_0,
        ),
{
    let size = T::spec_fixed_size()->Ok_0;
    let s = v@;
    assert forall|i: int| 0 <= i < k implies (#[trigger] s.take(k)[i]).spec_pack(size) is Ok by {
        assert(s.take(k)[i] == s[i]);
    }
    lemma_pack_elements_ok(s.take(k), size);
    assert(s.take(k + 1).drop_last() =~= s.take(k));
    assert(s.take(k + 1).last() == s[k]);
    lemma_pack_prefix_error(s, size, k + 1);
}

} // verus!
