use packed_struct::{PackedStructSlice, PackingError};

/// A four-byte big-endian word.
#[derive(Clone, Copy, Debug, PartialEq)]
struct Word(u32);

impl PackedStructSlice for Word {
    fn pack_to_slice(&self, output: &mut [u8]) -> Result<(), PackingError> {
        if output.len() != 4 {
            return Err(PackingError::BufferSizeMismatch { expected: 4, actual: output.len() });
        }
        output.copy_from_slice(&self.0.to_be_bytes());
        Ok(())
    }

    fn unpack_from_slice(src: &[u8]) -> Result<Self, PackingError> {
        if src.len() != 4 {
            return Err(PackingError::BufferSizeMismatch { expected: 4, actual: src.len() });
        }
        Ok(Word(u32::from_be_bytes([src[0], src[1], src[2], src[3]])))
    }

    fn packed_bytes_size(_opt_self: Option<&Self>) -> Result<usize, PackingError> {
        Ok(4)
    }
}

/// A one-byte value that refuses to pack or unpack the byte 0xff.
#[derive(Clone, Copy, Debug, PartialEq)]
struct Flaky(u8);

impl PackedStructSlice for Flaky {
    fn pack_to_slice(&self, output: &mut [u8]) -> Result<(), PackingError> {
        if output.len() != 1 {
            return Err(PackingError::BufferSizeMismatch { expected: 1, actual: output.len() });
        }
        if self.0 == 0xff {
            return Err(PackingError::InvalidValue);
        }
        output[0] = self.0;
        Ok(())
    }

    fn unpack_from_slice(src: &[u8]) -> Result<Self, PackingError> {
        if src.len() != 1 {
            return Err(PackingError::BufferSizeMismatch { expected: 1, actual: src.len() });
        }
        if src[0] == 0xff {
            return Err(PackingError::BitsError);
        }
        Ok(Flaky(src[0]))
    }

    fn packed_bytes_size(_opt_self: Option<&Self>) -> Result<usize, PackingError> {
        Ok(1)
    }
}

/// A type that packs into no bytes at all.
#[derive(Clone, Copy, Debug, PartialEq)]
struct Empty;

impl PackedStructSlice for Empty {
    fn pack_to_slice(&self, _output: &mut [u8]) -> Result<(), PackingError> {
        Ok(())
    }

    fn unpack_from_slice(_src: &[u8]) -> Result<Self, PackingError> {
        Ok(Empty)
    }

    fn packed_bytes_size(_opt_self: Option<&Self>) -> Result<usize, PackingError> {
        Ok(0)
    }
}

/// A type whose size is only known per instance.
#[derive(Clone, Debug, PartialEq)]
struct Dynamic(Vec<u8>);

impl PackedStructSlice for Dynamic {
    fn pack_to_slice(&self, output: &mut [u8]) -> Result<(), PackingError> {
        output.copy_from_slice(&self.0);
        Ok(())
    }

    fn unpack_from_slice(src: &[u8]) -> Result<Self, PackingError> {
        Ok(Dynamic(src.to_vec()))
    }

    fn packed_bytes_size(opt_self: Option<&Self>) -> Result<usize, PackingError> {
        match opt_self {
            None => Err(PackingError::InstanceRequiredForSize),
            Some(d) => Ok(d.0.len()),
        }
    }
}

/// A type whose fixed size is more than half of the address space.
#[derive(Clone, Copy, Debug, PartialEq)]
struct Huge;

impl PackedStructSlice for Huge {
    fn pack_to_slice(&self, _output: &mut [u8]) -> Result<(), PackingError> {
        Err(PackingError::BufferTooSmall)
    }

    fn unpack_from_slice(_src: &[u8]) -> Result<Self, PackingError> {
        Err(PackingError::BufferTooSmall)
    }

    fn packed_bytes_size(_opt_self: Option<&Self>) -> Result<usize, PackingError> {
        Ok(usize::MAX / 2 + 1)
    }
}

fn words() -> Vec<Word> {
    vec![Word(0x01020304), Word(0xa0b0c0d0), Word(7)]
}

#[test]
fn round_trip_empty() {
    let v: Vec<Word> = Vec::new();
    let mut buf: Vec<u8> = Vec::new();
    assert_eq!(v.pack_to_slice(&mut buf), Ok(()));
    assert_eq!(Vec::<Word>::unpack_from_slice(&buf), Ok(v));
}

#[test]
fn round_trip_one() {
    let v = vec![Word(0xdeadbeef)];
    let mut buf = vec![0u8; 4];
    assert_eq!(v.pack_to_slice(&mut buf), Ok(()));
    assert_eq!(Vec::<Word>::unpack_from_slice(&buf), Ok(v));
}

#[test]
fn round_trip_many() {
    let v: Vec<Word> = (0..50u32).map(|i| Word(i.wrapping_mul(0x01010101))).collect();
    let mut buf = vec![0u8; 200];
    assert_eq!(v.pack_to_slice(&mut buf), Ok(()));
    assert_eq!(Vec::<Word>::unpack_from_slice(&buf), Ok(v));
}

#[test]
fn packed_bytes_are_concatenation() {
    let mut buf = vec![0xeeu8; 12];
    assert_eq!(words().pack_to_slice(&mut buf), Ok(()));
    assert_eq!(buf, vec![1, 2, 3, 4, 0xa0, 0xb0, 0xc0, 0xd0, 0, 0, 0, 7]);
}

#[test]
fn size_law() {
    for n in [0usize, 1, 3, 17] {
        let v = vec![Word(1); n];
        assert_eq!(Vec::<Word>::packed_bytes_size(Some(&v)), Ok(n * 4));
        assert_eq!(
            Vec::<Word>::packed_bytes_size(Some(&v)).unwrap(),
            v.len() * Word::packed_bytes_size(None).unwrap()
        );
    }
}

#[test]
fn size_of_three_words_is_twelve() {
    assert_eq!(Vec::<Word>::packed_bytes_size(Some(&words())), Ok(12));
}

#[test]
fn size_without_instance_is_refused() {
    assert_eq!(Vec::<Word>::packed_bytes_size(None), Err(PackingError::InstanceRequiredForSize));
}

#[test]
fn pack_rejects_long_buffer() {
    let mut buf = vec![0u8; 13];
    assert_eq!(
        words().pack_to_slice(&mut buf),
        Err(PackingError::BufferSizeMismatch { expected: 12, actual: 13 })
    );
}

#[test]
fn pack_rejects_short_buffer() {
    let mut buf = vec![0u8; 11];
    assert_eq!(
        words().pack_to_slice(&mut buf),
        Err(PackingError::BufferSizeMismatch { expected: 12, actual: 11 })
    );
}

#[test]
fn pack_empty_rejects_nonempty_buffer() {
    let v: Vec<Word> = Vec::new();
    let mut buf = vec![0u8; 4];
    assert_eq!(v.pack_to_slice(&mut buf), Err(PackingError::BufferSizeMismatch { expected: 0, actual: 4 }));
}

#[test]
fn pack_size_check_comes_before_elements() {
    let v = vec![Flaky(0xff)];
    let mut buf = vec![0u8; 2];
    assert_eq!(v.pack_to_slice(&mut buf), Err(PackingError::BufferSizeMismatch { expected: 1, actual: 2 }));
}

#[test]
fn unpack_rejects_ragged_buffer() {
    let buf = vec![0u8; 10];
    assert_eq!(
        Vec::<Word>::unpack_from_slice(&buf),
        Err(PackingError::BufferModMismatch { actual_size: 10, modulo_required: 4 })
    );
}

#[test]
fn unpack_twelve_bytes_gives_three_words() {
    let buf = [1u8, 2, 3, 4, 0xa0, 0xb0, 0xc0, 0xd0, 0, 0, 0, 7];
    let v = Vec::<Word>::unpack_from_slice(&buf).unwrap();
    assert_eq!(v.len(), 3);
    assert_eq!(v, words());
}

#[test]
fn pack_empty_writes_nothing() {
    let v: Vec<Word> = Vec::new();
    let mut buf: [u8; 0] = [];
    assert_eq!(v.pack_to_slice(&mut buf), Ok(()));
}

#[test]
fn unpack_empty_gives_empty() {
    assert_eq!(Vec::<Word>::unpack_from_slice(&[]), Ok(Vec::new()));
    assert_eq!(Vec::<Flaky>::unpack_from_slice(&[]), Ok(Vec::new()));
}

#[test]
fn element_pack_error_is_passed_on() {
    let v = vec![Flaky(1), Flaky(2), Flaky(0xff), Flaky(4), Flaky(5)];
    let mut buf = vec![0u8; 5];
    assert_eq!(v.pack_to_slice(&mut buf), Err(PackingError::InvalidValue));
}

#[test]
fn element_pack_error_in_last_place() {
    let v = vec![Flaky(1), Flaky(2), Flaky(3), Flaky(4), Flaky(0xff)];
    let mut buf = vec![0u8; 5];
    assert_eq!(v.pack_to_slice(&mut buf), Err(PackingError::InvalidValue));
}

#[test]
fn element_unpack_error_is_passed_on() {
    let buf = [1u8, 2, 0xff, 4, 5];
    assert_eq!(Vec::<Flaky>::unpack_from_slice(&buf), Err(PackingError::BitsError));
}

#[test]
fn flaky_elements_round_trip() {
    let v = vec![Flaky(9), Flaky(0), Flaky(0xfe)];
    let mut buf = vec![0u8; 3];
    assert_eq!(v.pack_to_slice(&mut buf), Ok(()));
    assert_eq!(buf, vec![9, 0, 0xfe]);
    assert_eq!(Vec::<Flaky>::unpack_from_slice(&buf), Ok(v));
}

#[test]
fn zero_sized_element_is_refused_on_unpack() {
    assert_eq!(Vec::<Empty>::unpack_from_slice(&[]), Err(PackingError::ZeroSizedElement));
    assert_eq!(Vec::<Empty>::unpack_from_slice(&[1, 2]), Err(PackingError::ZeroSizedElement));
}

#[test]
fn zero_sized_elements_pack_into_nothing() {
    let v = vec![Empty, Empty, Empty];
    let mut buf: [u8; 0] = [];
    assert_eq!(Vec::<Empty>::packed_bytes_size(Some(&v)), Ok(0));
    assert_eq!(v.pack_to_slice(&mut buf), Ok(()));
}

#[test]
fn dynamic_element_size_error_is_passed_on() {
    let v = vec![Dynamic(vec![1, 2])];
    let mut buf = vec![0u8; 2];
    assert_eq!(Vec::<Dynamic>::packed_bytes_size(Some(&v)), Err(PackingError::InstanceRequiredForSize));
    assert_eq!(v.pack_to_slice(&mut buf), Err(PackingError::InstanceRequiredForSize));
    assert_eq!(Vec::<Dynamic>::unpack_from_slice(&buf), Err(PackingError::InstanceRequiredForSize));
}

#[test]
fn nested_vectors_need_an_instance() {
    let v = vec![vec![Word(1)]];
    let mut buf = vec![0u8; 4];
    assert_eq!(v.pack_to_slice(&mut buf), Err(PackingError::InstanceRequiredForSize));
    assert_eq!(Vec::<Vec<Word>>::unpack_from_slice(&buf), Err(PackingError::InstanceRequiredForSize));
}

#[test]
fn size_overflow_is_reported() {
    let v = vec![Huge, Huge];
    let mut buf = vec![0u8; 4];
    assert_eq!(Vec::<Huge>::packed_bytes_size(Some(&v)), Err(PackingError::SizeOverflow));
    assert_eq!(v.pack_to_slice(&mut buf), Err(PackingError::SizeOverflow));
    assert_eq!(Vec::<Huge>::packed_bytes_size(Some(&vec![Huge])), Ok(usize::MAX / 2 + 1));
}
