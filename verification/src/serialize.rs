//! Flags, modes and errors of the encodings of field elements.

use vstd::prelude::*;

verus! {

/// Metadata bits that ride on the last byte of an encoding: `mask` holds
/// them in the top `bit_size` bits of a byte.
#[derive(Clone, Copy, Debug, PartialEq, Eq, Structural)]
pub struct Flags {
    pub bit_size: u8,
    pub mask: u8,
}

impl Flags {
    /// Whether the mask stays inside the bits that `bit_size` reserves.
    pub open spec fn wf(&self) -> bool {
        self.bit_size <= 8 && self.mask as int % pow2_u8(8 - self.bit_size) == 0
    }

    /// The flag set without any bit.
    pub open spec fn empty_spec() -> Flags {
        Flags { bit_size: 0, mask: 0 }
    }

    /// Tests whether the mask stays inside the bits that `bit_size` reserves.
    pub fn is_valid(&self) -> (r: bool)
        ensures
            r == self.wf(),
    {
        self.bit_size <= 8 && self.mask as u16 % pow2_small(8 - self.bit_size) == 0
    }

    /// The flag set without any bit.
    pub fn empty() -> (r: Flags)
        ensures
            r == Flags::empty_spec(),
            r.wf(),
    {
        Flags { bit_size: 0, mask: 0 }
    }
}

/// Two to the power `k`, for `k` from 0 to 8.
pub open spec fn pow2_u8(k: int) -> int {
    if k <= 0 {
        1
    } else if k == 1 {
        2
    } else if k == 2 {
        4
    } else if k == 3 {
        8
    } else if k == 4 {
        16
    } else if k == 5 {
        32
    } else if k == 6 {
        64
    } else if k == 7 {
        128
    } else {
        256
    }
}

/// Two to the power `k`, for `k` up to 8.
pub fn pow2_small(k: u8) -> (r: u16)
    requires
        k <= 8,
    ensures
        r == pow2_u8(k as int),
{
    if k == 0 {
        1
    } else if k == 1 {
        2
    } else if k == 2 {
        4
    } else if k == 3 {
        8
    } else if k == 4 {
        16
    } else if k == 5 {
        32
    } else if k == 6 {
        64
    } else if k == 7 {
        128
    } else {
        256
    }
}

/// The byte whose top `flag_bits` bits are set.
pub open spec fn flag_mask_spec(flag_bits: u8) -> u8 {
    (256 - pow2_u8(8 - flag_bits)) as u8
}

/// The byte whose top `flag_bits` bits are set.
pub fn flag_mask(flag_bits: u8) -> (r: u8)
    requires
        flag_bits <= 8,
    ensures
        r == flag_mask_spec(flag_bits),
{
    if flag_bits == 0 {
        0x00
    } else if flag_bits == 1 {
        0x80
    } else if flag_bits == 2 {
        0xc0
    } else if flag_bits == 3 {
        0xe0
    } else if flag_bits == 4 {
        0xf0
    } else if flag_bits == 5 {
        0xf8
    } else if flag_bits == 6 {
        0xfc
    } else if flag_bits == 7 {
        0xfe
    } else {
        0xff
    }
}

/// A byte cut down to its top `flag_bits` bits is a valid mask of flags.
pub proof fn lemma_masked_flags_wf(b: u8, flag_bits: u8)
    requires
        flag_bits <= 8,
    ensures
        (Flags { bit_size: flag_bits, mask: b & flag_mask_spec(flag_bits) }).wf(),
{
    let m = flag_mask_spec(flag_bits);
    if flag_bits == 0 {
        assert(m == 0x00u8);
        assert(b & 0x00u8 == 0) by (bit_vector);
    } else if flag_bits == 1 {
        assert(m == 0x80u8);
        assert((b & 0x80u8) % 128 == 0) by (bit_vector);
    } else if flag_bits == 2 {
        assert(m == 0xc0u8);
        assert((b & 0xc0u8) % 64 == 0) by (bit_vector);
    } else if flag_bits == 3 {
        assert(m == 0xe0u8);
        assert((b & 0xe0u8) % 32 == 0) by (bit_vector);
    } else if flag_bits == 4 {
        assert(m == 0xf0u8);
        assert((b & 0xf0u8) % 16 == 0) by (bit_vector);
    } else if flag_bits == 5 {
        assert(m == 0xf8u8);
        assert((b & 0xf8u8) % 8 == 0) by (bit_vector);
    } else if flag_bits == 6 {
        assert(m == 0xfcu8);
        assert((b & 0xfcu8) % 4 == 0) by (bit_vector);
    } else if flag_bits == 7 {
        assert(m == 0xfeu8);
        assert((b & 0xfeu8) % 2 == 0) by (bit_vector);
    } else {
        assert(m == 0xffu8);
    }
}

/// Whether an encoding leaves out what can be computed back.
#[derive(Clone, Copy, Debug, PartialEq, Eq, Structural)]
pub enum Compress {
    Yes,
    No,
}

/// Why bytes could not be turned into an element.
#[derive(Clone, Copy, Debug, PartialEq, Eq, Structural)]
pub enum SerializationError {
    /// The flags ask for more bits than a byte has, or hold bits outside
    /// those they ask for.
    NotEnoughSpace,
    /// The bytes do not encode a valid element.
    InvalidData,
    /// The flag bits hold a combination that the field below does not
    /// allow.
    UnexpectedFlags,
    /// The source ended before the encoding did.
    UnexpectedEof,
}

/// Whether an encoding with the given flags is made: it is where the flags
/// are valid.
pub open spec fn encoding_result(flags: Flags) -> Result<(), SerializationError> {
    if flags.wf() {
        Ok(())
    } else {
        Err(SerializationError::NotEnoughSpace)
    }
}

} // verus!
