//! The fixed-width 32-byte file header: magic number, format version,
//! barcode and UMI lengths, a flags word and eight reserved bytes.

use vstd::prelude::*;
use vstd::bytes::{
    spec_u32_from_le_bytes, spec_u32_to_le_bytes, u32_from_le_bytes, u32_to_le_bytes,
    spec_u64_from_le_bytes, spec_u64_to_le_bytes, u64_from_le_bytes, u64_to_le_bytes,
    lemma_auto_spec_u32_to_from_le_bytes, lemma_auto_spec_u64_to_from_le_bytes,
};
use vstd::slice::{slice_subrange, slice_to_vec};
use vstd::array::array_as_slice;
use crate::error::IbuError;

verus! {

/// The magic number that opens every file of this format.
pub const MAGIC: u32 = 0x21554249;

/// The single supported format version.
pub const VERSION: u32 = 2;

/// Size in bytes of the encoded header.
pub const HEADER_SIZE: usize = 32;

/// File-level metadata preceding all records.
///
/// A header is valid only if its magic number and version match the
/// format's constants and both lengths lie in 1..=32. Bit 0 of `flags`
/// marks the records as sorted; all other flag bits and the reserved
/// bytes are carried through unchanged.
#[derive(Clone, Copy, Debug, PartialEq, Eq, Hash)]
pub struct Header {
    /// Magic number identifying the format.
    pub magic: u32,
    /// Format version.
    pub version: u32,
    /// Barcode length in encoded units, 1..=32 when valid.
    pub bc_len: u32,
    /// UMI length in encoded units, 1..=32 when valid.
    pub umi_len: u32,
    /// Bit flags; bit 0 means the records are sorted.
    pub flags: u64,
    /// Opaque bytes, preserved byte-for-byte.
    pub reserved: [u8; 8],
}

/// The 32-byte little-endian encoding of a header.
pub open spec fn spec_encode_header(h: Header) -> Seq<u8> {
    spec_u32_to_le_bytes(h.magic) + spec_u32_to_le_bytes(h.version) + spec_u32_to_le_bytes(
        h.bc_len,
    ) + spec_u32_to_le_bytes(h.umi_len) + spec_u64_to_le_bytes(h.flags) + h.reserved@
}

/// The fields denoted by 32 header bytes, little-endian. The reserved
/// bytes are stated as a sequence so that any decoded header `h` of
/// bytes `s` satisfies `spec_header_matches(h, s)`.
pub open spec fn spec_header_matches(h: Header, s: Seq<u8>) -> bool {
    &&& h.magic == spec_u32_from_le_bytes(s.subrange(0, 4))
    &&& h.version == spec_u32_from_le_bytes(s.subrange(4, 8))
    &&& h.bc_len == spec_u32_from_le_bytes(s.subrange(8, 12))
    &&& h.umi_len == spec_u32_from_le_bytes(s.subrange(12, 16))
    &&& h.flags == spec_u64_from_le_bytes(s.subrange(16, 24))
    &&& h.reserved@ == s.subrange(24, 32)
}

/// A header is valid when its constants match and both lengths are in range.
pub open spec fn spec_header_valid(h: Header) -> bool {
    &&& h.magic == MAGIC
    &&& h.version == VERSION
    &&& 1 <= h.bc_len <= 32
    &&& 1 <= h.umi_len <= 32
}

/// The error that validation reports for an invalid header: the first
/// failed check, in the order magic number, version, barcode length,
/// UMI length.
pub open spec fn spec_validation_error(h: Header) -> IbuError
    recommends
        !spec_header_valid(h),
{
    if h.magic != MAGIC {
        IbuError::InvalidMagicNumber { expected: MAGIC, actual: h.magic }
    } else if h.version != VERSION {
        IbuError::InvalidVersion { expected: VERSION, actual: h.version }
    } else if !(1 <= h.bc_len <= 32) {
        IbuError::InvalidBarcodeLength(h.bc_len)
    } else {
        IbuError::InvalidUmiLength(h.umi_len)
    }
}

impl Header {
    /// Builds a header for the given barcode and UMI lengths, with the
    /// current magic number and version, no flags set and zeroed
    /// reserved bytes.
    pub fn new(bc_len: u32, umi_len: u32) -> (h: Self)
        ensures
            h.magic == MAGIC,
            h.version == VERSION,
            h.bc_len == bc_len,
            h.umi_len == umi_len,
            h.flags == 0,
            h.reserved@ == Seq::<u8>::new(8, |i: int| 0u8),
    {
        let h = Self {
            magic: MAGIC,
            version: VERSION,
            bc_len,
            umi_len,
            flags: 0,
            reserved: [0u8; 8],
        };
        proof {
            assert(h.reserved@ =~= Seq::<u8>::new(8, |i: int| 0u8));
        }
        h
    }

    /// True when bit 0 of the flags word is set.
    pub open spec fn spec_sorted(&self) -> bool {
        self.flags & 1 != 0
    }

    /// Marks the records as sorted by setting bit 0 of the flags word;
    /// every other field is unchanged.
    pub fn set_sorted(&mut self)
        ensures
            final(self).flags == old(self).flags | 1,
            final(self).spec_sorted(),
            final(self).magic == old(self).magic,
            final(self).version == old(self).version,
            final(self).bc_len == old(self).bc_len,
            final(self).umi_len == old(self).umi_len,
            final(self).reserved == old(self).reserved,
    {
        self.flags = self.flags | 1;
        proof {
            let f = self.flags;
            assert(forall|g: u64| (#[trigger] (g | 1)) & 1 != 0) by (bit_vector);
        }
    }

    /// Whether the file is marked as containing sorted records.
    pub fn sorted(&self) -> (r: bool)
        ensures
            r == self.spec_sorted(),
    {
        self.flags & 1 != 0
    }

    /// Validates the header: the magic number, the version, then the
    /// barcode length, then the UMI length, reporting the first failure.
    pub fn validate(&self) -> (r: Result<(), IbuError>)
        ensures
            r is Ok <==> spec_header_valid(*self),
            r matches Err(e) ==> e == spec_validation_error(*self),
            self.magic != MAGIC ==> r == Result::<(), IbuError>::Err(
                IbuError::InvalidMagicNumber { expected: MAGIC, actual: self.magic },
            ),
            self.magic == MAGIC && self.version != VERSION ==> r == Result::<(), IbuError>::Err(
                IbuError::InvalidVersion { expected: VERSION, actual: self.version },
            ),
            self.magic == MAGIC && self.version == VERSION && !(1 <= self.bc_len <= 32) ==> r
                == Result::<(), IbuError>::Err(IbuError::InvalidBarcodeLength(self.bc_len)),
            self.magic == MAGIC && self.version == VERSION && 1 <= self.bc_len <= 32 && !(1
                <= self.umi_len <= 32) ==> r == Result::<(), IbuError>::Err(
                IbuError::InvalidUmiLength(self.umi_len),
            ),
    {
        if self.magic != MAGIC {
            return Err(IbuError::InvalidMagicNumber { expected: MAGIC, actual: self.magic });
        }
        if self.version != VERSION {
            return Err(IbuError::InvalidVersion { expected: VERSION, actual: self.version });
        }
        if self.bc_len == 0 || self.bc_len > 32 {
            return Err(IbuError::InvalidBarcodeLength(self.bc_len));
        }
        if self.umi_len == 0 || self.umi_len > 32 {
            return Err(IbuError::InvalidUmiLength(self.umi_len));
        }
        Ok(())
    }

    /// Encodes the header as exactly 32 little-endian bytes.
    pub fn as_bytes(&self) -> (out: Vec<u8>)
        ensures
            out@ == spec_encode_header(*self),
            out@.len() == HEADER_SIZE,
    {
        proof {
            lemma_auto_spec_u32_to_from_le_bytes();
            lemma_auto_spec_u64_to_from_le_bytes();
        }
        let mut out = u32_to_le_bytes(self.magic);
        let mut version_bytes = u32_to_le_bytes(self.version);
        let mut bc_bytes = u32_to_le_bytes(self.bc_len);
        let mut umi_bytes = u32_to_le_bytes(self.umi_len);
        let mut flag_bytes = u64_to_le_bytes(self.flags);
        let mut reserved_bytes = slice_to_vec(array_as_slice(&self.reserved));
        out.append(&mut version_bytes);
        out.append(&mut bc_bytes);
        out.append(&mut umi_bytes);
        out.append(&mut flag_bytes);
        out.append(&mut reserved_bytes);
        out
    }

    /// Decodes a header from exactly 32 little-endian bytes.
    /// Every bit pattern decodes successfully; validity is a separate,
    /// explicit check.
    pub fn from_bytes(bytes: &[u8]) -> (h: Self)
        requires
            bytes@.len() == HEADER_SIZE,
        ensures
            spec_header_matches(h, bytes@),
            spec_encode_header(h) == bytes@,
    {
        let magic = u32_from_le_bytes(slice_subrange(bytes, 0, 4));
        let version = u32_from_le_bytes(slice_subrange(bytes, 4, 8));
        let bc_len = u32_from_le_bytes(slice_subrange(bytes, 8, 12));
        let umi_len = u32_from_le_bytes(slice_subrange(bytes, 12, 16));
        let flags = u64_from_le_bytes(slice_subrange(bytes, 16, 24));
        let tail = slice_subrange(bytes, 24, 32);
        let reserved: [u8; 8] = [tail[0], tail[1], tail[2], tail[3], tail[4], tail[5], tail[6], tail[7]];
        let h = Header { magic, version, bc_len, umi_len, flags, reserved };
        proof {
            lemma_auto_spec_u32_to_from_le_bytes();
            lemma_auto_spec_u64_to_from_le_bytes();
            assert(h.reserved@ =~= bytes@.subrange(24, 32));
            assert(spec_encode_header(h) =~= bytes@);
        }
        h
    }
}

/// Every header's fields match its own encoding.
pub proof fn lemma_header_matches_self(h: Header)
    ensures
        spec_encode_header(h).len() == HEADER_SIZE,
        spec_header_matches(h, spec_encode_header(h)),
{
    lemma_auto_spec_u32_to_from_le_bytes();
    lemma_auto_spec_u64_to_from_le_bytes();
    let s = spec_encode_header(h);
    assert(s.subrange(0, 4) =~= spec_u32_to_le_bytes(h.magic));
    assert(s.subrange(4, 8) =~= spec_u32_to_le_bytes(h.version));
    assert(s.subrange(8, 12) =~= spec_u32_to_le_bytes(h.bc_len));
    assert(s.subrange(12, 16) =~= spec_u32_to_le_bytes(h.umi_len));
    assert(s.subrange(16, 24) =~= spec_u64_to_le_bytes(h.flags));
    assert(s.subrange(24, 32) =~= h.reserved@);
}

/// The match relation determines the header: two headers matching the
/// same bytes are equal.
pub proof fn lemma_header_matches_unique(h1: Header, h2: Header, s: Seq<u8>)
    requires
        spec_header_matches(h1, s),
        spec_header_matches(h2, s),
    ensures
        h1 == h2,
{
    assert(h1.reserved =~= h2.reserved);
}

/// Round trip: decoding an encoded header gives the header back; stated
/// through the match relation, any header whose fields match the
/// encoding of `h` is `h` itself.
pub proof fn lemma_header_roundtrip(h: Header)
    ensures
        spec_encode_header(h).len() == HEADER_SIZE,
        forall|h2: Header| spec_header_matches(h2, spec_encode_header(h)) ==> h2 == h,
{
    lemma_header_matches_self(h);
    let s = spec_encode_header(h);
    assert forall|h2: Header| spec_header_matches(h2, s) implies h2 == h by {
        assert(h2.reserved@ == h.reserved@);
        assert(h2.reserved =~= h.reserved);
    }
}

/// Encoding is injective: headers with equal encodings are equal.
pub proof fn lemma_header_encode_injective(h1: Header, h2: Header)
    requires
        spec_encode_header(h1) == spec_encode_header(h2),
    ensures
        h1 == h2,
{
    lemma_header_roundtrip(h1);
    lemma_header_matches_self(h2);
}

} // verus!
