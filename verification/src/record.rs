//! The fixed-width 24-byte record: three little-endian `u64` fields
//! (barcode, umi, index) with a lexicographic total order.

use vstd::prelude::*;
use vstd::bytes::{
    spec_u64_from_le_bytes, spec_u64_to_le_bytes, u64_from_le_bytes, u64_to_le_bytes,
    lemma_auto_spec_u64_to_from_le_bytes,
};
use vstd::slice::slice_subrange;
use core::cmp::Ordering;

verus! {

/// Size in bytes of one encoded record.
pub const RECORD_SIZE: usize = 24;

/// A single fixed-width record: barcode, UMI and an application index,
/// each an opaque 64-bit unsigned integer.
///
/// Records are ordered lexicographically: by barcode, then UMI, then index.
#[derive(Clone, Copy, Debug, PartialEq, Eq, Structural, Ord, Hash, Default)]
pub struct Record {
    pub barcode: u64,
    pub umi: u64,
    pub index: u64,
}

/// The 24-byte little-endian encoding of a record.
pub open spec fn spec_encode_record(r: Record) -> Seq<u8> {
    spec_u64_to_le_bytes(r.barcode) + spec_u64_to_le_bytes(r.umi) + spec_u64_to_le_bytes(
        r.index,
    )
}

/// The record denoted by 24 bytes, little-endian.
pub open spec fn spec_decode_record(s: Seq<u8>) -> Record
    recommends
        s.len() == RECORD_SIZE,
{
    Record {
        barcode: spec_u64_from_le_bytes(s.subrange(0, 8)),
        umi: spec_u64_from_le_bytes(s.subrange(8, 16)),
        index: spec_u64_from_le_bytes(s.subrange(16, 24)),
    }
}

/// The concatenated encoding of a sequence of records, in order.
pub open spec fn spec_encode_records(rs: Seq<Record>) -> Seq<u8>
    decreases rs.len(),
{
    if rs.len() == 0 {
        Seq::<u8>::empty()
    } else {
        spec_encode_record(rs[0]) + spec_encode_records(rs.skip(1))
    }
}

/// The records denoted by a byte sequence read 24 bytes at a time;
/// a trailing fragment shorter than one record denotes nothing.
pub open spec fn spec_records_of(s: Seq<u8>) -> Seq<Record>
    decreases s.len(),
{
    if s.len() < RECORD_SIZE {
        Seq::<Record>::empty()
    } else {
        seq![spec_decode_record(s.take(RECORD_SIZE as int))] + spec_records_of(
            s.skip(RECORD_SIZE as int),
        )
    }
}

/// Strict lexicographic order on records: barcode, then UMI, then index.
pub open spec fn spec_record_lt(a: Record, b: Record) -> bool {
    ||| a.barcode < b.barcode
    ||| (a.barcode == b.barcode && a.umi < b.umi)
    ||| (a.barcode == b.barcode && a.umi == b.umi && a.index < b.index)
}

/// The three-way comparison that `partial_cmp` and `cmp` realise.
pub open spec fn spec_record_cmp(a: Record, b: Record) -> Ordering {
    if spec_record_lt(a, b) {
        Ordering::Less
    } else if spec_record_lt(b, a) {
        Ordering::Greater
    } else {
        Ordering::Equal
    }
}

impl Record {
    /// Builds a record from its three fields.
    pub fn new(barcode: u64, umi: u64, index: u64) -> (r: Self)
        ensures
            r == (Record { barcode, umi, index }),
    {
        Self { barcode, umi, index }
    }

    /// Encodes the record as exactly 24 little-endian bytes.
    pub fn as_bytes(&self) -> (out: Vec<u8>)
        ensures
            out@ == spec_encode_record(*self),
            out@.len() == RECORD_SIZE,
    {
        proof {
            lemma_auto_spec_u64_to_from_le_bytes();
        }
        let mut out = u64_to_le_bytes(self.barcode);
        let mut umi_bytes = u64_to_le_bytes(self.umi);
        let mut index_bytes = u64_to_le_bytes(self.index);
        out.append(&mut umi_bytes);
        out.append(&mut index_bytes);
        out
    }

    /// Decodes a record from exactly 24 little-endian bytes.
    /// Every bit pattern decodes successfully.
    pub fn from_bytes(bytes: &[u8]) -> (r: Self)
        requires
            bytes@.len() == RECORD_SIZE,
        ensures
            r == spec_decode_record(bytes@),
    {
        let barcode = u64_from_le_bytes(slice_subrange(bytes, 0, 8));
        let umi = u64_from_le_bytes(slice_subrange(bytes, 8, 16));
        let index = u64_from_le_bytes(slice_subrange(bytes, 16, 24));
        Record { barcode, umi, index }
    }
}

impl PartialOrd for Record {
    fn partial_cmp(&self, other: &Self) -> (r: Option<Ordering>) {
        if self.barcode != other.barcode {
            if self.barcode < other.barcode {
                Some(Ordering::Less)
            } else {
                Some(Ordering::Greater)
            }
        } else if self.umi != other.umi {
            if self.umi < other.umi {
                Some(Ordering::Less)
            } else {
                Some(Ordering::Greater)
            }
        } else if self.index != other.index {
            if self.index < other.index {
                Some(Ordering::Less)
            } else {
                Some(Ordering::Greater)
            }
        } else {
            Some(Ordering::Equal)
        }
    }
}

impl vstd::std_specs::cmp::PartialOrdSpecImpl for Record {
    open spec fn obeys_partial_cmp_spec() -> bool {
        true
    }

    open spec fn partial_cmp_spec(&self, other: &Self) -> Option<Ordering> {
        Some(spec_record_cmp(*self, *other))
    }
}

/// Round trip: decoding an encoded record gives the record back,
/// for every record.
pub proof fn lemma_record_roundtrip(r: Record)
    ensures
        spec_decode_record(spec_encode_record(r)) == r,
{
    lemma_auto_spec_u64_to_from_le_bytes();
    let s = spec_encode_record(r);
    assert(s.subrange(0, 8) =~= spec_u64_to_le_bytes(r.barcode));
    assert(s.subrange(8, 16) =~= spec_u64_to_le_bytes(r.umi));
    assert(s.subrange(16, 24) =~= spec_u64_to_le_bytes(r.index));
}

/// The record order is total: any two records are related one way,
/// the other way, or equal, and never two of these at once.
pub proof fn lemma_record_order_total(a: Record, b: Record)
    ensures
        spec_record_lt(a, b) || spec_record_lt(b, a) || a == b,
        spec_record_lt(a, b) ==> !spec_record_lt(b, a) && a != b,
        a == b ==> !spec_record_lt(a, b),
{
}

/// The record order is transitive.
pub proof fn lemma_record_order_transitive(a: Record, b: Record, c: Record)
    requires
        spec_record_lt(a, b),
        spec_record_lt(b, c),
    ensures
        spec_record_lt(a, c),
{
}

/// A sequence of `n` records encodes to exactly `24 * n` bytes.
pub proof fn lemma_encode_records_len(rs: Seq<Record>)
    ensures
        spec_encode_records(rs).len() == RECORD_SIZE * rs.len(),
    decreases rs.len(),
{
    vstd::bytes::lemma_auto_spec_u64_to_from_le_bytes();
    if rs.len() > 0 {
        lemma_encode_records_len(rs.skip(1));
    }
}

/// Appending one record to a sequence appends its encoding to the bytes.
pub proof fn lemma_encode_records_push(rs: Seq<Record>, r: Record)
    ensures
        spec_encode_records(rs.push(r)) == spec_encode_records(rs) + spec_encode_record(r),
    decreases rs.len(),
{
    if rs.len() == 0 {
        let p = rs.push(r);
        assert(p[0] == r);
        assert(p.skip(1) =~= Seq::<Record>::empty());
        assert(spec_encode_records(p) == spec_encode_record(r) + spec_encode_records(p.skip(1)));
        assert(spec_encode_record(r) + Seq::<u8>::empty() =~= spec_encode_record(r));
        assert(spec_encode_records(rs) + spec_encode_record(r) =~= spec_encode_record(r));
    } else {
        assert(rs.push(r).skip(1) =~= rs.skip(1).push(r));
        lemma_encode_records_push(rs.skip(1), r);
        assert(spec_encode_records(rs.push(r)) =~= spec_encode_records(rs) + spec_encode_record(
            r,
        ));
    }
}

/// Concatenating record sequences concatenates their encodings.
pub proof fn lemma_encode_records_concat(a: Seq<Record>, b: Seq<Record>)
    ensures
        spec_encode_records(a + b) == spec_encode_records(a) + spec_encode_records(b),
    decreases b.len(),
{
    if b.len() == 0 {
        assert(a + b =~= a);
        assert(spec_encode_records(a) + spec_encode_records(b) =~= spec_encode_records(a));
    } else {
        lemma_encode_records_concat(a.push(b[0]), b.skip(1));
        lemma_encode_records_push(a, b[0]);
        assert(a.push(b[0]) + b.skip(1) =~= a + b);
        assert(spec_encode_records(a) + spec_encode_record(b[0]) + spec_encode_records(b.skip(1))
            =~= spec_encode_records(a) + (spec_encode_record(b[0]) + spec_encode_records(
            b.skip(1),
        )));
        assert(spec_encode_record(b[0]) + spec_encode_records(b.skip(1)) == spec_encode_records(
            b,
        ));
    }
}

/// A byte sequence denotes as many records as it holds whole 24-byte
/// groups.
pub proof fn lemma_records_of_len(s: Seq<u8>)
    ensures
        spec_records_of(s).len() == s.len() as int / (RECORD_SIZE as int),
    decreases s.len(),
{
    if s.len() < RECORD_SIZE {
    } else {
        lemma_records_of_len(s.skip(RECORD_SIZE as int));
    }
}

/// The record at position `i` is decoded from bytes `24 * i` onwards.
pub proof fn lemma_records_of_index(s: Seq<u8>, i: int)
    requires
        0 <= i,
        RECORD_SIZE as int * (i + 1) <= s.len(),
    ensures
        spec_records_of(s).len() > i,
        spec_records_of(s)[i] == spec_decode_record(
            s.subrange(RECORD_SIZE as int * i, RECORD_SIZE as int * i + RECORD_SIZE as int),
        ),
    decreases i,
{
    let k = RECORD_SIZE as int;
    if i == 0 {
        assert(s.take(k) =~= s.subrange(0, k));
    } else {
        lemma_records_of_index(s.skip(k), i - 1);
        assert(s.skip(k).subrange(k * (i - 1), k * (i - 1) + k) =~= s.subrange(k * i, k * i + k));
    }
}

/// Reading records off a byte sequence distributes over concatenation
/// when the first part holds only whole records.
pub proof fn lemma_records_of_append(a: Seq<u8>, b: Seq<u8>)
    requires
        a.len() as int % (RECORD_SIZE as int) == 0,
    ensures
        spec_records_of(a + b) == spec_records_of(a) + spec_records_of(b),
    decreases a.len(),
{
    if a.len() == 0 {
        assert(a + b =~= b);
        assert(spec_records_of(a) + spec_records_of(b) =~= spec_records_of(b));
    } else {
        let k = RECORD_SIZE as int;
        assert(a.len() >= k);
        assert((a + b).take(k) =~= a.take(k));
        assert((a + b).skip(k) =~= a.skip(k) + b);
        assert(a.skip(k).len() as int % k == 0);
        lemma_records_of_append(a.skip(k), b);
        assert(a.take(k) =~= a.take(k) + a.skip(k).take(0));
        assert(spec_records_of(a) == seq![spec_decode_record(a.take(k))] + spec_records_of(
            a.skip(k),
        ));
        assert(spec_records_of(a + b) =~= spec_records_of(a) + spec_records_of(b));
    }
}

/// Round trip for streams: reading back the concatenated encoding of any
/// record sequence yields the identical sequence.
pub proof fn lemma_records_roundtrip(rs: Seq<Record>)
    ensures
        spec_records_of(spec_encode_records(rs)) == rs,
    decreases rs.len(),
{
    vstd::bytes::lemma_auto_spec_u64_to_from_le_bytes();
    if rs.len() == 0 {
    } else {
        let s = spec_encode_records(rs);
        lemma_encode_records_len(rs);
        lemma_encode_records_len(rs.skip(1));
        assert(s.take(RECORD_SIZE as int) =~= spec_encode_record(rs[0]));
        assert(s.skip(RECORD_SIZE as int) =~= spec_encode_records(rs.skip(1)));
        lemma_record_roundtrip(rs[0]);
        lemma_records_roundtrip(rs.skip(1));
        assert(spec_records_of(s) =~= rs);
    }
}

} // verus!
