//! The zero-copy view over a whole mapped file: the mapping is validated
//! once, and records are then served by bounds-checked decoding straight
//! from the mapped bytes.
//!
//! The mapping itself is made by the caller (it is file I/O); this module
//! receives the finished read-only mapping and owns every rule about it.
//! The backing file must not be mutated or truncated while mapped; that
//! is the mapping's own safety contract and cannot be detected here.

use vstd::prelude::*;
use std::sync::Arc;
use memmap2::Mmap;
use crate::error::IbuError;
use crate::header::{
    spec_header_matches, spec_header_valid, spec_validation_error, Header, HEADER_SIZE,
};
use crate::record::{
    lemma_records_of_index, lemma_records_of_len, spec_records_of, Record, RECORD_SIZE,
};

verus! {

/// How many records one parallel-processing batch holds: after each such
/// chunk a worker's `on_batch_complete` hook runs.
pub const BATCH_SIZE: usize = 1024 * 1024;

/// Relies on `memmap2::Mmap` being an ordinary value type holding a
/// read-only byte mapping; the library never looks inside it except
/// through the two accessors below.
#[verifier::external_type_specification]
#[verifier::external_body]
pub struct ExMmap(memmap2::Mmap);

/// The bytes a read-only mapping holds. Under the mapping's safety
/// contract (the backing file is not mutated while mapped) these bytes
/// are fixed for the life of the mapping.
pub uninterp spec fn mmap_bytes(m: Mmap) -> Seq<u8>;

/// Relies on `memmap2::Mmap`'s `Deref` to `[u8]`: `len` reports the
/// length of the mapped bytes.
#[verifier::external_body]
fn map_len(m: &Mmap) -> (n: usize)
    ensures
        n == mmap_bytes(*m).len(),
{
    m.len()
}

/// Relies on `memmap2::Mmap`'s `Deref` to `[u8]`: an in-bounds subslice
/// of the mapped bytes.
#[verifier::external_body]
fn map_segment(m: &Mmap, start: usize, end: usize) -> (r: &[u8])
    requires
        start <= end <= mmap_bytes(*m).len(),
    ensures
        r@ == mmap_bytes(*m).subrange(start as int, end as int),
{
    &m[start..end]
}

/// Relies on `Arc::clone`: the duplicate shares the same mapping.
#[verifier::external_body]
fn share_map(m: &Arc<Mmap>) -> (r: Arc<Mmap>)
    ensures
        r == *m,
{
    m.clone()
}

/// A validated, cheaply duplicable, read-only record-array view of one
/// mapped file: a valid header followed by a whole number of records.
pub struct MmapReader {
    map: Arc<Mmap>,
    header: Header,
    len: usize,
}

impl MmapReader {
    /// The mapped bytes behind this view.
    pub closed spec fn map_bytes(&self) -> Seq<u8> {
        mmap_bytes(*self.map)
    }

    /// The validated header decoded at construction.
    pub closed spec fn spec_header(&self) -> Header {
        self.header
    }

    /// The number of records in the view.
    pub closed spec fn spec_len(&self) -> int {
        self.len as int
    }

    /// Every record of the file, in file order.
    pub open spec fn records(&self) -> Seq<Record> {
        spec_records_of(self.map_bytes().skip(HEADER_SIZE as int))
    }

    /// What every view satisfies: the mapping opens with a valid header,
    /// the rest is a whole number of records, and the stored count is
    /// exactly that number.
    #[verifier::type_invariant]
    spec fn wf(&self) -> bool {
        &&& self.map_bytes().len() <= usize::MAX
        &&& self.map_bytes().len() >= HEADER_SIZE
        &&& (self.map_bytes().len() - HEADER_SIZE) % (RECORD_SIZE as int) == 0
        &&& self.len as int == (self.map_bytes().len() - HEADER_SIZE) / (RECORD_SIZE as int)
        &&& spec_header_matches(self.header, self.map_bytes().take(HEADER_SIZE as int))
        &&& spec_header_valid(self.header)
    }

    /// Validates a finished read-only mapping and wraps it as a record
    /// view. Fails on a mapping smaller than a header or whose remainder
    /// is not a whole number of records, and on a header that fails
    /// validation, reporting the first failed check.
    pub fn from_map(map: Mmap) -> (r: Result<MmapReader, IbuError>)
        ensures
            r matches Ok(v) ==> {
                &&& mmap_bytes(map).len() >= HEADER_SIZE
                &&& (mmap_bytes(map).len() - HEADER_SIZE) % (RECORD_SIZE as int) == 0
                &&& v.map_bytes() == mmap_bytes(map)
                &&& spec_header_matches(
                    v.spec_header(),
                    mmap_bytes(map).take(HEADER_SIZE as int),
                )
                &&& spec_header_valid(v.spec_header())
                &&& v.spec_len() == (mmap_bytes(map).len() - HEADER_SIZE) / (RECORD_SIZE as int)
                &&& v.records() == spec_records_of(mmap_bytes(map).skip(HEADER_SIZE as int))
            },
            mmap_bytes(map).len() < HEADER_SIZE ==> r == Result::<MmapReader, IbuError>::Err(
                IbuError::InvalidMapSize,
            ),
            mmap_bytes(map).len() >= HEADER_SIZE ==> forall|h: Header|
                spec_header_matches(h, mmap_bytes(map).take(HEADER_SIZE as int)) ==> (
                if !spec_header_valid(h) {
                    r == Result::<MmapReader, IbuError>::Err(spec_validation_error(h))
                } else if (mmap_bytes(map).len() - HEADER_SIZE) % (RECORD_SIZE as int) != 0 {
                    r == Result::<MmapReader, IbuError>::Err(IbuError::InvalidMapSize)
                } else {
                    r is Ok
                }),
    {
        let total = map_len(&map);
        if total < HEADER_SIZE {
            return Err(IbuError::InvalidMapSize);
        }
        let header_slice = map_segment(&map, 0, HEADER_SIZE);
        let header = Header::from_bytes(header_slice);
        proof {
            assert(mmap_bytes(map).subrange(0, HEADER_SIZE as int) =~= mmap_bytes(map).take(
                HEADER_SIZE as int,
            ));
        }
        match header.validate() {
            Ok(()) => {},
            Err(e) => {
                proof {
                    assert forall|h: Header|
                        spec_header_matches(
                            h,
                            mmap_bytes(map).take(HEADER_SIZE as int),
                        ) implies (!spec_header_valid(h) && e == spec_validation_error(h)) by {
                        crate::header::lemma_header_matches_unique(
                            h,
                            header,
                            mmap_bytes(map).take(HEADER_SIZE as int),
                        );
                    }
                }
                return Err(e);
            },
        }
        let data_len = total - HEADER_SIZE;
        if data_len % RECORD_SIZE != 0 {
            return Err(IbuError::InvalidMapSize);
        }
        let len = data_len / RECORD_SIZE;
        let v = MmapReader { map: Arc::new(map), header, len };
        Ok(v)
    }

    /// The number of records in the file, computed once at construction.
    pub fn len(&self) -> (n: usize)
        ensures
            n as int == self.spec_len(),
            n as int == self.records().len(),
    {
        proof {
            use_type_invariant(self);
            lemma_records_of_len(self.map_bytes().skip(HEADER_SIZE as int));
        }
        self.len
    }

    /// A copy of the validated header.
    pub fn header(&self) -> (h: Header)
        ensures
            h == self.spec_header(),
            spec_header_valid(h),
    {
        proof {
            use_type_invariant(self);
        }
        self.header
    }

    /// The records with indices `start..end`, in file order, decoded
    /// from the mapping. Valid exactly when `start < len`, `end <= len`
    /// and `end > start`; any other request is a bounds violation naming
    /// the requested end and the record count.
    pub fn slice(&self, start: usize, end: usize) -> (r: Result<Vec<Record>, IbuError>)
        ensures
            r is Ok <==> ((start as int) < self.spec_len() && (end as int) <= self.spec_len()
                && start < end),
            r matches Ok(v) ==> v@ == self.records().subrange(start as int, end as int),
            r matches Err(e) ==> e == (IbuError::InvalidIndex {
                idx: end,
                max: self.spec_len() as usize,
            }),
    {
        proof {
            use_type_invariant(self);
        }
        if start >= self.len || end > self.len {
            return Err(IbuError::InvalidIndex { idx: end, max: self.len });
        }
        if end <= start {
            return Err(IbuError::InvalidIndex { idx: end, max: self.len });
        }
        let mut out: Vec<Record> = Vec::new();
        let mut i = start;
        proof {
            lemma_records_of_len(self.map_bytes().skip(HEADER_SIZE as int));
            assert(out@ =~= self.records().subrange(start as int, start as int));
        }
        while i < end
            invariant
                self.wf(),
                start <= i <= end,
                end <= self.len,
                self.records().len() == self.spec_len(),
                out@ == self.records().subrange(start as int, i as int),
            decreases end - i,
        {
            let off = HEADER_SIZE + i * RECORD_SIZE;
            let seg = map_segment(&*self.map, off, off + RECORD_SIZE);
            let rec = Record::from_bytes(seg);
            proof {
                let k = RECORD_SIZE as int;
                let data = self.map_bytes().skip(HEADER_SIZE as int);
                lemma_records_of_index(data, i as int);
                assert(seg@ =~= data.subrange(k * i as int, k * i as int + k));
                assert(self.records().subrange(start as int, i as int).push(rec)
                    =~= self.records().subrange(start as int, i as int + 1));
            }
            out.push(rec);
            i = i + 1;
        }
        Ok(out)
    }
}

impl Clone for MmapReader {
    /// Duplicates the view cheaply; both handles share one mapping and
    /// describe the same records.
    fn clone(&self) -> (res: Self)
        ensures
            res == *self,
    {
        proof {
            use_type_invariant(self);
        }
        MmapReader { map: share_map(&self.map), header: self.header, len: self.len }
    }
}

} // verus!
