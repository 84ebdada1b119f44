//! The buffered streaming writer: turns a sequence of records into an
//! encoded byte stream handed to a byte sink, batching physical writes.

use vstd::prelude::*;
use crate::error::IbuError;
use crate::header::{spec_encode_header, Header};
use crate::record::{
    lemma_encode_records_concat, lemma_encode_records_len, lemma_encode_records_push,
    spec_encode_records, Record, RECORD_SIZE,
};
use crate::stream::ByteSink;

verus! {

/// Default capacity of the internal byte buffer: room for 48 Ki records.
pub const DEFAULT_BUFFER_SIZE: usize = 48 * 1024 * 24;

/// A buffered writer of records.
///
/// Construction with a header encodes and writes the header to the sink
/// at once; a headless writer emits a pure record stream. Records are
/// buffered and flushed in batches; `finish` must be called to push
/// trailing buffered bytes to the sink.
///
/// Every fallible operation fails only when the sink fails; after such a
/// failure the writer must be discarded, as buffered and sunk bytes may
/// no longer line up.
///
/// Discarding the writer performs no implicit best-effort flush: bytes
/// still buffered when the writer is dropped are lost. That is a
/// deliberate trade — a destructor's flush would swallow its own
/// failures, could not be verified, and would forbid the safe by-value
/// `into_inner` — so every path that must deliver calls `finish` and
/// checks its result.
#[derive(Clone)]
pub struct Writer<W: ByteSink> {
    inner: W,
    buffer: Vec<u8>,
    records_written: u64,
    base: Ghost<Seq<u8>>,
    records: Ghost<Seq<Record>>,
}

impl<W: ByteSink> Writer<W> {
    /// The bytes that precede the records in the sink: whatever the sink
    /// held at construction, plus the encoded header for a headed writer.
    pub closed spec fn base(&self) -> Seq<u8> {
        self.base@
    }

    /// The records written so far, in order.
    pub closed spec fn records(&self) -> Seq<Record> {
        self.records@
    }

    /// The bytes the sink has accepted so far.
    pub closed spec fn sink_bytes(&self) -> Seq<u8> {
        self.inner.sunk()
    }

    /// The bytes sitting in the internal buffer, not yet handed to the sink.
    pub closed spec fn buffered(&self) -> Seq<u8> {
        self.buffer@
    }

    /// A well-formed writer: the sink bytes followed by the buffered
    /// bytes are exactly the base prefix followed by the encodings of
    /// the records written so far, and the counter matches.
    pub closed spec fn wf(&self) -> bool {
        &&& self.inner.sunk() + self.buffer@ == self.base@ + spec_encode_records(self.records@)
        &&& self.records_written as int == self.records@.len()
        &&& self.buffer@.len() <= DEFAULT_BUFFER_SIZE
    }

    /// Builds a writer over `inner`, encoding and writing `header` to it
    /// immediately; fails only if the sink write fails.
    pub fn new(inner: W, header: Header) -> (r: Result<Writer<W>, IbuError>)
        ensures
            r matches Err(e) ==> e is Io,
            r matches Ok(w) ==> {
                &&& w.wf()
                &&& w.base() == inner.sunk() + spec_encode_header(header)
                &&& w.records() == Seq::<Record>::empty()
                &&& w.sink_bytes() == w.base()
                &&& w.buffered().len() == 0
            },
    {
        let mut inner = inner;
        let header_bytes = header.as_bytes();
        match inner.write_all(header_bytes.as_slice()) {
            Ok(()) => {},
            Err(e) => {
                return Err(e);
            },
        }
        let w = Writer {
            inner,
            buffer: Vec::new(),
            records_written: 0,
            base: Ghost(inner.sunk()),
            records: Ghost(Seq::<Record>::empty()),
        };
        proof {
            assert(w.inner.sunk() + w.buffer@ =~= w.base@ + spec_encode_records(w.records@));
        }
        Ok(w)
    }

    /// Builds a writer that emits records only, with no header; used to
    /// produce a pure record stream destined to be merged into another
    /// writer later. Never fails.
    pub fn new_headless(inner: W) -> (w: Writer<W>)
        ensures
            w.wf(),
            w.base() == inner.sunk(),
            w.records() == Seq::<Record>::empty(),
            w.sink_bytes() == w.base(),
            w.buffered().len() == 0,
    {
        let w = Writer {
            inner,
            buffer: Vec::new(),
            records_written: 0,
            base: Ghost(inner.sunk()),
            records: Ghost(Seq::<Record>::empty()),
        };
        proof {
            assert(w.inner.sunk() + w.buffer@ =~= w.base@ + spec_encode_records(w.records@));
        }
        w
    }

    /// The number of records written so far.
    pub fn records_written(&self) -> (r: u64)
        requires
            self.wf(),
        ensures
            r as int == self.records().len(),
    {
        self.records_written
    }

    /// Hands the buffered bytes to the sink. On success the buffer is
    /// empty and every record written so far has reached the sink.
    fn flush_buffer(&mut self) -> (r: Result<(), IbuError>)
        requires
            old(self).wf(),
        ensures
            r matches Err(e) ==> e is Io,
            r is Err ==> final(self).records() == old(self).records() && final(self).base()
                == old(self).base(),
            r is Ok ==> {
                &&& final(self).wf()
                &&& final(self).records() == old(self).records()
                &&& final(self).base() == old(self).base()
                &&& final(self).buffered().len() == 0
                &&& final(self).sink_bytes() == final(self).base() + spec_encode_records(
                    final(self).records(),
                )
            },
    {
        if self.buffer.len() > 0 {
            match self.inner.write_all(self.buffer.as_slice()) {
                Ok(()) => {},
                Err(e) => {
                    return Err(e);
                },
            }
            self.buffer.clear();
        }
        proof {
            assert(self.inner.sunk() + self.buffer@ =~= self.inner.sunk());
            assert(self.inner.sunk() =~= self.base@ + spec_encode_records(self.records@));
        }
        Ok(())
    }

    /// Writes `bytes`, known to encode the records `rs`, through the
    /// buffer, bypassing it for batches larger than the buffer capacity.
    /// Owed to succeed when the bytes fit the buffer's free room, since
    /// no sink call is made then.
    fn write_slice(&mut self, bytes: &[u8], Ghost(rs): Ghost<Seq<Record>>) -> (r: Result<
        (),
        IbuError,
    >)
        requires
            old(self).wf(),
            bytes@ == spec_encode_records(rs),
            old(self).records().len() + rs.len() <= u64::MAX,
        ensures
            r matches Err(e) ==> e is Io,
            r is Err ==> final(self).records() == old(self).records() && final(self).base()
                == old(self).base(),
            old(self).buffered().len() + bytes@.len() <= DEFAULT_BUFFER_SIZE ==> r is Ok,
            r is Ok ==> {
                &&& final(self).wf()
                &&& final(self).records() == old(self).records() + rs
                &&& final(self).base() == old(self).base()
            },
    {
        proof {
            lemma_encode_records_len(rs);
        }
        let num_records = bytes.len() / RECORD_SIZE;
        if bytes.len() > DEFAULT_BUFFER_SIZE {
            match self.flush_buffer() {
                Ok(()) => {},
                Err(e) => {
                    return Err(e);
                },
            }
            match self.inner.write_all(bytes) {
                Ok(()) => {},
                Err(e) => {
                    return Err(e);
                },
            }
        } else {
            if self.buffer.len() + bytes.len() > DEFAULT_BUFFER_SIZE {
                match self.flush_buffer() {
                    Ok(()) => {},
                    Err(e) => {
                        return Err(e);
                    },
                }
            }
            let ghost sunk_mid = self.inner.sunk();
            let ghost buf_mid = self.buffer@;
            self.buffer.extend_from_slice(bytes);
            proof {
                assert(self.inner.sunk() + self.buffer@ =~= (sunk_mid + buf_mid) + bytes@);
            }
        }
        self.records_written = self.records_written + num_records as u64;
        self.records = Ghost(self.records@ + rs);
        proof {
            lemma_encode_records_concat(old(self).records@, rs);
            let base0 = self.base@;
            let enc0 = spec_encode_records(old(self).records@);
            assert(self.inner.sunk() + self.buffer@ =~= (base0 + enc0) + bytes@);
            assert((base0 + enc0) + bytes@ =~= base0 + spec_encode_records(self.records@));
        }
        Ok(())
    }

    /// Writes a single record: flushes first if the buffer lacks room,
    /// then appends the encoded record to the buffer. Fails only on a
    /// sink I/O failure, which can arise only when a flush was needed;
    /// a record that fits the buffer's free room is always accepted,
    /// and a failed write leaves the records written as they were.
    pub fn write_record(&mut self, record: &Record) -> (r: Result<(), IbuError>)
        requires
            old(self).wf(),
            old(self).records().len() < u64::MAX,
        ensures
            r matches Err(e) ==> e is Io,
            r is Err ==> final(self).records() == old(self).records() && final(self).base()
                == old(self).base(),
            old(self).buffered().len() + RECORD_SIZE <= DEFAULT_BUFFER_SIZE ==> r is Ok,
            r is Ok ==> {
                &&& final(self).wf()
                &&& final(self).records() == old(self).records().push(*record)
                &&& final(self).base() == old(self).base()
                &&& final(self).buffered().len() <= old(self).buffered().len() + RECORD_SIZE
            },
    {
        if self.buffer.len() + RECORD_SIZE > DEFAULT_BUFFER_SIZE {
            match self.flush_buffer() {
                Ok(()) => {},
                Err(e) => {
                    return Err(e);
                },
            }
        }
        let ghost sunk_mid = self.inner.sunk();
        let ghost buf_mid = self.buffer@;
        proof {
            assert(sunk_mid + buf_mid =~= self.base@ + spec_encode_records(self.records@));
        }
        let record_bytes = record.as_bytes();
        self.buffer.extend_from_slice(record_bytes.as_slice());
        self.records_written = self.records_written + 1;
        self.records = Ghost(self.records@.push(*record));
        proof {
            lemma_encode_records_push(old(self).records@, *record);
            assert(self.inner.sunk() + self.buffer@ =~= (sunk_mid + buf_mid) + record_bytes@);
            assert((sunk_mid + buf_mid) + record_bytes@ == (self.base@ + spec_encode_records(
                old(self).records@,
            )) + record_bytes@);
            assert((self.base@ + spec_encode_records(old(self).records@)) + record_bytes@
                =~= self.base@ + spec_encode_records(self.records@));
        }
        Ok(())
    }

    /// Writes every record of the batch, in order; large batches bypass
    /// the internal buffer after a flush. Fails only on a sink I/O
    /// failure; a batch whose encoding fits the buffer's free room is
    /// always accepted, and a failed write leaves the records written
    /// as they were.
    pub fn write_batch(&mut self, records: &[Record]) -> (r: Result<(), IbuError>)
        requires
            old(self).wf(),
            old(self).records().len() + records@.len() <= u64::MAX,
        ensures
            r matches Err(e) ==> e is Io,
            r is Err ==> final(self).records() == old(self).records() && final(self).base()
                == old(self).base(),
            old(self).buffered().len() + RECORD_SIZE * records@.len() <= DEFAULT_BUFFER_SIZE
                ==> r is Ok,
            r is Ok ==> {
                &&& final(self).wf()
                &&& final(self).records() == old(self).records() + records@
                &&& final(self).base() == old(self).base()
            },
    {
        let bytes = encode_batch(records);
        proof {
            lemma_encode_records_len(records@);
        }
        self.write_slice(bytes.as_slice(), Ghost(records@))
    }

    /// Writes every record of the batch, in order.
    pub fn write_collection(&mut self, records: &[Record]) -> (r: Result<(), IbuError>)
        requires
            old(self).wf(),
            old(self).records().len() + records@.len() <= u64::MAX,
        ensures
            r matches Err(e) ==> e is Io,
            r is Err ==> final(self).records() == old(self).records() && final(self).base()
                == old(self).base(),
            old(self).buffered().len() + RECORD_SIZE * records@.len() <= DEFAULT_BUFFER_SIZE
                ==> r is Ok,
            r is Ok ==> {
                &&& final(self).wf()
                &&& final(self).records() == old(self).records() + records@
                &&& final(self).base() == old(self).base()
            },
    {
        self.write_batch(records)
    }

    /// Writes a produced sequence of records one at a time, in order,
    /// until exhaustion or the first error, which is returned; records
    /// accepted before a failure remain written. A sequence whose
    /// encoding fits the buffer's free room is always accepted whole.
    pub fn write_iter(&mut self, records: Vec<Record>) -> (r: Result<(), IbuError>)
        requires
            old(self).wf(),
            old(self).records().len() + records@.len() <= u64::MAX,
        ensures
            r matches Err(e) ==> e is Io,
            r is Err ==> exists|k: int|
                0 <= k <= records@.len() && final(self).records() == old(self).records()
                    + records@.take(k) && final(self).base() == old(self).base(),
            old(self).buffered().len() + RECORD_SIZE * records@.len() <= DEFAULT_BUFFER_SIZE
                ==> r is Ok,
            r is Ok ==> {
                &&& final(self).wf()
                &&& final(self).records() == old(self).records() + records@
                &&& final(self).base() == old(self).base()
            },
    {
        let n = records.len();
        let mut i: usize = 0;
        while i < n
            invariant
                self.wf(),
                i <= n,
                n == records@.len(),
                old(self).records().len() + n <= u64::MAX,
                self.records() == old(self).records() + records@.take(i as int),
                self.base() == old(self).base(),
                old(self).buffered().len() + RECORD_SIZE * n <= DEFAULT_BUFFER_SIZE ==> self
                    .buffered().len() <= old(self).buffered().len() + RECORD_SIZE * i,
            decreases n - i,
        {
            let record = *vstd::slice::slice_index_get(records.as_slice(), i);
            match self.write_record(&record) {
                Ok(()) => {},
                Err(e) => {
                    proof {
                        let k = i as int;
                        assert(0 <= k <= records@.len() && self.records() == old(self).records()
                            + records@.take(k));
                    }
                    return Err(e);
                },
            }
            proof {
                assert(records@.take(i + 1) =~= records@.take(i as int).push(records@[i as int]));
                assert((old(self).records() + records@.take(i as int)).push(record) =~= old(
                    self,
                ).records() + records@.take(i + 1));
            }
            i = i + 1;
        }
        proof {
            assert(records@.take(n as int) =~= records@);
        }
        Ok(())
    }

    /// Flushes the internal buffer and then the sink. On success the
    /// sink has accepted exactly the base prefix followed by the
    /// encodings of every record written.
    pub fn finish(&mut self) -> (r: Result<(), IbuError>)
        requires
            old(self).wf(),
        ensures
            r matches Err(e) ==> e is Io,
            r is Err ==> final(self).records() == old(self).records() && final(self).base()
                == old(self).base(),
            r is Ok ==> {
                &&& final(self).wf()
                &&& final(self).records() == old(self).records()
                &&& final(self).base() == old(self).base()
                &&& final(self).buffered().len() == 0
                &&& final(self).sink_bytes() == final(self).base() + spec_encode_records(
                    final(self).records(),
                )
            },
    {
        match self.flush_buffer() {
            Ok(()) => {},
            Err(e) => {
                return Err(e);
            },
        }
        match self.inner.flush() {
            Ok(()) => {},
            Err(e) => {
                return Err(e);
            },
        }
        Ok(())
    }

    /// Merges the records accumulated by a headless in-memory writer
    /// into this writer through the batching path, then empties the
    /// source writer.
    pub fn ingest(&mut self, other: &mut Writer<Vec<u8>>) -> (r: Result<(), IbuError>)
        requires
            old(self).wf(),
            old(other).wf(),
            old(other).base() == Seq::<u8>::empty(),
            old(self).records().len() + old(other).records().len() <= u64::MAX,
        ensures
            r matches Err(e) ==> e is Io,
            r is Err ==> final(self).records() == old(self).records() && final(self).base()
                == old(self).base() && final(other).records() == old(other).records()
                && final(other).base() == old(other).base(),
            r is Ok ==> {
                &&& final(self).wf()
                &&& final(self).records() == old(self).records() + old(other).records()
                &&& final(self).base() == old(self).base()
                &&& final(other).wf()
                &&& final(other).records() == Seq::<Record>::empty()
                &&& final(other).base() == Seq::<u8>::empty()
                &&& final(other).sink_bytes() == Seq::<u8>::empty()
                &&& final(other).buffered().len() == 0
            },
    {
        match other.flush_buffer() {
            Ok(()) => {},
            Err(e) => {
                return Err(e);
            },
        }
        proof {
            assert(other.inner@ =~= spec_encode_records(other.records@));
        }
        match self.write_slice(other.inner.as_slice(), Ghost(other.records@)) {
            Ok(()) => {},
            Err(e) => {
                return Err(e);
            },
        }
        other.inner.clear();
        other.records_written = 0;
        other.records = Ghost(Seq::<Record>::empty());
        proof {
            assert(other.inner.sunk() + other.buffer@ =~= other.base@ + spec_encode_records(
                other.records@,
            ));
        }
        Ok(())
    }

    /// Consumes the writer and returns the sink. Bytes still sitting in
    /// the internal buffer are dropped with the writer: call `finish`
    /// first to push them to the sink.
    pub fn into_inner(self) -> (r: W)
        ensures
            r.sunk() == self.sink_bytes(),
    {
        let Writer { inner, buffer: _, records_written: _, base: _, records: _ } = self;
        inner
    }
}

/// Encodes a batch of records into one contiguous byte buffer, in order.
pub(crate) fn encode_batch(records: &[Record]) -> (bytes: Vec<u8>)
    ensures
        bytes@ == spec_encode_records(records@),
{
    let n = records.len();
    let mut bytes: Vec<u8> = Vec::new();
    let mut i: usize = 0;
    proof {
        assert(bytes@ =~= spec_encode_records(records@.take(0)));
    }
    while i < n
        invariant
            i <= n,
            n == records@.len(),
            bytes@ == spec_encode_records(records@.take(i as int)),
        decreases n - i,
    {
        let record_bytes = vstd::slice::slice_index_get(records, i).as_bytes();
        bytes.extend_from_slice(record_bytes.as_slice());
        proof {
            assert(records@.take(i + 1) =~= records@.take(i as int).push(records@[i as int]));
            lemma_encode_records_push(records@.take(i as int), records@[i as int]);
        }
        i = i + 1;
    }
    proof {
        assert(records@.take(n as int) =~= records@);
    }
    bytes
}

} // verus!
