//! The buffered streaming reader: validates a header once, then produces
//! a lazy, forward-only sequence of decoded records pulled from a byte
//! source, refilling an internal buffer in large chunks.

use vstd::prelude::*;
use vstd::math::min;
use vstd::slice::slice_subrange;
use crate::error::{unexpected_eof_error, IbuError};
use crate::header::{
    spec_header_matches, spec_header_valid, spec_validation_error, Header, HEADER_SIZE,
};
use crate::record::{spec_decode_record, Record, RECORD_SIZE};
use crate::stream::ByteSource;

verus! {

/// Capacity in bytes of the reader's refill buffer: room for 48 Ki
/// records, and always a whole number of records.
pub const READ_BUFFER_SIZE: usize = 48 * 1024 * 24;

/// How many bytes one refill obtains from a source that currently holds
/// `src`: the buffer capacity, or everything, whichever is smaller.
pub open spec fn spec_refill_take(src: Seq<u8>) -> int {
    min(READ_BUFFER_SIZE as int, src.len() as int)
}

/// Reads up to `n` bytes from the source, looping on short reads until
/// `n` bytes were obtained or the source is exhausted.
fn read_full<R: ByteSource>(source: &mut R, n: usize) -> (r: Result<Vec<u8>, IbuError>)
    ensures
        r matches Ok(v) ==> {
            &&& v@.len() == min(n as int, old(source).remaining().len() as int)
            &&& v@ == old(source).remaining().take(v@.len() as int)
            &&& final(source).remaining() == old(source).remaining().skip(v@.len() as int)
        },
        r matches Err(e) ==> e is Io && exists|k: int|
            0 <= k <= n && final(source).remaining() == old(source).remaining().skip(k),
{
    let mut out: Vec<u8> = Vec::new();
    let mut done = false;
    proof {
        assert(out@ =~= old(source).remaining().take(0));
        assert(source.remaining() =~= old(source).remaining().skip(0));
    }
    while out.len() < n && !done
        invariant
            out@.len() <= n,
            out@.len() <= old(source).remaining().len(),
            out@ == old(source).remaining().take(out@.len() as int),
            source.remaining() == old(source).remaining().skip(out@.len() as int),
            done ==> source.remaining().len() == 0,
        decreases n - out@.len(), (if done { 0int } else { 1int }),
    {
        let want = n - out.len();
        match source.read_chunk(want) {
            Ok(mut chunk) => {
                if chunk.len() == 0 {
                    done = true;
                } else {
                    let ghost got = out@.len() as int;
                    let ghost c = chunk@.len() as int;
                    out.append(&mut chunk);
                    proof {
                        let rem0 = old(source).remaining();
                        assert(rem0.take(got) + rem0.skip(got).take(c) =~= rem0.take(got + c));
                        vstd::seq_lib::lemma_seq_skip_of_skip(rem0, got, c);
                    }
                }
            },
            Err(e) => {
                proof {
                    let k = out@.len() as int;
                    assert(0 <= k <= n && source.remaining() == old(source).remaining().skip(k));
                }
                return Err(e);
            },
        }
    }
    proof {
        if out@.len() < n {
            assert(source.remaining().len() == 0);
            assert(old(source).remaining().len() - out@.len() == 0);
        }
    }
    Ok(out)
}

/// A streaming reader of records.
///
/// Construction reads and validates exactly the header-sized prefix of
/// the source. Records are then pulled one at a time; when the buffer is
/// exhausted the reader refills it from the source, and a refill that
/// obtains a byte count that is not a whole number of records reports a
/// truncated record. After its first error the reader permanently
/// produces no further items.
#[derive(Clone)]
pub struct Reader<R: ByteSource> {
    inner: R,
    buffer: Vec<u8>,
    header: Header,
    pos: usize,
    cap: usize,
    bytes_read: usize,
    eof: bool,
    failed: bool,
}

impl<R: ByteSource> Reader<R> {
    /// The validated header read at construction.
    pub closed spec fn spec_header(&self) -> Header {
        self.header
    }

    /// The bytes buffered but not yet decoded into delivered records.
    pub closed spec fn buffered(&self) -> Seq<u8> {
        self.buffer@.skip(RECORD_SIZE as int * self.pos as int)
    }

    /// The bytes still held by the underlying source.
    pub closed spec fn source_bytes(&self) -> Seq<u8> {
        self.inner.remaining()
    }

    /// Every byte not yet delivered as part of a record: the buffered
    /// tail followed by what the source still holds.
    pub open spec fn unread(&self) -> Seq<u8> {
        self.buffered() + self.source_bytes()
    }

    /// Whether the reader has seen clean end-of-stream.
    pub closed spec fn at_eof(&self) -> bool {
        self.eof
    }

    /// Whether the reader has reported an error; it then produces no
    /// further items.
    pub closed spec fn has_failed(&self) -> bool {
        self.failed
    }

    /// The count of bytes obtained from the source so far, starting at
    /// the header size, saturating at the machine limit; diagnostic.
    pub closed spec fn spec_bytes_read(&self) -> int {
        self.bytes_read as int
    }

    /// A well-formed reader: the buffer holds whole records, the cursor
    /// stays inside it, and end-of-stream is only recorded when both the
    /// buffer and the source are exhausted.
    pub closed spec fn wf(&self) -> bool {
        &&& self.buffer@.len() == RECORD_SIZE as int * self.cap as int
        &&& self.pos <= self.cap
        &&& self.eof ==> self.pos == self.cap && self.inner.remaining().len() == 0
    }

    /// Builds a reader over `inner` by reading exactly the header-sized
    /// prefix and validating it. Fails if the source holds fewer bytes
    /// than a header, if the source itself fails, or if validation
    /// fails, reporting the first failed check.
    pub fn new(inner: R) -> (r: Result<Reader<R>, IbuError>)
        ensures
            r matches Ok(rd) ==> {
                &&& rd.wf()
                &&& inner.remaining().len() >= HEADER_SIZE
                &&& spec_header_matches(rd.spec_header(), inner.remaining().take(HEADER_SIZE as int))
                &&& spec_header_valid(rd.spec_header())
                &&& rd.unread() == inner.remaining().skip(HEADER_SIZE as int)
                &&& rd.buffered().len() == 0
                &&& rd.source_bytes() == inner.remaining().skip(HEADER_SIZE as int)
                &&& rd.spec_bytes_read() == HEADER_SIZE
                &&& !rd.has_failed()
                &&& !rd.at_eof()
            },
            r matches Err(e) ==> {
                ||| e is Io
                ||| (inner.remaining().len() >= HEADER_SIZE && forall|h: Header|
                    spec_header_matches(h, inner.remaining().take(HEADER_SIZE as int)) ==> (
                    !spec_header_valid(h) && e == spec_validation_error(h)))
            },
            inner.remaining().len() < HEADER_SIZE ==> r is Err,
    {
        let mut inner = inner;
        let ghost src0 = inner.remaining();
        let header_bytes = match read_full(&mut inner, HEADER_SIZE) {
            Ok(v) => v,
            Err(e) => {
                return Err(e);
            },
        };
        if header_bytes.len() < HEADER_SIZE {
            return Err(IbuError::Io(unexpected_eof_error()));
        }
        let header = Header::from_bytes(header_bytes.as_slice());
        match header.validate() {
            Ok(()) => {},
            Err(e) => {
                proof {
                    assert forall|h: Header|
                        spec_header_matches(
                            h,
                            src0.take(HEADER_SIZE as int),
                        ) implies (!spec_header_valid(h) && e == spec_validation_error(h)) by {
                        crate::header::lemma_header_matches_unique(h, header, header_bytes@);
                    }
                }
                return Err(e);
            },
        }
        let rd = Reader {
            inner,
            buffer: Vec::new(),
            header,
            pos: 0,
            cap: 0,
            bytes_read: HEADER_SIZE,
            eof: false,
            failed: false,
        };
        proof {
            assert(rd.buffered() =~= Seq::<u8>::empty());
            assert(rd.unread() =~= rd.inner.remaining());
        }
        Ok(rd)
    }

    /// The count of bytes obtained from the source so far, starting at
    /// the header size; for diagnostics.
    pub fn bytes_read(&self) -> (n: usize)
        ensures
            n as int == self.spec_bytes_read(),
    {
        self.bytes_read
    }

    /// A copy of the validated header.
    pub fn header(&self) -> (h: Header)
        ensures
            h == self.spec_header(),
    {
        self.header
    }

    /// Consumes the reader and returns the source, positioned after the
    /// last refill.
    pub fn into_inner(self) -> (r: R)
        ensures
            r.remaining() == self.source_bytes(),
    {
        let Reader { inner, buffer: _, header: _, pos: _, cap: _, bytes_read: _, eof: _, failed: _ }
            = self;
        inner
    }

    /// Discards the buffer and refills it from the source, obtaining the
    /// buffer capacity or everything the source holds, whichever is
    /// smaller. Returns whether any bytes were obtained; a byte count
    /// that is not a whole number of records is a truncated record,
    /// reported with the byte offset at which the incomplete record
    /// begins. An error is only ever an I/O failure of the source or a
    /// truncated record, and leaves the byte-read count where it was.
    /// After the reader's first error, refills obtain nothing.
    pub fn read_batch(&mut self) -> (r: Result<bool, IbuError>)
        requires
            old(self).wf(),
        ensures
            final(self).wf(),
            final(self).spec_header() == old(self).spec_header(),
            old(self).has_failed() ==> r == Result::<bool, IbuError>::Ok(false)
                && final(self).has_failed() && final(self).unread() == old(self).unread()
                && final(self).spec_bytes_read() == old(self).spec_bytes_read(),
            !old(self).has_failed() ==> {
                &&& r is Ok ==> spec_refill_take(old(self).source_bytes()) % (RECORD_SIZE as int)
                    == 0 && !final(self).has_failed() && final(self).spec_bytes_read() == min(
                    old(self).spec_bytes_read() + spec_refill_take(old(self).source_bytes()),
                    usize::MAX as int,
                )
                &&& r == Result::<bool, IbuError>::Ok(true) ==> {
                    &&& old(self).source_bytes().len() > 0
                    &&& final(self).buffered() == old(self).source_bytes().take(
                        spec_refill_take(old(self).source_bytes()),
                    )
                    &&& final(self).source_bytes() == old(self).source_bytes().skip(
                        spec_refill_take(old(self).source_bytes()),
                    )
                    &&& final(self).unread() == old(self).source_bytes()
                    &&& !final(self).at_eof()
                }
                &&& r == Result::<bool, IbuError>::Ok(false) ==> old(self).source_bytes().len()
                    == 0 && final(self).at_eof() && final(self).unread().len() == 0
                &&& r matches Err(e) ==> {
                    &&& final(self).has_failed()
                    &&& final(self).buffered().len() == 0
                    &&& final(self).spec_bytes_read() == old(self).spec_bytes_read()
                    &&& (e is Io || e is TruncatedRecord)
                    &&& (e matches IbuError::TruncatedRecord { pos } ==> {
                        &&& spec_refill_take(old(self).source_bytes()) % (RECORD_SIZE as int) != 0
                        &&& pos == min(
                            old(self).spec_bytes_read() + spec_refill_take(
                                old(self).source_bytes(),
                            ) - spec_refill_take(old(self).source_bytes()) % (RECORD_SIZE as int),
                            usize::MAX as int,
                        )
                    })
                }
            },
    {
        if self.failed {
            return Ok(false);
        }
        let chunk = match read_full(&mut self.inner, READ_BUFFER_SIZE) {
            Ok(v) => v,
            Err(e) => {
                self.failed = true;
                self.buffer = Vec::new();
                self.pos = 0;
                self.cap = 0;
                self.eof = false;
                proof {
                    assert(self.buffered() =~= Seq::<u8>::empty());
                }
                return Err(e);
            },
        };
        let read = chunk.len();
        if read % RECORD_SIZE != 0 {
            let non_rem = read - read % RECORD_SIZE;
            let pos_v = if self.bytes_read <= usize::MAX - non_rem {
                self.bytes_read + non_rem
            } else {
                usize::MAX
            };
            self.failed = true;
            self.buffer = Vec::new();
            self.pos = 0;
            self.cap = 0;
            self.eof = false;
            proof {
                assert(self.buffered() =~= Seq::<u8>::empty());
            }
            return Err(IbuError::TruncatedRecord { pos: pos_v });
        }
        self.buffer = chunk;
        self.pos = 0;
        self.cap = read / RECORD_SIZE;
        self.bytes_read = if self.bytes_read <= usize::MAX - read {
            self.bytes_read + read
        } else {
            usize::MAX
        };
        if read == 0 {
            self.eof = true;
        }
        proof {
            assert(RECORD_SIZE as int * ((read as int) / (RECORD_SIZE as int)) == read as int);
            assert(self.buffered() =~= self.buffer@);
            if read > 0 {
                assert(self.buffered() + self.source_bytes() =~= old(self).source_bytes());
            }
        }
        Ok(read > 0)
    }

    /// Pulls the next record, refilling the buffer when it is exhausted.
    /// Yields nothing at clean end-of-stream and after the first error;
    /// otherwise yields the record denoted by the next 24 unread bytes,
    /// or the error the refill reported. A record already sitting in
    /// the buffer is always delivered: only a refill can fail, with an
    /// I/O failure of the source or a truncated record.
    pub fn next_record(&mut self) -> (r: Option<Result<Record, IbuError>>)
        requires
            old(self).wf(),
        ensures
            final(self).wf(),
            final(self).spec_header() == old(self).spec_header(),
            old(self).has_failed() ==> r is None && final(self).has_failed(),
            !old(self).has_failed() ==> (r matches Some(rr) ==> (rr matches Ok(rec) ==> {
                &&& old(self).unread().len() >= RECORD_SIZE
                &&& rec == spec_decode_record(old(self).unread().take(RECORD_SIZE as int))
                &&& final(self).unread() == old(self).unread().skip(RECORD_SIZE as int)
                &&& !final(self).has_failed()
            })),
            !old(self).has_failed() && old(self).buffered().len() > 0 ==> (r matches Some(rr)
                && rr is Ok),
            !old(self).has_failed() && r is None ==> {
                &&& old(self).unread().len() == 0
                &&& final(self).at_eof()
                &&& final(self).unread().len() == 0
                &&& !final(self).has_failed()
            },
            r matches Some(rr) && rr is Err ==> final(self).has_failed(),
            r matches Some(rr) ==> (rr matches Err(e) ==> (e is Io || e is TruncatedRecord)),
            !old(self).has_failed() && old(self).buffered().len() == 0 && spec_refill_take(
                old(self).source_bytes(),
            ) % (RECORD_SIZE as int) != 0 ==> (r matches Some(rr) && rr is Err),
    {
        if self.failed {
            return None;
        }
        if self.pos >= self.cap {
            proof {
                assert(self.buffered() =~= Seq::<u8>::empty());
                assert(self.unread() =~= self.source_bytes());
            }
            match self.read_batch() {
                Ok(true) => {},
                Ok(false) => {
                    return None;
                },
                Err(e) => {
                    return Some(Err(e));
                },
            }
        }
        let buffer_len = self.buffer.len();
        proof {
            assert(self.buffered().len() > 0);
            assert(self.pos < self.cap);
            assert(RECORD_SIZE as int * self.pos as int + RECORD_SIZE as int <= buffer_len as int);
        }
        let lo = self.pos * RECORD_SIZE;
        let record = Record::from_bytes(slice_subrange(self.buffer.as_slice(), lo, lo
            + RECORD_SIZE));
        let ghost before = *self;
        self.pos = self.pos + 1;
        proof {
            let k = RECORD_SIZE as int;
            assert(before.buffered().len() >= k);
            assert(before.unread() =~= old(self).unread());
            assert(before.buffer@.subrange(k * before.pos as int, k * before.pos as int + k)
                =~= before.buffered().take(k));
            assert(old(self).unread().take(k) =~= before.buffered().take(k));
            assert(self.buffered() =~= before.buffered().skip(k));
            assert(self.buffered() + self.source_bytes() =~= (before.buffered()
                + before.source_bytes()).skip(k));
        }
        Some(Ok(record))
    }
}

} // verus!
