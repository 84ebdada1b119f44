//! A whole file held in memory: a header and its records, with one-shot
//! serialisation to a byte sink and parsing from a byte source.

use vstd::prelude::*;
use crate::error::IbuError;
use crate::header::{
    spec_encode_header, spec_header_matches, spec_header_valid, spec_validation_error, Header,
    HEADER_SIZE,
};
use crate::reader::Reader;
use crate::record::{
    lemma_records_of_append, spec_encode_records, spec_records_of, Record, RECORD_SIZE,
};
use crate::stream::{ByteSink, ByteSource};
use crate::writer::encode_batch;

verus! {

/// Round trip at file level: the encoded file of any header and any
/// record sequence decodes back to exactly that header and exactly
/// those records. This is the byte stream `write_bytes` produces and
/// the decomposition `from_bytes` and the mapped view recover.
pub proof fn lemma_file_roundtrip(h: Header, rs: Seq<Record>)
    ensures
        (spec_encode_header(h) + spec_encode_records(rs)).len() == HEADER_SIZE + RECORD_SIZE
            * rs.len(),
        forall|h2: Header|
            spec_header_matches(
                h2,
                (spec_encode_header(h) + spec_encode_records(rs)).take(HEADER_SIZE as int),
            ) ==> h2 == h,
        spec_records_of(
            (spec_encode_header(h) + spec_encode_records(rs)).skip(HEADER_SIZE as int),
        ) == rs,
{
    let file = spec_encode_header(h) + spec_encode_records(rs);
    crate::header::lemma_header_roundtrip(h);
    crate::record::lemma_encode_records_len(rs);
    assert(file.take(HEADER_SIZE as int) =~= spec_encode_header(h));
    assert(file.skip(HEADER_SIZE as int) =~= spec_encode_records(rs));
    crate::record::lemma_records_roundtrip(rs);
}

/// A header together with every record of a file, in file order.
#[derive(Debug, Clone)]
pub struct Ibu {
    /// The file-level metadata.
    pub header: Header,
    /// The records, in file order.
    pub records: Vec<Record>,
}

impl Ibu {
    /// Pairs a header with a record collection.
    pub fn new(header: Header, records: Vec<Record>) -> (r: Self)
        ensures
            r.header == header,
            r.records == records,
    {
        Self { header, records }
    }

    /// Writes the encoded header followed by every record to the sink
    /// and flushes it; fails only if the sink fails.
    pub fn write_bytes<W: ByteSink>(&self, sink: &mut W) -> (r: Result<(), IbuError>)
        ensures
            r matches Err(e) ==> e is Io,
            r is Ok ==> final(sink).sunk() == old(sink).sunk() + spec_encode_header(self.header)
                + spec_encode_records(self.records@),
    {
        let mut bytes = self.header.as_bytes();
        let mut record_bytes = encode_batch(self.records.as_slice());
        bytes.append(&mut record_bytes);
        match sink.write_all(bytes.as_slice()) {
            Ok(()) => {},
            Err(e) => {
                return Err(e);
            },
        }
        match sink.flush() {
            Ok(()) => {},
            Err(e) => {
                return Err(e);
            },
        }
        proof {
            assert(sink.sunk() =~= old(sink).sunk() + spec_encode_header(self.header)
                + spec_encode_records(self.records@));
        }
        Ok(())
    }

    /// Reads a header and then every record from the source until clean
    /// end-of-stream. Succeeds exactly on a well-formed stream the
    /// source delivers without failing: a valid header followed by a
    /// whole number of records. A failure is an I/O failure of the
    /// source, a truncated record, or the validation error of the
    /// header the stream opens with.
    pub fn from_bytes<R: ByteSource>(source: R) -> (r: Result<Ibu, IbuError>)
        ensures
            r matches Ok(ibu) ==> {
                &&& source.remaining().len() >= HEADER_SIZE
                &&& spec_header_matches(ibu.header, source.remaining().take(HEADER_SIZE as int))
                &&& spec_header_valid(ibu.header)
                &&& (source.remaining().len() - HEADER_SIZE) % (RECORD_SIZE as int) == 0
                &&& ibu.records@ == spec_records_of(source.remaining().skip(HEADER_SIZE as int))
            },
            r matches Err(e) ==> {
                ||| e is Io
                ||| e is TruncatedRecord
                ||| (source.remaining().len() >= HEADER_SIZE && forall|h: Header|
                    spec_header_matches(h, source.remaining().take(HEADER_SIZE as int)) ==> (
                    !spec_header_valid(h) && e == spec_validation_error(h)))
            },
    {
        let mut rd = match Reader::new(source) {
            Ok(rd) => rd,
            Err(e) => {
                return Err(e);
            },
        };
        let ghost tail0 = rd.unread();
        let ghost header0 = rd.spec_header();
        let mut records: Vec<Record> = Vec::new();
        let mut done = false;
        proof {
            assert(records@ =~= spec_records_of(tail0.take(0)));
            assert(rd.unread() =~= tail0.skip(0));
        }
        while !done
            invariant
                rd.wf(),
                !rd.has_failed(),
                rd.spec_header() == header0,
                RECORD_SIZE as int * records@.len() <= tail0.len(),
                rd.unread() == tail0.skip(RECORD_SIZE as int * records@.len()),
                records@ == spec_records_of(tail0.take(RECORD_SIZE as int * records@.len())),
                done ==> rd.unread().len() == 0,
            decreases (if done { 0int } else { 1int }), rd.unread().len(),
        {
            let ghost consumed = RECORD_SIZE as int * records@.len();
            match rd.next_record() {
                None => {
                    done = true;
                },
                Some(Ok(rec)) => {
                    records.push(rec);
                    proof {
                        let k = RECORD_SIZE as int;
                        let piece = tail0.subrange(consumed, consumed + k);
                        assert(tail0.skip(consumed).take(k) =~= piece);
                        vstd::seq_lib::lemma_seq_skip_of_skip(tail0, consumed, k);
                        lemma_records_of_append(tail0.take(consumed), piece);
                        assert(tail0.take(consumed) + piece =~= tail0.take(consumed + k));
                        assert(piece.skip(k) =~= Seq::<u8>::empty());
                        assert(piece.take(k) =~= piece);
                        assert(spec_records_of(piece) == seq![
                            crate::record::spec_decode_record(piece.take(k)),
                        ] + spec_records_of(piece.skip(k)));
                        assert(crate::record::spec_decode_record(piece.take(k)) == rec);
                        assert(seq![rec] + Seq::<Record>::empty() =~= seq![rec]);
                        assert(spec_records_of(piece) == seq![rec]);
                        assert(records@ =~= spec_records_of(tail0.take(consumed)) + seq![rec]);
                    }
                },
                Some(Err(e)) => {
                    return Err(e);
                },
            }
        }
        proof {
            let m = records@.len() as int;
            assert(tail0.len() == RECORD_SIZE as int * m);
            assert(tail0.take(RECORD_SIZE as int * m) =~= tail0);
        }
        let header = rd.header();
        Ok(Ibu { header, records })
    }
}

} // verus!
