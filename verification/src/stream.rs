//! The byte-stream capabilities the codec reads from and writes to: an
//! abstract sink and source of bytes, plus in-memory realisations of both.
//! File- or pipe-backed realisations (possibly behind transparent
//! compression) live outside the verified core and implement the same
//! traits.

use vstd::prelude::*;
use vstd::slice::{slice_subrange, slice_to_vec};
use crate::error::IbuError;

verus! {

/// A sink of bytes: accepts writes of arbitrary-length byte slices and
/// supports an explicit flush. `sunk()` is the whole byte sequence the
/// sink has accepted so far.
///
/// An implementation may fail with any error of its own; on failure it
/// must have accepted at most a prefix of the slice handed to it.
pub trait ByteSink: Sized {
    /// The bytes accepted so far. An implementation proved against this
    /// trait overrides it with its own account; the default, a sink
    /// that never accepts anything, leaves the contract of `write_all`
    /// out of reach on purpose.
    open spec fn sunk(&self) -> Seq<u8> {
        Seq::<u8>::empty()
    }

    /// Accepts every byte of `buf`, in order. A failure is an I/O
    /// failure, after which at most a prefix was accepted.
    fn write_all(&mut self, buf: &[u8]) -> (r: Result<(), IbuError>)
        ensures
            r is Ok ==> final(self).sunk() == old(self).sunk() + buf@,
            r matches Err(e) ==> e is Io && exists|k: int|
                0 <= k <= buf@.len() && final(self).sunk() == old(self).sunk() + buf@.take(k),
    ;

    /// Pushes accepted bytes towards the underlying medium; the accepted
    /// sequence itself does not change. A failure is an I/O failure.
    fn flush(&mut self) -> (r: Result<(), IbuError>)
        ensures
            final(self).sunk() == old(self).sunk(),
            r matches Err(e) ==> e is Io,
    ;
}

/// A source of bytes: yields the bytes of `remaining()` from the front,
/// possibly in short chunks, and reports exhaustion distinctly from
/// failure. An empty chunk means the source is exhausted (or nothing was
/// asked for); a failed read consumes nothing.
pub trait ByteSource: Sized {
    /// The bytes not yet handed out. An implementation proved against
    /// this trait overrides it with its own account; the default, an
    /// exhausted source, makes `read_chunk` yield nothing but empty
    /// chunks on purpose.
    open spec fn remaining(&self) -> Seq<u8> {
        Seq::<u8>::empty()
    }

    /// Reads up to `max` bytes from the front of the source. The chunk
    /// may be shorter than both `max` and the remainder, but is empty
    /// only when `max` is zero or the source is exhausted. A failure is
    /// an I/O failure and consumes nothing.
    fn read_chunk(&mut self, max: usize) -> (r: Result<Vec<u8>, IbuError>)
        ensures
            r matches Ok(chunk) ==> {
                &&& chunk@.len() <= max
                &&& chunk@.len() <= old(self).remaining().len()
                &&& chunk@ == old(self).remaining().take(chunk@.len() as int)
                &&& final(self).remaining() == old(self).remaining().skip(chunk@.len() as int)
                &&& (chunk@.len() == 0 ==> max == 0 || old(self).remaining().len() == 0)
            },
            r matches Err(e) ==> e is Io && final(self).remaining() == old(self).remaining(),
    ;
}

/// A growable in-memory byte sink: the written stream is the vector's
/// contents. Writes into it never fail.
impl ByteSink for Vec<u8> {
    open spec fn sunk(&self) -> Seq<u8> {
        self@
    }

    fn write_all(&mut self, buf: &[u8]) -> (r: Result<(), IbuError>)
        ensures
            r is Ok,
            final(self).sunk() == old(self).sunk() + buf@,
    {
        self.extend_from_slice(buf);
        Ok(())
    }

    fn flush(&mut self) -> (r: Result<(), IbuError>)
        ensures
            r is Ok,
    {
        Ok(())
    }
}

/// An in-memory byte source over an owned buffer, consumed from the
/// front. Reads from it never fail and are never short.
pub struct SliceSource {
    data: Vec<u8>,
    pos: usize,
}

impl SliceSource {
    /// What a well-formed source satisfies at all times.
    #[verifier::type_invariant]
    spec fn wf(&self) -> bool {
        self.pos <= self.data@.len()
    }

    /// Wraps a byte buffer as a source positioned at its start.
    pub fn new(data: Vec<u8>) -> (s: Self)
        ensures
            s.remaining() == data@,
    {
        let s = SliceSource { data, pos: 0 };
        proof {
            assert(s.remaining() =~= s.data@);
        }
        s
    }
}

impl Clone for SliceSource {
    /// Duplicates the source, position included: both copies yield the
    /// same remaining bytes.
    fn clone(&self) -> (res: Self)
        ensures
            res.remaining() == self.remaining(),
    {
        proof {
            use_type_invariant(self);
        }
        let data = self.data.clone();
        proof {
            assert(data@ =~= self.data@);
        }
        SliceSource { data, pos: self.pos }
    }
}

impl ByteSource for SliceSource {
    closed spec fn remaining(&self) -> Seq<u8> {
        self.data@.skip(self.pos as int)
    }

    fn read_chunk(&mut self, max: usize) -> (r: Result<Vec<u8>, IbuError>)
        ensures
            r matches Ok(chunk) ==> {
                &&& chunk@.len() == vstd::math::min(max as int, old(self).remaining().len() as int)
                &&& chunk@ == old(self).remaining().take(chunk@.len() as int)
                &&& final(self).remaining() == old(self).remaining().skip(chunk@.len() as int)
            },
            r is Ok,
    {
        proof {
            use_type_invariant(&*self);
        }
        let avail = self.data.len() - self.pos;
        let n = if max < avail {
            max
        } else {
            avail
        };
        let chunk = slice_to_vec(slice_subrange(self.data.as_slice(), self.pos, self.pos + n));
        self.pos = self.pos + n;
        proof {
            assert(chunk@ =~= old(self).remaining().take(n as int));
            assert(self.remaining() =~= old(self).remaining().skip(n as int));
        }
        Ok(chunk)
    }
}

} // verus!
