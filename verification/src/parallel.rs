//! The fork-join processing protocol over a mapped record view: the
//! record range is cut into one contiguous range per worker, each worker
//! walks its range in batches through a caller-supplied processor, and
//! the first error in worker order decides the whole call.
//!
//! Everything about the protocol that is not thread plumbing is here and
//! verified: how the range is cut, which records a worker hands its
//! processor and in what order, and how errors propagate. A driver that
//! spawns one OS thread per range calls `partition_ranges` and
//! `process_range` exactly as the in-process driver below does.

use vstd::prelude::*;
use crate::error::IbuError;
use crate::mmap::{MmapReader, BATCH_SIZE};
use crate::record::Record;

verus! {

/// Relies on `num_cpus::get`: the number of logical CPUs available to
/// this process, which is always at least 1.
#[verifier::external_body]
fn available_threads() -> (n: usize)
    ensures
        n >= 1,
{
    num_cpus::get()
}

/// Caller logic driven once per record, with a batch-completion hook.
///
/// A processor is duplicated once per worker; each duplicate accepts the
/// records of one contiguous range, in file order. `seen()` is the
/// implementor's account of the records accepted so far; accepting a
/// record appends it there, and nothing else moves it.
pub trait ParallelProcessor: Sized + Send + Clone {
    /// The records this instance has accepted, in order. An implementor
    /// proved against this trait overrides it with its own account; the
    /// default, an instance that never accepts anything, leaves the
    /// contract of `process_record` out of reach on purpose.
    open spec fn seen(&self) -> Seq<Record> {
        Seq::<Record>::empty()
    }

    /// Handles one record; an error aborts the owning worker's
    /// remaining work and propagates.
    fn process_record(&mut self, record: Record) -> (r: Result<(), IbuError>)
        ensures
            r is Ok ==> final(self).seen() == old(self).seen().push(record),
            r is Err ==> final(self).seen() == old(self).seen(),
    ;

    /// Runs once after each batch of records; the conventional place to
    /// flush worker-local accumulators into shared state.
    ///
    /// How often the hook ran is not part of any contract: with this
    /// defaulted no-op body, no spec observer of the count could be
    /// satisfied by implementors that keep the default, so the
    /// once-per-batch cadence is fixed by `process_range`'s verified
    /// body alone.
    fn on_batch_complete(&mut self) -> (r: Result<(), IbuError>)
        ensures
            final(self).seen() == old(self).seen(),
    {
        Ok(())
    }

    /// Tells the processor its 0-based worker index, before any record.
    #[allow(unused_variables)]
    fn set_tid(&mut self, tid: usize)
        ensures
            final(self).seen() == old(self).seen(),
    {
    }

    /// The worker index recorded by `set_tid`, if the implementor keeps it.
    fn get_tid(&self) -> Option<usize> {
        None
    }
}

/// A view whose records can be driven through a processor across
/// multiple workers.
pub trait ParallelReader {
    /// Processes every record, partitioned over `num_threads` workers
    /// (0 meaning the available hardware parallelism, capped at the
    /// record count). Every worker runs to its own completion or first
    /// error; the first error in worker-index order decides the result.
    fn process_parallel<P: ParallelProcessor + 'static>(
        &self,
        processor: P,
        num_threads: usize,
    ) -> Result<(), IbuError>;
}

/// The boundary of worker `i` when `len` records are cut into `n`
/// ranges: worker `i` owns `[cut(i), cut(i+1))`. The first `n - 1`
/// ranges hold `len / n` records each; the last also takes the
/// remainder.
pub open spec fn spec_cut(len: int, n: int, i: int) -> int {
    if i >= n {
        len
    } else {
        i * (len / n)
    }
}

/// The cuts are monotone and stay within the record span.
pub proof fn lemma_cut_bounds(len: int, n: int, i: int)
    requires
        n >= 1,
        0 <= len,
        0 <= i <= n,
    ensures
        0 <= spec_cut(len, n, i) <= spec_cut(len, n, i + 1) <= len,
{
    let c = len / n;
    vstd::arithmetic::div_mod::lemma_fundamental_div_mod(len, n);
    assert(len % n >= 0);
    assert(n * c <= len);
    if i < n {
        assert(0 <= i * c) by (nonlinear_arith)
            requires
                0 <= i,
                0 <= c,
        ;
        assert(i * c <= (i + 1) * c) by (nonlinear_arith)
            requires
                0 <= c,
        ;
        assert((i + 1) * c <= n * c) by (nonlinear_arith)
            requires
                i + 1 <= n,
                0 <= c,
        ;
    }
}

/// Cuts `[0, len)` into `num_threads` contiguous, non-overlapping
/// ranges: `num_threads - 1` ranges of `len / num_threads` records and a
/// final range that also takes the remainder. Returned in worker order
/// as `(start, end)` pairs.
pub fn partition_ranges(len: usize, num_threads: usize) -> (r: Vec<(usize, usize)>)
    requires
        num_threads >= 1,
    ensures
        r@.len() == num_threads,
        forall|i: int|
            0 <= i < num_threads ==> (#[trigger] r@[i]).0 == spec_cut(
                len as int,
                num_threads as int,
                i,
            ) && r@[i].1 == spec_cut(len as int, num_threads as int, i + 1),
{
    let chunk = len / num_threads;
    let mut r: Vec<(usize, usize)> = Vec::new();
    let mut i: usize = 0;
    let mut start: usize = 0;
    while i < num_threads
        invariant
            num_threads >= 1,
            i <= num_threads,
            chunk == len as int / num_threads as int,
            start as int == spec_cut(len as int, num_threads as int, i as int),
            start <= len,
            r@.len() == i,
            forall|j: int|
                0 <= j < i ==> (#[trigger] r@[j]).0 == spec_cut(
                    len as int,
                    num_threads as int,
                    j,
                ) && r@[j].1 == spec_cut(len as int, num_threads as int, j + 1),
        decreases num_threads - i,
    {
        proof {
            lemma_cut_bounds(len as int, num_threads as int, i as int);
            assert((i as int + 1) * (chunk as int) == i as int * (chunk as int) + chunk as int)
                by (nonlinear_arith);
        }
        let end = if i == num_threads - 1 {
            len
        } else {
            start + chunk
        };
        r.push((start, end));
        start = end;
        i = i + 1;
    }
    r
}

/// Runs one worker's range: starting at the range's lower bound,
/// repeatedly takes the next batch of up to `BATCH_SIZE` records, hands
/// each record of the batch to the processor in file order, then runs
/// the batch-completion hook, until the range is exhausted or a call
/// fails. On success the processor accepted exactly the records of
/// `[start, end)`; on an error it accepted some prefix of them. An
/// empty range succeeds without touching the processor, and errors
/// arise only from the processor's own calls.
pub fn process_range<P: ParallelProcessor>(
    view: &MmapReader,
    processor: &mut P,
    start: usize,
    end: usize,
) -> (r: Result<(), IbuError>)
    requires
        start <= end,
        end as int <= view.spec_len(),
    ensures
        r is Ok ==> final(processor).seen() == old(processor).seen() + view.records().subrange(
            start as int,
            end as int,
        ),
        r is Err ==> exists|k: int|
            start <= k <= end && final(processor).seen() == old(processor).seen()
                + view.records().subrange(start as int, k),
        start == end ==> r is Ok,
{
    let total = view.len();
    let mut batch_start = start;
    while batch_start < end
        invariant
            start <= batch_start <= end,
            end <= total,
            total as int == view.spec_len(),
            total as int == view.records().len(),
            processor.seen() == old(processor).seen() + view.records().subrange(
                start as int,
                batch_start as int,
            ),
        decreases end - batch_start,
    {
        let batch_end = if end - batch_start > BATCH_SIZE {
            batch_start + BATCH_SIZE
        } else {
            end
        };
        let batch = match view.slice(batch_start, batch_end) {
            Ok(v) => v,
            Err(e) => {
                proof {
                    let k = batch_start as int;
                    assert(start <= k <= end && processor.seen() == old(processor).seen()
                        + view.records().subrange(start as int, k));
                }
                return Err(e);
            },
        };
        let batch_len = batch.len();
        let mut j: usize = 0;
        while j < batch_len
            invariant
                j <= batch_len,
                start <= batch_start,
                batch_start as int + batch_len as int == batch_end as int,
                batch_start < batch_end,
                batch_end <= end <= total,
                total as int == view.records().len(),
                batch@ == view.records().subrange(batch_start as int, batch_end as int),
                processor.seen() == old(processor).seen() + view.records().subrange(
                    start as int,
                    batch_start as int + j as int,
                ),
            decreases batch_len - j,
        {
            let record = batch[j];
            match processor.process_record(record) {
                Ok(()) => {},
                Err(e) => {
                    proof {
                        let k = batch_start as int + j as int;
                        assert(start <= k <= end);
                    }
                    return Err(e);
                },
            }
            proof {
                let bs = batch_start as int;
                let p = bs + j as int;
                assert(batch@[j as int] == view.records()[p]);
                assert((old(processor).seen() + view.records().subrange(start as int, p)).push(
                    view.records()[p],
                ) =~= old(processor).seen() + view.records().subrange(start as int, p + 1));
            }
            j = j + 1;
        }
        match processor.on_batch_complete() {
            Ok(()) => {},
            Err(e) => {
                proof {
                    let k = batch_end as int;
                    assert(start <= k <= end);
                }
                return Err(e);
            },
        }
        batch_start = batch_end;
    }
    Ok(())
}

impl ParallelReader for MmapReader {
    /// Drives the processor over every record of the view. The range is
    /// cut as `partition_ranges` says; each worker gets a duplicate of
    /// the processor, its index via `set_tid`, and runs `process_range`
    /// over its own range. Every range runs to completion or its own
    /// first error even after an earlier range failed; the first error
    /// in worker-index order is the call's result.
    ///
    /// An empty view always succeeds, and a failure can only come out
    /// of a view that holds records, since only processor calls fail
    /// and none is made for an empty range. What each worker is handed
    /// is stated at `partition_ranges` and `process_range`, which this
    /// driver applies directly; it cannot be restated here over the
    /// caller's processor because duplicating a generic processor
    /// carries no specification relating the duplicate's account to the
    /// original's.
    fn process_parallel<P: ParallelProcessor + 'static>(
        &self,
        processor: P,
        num_threads: usize,
    ) -> (r: Result<(), IbuError>)
        ensures
            self.spec_len() == 0 ==> r is Ok,
            r is Err ==> self.spec_len() > 0,
    {
        let total = self.len();
        let available = available_threads();
        let n = if num_threads == 0 {
            if total >= 1 {
                if available > total {
                    total
                } else {
                    available
                }
            } else {
                1
            }
        } else {
            if num_threads > available {
                available
            } else {
                num_threads
            }
        };
        let ranges = partition_ranges(total, n);
        let mut first_err: Option<IbuError> = None;
        let mut i: usize = 0;
        let ranges_len = ranges.len();
        while i < ranges_len
            invariant
                ranges_len == ranges@.len(),
                n >= 1,
                ranges@.len() == n,
                total as int == self.spec_len(),
                forall|j: int|
                    0 <= j < n ==> (#[trigger] ranges@[j]).0 == spec_cut(
                        total as int,
                        n as int,
                        j,
                    ) && ranges@[j].1 == spec_cut(total as int, n as int, j + 1),
                first_err is Some ==> total > 0,
            decreases ranges_len - i,
        {
            let range = ranges[i];
            proof {
                lemma_cut_bounds(total as int, n as int, i as int);
            }
            let mut worker = processor.clone();
            worker.set_tid(i);
            match process_range(self, &mut worker, range.0, range.1) {
                Ok(()) => {},
                Err(e) => {
                    if first_err.is_none() {
                        first_err = Some(e);
                    }
                },
            }
            i = i + 1;
        }
        match first_err {
            None => Ok(()),
            Some(e) => Err(e),
        }
    }
}

/// The per-record quantity that the parallel-equivalence law speaks of:
/// the sum, over a record sequence, of all three fields of each record,
/// as an unbounded integer.
pub open spec fn spec_field_sum(rs: Seq<Record>) -> int
    decreases rs.len(),
{
    if rs.len() == 0 {
        0
    } else {
        spec_field_sum(rs.drop_last()) + rs.last().barcode + rs.last().umi + rs.last().index
    }
}

/// Additive accumulations split at any point: the sum over a sequence is
/// the sum over any prefix plus the sum over the rest.
pub proof fn lemma_field_sum_split(rs: Seq<Record>, m: int)
    requires
        0 <= m <= rs.len(),
    ensures
        spec_field_sum(rs) == spec_field_sum(rs.take(m)) + spec_field_sum(rs.skip(m)),
    decreases rs.len() - m,
{
    if m == rs.len() {
        assert(rs.take(m) =~= rs);
        assert(rs.skip(m) =~= Seq::<Record>::empty());
    } else {
        lemma_field_sum_split(rs, m + 1);
        assert(rs.take(m + 1) =~= rs.take(m).push(rs[m]));
        assert(rs.take(m + 1).drop_last() =~= rs.take(m));
        assert(rs.skip(m).drop_last() =~= ((rs.drop_last()).skip(m)));
        lemma_field_sum_skip_unfold(rs, m);
    }
}

/// Unfolding the sum of a suffix from the front: the suffix at `m` sums
/// to its first record's fields plus the suffix at `m + 1`.
proof fn lemma_field_sum_skip_unfold(rs: Seq<Record>, m: int)
    requires
        0 <= m < rs.len(),
    ensures
        spec_field_sum(rs.skip(m)) == rs[m].barcode + rs[m].umi + rs[m].index + spec_field_sum(
            rs.skip(m + 1),
        ),
    decreases rs.len() - m,
{
    if m + 1 == rs.len() {
        assert(rs.skip(m).drop_last() =~= Seq::<Record>::empty());
        assert(rs.skip(m + 1) =~= Seq::<Record>::empty());
        assert(rs.skip(m).last() == rs[m]);
    } else {
        lemma_field_sum_skip_unfold(rs, m + 1);
        assert(rs.skip(m).drop_last() =~= rs.drop_last().skip(m));
        assert(rs.skip(m + 1).drop_last() =~= rs.drop_last().skip(m + 1));
        lemma_field_sum_skip_unfold(rs.drop_last(), m);
        assert(rs.skip(m).last() == rs.last());
        assert(rs.skip(m + 1).last() == rs.last());
        assert(rs.drop_last()[m] == rs[m]);
    }
}

/// The combined accumulation over the worker ranges after worker `i`,
/// in worker order.
pub open spec fn spec_ranges_sum(rs: Seq<Record>, n: int, i: int) -> int
    decreases n - i,
{
    if i >= n {
        0
    } else {
        spec_field_sum(rs.subrange(spec_cut(rs.len() as int, n, i), spec_cut(rs.len() as int, n, i + 1)))
            + spec_ranges_sum(rs, n, i + 1)
    }
}

/// Parallel equivalence for additive accumulations: summing each
/// worker's range separately and combining gives exactly the total of a
/// single sequential pass, for every record sequence and worker count.
pub proof fn lemma_partition_sum_equivalence(rs: Seq<Record>, n: int)
    requires
        n >= 1,
    ensures
        spec_ranges_sum(rs, n, 0) == spec_field_sum(rs),
{
    lemma_ranges_sum_tail(rs, n, 0);
    assert(rs.subrange(0, rs.len() as int) =~= rs);
}

/// The ranges from worker `i` on sum to the records from cut `i` on.
proof fn lemma_ranges_sum_tail(rs: Seq<Record>, n: int, i: int)
    requires
        n >= 1,
        0 <= i <= n,
    ensures
        spec_ranges_sum(rs, n, i) == spec_field_sum(
            rs.subrange(spec_cut(rs.len() as int, n, i), rs.len() as int),
        ),
    decreases n - i,
{
    let len = rs.len() as int;
    if i == n {
        assert(rs.subrange(len, len) =~= Seq::<Record>::empty());
    } else {
        lemma_ranges_sum_tail(rs, n, i + 1);
        lemma_cut_bounds(len, n, i);
        let a = spec_cut(len, n, i);
        let b = spec_cut(len, n, i + 1);
        let tail = rs.subrange(a, len);
        lemma_field_sum_split(tail, b - a);
        assert(tail.take(b - a) =~= rs.subrange(a, b));
        assert(tail.skip(b - a) =~= rs.subrange(b, len));
    }
}

} // verus!
