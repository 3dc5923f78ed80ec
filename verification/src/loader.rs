//! The in-memory core of the batch loader.
//!
//! The loader keeps a buffer of packed records. Its owner parses freshly
//! read file bytes into the buffer, which is reshuffled on every refill,
//! and drains the buffer into a batch: records are taken from the end of
//! the buffer, decoded, and appended to the batch; a record that fails to
//! decode is skipped without stopping the stream.

use vstd::prelude::*;
use crate::batch::{batch_add_spec, Batch, BatchV};
use crate::chess::SampleV;
use crate::codec::{
    record_bytes, record_views, unpack_accepts, unpack_sample, PackedSample, PackedV, RECORD_SIZE,
};
use crate::rng::shuffle_in_place;

verus! {

/// Number of records a full read buffer holds.
pub const BUFFER_SIZE: usize = 4194304;

/// Whether `records` is the exact parse of `bytes`: one record per whole
/// 32-byte chunk, each serializing back to its chunk.
pub open spec fn tiles(records: Seq<PackedV>, bytes: Seq<u8>) -> bool {
    &&& records.len() == bytes.len() as int / 32
    &&& forall|i: int|
        0 <= i < records.len() ==> (#[trigger] records[i]).pieces.len() == 16 && record_bytes(
            records[i],
        ) == bytes.subrange(32 * i, 32 * i + 32)
}

/// Only one sequence of records parses a given byte string.
pub proof fn lemma_tiles_unique(a: Seq<PackedV>, b: Seq<PackedV>, bytes: Seq<u8>)
    requires
        tiles(a, bytes),
        tiles(b, bytes),
    ensures
        a == b,
{
    assert forall|i: int| 0 <= i < a.len() implies a[i] == b[i] by {
        crate::codec::lemma_record_bytes_injective(a[i], b[i]);
    }
    assert(a =~= b);
}

/// What draining a buffer into `space` free batch slots consumes and
/// yields: records are taken from the end of the buffer; one that decodes
/// fills a slot, one that does not is skipped. The first component is the
/// number of records consumed, the second the decoded samples in
/// consumption order.
pub open spec fn drain_spec(b: Seq<PackedV>, space: int) -> (int, Seq<SampleV>)
    decreases b.len(),
{
    if space <= 0 || b.len() == 0 {
        (0, Seq::empty())
    } else {
        let last = b.last();
        if unpack_accepts(last) {
            let (n, s) = drain_spec(b.drop_last(), space - 1);
            (n + 1, seq![unpack_sample(last)] + s)
        } else {
            let (n, s) = drain_spec(b.drop_last(), space);
            (n + 1, s)
        }
    }
}

/// Draining consumes no more records than the buffer holds.
pub proof fn lemma_drain_consumed_bound(b: Seq<PackedV>, space: int)
    ensures
        0 <= drain_spec(b, space).0 <= b.len(),
    decreases b.len(),
{
    if !(space <= 0 || b.len() == 0) {
        if unpack_accepts(b.last()) {
            lemma_drain_consumed_bound(b.drop_last(), space - 1);
        } else {
            lemma_drain_consumed_bound(b.drop_last(), space);
        }
    }
}

/// A batch's view after appending each of the samples in turn.
pub open spec fn batch_extend_spec(b: BatchV, ss: Seq<SampleV>) -> BatchV
    decreases ss.len(),
{
    if ss.len() == 0 {
        b
    } else {
        batch_extend_spec(batch_add_spec(b, ss.first()), ss.drop_first())
    }
}

/// The record buffer the batch loader drains, with two running signals
/// for its owner: how many undecodable records have been skipped, and how
/// many bytes of a partial trailing record the last refill dropped — a
/// corruption sign, since a record file's size is a whole number of
/// records.
pub struct BufferedLoader {
    buffer: Vec<PackedSample>,
    skipped: u64,
    trailing: usize,
}

impl View for BufferedLoader {
    type V = Seq<PackedV>;

    closed spec fn view(&self) -> Seq<PackedV> {
        record_views(self.buffer@)
    }
}

impl BufferedLoader {
    /// Number of records skipped because they failed to decode, over the
    /// loader's whole life.
    pub closed spec fn skipped_spec(&self) -> int {
        self.skipped as int
    }

    /// Bytes of a partial trailing record dropped by the last refill.
    pub closed spec fn trailing_spec(&self) -> int {
        self.trailing as int
    }

    /// A loader with an empty buffer and cleared signals.
    pub fn new() -> (r: BufferedLoader)
        ensures
            r@.len() == 0,
            r.skipped_spec() == 0,
            r.trailing_spec() == 0,
    {
        let r = BufferedLoader { buffer: Vec::new(), skipped: 0, trailing: 0 };
        proof {
            assert(r@ =~= Seq::<PackedV>::empty());
        }
        r
    }

    /// Number of records skipped because they failed to decode, saturated
    /// at the counter's width.
    pub fn skipped(&self) -> (r: u64)
        ensures
            r as int == self.skipped_spec(),
    {
        self.skipped
    }

    /// Bytes of a partial trailing record the last refill dropped; any
    /// nonzero value signals a corrupt source file.
    pub fn trailing_bytes(&self) -> (r: usize)
        ensures
            r as int == self.trailing_spec(),
    {
        self.trailing
    }

    /// Whether the buffer is exhausted and new file bytes are needed.
    pub fn needs_refill(&self) -> (r: bool)
        ensures
            r == (self@.len() == 0),
    {
        self.buffer.is_empty()
    }

    /// Parses freshly read file bytes into the buffer, dropping any
    /// trailing partial record, and reshuffles the buffer: afterwards the
    /// buffer holds exactly the records parsed from the bytes, in some
    /// order.
    pub fn refill(&mut self, bytes: &Vec<u8>)
        requires
            old(self)@.len() == 0,
        ensures
            exists|parsed: Seq<PackedV>|
                #![auto]
                tiles(parsed, bytes@) && final(self)@.to_multiset() == parsed.to_multiset(),
            final(self)@.len() == bytes@.len() as int / 32,
            final(self).trailing_spec() == bytes@.len() as int % 32,
            final(self).skipped_spec() == old(self).skipped_spec(),
    {
        let n = bytes.len();
        let total = n / RECORD_SIZE;
        self.trailing = n % RECORD_SIZE;
        proof {
            assert(32 * (bytes@.len() as int / 32) <= bytes@.len()) by (nonlinear_arith);
        }
        let mut records: Vec<PackedSample> = Vec::new();
        let mut i: usize = 0;
        while i < total
            invariant
                n == bytes@.len(),
                total == bytes@.len() as int / 32,
                32 * (total as int) <= bytes@.len(),
                i <= total,
                records@.len() == i as int,
                forall|j: int|
                    0 <= j < i ==> (#[trigger] record_views(records@)[j]).pieces.len() == 16
                        && record_bytes(record_views(records@)[j]) == bytes@.subrange(
                        32 * j,
                        32 * j + 32,
                    ),
            decreases total - i,
        {
            proof {
                assert(32 * (i as int) + 32 <= 32 * (total as int)) by (nonlinear_arith)
                    requires
                        (i as int) < (total as int),
                ;
            }
            let record = PackedSample::from_bytes(bytes, i * RECORD_SIZE);
            let ghost recs_pre = records@;
            records.push(record);
            proof {
                assert(record_views(records@) =~= record_views(recs_pre).push(record@));
                assert(record@.pieces.len() == 16);
                assert(record_bytes(record@) == bytes@.subrange(
                    32 * (i as int),
                    32 * (i as int) + 32,
                ));
            }
            i += 1;
        }
        let ghost parsed = record_views(records@);
        proof {
            assert(tiles(parsed, bytes@));
        }
        shuffle_in_place(&mut records);
        self.buffer = records;
        proof {
            assert(tiles(parsed, bytes@) && self@.to_multiset() == parsed.to_multiset());
        }
    }

    /// Takes records from the end of the buffer until the batch is full
    /// or the buffer runs out, decoding each record and appending the
    /// decodable ones to the batch; records that fail to decode are
    /// skipped. Returns whether the batch is now full.
    pub fn load_into(&mut self, batch: &mut Batch) -> (full: bool)
        requires
            old(batch).wf(),
        ensures
            final(batch).wf(),
            final(batch)@ == batch_extend_spec(
                old(batch)@,
                drain_spec(old(self)@, old(batch)@.capacity - old(batch)@.targets.len()).1,
            ),
            final(self)@ == old(self)@.take(
                old(self)@.len() - drain_spec(
                    old(self)@,
                    old(batch)@.capacity - old(batch)@.targets.len(),
                ).0,
            ),
            full == (final(batch)@.targets.len() == final(batch)@.capacity),
            !full ==> final(self)@.len() == 0,
            final(self).trailing_spec() == old(self).trailing_spec(),
            final(self).skipped_spec() == vstd::math::min(
                old(self).skipped_spec() + (drain_spec(
                    old(self)@,
                    old(batch)@.capacity - old(batch)@.targets.len(),
                ).0 - drain_spec(
                    old(self)@,
                    old(batch)@.capacity - old(batch)@.targets.len(),
                ).1.len()),
                u64::MAX as int,
            ),
    {
        let ghost buf0 = self@;
        let ghost bat0 = batch@;
        let ghost space0 = bat0.capacity - bat0.targets.len();
        let ghost n0 = drain_spec(buf0, space0).0;
        let ghost added0 = drain_spec(buf0, space0).1;
        let ghost skip0 = self.skipped as int;
        let ghost trail0 = self.trailing as int;
        proof {
            batch.lemma_wf_bounds();
            assert(buf0.take(buf0.len() as int) =~= buf0);
        }
        loop
            invariant
                batch.wf(),
                batch@.capacity == bat0.capacity,
                bat0.targets.len() <= bat0.capacity,
                self@.len() <= buf0.len(),
                self@ == buf0.take(self@.len() as int),
                n0 == drain_spec(buf0, space0).0,
                added0 == drain_spec(buf0, space0).1,
                space0 == bat0.capacity - bat0.targets.len(),
                self.trailing as int == trail0,
                ({
                    let (nr, rest) = drain_spec(self@, batch@.capacity - batch@.targets.len());
                    &&& n0 == (buf0.len() - self@.len()) + nr
                    &&& batch_extend_spec(batch@, rest) == batch_extend_spec(bat0, added0)
                    &&& self.skipped as int == vstd::math::min(
                        skip0 + ((n0 - nr) - (added0.len() - rest.len())),
                        u64::MAX as int,
                    )
                }),
            ensures
                batch.wf(),
                batch@.capacity == bat0.capacity,
                batch@ == batch_extend_spec(bat0, added0),
                self@ == buf0.take(buf0.len() - n0),
                (batch@.targets.len() == batch@.capacity) || self@.len() == 0,
                self.trailing as int == trail0,
                self.skipped as int == vstd::math::min(
                    skip0 + (n0 - added0.len()),
                    u64::MAX as int,
                ),
            decreases self@.len(),
        {
            proof {
                lemma_drain_consumed_bound(self@, batch@.capacity - batch@.targets.len());
                batch.lemma_wf_bounds();
            }
            if batch.len() >= batch.capacity() {
                break;
            }
            let ghost pre = self@;
            let ghost bpre = batch@;
            let ghost sp = bpre.capacity - bpre.targets.len();
            let record = match self.pop_record() {
                Some(record) => record,
                None => {
                    break;
                },
            };
            proof {
                assert(pre.len() > 0);
                assert(buf0.take(pre.len() as int).drop_last() =~= buf0.take(pre.len() - 1));
            }
            match record.unpack() {
                Ok(sample) => {
                    batch.add(&sample);
                    proof {
                        let s = unpack_sample(pre.last());
                        let (nr, rest) = drain_spec(self@, sp - 1);
                        assert(drain_spec(pre, sp) == (nr + 1, seq![s] + rest));
                        assert((seq![s] + rest).first() == s);
                        assert((seq![s] + rest).drop_first() =~= rest);
                        assert(batch_extend_spec(bpre, seq![s] + rest) == batch_extend_spec(
                            batch@,
                            rest,
                        ));
                    }
                },
                Err(_) => {
                    if self.skipped < u64::MAX {
                        self.skipped = self.skipped + 1;
                    }
                    proof {
                        let (nr, rest) = drain_spec(self@, sp);
                        assert(drain_spec(pre, sp) == (nr + 1, rest));
                    }
                },
            }
        }
        batch.len() == batch.capacity()
    }

    /// Number of records waiting in the buffer.
    pub fn buffered(&self) -> (r: usize)
        ensures
            r == self@.len(),
    {
        self.buffer.len()
    }

    /// Removes and returns the last record of the buffer.
    fn pop_record(&mut self) -> (r: Option<PackedSample>)
        ensures
            old(self)@.len() == 0 ==> r is None && final(self)@ == old(self)@,
            old(self)@.len() > 0 ==> (r matches Some(rec) && rec@ == old(self)@.last()
                && final(self)@ == old(self)@.drop_last()),
            final(self).skipped == old(self).skipped,
            final(self).trailing == old(self).trailing,
    {
        let r = self.buffer.pop();
        proof {
            if old(self).buffer@.len() > 0 {
                assert(self@ =~= old(self)@.drop_last());
            } else {
                assert(self@ =~= old(self)@);
            }
        }
        r
    }
}

} // verus!
