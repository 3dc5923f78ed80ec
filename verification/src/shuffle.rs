//! The core of the external-memory shuffle engine.
//!
//! A source of records is split into buckets of at most a fixed capacity,
//! each shuffled in place. The buckets are then drained by weighted
//! rejection sampling: a draw below the total record count picks the
//! bucket whose range of the source it falls in; a draw into an exhausted
//! bucket is discarded, any other emits that bucket's next unread record.
//! When every bucket is drained, the emitted records are exactly the
//! source's records.

use vstd::prelude::*;
use vstd::multiset::Multiset;
use vstd::assert_by_contradiction;
use vstd::seq_lib::lemma_multiset_commutative;
use crate::codec::{record_views, PackedSample, PackedV};
use crate::rng::{random_below, shuffle_in_place};

verus! {

#[verifier::external_type_specification]
#[verifier::external_body]
pub struct ExPathBuf(std::path::PathBuf);

/// What a shuffle pass is asked to do: the file to shuffle, and where to
/// write the result; with no output path the file is shuffled in place.
pub struct Args {
    pub input: std::path::PathBuf,
    pub output: Option<std::path::PathBuf>,
}

/// Greatest number of records one temporary bucket may hold.
pub const SUBFILE_SIZE: u64 = 2097152;

/// Number of buckets a source of `total` records is split into.
pub open spec fn bucket_count(total: int) -> int {
    (total + SUBFILE_SIZE as int - 1) / (SUBFILE_SIZE as int)
}

/// Number of records of bucket `i`: the bucket capacity, except for what
/// is left over in the last bucket.
pub open spec fn bucket_len(total: int, i: int) -> int {
    if total - i * (SUBFILE_SIZE as int) < SUBFILE_SIZE as int {
        total - i * (SUBFILE_SIZE as int)
    } else {
        SUBFILE_SIZE as int
    }
}

/// Total records in the first `n` buckets.
pub open spec fn lens_sum(total: int, n: int) -> int
    decreases n,
{
    if n <= 0 {
        0
    } else {
        lens_sum(total, n - 1) + bucket_len(total, n - 1)
    }
}

/// The first `n` buckets hold `n` full buckets of records, capped at the
/// total.
pub proof fn lemma_lens_sum(total: int, n: int)
    requires
        0 <= total,
        0 <= n <= bucket_count(total),
    ensures
        lens_sum(total, n) == vstd::math::min(n * (SUBFILE_SIZE as int), total),
    decreases n,
{
    let b = SUBFILE_SIZE as int;
    if n > 0 {
        lemma_lens_sum(total, n - 1);
        assert((n - 1) * b == n * b - b) by (nonlinear_arith);
        assert(n <= (total + b - 1) / b ==> (n - 1) * b < total) by (nonlinear_arith)
            requires
                b > 0,
                0 <= total,
                n >= 1,
        ;
    }
}

/// All buckets together hold exactly the source.
pub proof fn lemma_lens_sum_total(total: int)
    requires
        0 <= total,
    ensures
        lens_sum(total, bucket_count(total)) == total,
{
    let b = SUBFILE_SIZE as int;
    lemma_lens_sum(total, bucket_count(total));
    assert(bucket_count(total) * b >= total) by (nonlinear_arith)
        requires
            b > 0,
            0 <= total,
            bucket_count(total) == (total + b - 1) / b,
    ;
}

/// Every bucket before the last is full, and every bucket is nonempty.
pub proof fn lemma_bucket_len_bounds(total: int, i: int)
    requires
        0 <= total,
        0 <= i < bucket_count(total),
    ensures
        0 < bucket_len(total, i) <= SUBFILE_SIZE as int,
        i < bucket_count(total) - 1 ==> bucket_len(total, i) == SUBFILE_SIZE as int,
{
    let b = SUBFILE_SIZE as int;
    assert(i < (total + b - 1) / b ==> i * b < total) by (nonlinear_arith)
        requires
            b > 0,
            0 <= total,
            0 <= i,
    ;
    assert(i + 1 < (total + b - 1) / b ==> (i + 1) * b < total && i * b + b == (i + 1) * b)
        by (nonlinear_arith)
        requires
            b > 0,
            0 <= total,
            0 <= i,
    ;
}

/// The bucket a draw from the source range falls in: draws below the full
/// buckets' range pick by division, the rest pick the last bucket.
pub open spec fn bucket_index(draw: int, total: int) -> int {
    let b = SUBFILE_SIZE as int;
    if draw < total - total % b {
        draw / b
    } else {
        bucket_count(total) - 1
    }
}

/// Maps a draw to its bucket.
pub fn bucket_of(draw: u64, total: u64) -> (idx: usize)
    requires
        draw < total,
        bucket_count(total as int) <= usize::MAX as int,
    ensures
        idx as int == bucket_index(draw as int, total as int),
        (idx as int) < bucket_count(total as int),
{
    let b = SUBFILE_SIZE;
    let last_size = total % b;
    let last_start = total - last_size;
    proof {
        let bi = b as int;
        let t = total as int;
        let d = draw as int;
        assert(t - t % bi == (t / bi) * bi && t % bi < bi && 0 <= t % bi) by (nonlinear_arith)
            requires
                bi > 0,
                t >= 0,
        ;
        assert(d < (t / bi) * bi ==> d / bi < t / bi) by (nonlinear_arith)
            requires
                bi > 0,
                d >= 0,
        ;
        assert(t / bi <= (t + bi - 1) / bi) by (nonlinear_arith)
            requires
                bi > 0,
                t >= 0,
        ;
        assert(t > 0 ==> (t + bi - 1) / bi >= 1) by (nonlinear_arith)
            requires
                bi > 0,
        ;
        if t % bi == 0 {
            assert((t + bi - 1) / bi == t / bi) by (nonlinear_arith)
                requires
                    bi > 0,
                    t > 0,
                    t % bi == 0,
            ;
        } else {
            assert((t + bi - 1) / bi == t / bi + 1) by (nonlinear_arith)
                requires
                    bi > 0,
                    t > 0,
                    t % bi != 0,
            ;
        }
    }
    if draw < last_start {
        (draw / b) as usize
    } else {
        (total / b) as usize
    }
}

/// Splits the source into buckets of at most the bucket capacity, in
/// source order, and shuffles each bucket in place: bucket `i` holds
/// exactly the records of the `i`-th window of the source, in some order,
/// so the buckets' records together are exactly the source's records.
pub fn partition_into_buckets(records: &Vec<PackedSample>) -> (buckets: Vec<Vec<PackedSample>>)
    ensures
        buckets@.len() == bucket_count(records@.len() as int),
        forall|i: int|
            0 <= i < buckets@.len() ==> (#[trigger] buckets@[i])@.len() == bucket_len(
                records@.len() as int,
                i,
            ),
        forall|i: int|
            0 <= i < buckets@.len() ==> record_views((#[trigger] buckets@[i])@).to_multiset()
                == record_views(
                records@.subrange(
                    i * (SUBFILE_SIZE as int),
                    i * (SUBFILE_SIZE as int) + bucket_len(records@.len() as int, i),
                ),
            ).to_multiset(),
        bucket_views(buckets@).flatten().to_multiset() == record_views(records@).to_multiset(),
{
    let total = records.len();
    let ghost t = total as int;
    let mut buckets: Vec<Vec<PackedSample>> = Vec::new();
    let mut start: usize = 0;
    proof {
        lemma_lens_sum(t, 0);
        assert(bucket_views(buckets@).flatten() =~= Seq::<PackedV>::empty());
        assert(record_views(records@.subrange(0, 0)) =~= Seq::<PackedV>::empty());
        assert(Seq::<PackedV>::empty().to_multiset() =~= record_views(
            records@.subrange(0, 0),
        ).to_multiset());
    }
    while start < total
        invariant
            total == records@.len(),
            t == total as int,
            start <= total,
            buckets@.len() <= bucket_count(t),
            start as int == lens_sum(t, buckets@.len() as int),
            forall|i: int|
                0 <= i < buckets@.len() ==> (#[trigger] buckets@[i])@.len() == bucket_len(t, i),
            forall|i: int|
                0 <= i < buckets@.len() ==> record_views((#[trigger] buckets@[i])@).to_multiset()
                    == record_views(
                    records@.subrange(
                        i * (SUBFILE_SIZE as int),
                        i * (SUBFILE_SIZE as int) + bucket_len(t, i),
                    ),
                ).to_multiset(),
            bucket_views(buckets@).flatten().to_multiset() == record_views(
                records@.subrange(0, start as int),
            ).to_multiset(),
        decreases total - start,
    {
        proof {
            lemma_lens_sum_total(t);
            assert((buckets@.len() as int) < bucket_count(t));
            lemma_lens_sum(t, buckets@.len() as int);
            lemma_bucket_len_bounds(t, buckets@.len() as int);
            lemma_lens_sum(t, buckets@.len() as int + 1);
        }
        let remaining = total - start;
        let chunk_len = if (remaining as u64) < SUBFILE_SIZE {
            remaining
        } else {
            SUBFILE_SIZE as usize
        };
        let mut chunk: Vec<PackedSample> = Vec::new();
        let mut k: usize = 0;
        while k < chunk_len
            invariant
                total == records@.len(),
                start + chunk_len <= total,
                k <= chunk_len,
                chunk@.len() == k as int,
                forall|j: int| 0 <= j < k ==> chunk@[j] == records@[start + j],
            decreases chunk_len - k,
        {
            chunk.push(records[start + k]);
            k += 1;
        }
        proof {
            assert(record_views(chunk@) =~= record_views(
                records@.subrange(start as int, start as int + chunk_len as int),
            ));
        }
        shuffle_in_place(&mut chunk);
        let ghost buckets_pre = buckets@;
        buckets.push(chunk);
        proof {
            let k = buckets_pre.len() as int;
            assert(start as int == k * (SUBFILE_SIZE as int));
            assert(chunk_len as int == bucket_len(t, k));
            assert(record_views(buckets@[k]@).to_multiset() == record_views(
                records@.subrange(
                    k * (SUBFILE_SIZE as int),
                    k * (SUBFILE_SIZE as int) + bucket_len(t, k),
                ),
            ).to_multiset());
            assert(bucket_views(buckets@) =~= bucket_views(buckets_pre).push(
                record_views(buckets@.last()@),
            ));
            bucket_views(buckets_pre).lemma_flatten_push(record_views(buckets@.last()@));
            lemma_multiset_commutative(
                bucket_views(buckets_pre).flatten(),
                record_views(buckets@.last()@),
            );
            lemma_multiset_commutative(
                record_views(records@.subrange(0, start as int)),
                record_views(records@.subrange(start as int, start as int + chunk_len as int)),
            );
            assert(record_views(records@.subrange(0, start as int)) + record_views(
                records@.subrange(start as int, start as int + chunk_len as int),
            ) =~= record_views(records@.subrange(0, start as int + chunk_len as int)));
        }
        start = start + chunk_len;
    }
    proof {
        assert(records@.subrange(0, t) =~= records@);
        lemma_lens_sum(t, buckets@.len() as int);
        if (buckets@.len() as int) < bucket_count(t) {
            lemma_bucket_len_bounds(t, buckets@.len() as int);
        }
    }
    buckets
}

/// The views of a sequence of buckets.
pub open spec fn bucket_views(bs: Seq<Vec<PackedSample>>) -> Seq<Seq<PackedV>> {
    bs.map_values(|b: Vec<PackedSample>| record_views(b@))
}

/// The view of an interleave drain: the buckets as laid out by the
/// partition pass, a read cursor per bucket, the total record count, and
/// the records emitted so far.
#[verifier::ext_equal]
pub ghost struct InterleaveV {
    pub buckets: Seq<Seq<PackedV>>,
    pub cursors: Seq<int>,
    pub total: int,
    pub emitted: Seq<PackedV>,
}

/// What is still unread: each bucket past its cursor.
pub open spec fn unread(s: InterleaveV) -> Seq<Seq<PackedV>> {
    Seq::new(s.buckets.len(), |i: int| s.buckets[i].skip(s.cursors[i]))
}

/// Total of the first `n` entries.
pub open spec fn prefix_sum(entries: Seq<int>, n: int) -> int
    decreases n,
{
    if n <= 0 {
        0
    } else {
        prefix_sum(entries, n - 1) + entries[n - 1]
    }
}

proof fn lemma_prefix_sum_zero(cursors: Seq<int>, n: int)
    requires
        forall|i: int| 0 <= i < n ==> cursors[i] == 0,
    ensures
        prefix_sum(cursors, n) == 0,
    decreases n,
{
    if n > 0 {
        lemma_prefix_sum_zero(cursors, n - 1);
    }
}

proof fn lemma_prefix_sum_update(cursors: Seq<int>, i: int, v: int, n: int)
    requires
        0 <= i < cursors.len(),
        n <= cursors.len(),
    ensures
        prefix_sum(cursors.update(i, v), n) == if i < n {
            prefix_sum(cursors, n) + v - cursors[i]
        } else {
            prefix_sum(cursors, n)
        },
    decreases n,
{
    if n > 0 {
        lemma_prefix_sum_update(cursors, i, v, n - 1);
    }
}

/// If every cursor is bounded by its bucket's length and the cursors sum
/// to the buckets' total length, every bucket is fully read.
proof fn lemma_prefix_sum_pins(s: InterleaveV, n: int)
    requires
        0 <= n <= s.cursors.len(),
        s.cursors.len() == s.buckets.len(),
        forall|i: int| 0 <= i < s.cursors.len() ==> 0 <= #[trigger] s.cursors[i] <= s.buckets[i].len(),
        prefix_sum(s.cursors, n) >= lens_of(s.buckets, n),
    ensures
        forall|i: int| 0 <= i < n ==> #[trigger] s.cursors[i] == s.buckets[i].len(),
    decreases n,
{
    if n > 0 {
        lemma_lens_of_bounds(s.buckets, n - 1);
        lemma_prefix_sum_bounded(s, n - 1);
        lemma_prefix_sum_pins(s, n - 1);
    }
}

/// Cursor sums never exceed the buckets' lengths.
proof fn lemma_prefix_sum_bounded(s: InterleaveV, n: int)
    requires
        0 <= n <= s.cursors.len(),
        s.cursors.len() == s.buckets.len(),
        forall|i: int| 0 <= i < s.cursors.len() ==> 0 <= #[trigger] s.cursors[i] <= s.buckets[i].len(),
    ensures
        0 <= prefix_sum(s.cursors, n) <= lens_of(s.buckets, n),
    decreases n,
{
    if n > 0 {
        lemma_prefix_sum_bounded(s, n - 1);
    }
}

/// Total length of the first `n` bucket views.
pub open spec fn lens_of(buckets: Seq<Seq<PackedV>>, n: int) -> int
    decreases n,
{
    if n <= 0 {
        0
    } else {
        lens_of(buckets, n - 1) + buckets[n - 1].len()
    }
}

proof fn lemma_lens_of_bounds(buckets: Seq<Seq<PackedV>>, n: int)
    requires
        0 <= n,
    ensures
        lens_of(buckets, n) >= 0,
    decreases n,
{
    if n > 0 {
        lemma_lens_of_bounds(buckets, n - 1);
    }
}

/// Flattening concatenates bucket lengths.
proof fn lemma_flatten_len(buckets: Seq<Seq<PackedV>>)
    ensures
        buckets.flatten().len() == lens_of(buckets, buckets.len() as int),
    decreases buckets.len(),
{
    if buckets.len() > 0 {
        lemma_flatten_len(buckets.drop_last());
        buckets.drop_last().lemma_flatten_push(buckets.last());
        assert(buckets.drop_last().push(buckets.last()) =~= buckets);
        assert(buckets.flatten() == buckets.drop_last().flatten() + buckets.last());
        assert(buckets.flatten().len() == buckets.drop_last().flatten().len()
            + buckets.last().len());
        lemma_lens_of_prefix(buckets.drop_last(), buckets, buckets.len() - 1);
    }
}

proof fn lemma_lens_of_prefix(a: Seq<Seq<PackedV>>, b: Seq<Seq<PackedV>>, n: int)
    requires
        0 <= n <= a.len(),
        n <= b.len(),
        forall|i: int| 0 <= i < n ==> a[i] == b[i],
    ensures
        lens_of(a, n) == lens_of(b, n),
    decreases n,
{
    if n > 0 {
        lemma_lens_of_prefix(a, b, n - 1);
    }
}

proof fn lemma_empty_seq_ms()
    ensures
        Seq::<PackedV>::empty().to_multiset() == Multiset::<PackedV>::empty(),
{
    broadcast use vstd::seq_lib::group_to_multiset_ensures;
    broadcast use vstd::multiset::group_multiset_axioms;

    assert forall|x: PackedV| Seq::<PackedV>::empty().to_multiset().count(x) == 0 by {
        assert(!Seq::<PackedV>::empty().contains(x));
    }
    assert(Seq::<PackedV>::empty().to_multiset() =~= Multiset::<PackedV>::empty());
}

/// A flattened sequence of buckets splits, as a multiset, around any one
/// bucket.
proof fn lemma_flatten_ms_decompose(s: Seq<Seq<PackedV>>, i: int)
    requires
        0 <= i < s.len(),
    ensures
        s.flatten().to_multiset() =~= s.take(i).flatten().to_multiset().add(
            s[i].to_multiset(),
        ).add(s.skip(i + 1).flatten().to_multiset()),
    decreases i,
{
    broadcast use vstd::multiset::group_multiset_axioms;

    if i == 0 {
        assert(s.flatten() == s.first() + s.drop_first().flatten());
        lemma_multiset_commutative(s.first(), s.drop_first().flatten());
        assert(s.take(0).flatten() =~= Seq::<PackedV>::empty());
        assert(s.skip(1) =~= s.drop_first());
        lemma_empty_seq_ms();
    } else {
        assert(s.flatten() == s.first() + s.drop_first().flatten());
        lemma_multiset_commutative(s.first(), s.drop_first().flatten());
        lemma_flatten_ms_decompose(s.drop_first(), i - 1);
        assert(s.drop_first().take(i - 1) =~= s.take(i).drop_first());
        assert(s.drop_first()[i - 1] == s[i]);
        assert(s.drop_first().skip(i) =~= s.skip(i + 1));
        assert(s.take(i).flatten() == s.take(i).first() + s.take(i).drop_first().flatten());
        lemma_multiset_commutative(s.take(i).first(), s.take(i).drop_first().flatten());
        assert(s.take(i).first() == s.first());
    }
}

/// Whether an interleave drain's bookkeeping is sound: the bucket layout
/// matches the total, the cursors stay within their buckets and count the
/// emissions, and what was emitted plus what is unread is, as a multiset,
/// exactly the buckets' contents.
pub open spec fn interleave_wf(s: InterleaveV) -> bool {
    &&& 0 <= s.total
    &&& s.buckets.len() == bucket_count(s.total)
    &&& s.cursors.len() == s.buckets.len()
    &&& forall|i: int|
        0 <= i < s.buckets.len() ==> (#[trigger] s.buckets[i]).len() == bucket_len(s.total, i)
    &&& forall|i: int|
        0 <= i < s.cursors.len() ==> 0 <= #[trigger] s.cursors[i] <= s.buckets[i].len()
    &&& s.emitted.len() == prefix_sum(s.cursors, s.cursors.len() as int)
    &&& s.emitted.to_multiset().add(unread(s).flatten().to_multiset()) == s.buckets.flatten(
    ).to_multiset()
}

/// When every record has been emitted, the emitted stream is, as a
/// multiset, exactly the buckets' records: the drain is a permutation.
pub proof fn lemma_drained_is_permutation(s: InterleaveV)
    requires
        interleave_wf(s),
        s.emitted.len() == s.total,
    ensures
        s.emitted.to_multiset() == s.buckets.flatten().to_multiset(),
{
    broadcast use vstd::multiset::group_multiset_axioms;

    lemma_interleave_size(s);
    lemma_prefix_sum_pins(s, s.cursors.len() as int);
    assert forall|i: int| 0 <= i < unread(s).len() implies unread(s)[i] =~= Seq::<
        PackedV,
    >::empty() by {
        assert(s.cursors[i] == s.buckets[i].len());
    }
    lemma_flatten_empty(unread(s));
    lemma_empty_seq_ms();
    assert(s.emitted.to_multiset().add(unread(s).flatten().to_multiset())
        =~= s.emitted.to_multiset());
}

/// A sound drain's buckets hold exactly `total` records in all.
proof fn lemma_interleave_size(s: InterleaveV)
    requires
        interleave_wf(s),
    ensures
        lens_of(s.buckets, s.buckets.len() as int) == s.total,
        s.buckets.flatten().len() == s.total,
{
    lemma_flatten_len(s.buckets);
    assert forall|n: int| 0 <= n <= s.buckets.len() implies lens_of(s.buckets, n) == lens_sum(
        s.total,
        n,
    ) by {
        lemma_lens_eq(s, n);
    }
    lemma_lens_sum_total(s.total);
}

proof fn lemma_lens_eq(s: InterleaveV, n: int)
    requires
        interleave_wf(s),
        0 <= n <= s.buckets.len(),
    ensures
        lens_of(s.buckets, n) == lens_sum(s.total, n),
    decreases n,
{
    if n > 0 {
        lemma_lens_eq(s, n - 1);
    }
}

proof fn lemma_flatten_empty(s: Seq<Seq<PackedV>>)
    requires
        forall|i: int| 0 <= i < s.len() ==> (#[trigger] s[i]).len() == 0,
    ensures
        s.flatten() =~= Seq::<PackedV>::empty(),
    decreases s.len(),
{
    if s.len() > 0 {
        assert(s.first() =~= Seq::<PackedV>::empty());
        lemma_flatten_empty(s.drop_first());
    }
}

/// An interleave drain over in-memory buckets.
pub struct InterleaveState {
    buckets: Vec<Vec<PackedSample>>,
    cursors: Vec<usize>,
    total: u64,
    remaining: u64,
    emitted: Ghost<Seq<PackedV>>,
}

impl View for InterleaveState {
    type V = InterleaveV;

    closed spec fn view(&self) -> InterleaveV {
        InterleaveV {
            buckets: bucket_views(self.buckets@),
            cursors: self.cursors@.map_values(|c: usize| c as int),
            total: self.total as int,
            emitted: self.emitted@,
        }
    }
}

impl InterleaveState {
    /// The drain's private counters agree with its view.
    pub closed spec fn wf(&self) -> bool {
        &&& interleave_wf(self@)
        &&& self.remaining as int == self.total - self.emitted@.len()
        &&& bucket_count(self.total as int) <= usize::MAX as int
    }

    /// A well-formed drain satisfies the view-level bookkeeping.
    pub proof fn lemma_wf(&self)
        requires
            self.wf(),
        ensures
            interleave_wf(self@),
            self@.emitted.len() <= self@.total,
    {
        lemma_prefix_sum_bounded(self@, self@.cursors.len() as int);
        lemma_interleave_size(self@);
    }

    /// Starts a drain over freshly partitioned buckets holding `total`
    /// records in all.
    pub fn new(buckets: Vec<Vec<PackedSample>>, total: u64) -> (r: InterleaveState)
        requires
            buckets@.len() == bucket_count(total as int),
            forall|i: int|
                0 <= i < buckets@.len() ==> (#[trigger] buckets@[i])@.len() == bucket_len(
                    total as int,
                    i,
                ),
            bucket_count(total as int) <= usize::MAX as int,
        ensures
            r.wf(),
            r@.buckets == bucket_views(buckets@),
            r@.total == total,
            r@.emitted == Seq::<PackedV>::empty(),
    {
        let count = buckets.len();
        let r = InterleaveState {
            buckets,
            cursors: vec![0usize; count],
            total,
            remaining: total,
            emitted: Ghost(Seq::empty()),
        };
        proof {
            broadcast use vstd::multiset::group_multiset_axioms;

            let v = r@;
            lemma_prefix_sum_zero(v.cursors, v.cursors.len() as int);
            assert forall|i: int| 0 <= i < v.buckets.len() implies unread(v)[i] == v.buckets[i] by {
                assert(v.buckets[i].skip(0) =~= v.buckets[i]);
            }
            assert(unread(v) =~= v.buckets);
            lemma_empty_seq_ms();
            assert(v.emitted.to_multiset().add(unread(v).flatten().to_multiset())
                =~= v.buckets.flatten().to_multiset());
        }
        r
    }

    /// Whether every bucket has been drained.
    pub fn done(&self) -> (r: bool)
        requires
            self.wf(),
        ensures
            r == (self@.emitted.len() == self@.total),
    {
        self.remaining == 0
    }

    /// Number of records not yet emitted.
    pub fn remaining(&self) -> (r: u64)
        requires
            self.wf(),
        ensures
            r as int == self@.total - self@.emitted.len(),
    {
        self.remaining
    }

    /// Feeds one draw to the drain. A draw into an exhausted bucket is
    /// rejected and changes nothing; any other emits the drawn bucket's
    /// next unread record.
    pub fn step(&mut self, draw: u64) -> (r: Option<PackedSample>)
        requires
            old(self).wf(),
            draw < old(self)@.total,
        ensures
            final(self).wf(),
            final(self)@.buckets == old(self)@.buckets,
            final(self)@.total == old(self)@.total,
            ({
                let i = bucket_index(draw as int, old(self)@.total);
                match r {
                    None => final(self)@ == old(self)@ && old(self)@.cursors[i] == old(
                        self,
                    )@.buckets[i].len(),
                    Some(rec) => {
                        &&& old(self)@.cursors[i] < old(self)@.buckets[i].len()
                        &&& rec@ == old(self)@.buckets[i][old(self)@.cursors[i]]
                        &&& final(self)@.cursors == old(self)@.cursors.update(
                            i,
                            old(self)@.cursors[i] + 1,
                        )
                        &&& final(self)@.emitted == old(self)@.emitted.push(rec@)
                    },
                }
            }),
    {
        proof {
            broadcast use vstd::multiset::group_multiset_axioms;
            broadcast use vstd::seq_lib::group_to_multiset_ensures;

        }
        let idx = bucket_of(draw, self.total);
        let ghost v0 = self@;
        let ghost i = idx as int;
        let cur = self.cursors[idx];
        if cur == self.buckets[idx].len() {
            return None;
        }
        proof {
            assert(v0.cursors[i] == cur as int);
            assert(v0.buckets[i] == record_views(self.buckets@[i]@));
            assert(v0.buckets[i].len() == self.buckets@[i]@.len());
        }
        let rec = self.buckets[idx][cur];
        proof {
            if self.remaining == 0 {
                lemma_interleave_size(v0);
                lemma_prefix_sum_pins(v0, v0.cursors.len() as int);
            }
        }
        self.cursors[idx] = cur + 1;
        self.remaining = self.remaining - 1;
        proof {
            self.emitted@ = self.emitted@.push(rec@);
        }
        proof {
            broadcast use vstd::multiset::group_multiset_axioms;
            broadcast use vstd::seq_lib::group_to_multiset_ensures;

            let v1 = self@;
            assert(v1.cursors =~= v0.cursors.update(i, v0.cursors[i] + 1));
            assert(v1.buckets =~= v0.buckets);
            lemma_prefix_sum_update(v0.cursors, i, v0.cursors[i] + 1, v0.cursors.len() as int);
            // The unread suffix of the drawn bucket sheds its first record.
            let b = v0.buckets[i];
            let c = v0.cursors[i];
            assert(rec@ == b[c]);
            assert(b.skip(c) =~= seq![rec@] + b.skip(c + 1));
            lemma_multiset_commutative(seq![rec@], b.skip(c + 1));
            assert(seq![rec@].to_multiset() =~= Multiset::<PackedV>::empty().insert(rec@)) by {
                assert(seq![rec@] =~= Seq::<PackedV>::empty().push(rec@));
            }
            // Decompose both unread flattenings around the drawn bucket.
            lemma_flatten_ms_decompose(unread(v0), i);
            lemma_flatten_ms_decompose(unread(v1), i);
            assert(unread(v1).take(i) =~= unread(v0).take(i));
            assert(unread(v1).skip(i + 1) =~= unread(v0).skip(i + 1));
            assert(unread(v0)[i] == b.skip(c));
            assert(unread(v1)[i] == b.skip(c + 1));
            assert(v1.emitted.to_multiset() =~= v0.emitted.to_multiset().insert(rec@));
            assert(v1.emitted.to_multiset().add(unread(v1).flatten().to_multiset())
                =~= v0.emitted.to_multiset().add(unread(v0).flatten().to_multiset()));
        }
        Some(rec)
    }

    /// Draws a record index itself and feeds it to the drain: what comes
    /// back is a rejection or the drawn bucket's next unread record, as
    /// [`Self::step`] describes, for some draw below the total. A
    /// rejection is possible only when some bucket is already exhausted:
    /// until then, every call emits a record.
    pub fn step_random(&mut self) -> (r: Option<PackedSample>)
        requires
            old(self).wf(),
            old(self)@.emitted.len() < old(self)@.total,
        ensures
            final(self).wf(),
            final(self)@.buckets == old(self)@.buckets,
            final(self)@.total == old(self)@.total,
            r is None ==> final(self)@ == old(self)@,
            r is None ==> exists|i: int|
                0 <= i < old(self)@.buckets.len() && old(self)@.cursors[i] == old(
                    self,
                )@.buckets[i].len(),
            r matches Some(rec) ==> final(self)@.emitted == old(self)@.emitted.push(rec@),
    {
        proof {
            self.lemma_wf();
        }
        let draw = random_below(self.total);
        self.step(draw)
    }
}

/// Prefix sums of nonnegative entries are nonnegative.
proof fn lemma_prefix_sum_nonneg(s: Seq<int>, n: int)
    requires
        0 <= n <= s.len(),
        forall|i: int| 0 <= i < s.len() ==> s[i] >= 0,
    ensures
        prefix_sum(s, n) >= 0,
    decreases n,
{
    if n > 0 {
        lemma_prefix_sum_nonneg(s, n - 1);
    }
}

/// A zero sum of nonnegative entries pins every entry to zero.
proof fn lemma_sum_zero_pins(s: Seq<int>, n: int)
    requires
        0 <= n <= s.len(),
        forall|i: int| 0 <= i < s.len() ==> s[i] >= 0,
        prefix_sum(s, n) == 0,
    ensures
        forall|i: int| 0 <= i < n ==> s[i] == 0,
    decreases n,
{
    if n > 0 {
        lemma_prefix_sum_nonneg(s, n - 1);
        lemma_sum_zero_pins(s, n - 1);
    }
}

/// Each entry is bounded by the sum of any prefix containing it.
proof fn lemma_prefix_sum_at_least(s: Seq<int>, i: int, n: int)
    requires
        0 <= i < n <= s.len(),
        forall|j: int| 0 <= j < s.len() ==> s[j] >= 0,
    ensures
        prefix_sum(s, n) >= s[i],
    decreases n,
{
    if i == n - 1 {
        lemma_prefix_sum_nonneg(s, n - 1);
    } else {
        lemma_prefix_sum_at_least(s, i, n - 1);
    }
}

/// Remaining counts that all match the bucket layout sum to what the
/// layout sums to.
proof fn lemma_sum_matches_lens(s: Seq<int>, total: int, n: int)
    requires
        0 <= n <= s.len(),
        forall|i: int| 0 <= i < s.len() ==> s[i] == bucket_len(total, i),
    ensures
        prefix_sum(s, n) == lens_sum(total, n),
    decreases n,
{
    if n > 0 {
        lemma_sum_matches_lens(s, total, n - 1);
    }
}

/// The view of a counts-only drain: how many records each bucket still
/// holds, and the total the drain started from.
#[verifier::ext_equal]
pub ghost struct BucketDrainV {
    pub remaining: Seq<int>,
    pub total: int,
}

/// Whether a counts-only drain's bookkeeping is sound: one counter per
/// bucket of the layout, each between zero and its bucket's size.
pub open spec fn bucket_drain_wf(s: BucketDrainV) -> bool {
    &&& 0 <= s.total
    &&& s.remaining.len() == bucket_count(s.total)
    &&& forall|i: int|
        0 <= i < s.remaining.len() ==> 0 <= #[trigger] s.remaining[i] <= bucket_len(s.total, i)
}

/// The drain bookkeeping of an interleave pass over bucket files: one
/// remaining-record counter per bucket. It decides which bucket each draw
/// reads from and when the pass is finished; its owner only performs the
/// reads and writes.
pub struct BucketDrain {
    remaining: Vec<u64>,
    total: u64,
    left: u64,
}

impl View for BucketDrain {
    type V = BucketDrainV;

    closed spec fn view(&self) -> BucketDrainV {
        BucketDrainV {
            remaining: self.remaining@.map_values(|c: u64| c as int),
            total: self.total as int,
        }
    }
}

impl BucketDrain {
    /// The drain's private counters agree with its view.
    pub closed spec fn wf(&self) -> bool {
        &&& bucket_drain_wf(self@)
        &&& self.left as int == prefix_sum(self@.remaining, self@.remaining.len() as int)
        &&& bucket_count(self.total as int) <= usize::MAX as int
    }

    /// Starts a drain over the bucket layout of `total` records: every
    /// bucket has its full size left to read.
    pub fn new(total: u64) -> (r: BucketDrain)
        requires
            bucket_count(total as int) <= usize::MAX as int,
        ensures
            r.wf(),
            r@.total == total,
            forall|i: int|
                0 <= i < r@.remaining.len() ==> #[trigger] r@.remaining[i] == bucket_len(
                    total as int,
                    i,
                ),
    {
        let ghost t = total as int;
        let mut remaining: Vec<u64> = Vec::new();
        let mut left: u64 = total;
        proof {
            lemma_lens_sum(t, 0);
        }
        while left > 0
            invariant
                t == total as int,
                remaining@.len() <= bucket_count(t),
                left as int == t - lens_sum(t, remaining@.len() as int),
                forall|i: int|
                    0 <= i < remaining@.len() ==> #[trigger] remaining@[i] as int == bucket_len(
                        t,
                        i,
                    ),
            decreases left,
        {
            proof {
                lemma_lens_sum_total(t);
                assert((remaining@.len() as int) < bucket_count(t));
                lemma_lens_sum(t, remaining@.len() as int);
                lemma_bucket_len_bounds(t, remaining@.len() as int);
                lemma_lens_sum(t, remaining@.len() as int + 1);
            }
            let chunk = if left < SUBFILE_SIZE {
                left
            } else {
                SUBFILE_SIZE
            };
            remaining.push(chunk);
            left = left - chunk;
        }
        proof {
            lemma_lens_sum(t, remaining@.len() as int);
            if (remaining@.len() as int) < bucket_count(t) {
                lemma_bucket_len_bounds(t, remaining@.len() as int);
            }
        }
        let r = BucketDrain { remaining, total, left: total };
        proof {
            lemma_sum_matches_lens(r@.remaining, t, r@.remaining.len() as int);
            lemma_lens_sum_total(t);
        }
        r
    }

    /// Whether every bucket has been fully read.
    pub fn done(&self) -> (r: bool)
        requires
            self.wf(),
        ensures
            r == (forall|i: int| 0 <= i < self@.remaining.len() ==> #[trigger] self@.remaining[i]
                == 0),
    {
        proof {
            if self.left == 0 {
                lemma_sum_zero_pins(self@.remaining, self@.remaining.len() as int);
            } else {
                assert_by_contradiction!(
                    !(forall|i: int|
                        0 <= i < self@.remaining.len() ==> #[trigger] self@.remaining[i] == 0),
                    {
                        lemma_prefix_sum_zero(self@.remaining, self@.remaining.len() as int);
                    }
                );
            }
        }
        self.left == 0
    }

    /// Feeds one draw to the drain. A draw into an exhausted bucket is
    /// rejected and changes nothing — possible only once some bucket is
    /// exhausted; any other returns the drawn bucket, whose next record
    /// the owner must now read, and counts it off.
    pub fn step(&mut self, draw: u64) -> (r: Option<usize>)
        requires
            old(self).wf(),
            draw < old(self)@.total,
        ensures
            final(self).wf(),
            final(self)@.total == old(self)@.total,
            ({
                let i = bucket_index(draw as int, old(self)@.total);
                match r {
                    None => final(self)@ == old(self)@ && old(self)@.remaining[i] == 0,
                    Some(idx) => {
                        &&& idx as int == i
                        &&& old(self)@.remaining[i] > 0
                        &&& final(self)@.remaining == old(self)@.remaining.update(
                            i,
                            old(self)@.remaining[i] - 1,
                        )
                    },
                }
            }),
    {
        let idx = bucket_of(draw, self.total);
        let ghost v0 = self@;
        let ghost i = idx as int;
        proof {
            assert(v0.remaining[i] == self.remaining@[i] as int);
        }
        if self.remaining[idx] == 0 {
            return None;
        }
        proof {
            lemma_prefix_sum_at_least(v0.remaining, i, v0.remaining.len() as int);
            lemma_prefix_sum_update(
                v0.remaining,
                i,
                v0.remaining[i] - 1,
                v0.remaining.len() as int,
            );
        }
        self.remaining[idx] = self.remaining[idx] - 1;
        self.left = self.left - 1;
        proof {
            assert(self@.remaining =~= v0.remaining.update(i, v0.remaining[i] - 1));
        }
        Some(idx)
    }
}

} // verus!
