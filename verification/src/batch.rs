//! Accumulation of decoded examples into flat, reusable batch arrays.
//!
//! A batch holds, per example, a win-probability target and a centipawn
//! evaluation target, and two coordinate lists of (example index, feature
//! index) pairs, one per viewing perspective, ready for sparse tensor
//! construction. The arrays are allocated once for a fixed capacity and
//! refilled after a clear.

use vstd::prelude::*;
use crate::chess::{Position, PositionV, Sample};
use crate::feature::{feature, feature_spec};

verus! {

/// The win-probability training target from the side to move's
/// perspective: a win counts 1, a draw one half, a loss 0.
#[derive(Clone, Copy, Debug, PartialEq, Eq, Structural)]
pub enum OutcomeTarget {
    Win,
    Draw,
    Loss,
}

/// The centipawn evaluation training target: the stored evaluation when
/// present, else infinity toward the known outcome, or level for an
/// evaluation-less draw.
#[derive(Clone, Copy, Debug, PartialEq, Eq, Structural)]
pub enum EvalTarget {
    Centipawns(i16),
    PlusInfinity,
    MinusInfinity,
}

/// The outcome target of a sample: how the game ended, seen from the side
/// to move.
pub open spec fn outcome_target(s: crate::chess::SampleV) -> OutcomeTarget {
    match s.outcome.winner_spec() {
        Some(c) => if c == s.position.side_to_move {
            OutcomeTarget::Win
        } else {
            OutcomeTarget::Loss
        },
        None => OutcomeTarget::Draw,
    }
}

/// The evaluation target of a sample: the stored evaluation, or infinity
/// toward the winner, or zero for an evaluation-less draw.
pub open spec fn eval_target(s: crate::chess::SampleV) -> EvalTarget {
    match s.eval {
        Some(e) => EvalTarget::Centipawns(e),
        None => match s.outcome.winner_spec() {
            Some(c) => if c == s.position.side_to_move {
                EvalTarget::PlusInfinity
            } else {
                EvalTarget::MinusInfinity
            },
            None => EvalTarget::Centipawns(0),
        },
    }
}

/// The feature pairs of a position's first `n` squares in ascending
/// square order: for each piece, its feature index from the side to
/// move's perspective and from the opponent's.
pub open spec fn pairs_up_to(p: PositionV, n: int) -> Seq<(u32, u32)>
    decreases n,
{
    if n <= 0 {
        Seq::empty()
    } else {
        let rest = pairs_up_to(p, n - 1);
        match p.board[n - 1] {
            Some((c, k)) => rest.push(
                (
                    feature_spec(p.side_to_move, c, k, (n - 1) as u8),
                    feature_spec(p.side_to_move.opposite_spec(), c, k, (n - 1) as u8),
                ),
            ),
            None => rest,
        }
    }
}

/// The feature pairs of a position, one per piece, in ascending square
/// order.
pub open spec fn feature_pairs(p: PositionV) -> Seq<(u32, u32)> {
    pairs_up_to(p, 64)
}

/// A position yields exactly one feature pair per occupied square.
pub proof fn lemma_pairs_len(p: PositionV, n: int)
    requires
        0 <= n <= 64,
    ensures
        pairs_up_to(p, n).len() == p.count_up_to(n),
    decreases n,
{
    if n > 0 {
        lemma_pairs_len(p, n - 1);
    }
}

/// The coordinate list of example `e`: each pair's side-to-move feature
/// index tagged with the example index.
pub open spec fn tag_stm(e: u32, s: Seq<(u32, u32)>) -> Seq<(u32, u32)> {
    s.map_values(|pr: (u32, u32)| (e, pr.0))
}

/// The coordinate list of example `e`: each pair's opponent-perspective
/// feature index tagged with the example index.
pub open spec fn tag_non_stm(e: u32, s: Seq<(u32, u32)>) -> Seq<(u32, u32)> {
    s.map_values(|pr: (u32, u32)| (e, pr.1))
}

/// Tagging commutes with appending a pair.
pub proof fn lemma_tag_push(e: u32, s: Seq<(u32, u32)>, x: (u32, u32))
    ensures
        tag_stm(e, s.push(x)) == tag_stm(e, s).push((e, x.0)),
        tag_non_stm(e, s.push(x)) == tag_non_stm(e, s).push((e, x.1)),
{
    assert(tag_stm(e, s.push(x)) =~= tag_stm(e, s).push((e, x.0)));
    assert(tag_non_stm(e, s.push(x)) =~= tag_non_stm(e, s).push((e, x.1)));
}

/// A fixed-capacity batch of accumulated examples.
pub struct Batch {
    entries: usize,
    capacity: usize,
    total_features: usize,
    stm_features: Vec<u32>,
    non_stm_features: Vec<u32>,
    evals: Vec<EvalTarget>,
    outcomes: Vec<OutcomeTarget>,
}

/// The mathematical view of a [`Batch`]: its capacity, the per-example
/// targets, and the two coordinate lists of (example index, feature
/// index) pairs.
#[verifier::ext_equal]
pub ghost struct BatchV {
    pub capacity: int,
    pub targets: Seq<(OutcomeTarget, EvalTarget)>,
    pub pairs_stm: Seq<(u32, u32)>,
    pub pairs_non_stm: Seq<(u32, u32)>,
}

/// A batch's view after appending one sample: its targets gain the
/// sample's two targets, and each coordinate list gains the sample's
/// tagged feature indices.
pub open spec fn batch_add_spec(b: BatchV, s: crate::chess::SampleV) -> BatchV {
    BatchV {
        capacity: b.capacity,
        targets: b.targets.push((outcome_target(s), eval_target(s))),
        pairs_stm: b.pairs_stm + tag_stm(b.targets.len() as u32, feature_pairs(s.position)),
        pairs_non_stm: b.pairs_non_stm + tag_non_stm(
            b.targets.len() as u32,
            feature_pairs(s.position),
        ),
    }
}

impl View for Batch {
    type V = BatchV;

    closed spec fn view(&self) -> BatchV {
        BatchV {
            capacity: self.capacity as int,
            targets: Seq::new(
                self.entries as nat,
                |i: int| (self.outcomes@[i], self.evals@[i]),
            ),
            pairs_stm: Seq::new(
                self.total_features as nat,
                |i: int| (self.stm_features@[2 * i], self.stm_features@[2 * i + 1]),
            ),
            pairs_non_stm: Seq::new(
                self.total_features as nat,
                |i: int| (self.non_stm_features@[2 * i], self.non_stm_features@[2 * i + 1]),
            ),
        }
    }
}

impl Batch {
    /// The batch's internal arrays are consistent with its capacity and
    /// fill level.
    pub closed spec fn wf(&self) -> bool {
        &&& self.entries <= self.capacity
        &&& self.capacity <= 0xffff_ffff
        &&& 128 * (self.capacity as int) <= usize::MAX as int
        &&& self.total_features <= 64 * self.entries
        &&& self.stm_features@.len() == 128 * self.capacity
        &&& self.non_stm_features@.len() == 128 * self.capacity
        &&& self.evals@.len() == self.capacity
        &&& self.outcomes@.len() == self.capacity
    }

    /// A well-formed batch never holds more than its capacity of
    /// examples, nor more feature pairs than its pieces can yield.
    pub proof fn lemma_wf_bounds(&self)
        requires
            self.wf(),
        ensures
            self@.targets.len() <= self@.capacity,
            self@.pairs_stm.len() <= 64 * self@.targets.len(),
            self@.pairs_non_stm.len() == self@.pairs_stm.len(),
    {
    }

    /// An empty batch with arrays sized for `capacity` examples.
    pub fn new(capacity: usize) -> (r: Batch)
        requires
            capacity <= 0xffff_ffff,
            128 * (capacity as int) <= usize::MAX as int,
        ensures
            r.wf(),
            r@.capacity == capacity,
            r@.targets == Seq::<(OutcomeTarget, EvalTarget)>::empty(),
            r@.pairs_stm == Seq::<(u32, u32)>::empty(),
            r@.pairs_non_stm == Seq::<(u32, u32)>::empty(),
    {
        let r = Batch {
            entries: 0,
            capacity,
            total_features: 0,
            stm_features: vec![0u32; 128 * capacity],
            non_stm_features: vec![0u32; 128 * capacity],
            evals: vec![EvalTarget::Centipawns(0); capacity],
            outcomes: vec![OutcomeTarget::Draw; capacity],
        };
        proof {
            assert(r@.targets =~= Seq::<(OutcomeTarget, EvalTarget)>::empty());
            assert(r@.pairs_stm =~= Seq::<(u32, u32)>::empty());
            assert(r@.pairs_non_stm =~= Seq::<(u32, u32)>::empty());
        }
        r
    }

    /// Empties the batch for refilling; the arrays stay allocated.
    pub fn clear(&mut self)
        requires
            old(self).wf(),
        ensures
            final(self).wf(),
            final(self)@.capacity == old(self)@.capacity,
            final(self)@.targets == Seq::<(OutcomeTarget, EvalTarget)>::empty(),
            final(self)@.pairs_stm == Seq::<(u32, u32)>::empty(),
            final(self)@.pairs_non_stm == Seq::<(u32, u32)>::empty(),
    {
        self.entries = 0;
        self.total_features = 0;
        proof {
            assert(self@.targets =~= Seq::<(OutcomeTarget, EvalTarget)>::empty());
            assert(self@.pairs_stm =~= Seq::<(u32, u32)>::empty());
            assert(self@.pairs_non_stm =~= Seq::<(u32, u32)>::empty());
        }
    }

    /// Number of examples held.
    pub fn len(&self) -> (r: usize)
        ensures
            r == self@.targets.len(),
    {
        self.entries
    }

    /// Number of examples the batch was allocated for.
    pub fn capacity(&self) -> (r: usize)
        ensures
            r == self@.capacity,
    {
        self.capacity
    }

    /// Number of coordinate pairs held per perspective.
    pub fn total_features(&self) -> (r: usize)
        ensures
            r == self@.pairs_stm.len(),
            r == self@.pairs_non_stm.len(),
    {
        self.total_features
    }

    /// The two training targets of example `i`.
    pub fn target_at(&self, i: usize) -> (r: (OutcomeTarget, EvalTarget))
        requires
            self.wf(),
            i < self@.targets.len(),
        ensures
            r == self@.targets[i as int],
    {
        (self.outcomes[i], self.evals[i])
    }

    /// The side-to-move coordinate pair at position `i`: the example index
    /// and the feature index.
    pub fn stm_coordinate(&self, i: usize) -> (r: (u32, u32))
        requires
            self.wf(),
            i < self@.pairs_stm.len(),
        ensures
            r == self@.pairs_stm[i as int],
    {
        (self.stm_features[2 * i], self.stm_features[2 * i + 1])
    }

    /// The opponent-perspective coordinate pair at position `i`.
    pub fn non_stm_coordinate(&self, i: usize) -> (r: (u32, u32))
        requires
            self.wf(),
            i < self@.pairs_non_stm.len(),
        ensures
            r == self@.pairs_non_stm[i as int],
    {
        (self.non_stm_features[2 * i], self.non_stm_features[2 * i + 1])
    }

    /// Appends one example: its two targets, and one coordinate pair per
    /// piece for each perspective, tagged with the example's index.
    pub fn add(&mut self, sample: &Sample)
        requires
            old(self).wf(),
            old(self)@.targets.len() < old(self)@.capacity,
            sample@.position.wf(),
        ensures
            final(self).wf(),
            final(self)@ == batch_add_spec(old(self)@, sample@),
    {
        let index = self.entries;
        let eval_t = match sample.eval {
            Some(e) => EvalTarget::Centipawns(e),
            None => match sample.outcome.winner() {
                Some(c) => if c == sample.position.side_to_move {
                    EvalTarget::PlusInfinity
                } else {
                    EvalTarget::MinusInfinity
                },
                None => EvalTarget::Centipawns(0),
            },
        };
        let outcome_t = match sample.outcome.winner() {
            Some(c) => if c == sample.position.side_to_move {
                OutcomeTarget::Win
            } else {
                OutcomeTarget::Loss
            },
            None => OutcomeTarget::Draw,
        };
        self.evals[index] = eval_t;
        self.outcomes[index] = outcome_t;
        self.add_features(&sample.position);
        self.entries = self.entries + 1;
        proof {
            let ghost o = *old(self);
            assert(self@.targets =~= o@.targets.push(
                (outcome_target(sample@), eval_target(sample@)),
            ));
            assert(self@.pairs_stm =~= o@.pairs_stm + tag_stm(
                o@.targets.len() as u32,
                feature_pairs(sample@.position),
            ));
            assert(self@.pairs_non_stm =~= o@.pairs_non_stm + tag_non_stm(
                o@.targets.len() as u32,
                feature_pairs(sample@.position),
            ));
            assert(self@ =~= batch_add_spec(o@, sample@));
        }
    }

    /// Walks the board in ascending square order and appends each piece's
    /// pair of feature indices.
    fn add_features(&mut self, position: &Position)
        requires
            old(self).wf(),
            old(self).entries < old(self).capacity,
            position@.wf(),
        ensures
            final(self).entries == old(self).entries,
            final(self).capacity == old(self).capacity,
            final(self).evals == old(self).evals,
            final(self).outcomes == old(self).outcomes,
            final(self).wf_mid(),
            final(self).total_features as int == old(self).total_features + feature_pairs(
                position@,
            ).len(),
            final(self)@.pairs_stm == old(self)@.pairs_stm + tag_stm(
                old(self).entries as u32,
                feature_pairs(position@),
            ),
            final(self)@.pairs_non_stm == old(self)@.pairs_non_stm + tag_non_stm(
                old(self).entries as u32,
                feature_pairs(position@),
            ),
    {
        let ghost p = position@;
        let ghost s0 = *self;
        let ghost e0 = self.entries as u32;
        let stm_color = position.side_to_move;
        let mut sq: usize = 0;
        while sq < 64
            invariant
                sq <= 64,
                p == position@,
                position@.wf(),
                self.wf_mid(),
                self.entries == s0.entries,
                self.capacity == s0.capacity,
                self.evals == s0.evals,
                self.outcomes == s0.outcomes,
                self.entries < self.capacity,
                stm_color == p.side_to_move,
                e0 == s0.entries as u32,
                s0.total_features <= 64 * s0.entries,
                self.total_features as int == s0.total_features + pairs_up_to(p, sq as int).len(),
                self@.pairs_stm == s0@.pairs_stm + tag_stm(e0, pairs_up_to(p, sq as int)),
                self@.pairs_non_stm == s0@.pairs_non_stm + tag_non_stm(
                    e0,
                    pairs_up_to(p, sq as int),
                ),
            decreases 64 - sq,
        {
            proof {
                lemma_pairs_len(p, sq as int);
                crate::chess::lemma_count_up_to_bounds(p, sq as int, 64);
            }
            if let Some((color, piece)) = position.board[sq] {
                let f_stm = feature(stm_color, color, piece, sq as u8);
                let f_non = feature(stm_color.opposite(), color, piece, sq as u8);
                proof {
                    lemma_pairs_len(p, sq as int + 1);
                    crate::chess::lemma_count_up_to_bounds(p, sq as int + 1, 64);
                    crate::chess::lemma_count_up_to_bounds(p, 0, 64);
                }
                self.add_feature(f_stm, f_non);
                proof {
                    lemma_tag_push(e0, pairs_up_to(p, sq as int), (f_stm, f_non));
                    assert(self@.pairs_stm =~= s0@.pairs_stm + tag_stm(
                        e0,
                        pairs_up_to(p, sq as int + 1),
                    ));
                    assert(self@.pairs_non_stm =~= s0@.pairs_non_stm + tag_non_stm(
                        e0,
                        pairs_up_to(p, sq as int + 1),
                    ));
                }
            }
            sq += 1;
        }
        proof {
            lemma_pairs_len(p, 64);
            assert(tag_stm(e0, pairs_up_to(p, 64)) == tag_stm(
                old(self).entries as u32,
                feature_pairs(p),
            ));
        }
    }

    /// The invariant between examples, with the pair count bounded by the
    /// current example still being appended.
    spec fn wf_mid(&self) -> bool {
        &&& self.entries <= self.capacity
        &&& self.capacity <= 0xffff_ffff
        &&& 128 * (self.capacity as int) <= usize::MAX as int
        &&& self.total_features <= 64 * self.entries + 64
        &&& self.stm_features@.len() == 128 * self.capacity
        &&& self.non_stm_features@.len() == 128 * self.capacity
        &&& self.evals@.len() == self.capacity
        &&& self.outcomes@.len() == self.capacity
    }

    /// Appends one coordinate pair per perspective for the example being
    /// added.
    fn add_feature(&mut self, stm: u32, non_stm: u32)
        requires
            old(self).wf_mid(),
            old(self).entries < old(self).capacity,
            old(self).total_features < 64 * old(self).entries + 64,
        ensures
            final(self).wf_mid(),
            final(self).entries == old(self).entries,
            final(self).capacity == old(self).capacity,
            final(self).evals == old(self).evals,
            final(self).outcomes == old(self).outcomes,
            final(self).total_features == old(self).total_features + 1,
            final(self)@.pairs_stm == old(self)@.pairs_stm.push(
                (old(self).entries as u32, stm),
            ),
            final(self)@.pairs_non_stm == old(self)@.pairs_non_stm.push(
                (old(self).entries as u32, non_stm),
            ),
    {
        let index = 2 * self.total_features;
        self.stm_features[index] = self.entries as u32;
        self.non_stm_features[index] = self.entries as u32;
        self.stm_features[index + 1] = stm;
        self.non_stm_features[index + 1] = non_stm;
        self.total_features = self.total_features + 1;
        proof {
            assert(self@.pairs_stm =~= old(self)@.pairs_stm.push((old(self).entries as u32, stm)));
            assert(self@.pairs_non_stm =~= old(self)@.pairs_non_stm.push(
                (old(self).entries as u32, non_stm),
            ));
        }
    }
}

} // verus!
