//! Training data as bytes.
//!
//! Tensors are dense little-endian buffers, one value after the other. What can only be 0 or 1 (the
//! planes of a board, the mask of legal actions) is packed into bits, the smaller index at the
//! higher bit, each plane and each mask padded to whole bytes. Extents and ranges are checked
//! strictly: a game that does not fit is refused whole.

use vstd::prelude::*;

use crate::bits::{le32, le32s, push_f32, push_u32};
use crate::codec_error::{
    first_fault, too_large, u32_of, BoardShape, CodecError, Fault, Quantity,
};
use crate::episode::{GameEpisode, ResNetObservation, Sample};
use crate::features::{encode_nnue_features, features_fault, features_model, NnueFeatures};
use crate::frames::{board_fault, frame_bits, mask_fault, mask_flags, pack_board_frame, pack_mask};
use crate::records::{EpisodeModel, EpisodeRecord};
use crate::wire::contents;

verus! {

/// The extents that every sample of a game shares.
#[derive(Clone, Copy, Debug, PartialEq, Eq, Structural)]
pub struct Dims {
    pub shape: BoardShape,
    pub scalar_count: usize,
    pub action_space: usize,
}

/// How many squares a board has.
pub open spec fn squares(shape: BoardShape) -> int {
    shape.rows * shape.cols
}

/// A number, where memory could hold so many elements.
pub open spec fn fitting(n: int) -> Option<usize> {
    if n <= usize::MAX {
        Some(n as usize)
    } else {
        None
    }
}

/// The fault of a board tensor that has not three extents, all positive.
pub open spec fn shape_fault(obs: ResNetObservation, step: int) -> Option<Fault> {
    let s = obs.shape@;
    if s.len() != 3 || s[0] == 0 || s[1] == 0 || s[2] == 0 {
        Some(CodecError::BadShape { step: step as usize, extents: s })
    } else {
        None
    }
}

/// The extents of a board tensor.
pub open spec fn shape_in(obs: ResNetObservation) -> BoardShape {
    BoardShape { channels: obs.shape@[0], rows: obs.shape@[1], cols: obs.shape@[2] }
}

/// The extents that a sample sets.
pub open spec fn dims_of(s: Sample) -> Dims {
    Dims {
        shape: shape_in(s.obs),
        scalar_count: s.obs.scalars@.len() as usize,
        action_space: s.policy@.len() as usize,
    }
}

/// What is wrong with the extents of a sample, if anything.
pub open spec fn extent_fault(s: Sample, step: int, d: Dims) -> Option<Fault> {
    let at = step as usize;
    if shape_fault(s.obs, step) is Some {
        shape_fault(s.obs, step)
    } else if shape_in(s.obs) != d.shape {
        Some(
            CodecError::ShapeMismatch {
                step: at,
                shape: shape_in(s.obs),
                expected_shape: d.shape,
            },
        )
    } else if s.obs.scalars@.len() != d.scalar_count {
        Some(
            CodecError::ScalarMismatch {
                step: at,
                found: s.obs.scalars@.len() as usize,
                expected: d.scalar_count,
            },
        )
    } else if s.policy@.len() != d.action_space {
        Some(
            CodecError::PolicyMismatch {
                step: at,
                found: s.policy@.len() as usize,
                expected: d.action_space,
            },
        )
    } else if s.mask@.len() != d.action_space {
        Some(
            CodecError::MaskMismatch {
                step: at,
                found: s.mask@.len() as usize,
                expected: d.action_space,
            },
        )
    } else if s.obs.board@.len() != d.shape.channels * squares(d.shape) {
        Some(
            CodecError::BoardSize {
                step: at,
                found: s.obs.board@.len() as usize,
                implied: fitting(d.shape.channels * squares(d.shape)),
            },
        )
    } else {
        None
    }
}

/// What is wrong with a sample, if anything.
pub open spec fn step_fault(s: Sample, step: int, d: Dims) -> Option<Fault> {
    first_fault(
        extent_fault(s, step, d),
        first_fault(
            board_fault(s.obs.board@, step),
            first_fault(
                mask_fault(s.mask@, step),
                too_large(s.action, Quantity::ActionIndex),
            ),
        ),
    )
}

/// The first fault of the samples from `k` on.
pub open spec fn steps_fault(samples: Seq<Sample>, d: Dims, k: int) -> Option<Fault>
    decreases samples.len() - k,
{
    if k >= samples.len() {
        None
    } else {
        first_fault(step_fault(samples[k], k, d), steps_fault(samples, d, k + 1))
    }
}

/// The fault of the sparse features of a game.
pub open spec fn features_of_fault(ep: GameEpisode) -> Option<Fault> {
    match ep.nnue {
        Some((meta, feats)) => if feats@.len() != ep.samples@.len() {
            Some(
                CodecError::FeatureSteps {
                    found: feats@.len() as usize,
                    expected: ep.samples@.len() as usize,
                },
            )
        } else {
            features_fault(feats@, meta.feature_dim, 0)
        },
        None => None,
    }
}

/// The fault of the position snapshots of a game.
pub open spec fn positions_fault(ep: GameEpisode) -> Option<Fault> {
    match ep.positions {
        Some(list) => if list@.len() != ep.samples@.len() {
            Some(
                CodecError::PositionCount {
                    found: list@.len() as usize,
                    expected: ep.samples@.len() as usize,
                },
            )
        } else {
            None
        },
        None => None,
    }
}

/// The first of the numbers of a record that does not fit 32 bits.
pub open spec fn limits_fault(ep: GameEpisode, d: Dims) -> Option<Fault> {
    first_fault(
        too_large(ep.samples@.len() as usize, Quantity::Steps),
        first_fault(
            too_large(d.shape.channels, Quantity::BoardChannels),
            first_fault(
                too_large(d.shape.rows, Quantity::BoardRows),
                first_fault(
                    too_large(d.shape.cols, Quantity::BoardCols),
                    first_fault(
                        too_large(d.scalar_count, Quantity::ScalarCount),
                        first_fault(
                            too_large(d.action_space, Quantity::ActionSpace),
                            too_large(ep.game_length, Quantity::GameLength),
                        ),
                    ),
                ),
            ),
        ),
    )
}

/// Why a game that has samples cannot be encoded, if so.
pub open spec fn episode_fault(ep: GameEpisode) -> Option<Fault> {
    let first = ep.samples@[0];
    let d = dims_of(first);
    if shape_fault(first.obs, 0) is Some {
        shape_fault(first.obs, 0)
    } else if d.scalar_count == 0 || d.action_space == 0 {
        Some(
            CodecError::ZeroDimension {
                scalar_count: d.scalar_count,
                action_space: d.action_space,
            },
        )
    } else {
        first_fault(
            steps_fault(ep.samples@, d, 0),
            first_fault(
                features_of_fault(ep),
                first_fault(positions_fault(ep), limits_fault(ep, d)),
            ),
        )
    }
}

/// What every sample contributes, one after the other.
pub open spec fn column(samples: Seq<Sample>, part: spec_fn(Sample) -> Seq<u8>) -> Seq<u8>
    decreases samples.len(),
{
    if samples.len() == 0 {
        Seq::empty()
    } else {
        column(samples.drop_last(), part) + part(samples.last())
    }
}

/// The planes of a board in bits.
pub open spec fn board_part(shape: BoardShape) -> spec_fn(Sample) -> Seq<u8> {
    |s: Sample| frame_bits(s.obs.board@, shape.channels as int, squares(shape))
}

/// The scalars of an observation as words.
pub open spec fn scalar_part() -> spec_fn(Sample) -> Seq<u8> {
    |s: Sample| le32s(s.obs.scalars@)
}

/// A policy as words.
pub open spec fn policy_part() -> spec_fn(Sample) -> Seq<u8> {
    |s: Sample| le32s(s.policy@)
}

/// A mask in bits.
pub open spec fn mask_part() -> spec_fn(Sample) -> Seq<u8> {
    |s: Sample| crate::bits::pack_bits(mask_flags(s.mask@))
}

/// One of the numbers that a sample has as a word.
pub open spec fn word_part(of: spec_fn(Sample) -> u32) -> spec_fn(Sample) -> Seq<u8> {
    |s: Sample| le32(of(s))
}

pub open spec fn mcts_value_of() -> spec_fn(Sample) -> u32 {
    |s: Sample| s.mcts_value
}

pub open spec fn completed_q_of() -> spec_fn(Sample) -> u32 {
    |s: Sample| s.completed_q
}

pub open spec fn game_result_of() -> spec_fn(Sample) -> u32 {
    |s: Sample| s.game_result
}

pub open spec fn health_diff_of() -> spec_fn(Sample) -> u32 {
    |s: Sample| s.health_diff
}

pub open spec fn root_visits_of() -> spec_fn(Sample) -> u32 {
    |s: Sample| s.root_visits
}

pub open spec fn action_of() -> spec_fn(Sample) -> u32 {
    |s: Sample| s.action as u32
}

/// One byte that says whether the search was a full one.
pub open spec fn full_part() -> spec_fn(Sample) -> Seq<u8> {
    |s: Sample|
        seq![
            if s.is_full_search {
                1u8
            } else {
                0u8
            },
        ]
}

/// What the record of a game holds.
pub open spec fn model_of(ep: GameEpisode) -> EpisodeModel {
    let samples = ep.samples@;
    let d = dims_of(samples[0]);
    EpisodeModel {
        steps: samples.len() as u32,
        board_channels: d.shape.channels as u32,
        board_rows: d.shape.rows as u32,
        board_cols: d.shape.cols as u32,
        scalar_count: d.scalar_count as u32,
        action_space: d.action_space as u32,
        boards_bits: column(samples, board_part(d.shape)),
        scalars: column(samples, scalar_part()),
        policies: column(samples, policy_part()),
        action_masks_bits: column(samples, mask_part()),
        mcts_values: column(samples, word_part(mcts_value_of())),
        completed_qs: column(samples, word_part(completed_q_of())),
        game_results: column(samples, word_part(game_result_of())),
        health_diffs: column(samples, word_part(health_diff_of())),
        root_visits: column(samples, word_part(root_visits_of())),
        actions: column(samples, word_part(action_of())),
        is_full_search: column(samples, full_part()),
        game_length: ep.game_length as u32,
        winner: ep.winner,
        health_diff_red: ep.health_diff_red,
        nnue: match ep.nnue {
            Some((meta, feats)) => Some(features_model(meta, feats@)),
            None => None,
        },
        positions: match ep.positions {
            Some(list) => contents(list@),
            None => Seq::empty(),
        },
    }
}

proof fn lemma_column_push(samples: Seq<Sample>, s: Sample, part: spec_fn(Sample) -> Seq<u8>)
    ensures
        column(samples.push(s), part) == column(samples, part) + part(s),
{
    assert(samples.push(s).drop_last() =~= samples);
}

/// The columns of a record while its samples are walked.
struct Columns {
    boards_bits: Vec<u8>,
    scalars: Vec<u8>,
    policies: Vec<u8>,
    action_masks_bits: Vec<u8>,
    mcts_values: Vec<u8>,
    completed_qs: Vec<u8>,
    game_results: Vec<u8>,
    health_diffs: Vec<u8>,
    root_visits: Vec<u8>,
    actions: Vec<u8>,
    is_full_search: Vec<u8>,
}

impl Columns {
    spec fn holds(self, samples: Seq<Sample>, shape: BoardShape) -> bool {
        &&& self.boards_bits@ == column(samples, board_part(shape))
        &&& self.scalars@ == column(samples, scalar_part())
        &&& self.policies@ == column(samples, policy_part())
        &&& self.action_masks_bits@ == column(samples, mask_part())
        &&& self.mcts_values@ == column(samples, word_part(mcts_value_of()))
        &&& self.completed_qs@ == column(samples, word_part(completed_q_of()))
        &&& self.game_results@ == column(samples, word_part(game_result_of()))
        &&& self.health_diffs@ == column(samples, word_part(health_diff_of()))
        &&& self.root_visits@ == column(samples, word_part(root_visits_of()))
        &&& self.actions@ == column(samples, word_part(action_of()))
        &&& self.is_full_search@ == column(samples, full_part())
    }

    fn new() -> (res: Self)
        ensures
            forall|shape: BoardShape| #[trigger] res.holds(Seq::empty(), shape),
    {
        Columns {
            boards_bits: Vec::new(),
            scalars: Vec::new(),
            policies: Vec::new(),
            action_masks_bits: Vec::new(),
            mcts_values: Vec::new(),
            completed_qs: Vec::new(),
            game_results: Vec::new(),
            health_diffs: Vec::new(),
            root_visits: Vec::new(),
            actions: Vec::new(),
            is_full_search: Vec::new(),
        }
    }

    /// Appends what sample number `step` contributes.
    fn push_step(
        &mut self,
        s: &Sample,
        step: usize,
        d: Dims,
        Ghost(before): Ghost<Seq<Sample>>,
    ) -> (res: Result<(), CodecError>)
        requires
            old(self).holds(before, d.shape),
        ensures
            match step_fault(*s, step as int, d) {
                Some(e) => res is Err && res->Err_0@ == e,
                None => res is Ok && final(self).holds(before.push(*s), d.shape),
            },
    {
        let positions: usize = match check_extents(s, step, d) {
            Ok(positions) => positions,
            Err(e) => {
                return Err(e);
            },
        };
        let board = match pack_board_frame(&s.obs.board, d.shape.channels, positions, step) {
            Ok(board) => board,
            Err(e) => {
                return Err(e);
            },
        };
        let mask = match pack_mask(&s.mask, step) {
            Ok(mask) => mask,
            Err(e) => {
                return Err(e);
            },
        };
        let action: u32 = match u32_of(s.action, Quantity::ActionIndex) {
            Ok(action) => action,
            Err(e) => {
                return Err(e);
            },
        };
        self.append_step(s, board, mask, action, Ghost(before), Ghost(d.shape));
        Ok(())
    }

    /// Appends a sample whose board, mask and action are already encoded.
    fn append_step(
        &mut self,
        s: &Sample,
        board: Vec<u8>,
        mask: Vec<u8>,
        action: u32,
        Ghost(before): Ghost<Seq<Sample>>,
        Ghost(shape): Ghost<BoardShape>,
    )
        requires
            old(self).holds(before, shape),
            board@ == board_part(shape)(*s),
            mask@ == mask_part()(*s),
            action == action_of()(*s),
        ensures
            final(self).holds(before.push(*s), shape),
    {
        let mut board = board;
        let mut mask = mask;
        self.boards_bits.append(&mut board);
        push_f32(&mut self.scalars, &s.obs.scalars);
        push_f32(&mut self.policies, &s.policy);
        self.action_masks_bits.append(&mut mask);
        push_u32(&mut self.mcts_values, s.mcts_value);
        push_u32(&mut self.completed_qs, s.completed_q);
        push_u32(&mut self.game_results, s.game_result);
        push_u32(&mut self.health_diffs, s.health_diff);
        push_u32(&mut self.root_visits, s.root_visits);
        push_u32(&mut self.actions, action);
        self.is_full_search.push(
            if s.is_full_search {
                1
            } else {
                0
            },
        );
        proof {
            lemma_column_push(before, *s, board_part(shape));
            lemma_column_push(before, *s, scalar_part());
            lemma_column_push(before, *s, policy_part());
            lemma_column_push(before, *s, mask_part());
            lemma_column_push(before, *s, word_part(mcts_value_of()));
            lemma_column_push(before, *s, word_part(completed_q_of()));
            lemma_column_push(before, *s, word_part(game_result_of()));
            lemma_column_push(before, *s, word_part(health_diff_of()));
            lemma_column_push(before, *s, word_part(root_visits_of()));
            lemma_column_push(before, *s, word_part(action_of()));
            lemma_column_push(before, *s, full_part());
            assert(self.is_full_search@ =~= old(self).is_full_search@ + full_part()(*s));
        }
    }
}

/// A list of extents, once more.
fn copied(extents: &Vec<usize>) -> (res: Vec<usize>)
    ensures
        res@ == extents@,
{
    let mut res: Vec<usize> = Vec::new();
    for x in it: extents.iter()
        invariant
            it.seq().len() == extents@.len(),
            res@ == extents@.take(it.index()),
            forall|i: int| 0 <= i < extents@.len() ==> *it.seq()[i] == extents@[i],
    {
        res.push(*x);
        assert(extents@.take(it.index() + 1) =~= extents@.take(it.index()).push(
            extents@[it.index()],
        ));
    }
    assert(extents@.take(extents@.len() as int) =~= extents@);
    res
}

/// The extents of the board of sample number `step`.
pub fn shape_of(obs: &ResNetObservation, step: usize) -> (res: Result<BoardShape, CodecError>)
    ensures
        match shape_fault(*obs, step as int) {
            Some(e) => res is Err && res->Err_0@ == e,
            None => res == Ok::<BoardShape, CodecError>(shape_in(*obs)),
        },
{
    if obs.shape.len() != 3 || obs.shape[0] == 0 || obs.shape[1] == 0 || obs.shape[2] == 0 {
        Err(CodecError::BadShape { step, extents: copied(&obs.shape) })
    } else {
        Ok(BoardShape { channels: obs.shape[0], rows: obs.shape[1], cols: obs.shape[2] })
    }
}

/// Checks the extents of a sample, and gives the number of squares of its board.
fn check_extents(s: &Sample, step: usize, d: Dims) -> (res: Result<usize, CodecError>)
    ensures
        match extent_fault(*s, step as int, d) {
            Some(e) => res is Err && res->Err_0@ == e,
            None => res is Ok && res->Ok_0 == squares(d.shape),
        },
{
    let shape = match shape_of(&s.obs, step) {
        Ok(shape) => shape,
        Err(e) => {
            return Err(e);
        },
    };
    if shape != d.shape {
        return Err(CodecError::ShapeMismatch { step, shape, expected_shape: d.shape });
    }
    let scalars: usize = s.obs.scalars.len();
    if scalars != d.scalar_count {
        return Err(
            CodecError::ScalarMismatch { step, found: scalars, expected: d.scalar_count },
        );
    }
    let policy: usize = s.policy.len();
    if policy != d.action_space {
        return Err(CodecError::PolicyMismatch { step, found: policy, expected: d.action_space });
    }
    let mask: usize = s.mask.len();
    if mask != d.action_space {
        return Err(CodecError::MaskMismatch { step, found: mask, expected: d.action_space });
    }
    let found: usize = s.obs.board.len();
    let positions: usize = match d.shape.rows.checked_mul(d.shape.cols) {
        Some(positions) => positions,
        None => {
            proof {
                assert(d.shape.channels * squares(d.shape) >= squares(d.shape)) by (nonlinear_arith)
                    requires
                        d.shape.channels >= 1,
                        squares(d.shape) >= 0,
                ;
            }
            return Err(CodecError::BoardSize { step, found, implied: None });
        },
    };
    match d.shape.channels.checked_mul(positions) {
        Some(expected) => if found != expected {
            Err(CodecError::BoardSize { step, found, implied: Some(expected) })
        } else {
            Ok(positions)
        },
        None => Err(CodecError::BoardSize { step, found, implied: None }),
    }
}

/// Checks and encodes the sparse features of a game.
fn features_record(ep: &GameEpisode) -> (res: Result<Option<NnueFeatures>, CodecError>)
    ensures
        match features_of_fault(*ep) {
            Some(e) => res is Err && res->Err_0@ == e,
            None => match ep.nnue {
                Some((meta, feats)) => res is Ok && res->Ok_0 is Some && res->Ok_0->Some_0@
                    == features_model(meta, feats@),
                None => res == Ok::<Option<NnueFeatures>, CodecError>(None),
            },
        },
{
    let steps: usize = ep.samples.len();
    match &ep.nnue {
        Some((meta, feats)) => {
            let found: usize = feats.len();
            if found != steps {
                return Err(CodecError::FeatureSteps { found, expected: steps });
            }
            match encode_nnue_features(meta, feats) {
                Ok(features) => Ok(Some(features)),
                Err(e) => Err(e),
            }
        },
        None => Ok(None),
    }
}

/// Checks and copies the position snapshots of a game.
fn positions_record(ep: &GameEpisode) -> (res: Result<Vec<Vec<u8>>, CodecError>)
    ensures
        match positions_fault(*ep) {
            Some(e) => res is Err && res->Err_0@ == e,
            None => res is Ok && contents(res->Ok_0@) == match ep.positions {
                Some(list) => contents(list@),
                None => Seq::<Seq<u8>>::empty(),
            },
        },
{
    let steps: usize = ep.samples.len();
    match &ep.positions {
        Some(list) => {
            let found: usize = list.len();
            if found != steps {
                return Err(CodecError::PositionCount { found, expected: steps });
            }
            let mut out: Vec<Vec<u8>> = Vec::new();
            let mut i: usize = 0;
            while i < found
                invariant
                    i <= found,
                    found == list@.len(),
                    out@.len() == i,
                    forall|k: int| 0 <= k < i ==> #[trigger] out@[k]@ == list@[k]@,
                decreases found - i,
            {
                let mut copy: Vec<u8> = Vec::new();
                copy.extend_from_slice(list[i].as_slice());
                assert(copy@ =~= list@[i as int]@);
                out.push(copy);
                i += 1;
            }
            assert(contents(out@) =~= contents(list@));
            Ok(out)
        },
        None => {
            let out: Vec<Vec<u8>> = Vec::new();
            assert(contents(out@) =~= Seq::<Seq<u8>>::empty());
            Ok(out)
        },
    }
}

/// Builds the record of a game from its columns.
fn finish_record(
    ep: &GameEpisode,
    d: Dims,
    columns: Columns,
    nnue: Option<NnueFeatures>,
    positions: Vec<Vec<u8>>,
) -> (res: Result<EpisodeRecord, CodecError>)
    requires
        ep.samples@.len() > 0,
        d == dims_of(ep.samples@[0]),
        columns.holds(ep.samples@, d.shape),
        match ep.nnue {
            Some((meta, feats)) => nnue is Some && nnue->Some_0@ == features_model(meta, feats@),
            None => nnue is None,
        },
        contents(positions@) == match ep.positions {
            Some(list) => contents(list@),
            None => Seq::<Seq<u8>>::empty(),
        },
    ensures
        match limits_fault(*ep, d) {
            Some(e) => res is Err && res->Err_0@ == e,
            None => res is Ok && res->Ok_0@ == model_of(*ep),
        },
        res matches Ok(rec) ==> {
            &&& rec.winner == ep.winner
            &&& rec.health_diff_red == ep.health_diff_red
            &&& rec.game_length == ep.game_length
            &&& rec.steps == ep.samples@.len()
            &&& rec.nnue is Some <==> ep.nnue is Some
            &&& rec.positions@.len() == match ep.positions {
                Some(list) => list@.len(),
                None => 0,
            }
        },
{
    assert(contents(positions@).len() == positions@.len());
    let steps: u32 = match u32_of(ep.samples.len(), Quantity::Steps) {
        Ok(v) => v,
        Err(e) => {
            return Err(e);
        },
    };
    let board_channels: u32 = match u32_of(d.shape.channels, Quantity::BoardChannels) {
        Ok(v) => v,
        Err(e) => {
            return Err(e);
        },
    };
    let board_rows: u32 = match u32_of(d.shape.rows, Quantity::BoardRows) {
        Ok(v) => v,
        Err(e) => {
            return Err(e);
        },
    };
    let board_cols: u32 = match u32_of(d.shape.cols, Quantity::BoardCols) {
        Ok(v) => v,
        Err(e) => {
            return Err(e);
        },
    };
    let scalar_count: u32 = match u32_of(d.scalar_count, Quantity::ScalarCount) {
        Ok(v) => v,
        Err(e) => {
            return Err(e);
        },
    };
    let action_space: u32 = match u32_of(d.action_space, Quantity::ActionSpace) {
        Ok(v) => v,
        Err(e) => {
            return Err(e);
        },
    };
    let game_length: u32 = match u32_of(ep.game_length, Quantity::GameLength) {
        Ok(v) => v,
        Err(e) => {
            return Err(e);
        },
    };
    Ok(
        EpisodeRecord {
            steps,
            board_channels,
            board_rows,
            board_cols,
            scalar_count,
            action_space,
            boards_bits: columns.boards_bits,
            scalars: columns.scalars,
            policies: columns.policies,
            action_masks_bits: columns.action_masks_bits,
            mcts_values: columns.mcts_values,
            completed_qs: columns.completed_qs,
            game_results: columns.game_results,
            health_diffs: columns.health_diffs,
            root_visits: columns.root_visits,
            actions: columns.actions,
            is_full_search: columns.is_full_search,
            game_length,
            winner: ep.winner,
            health_diff_red: ep.health_diff_red,
            nnue,
            positions,
        },
    )
}

/// Encodes a game. A game without samples has no record; a game that does not fit the layout is an
/// error.
pub fn encode_episode(ep: &GameEpisode) -> (res: Result<Option<EpisodeRecord>, CodecError>)
    ensures
        if ep.samples@.len() == 0 {
            res == Ok::<Option<EpisodeRecord>, CodecError>(None)
        } else {
            match episode_fault(*ep) {
                Some(e) => res is Err && res->Err_0@ == e,
                None => res is Ok && res->Ok_0 is Some && res->Ok_0->Some_0@ == model_of(*ep),
            }
        },
        res matches Ok(Some(rec)) ==> {
            &&& rec.winner == ep.winner
            &&& rec.health_diff_red == ep.health_diff_red
            &&& rec.game_length == ep.game_length
            &&& rec.steps == ep.samples@.len()
            &&& rec.nnue is Some <==> ep.nnue is Some
            &&& rec.positions@.len() == match ep.positions {
                Some(list) => list@.len(),
                None => 0,
            }
        },
{
    let steps: usize = ep.samples.len();
    if steps == 0 {
        return Ok(None);
    }
    let shape = match shape_of(&ep.samples[0].obs, 0) {
        Ok(shape) => shape,
        Err(e) => {
            return Err(e);
        },
    };
    let scalar_count: usize = ep.samples[0].obs.scalars.len();
    let action_space: usize = ep.samples[0].policy.len();
    if scalar_count == 0 || action_space == 0 {
        return Err(CodecError::ZeroDimension { scalar_count, action_space });
    }
    let d = Dims { shape, scalar_count, action_space };
    let mut columns = Columns::new();
    let mut step: usize = 0;
    assert(ep.samples@.take(0) =~= Seq::empty());
    while step < steps
        invariant
            step <= steps,
            steps == ep.samples@.len(),
            steps_fault(ep.samples@, d, 0) == steps_fault(ep.samples@, d, step as int),
            columns.holds(ep.samples@.take(step as int), d.shape),
            episode_fault(*ep) == first_fault(
                steps_fault(ep.samples@, d, 0),
                first_fault(
                    features_of_fault(*ep),
                    first_fault(positions_fault(*ep), limits_fault(*ep, d)),
                ),
            ),
        decreases steps - step,
    {
        match columns.push_step(
            &ep.samples[step],
            step,
            d,
            Ghost(ep.samples@.take(step as int)),
        ) {
            Ok(_) => {},
            Err(e) => {
                return Err(e);
            },
        }
        assert(ep.samples@.take(step as int).push(ep.samples@[step as int]) =~= ep.samples@.take(
            step + 1,
        ));
        step += 1;
    }
    assert(ep.samples@.take(steps as int) =~= ep.samples@);
    let nnue = match features_record(ep) {
        Ok(nnue) => nnue,
        Err(e) => {
            return Err(e);
        },
    };
    let positions = match positions_record(ep) {
        Ok(positions) => positions,
        Err(e) => {
            return Err(e);
        },
    };
    match finish_record(ep, d, columns, nnue, positions) {
        Ok(rec) => Ok(Some(rec)),
        Err(e) => Err(e),
    }
}

} // verus!
