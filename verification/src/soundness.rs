//! Which games can be encoded, and what the reasons say of those that cannot.

use vstd::prelude::*;

use crate::batch::{
    batch_fault, first_bad_episode, first_bad_nnue_episode, with_samples, with_steps, BatchError,
};
use crate::codec::{
    dims_of, episode_fault, extent_fault, features_of_fault, limits_fault, positions_fault,
    shape_fault, squares, step_fault, steps_fault, Dims,
};
use crate::codec_error::{CodecError, Fault, FeatureSide};
use crate::episode::{F32Bits, GameEpisode, NnueEpisode, NnueStepFeatures, Sample};
use crate::features::{
    features_fault, first_bad_index, lemma_total_monotone, list_at, list_fault, total,
};
use crate::frames::{board_fault, first_bad_element, first_bad_entry, mask_fault};
use crate::nnue_codec::{lengths_fault, nnue_episode_fault, plies_fault, ply_fault};

verus! {

/// A board is refused exactly where one of its elements is neither 0 nor 1, and the reason names the
/// first of these.
pub proof fn law_board_faults(board: Seq<F32Bits>, k: int)
    requires
        0 <= k,
    ensures
        first_bad_element(board, k) is None <==> forall|i: int|
            k <= i < board.len() ==> {
                let b = #[trigger] board[i];
                b == 0 || b == 0x8000_0000 || b == 0x3f80_0000
            },
        first_bad_element(board, k) matches Some(j) ==> {
            &&& k <= j < board.len()
            &&& board[j] != 0 && board[j] != 0x8000_0000 && board[j] != 0x3f80_0000
            &&& forall|i: int|
                k <= i < j ==> {
                    let b = #[trigger] board[i];
                    b == 0 || b == 0x8000_0000 || b == 0x3f80_0000
                }
        },
    decreases board.len() - k,
{
    if k < board.len() {
        law_board_faults(board, k + 1);
        let b = board[k];
    }
}

/// A mask is refused exactly where one of its entries is neither 0 nor 1, and the reason names the
/// first of these.
pub proof fn law_mask_faults(mask: Seq<i32>, k: int)
    requires
        0 <= k,
    ensures
        first_bad_entry(mask, k) is None <==> forall|i: int|
            k <= i < mask.len() ==> {
                let e = #[trigger] mask[i];
                e == 0 || e == 1
            },
        first_bad_entry(mask, k) matches Some(j) ==> {
            &&& k <= j < mask.len()
            &&& mask[j] != 0 && mask[j] != 1
            &&& forall|i: int|
                k <= i < j ==> {
                    let e = #[trigger] mask[i];
                    e == 0 || e == 1
                }
        },
    decreases mask.len() - k,
{
    if k < mask.len() {
        law_mask_faults(mask, k + 1);
        let e = mask[k];
    }
}

/// A sample fits exactly where its board has the extents of the game and as many elements as these
/// say, its lists are as long as those of the game, board and mask hold zeros and ones only, and its
/// action fits 32 bits.
pub proof fn law_fitting_samples(s: Sample, step: int, d: Dims)
    ensures
        step_fault(s, step, d) is None <==> {
            &&& s.obs.shape@.len() == 3
            &&& s.obs.shape@[0] == d.shape.channels && d.shape.channels > 0
            &&& s.obs.shape@[1] == d.shape.rows && d.shape.rows > 0
            &&& s.obs.shape@[2] == d.shape.cols && d.shape.cols > 0
            &&& s.obs.scalars@.len() == d.scalar_count
            &&& s.policy@.len() == d.action_space
            &&& s.mask@.len() == d.action_space
            &&& s.obs.board@.len() == d.shape.channels * (d.shape.rows * d.shape.cols)
            &&& forall|i: int|
                0 <= i < s.obs.board@.len() ==> {
                    let b = #[trigger] s.obs.board@[i];
                    b == 0 || b == 0x8000_0000 || b == 0x3f80_0000
                }
            &&& forall|i: int|
                0 <= i < s.mask@.len() ==> {
                    let e = #[trigger] s.mask@[i];
                    e == 0 || e == 1
                }
            &&& s.action <= u32::MAX
        },
{
    law_board_faults(s.obs.board@, 0);
    law_mask_faults(s.mask@, 0);
}

/// What is wrong with a sample is what the reason says, and nothing that is looked at earlier is
/// wrong; the reason names the step.
pub proof fn law_sample_reasons_are_true(s: Sample, step: int, d: Dims)
    requires
        0 <= step <= usize::MAX,
    ensures
        match step_fault(s, step, d) {
            Some(CodecError::BadShape { step: at, extents }) => {
                &&& at == step
                &&& extents == s.obs.shape@
                &&& extents.len() != 3 || extents[0] == 0 || extents[1] == 0 || extents[2] == 0
            },
            Some(CodecError::ShapeMismatch { step: at, shape, expected_shape }) => {
                &&& at == step
                &&& s.obs.shape@ == seq![shape.channels, shape.rows, shape.cols]
                &&& expected_shape == d.shape
                &&& shape != expected_shape
            },
            Some(CodecError::ScalarMismatch { step: at, found, expected }) => {
                &&& at == step
                &&& found == s.obs.scalars@.len()
                &&& expected == d.scalar_count
                &&& found != expected
                &&& s.obs.shape@ == seq![d.shape.channels, d.shape.rows, d.shape.cols]
            },
            Some(CodecError::PolicyMismatch { step: at, found, expected }) => {
                &&& at == step
                &&& found == s.policy@.len()
                &&& expected == d.action_space
                &&& found != expected
                &&& s.obs.shape@ == seq![d.shape.channels, d.shape.rows, d.shape.cols]
                &&& s.obs.scalars@.len() == d.scalar_count
            },
            Some(CodecError::MaskMismatch { step: at, found, expected }) => {
                &&& at == step
                &&& found == s.mask@.len()
                &&& expected == d.action_space
                &&& found != expected
                &&& s.obs.shape@ == seq![d.shape.channels, d.shape.rows, d.shape.cols]
                &&& s.obs.scalars@.len() == d.scalar_count
                &&& s.policy@.len() == d.action_space
            },
            Some(CodecError::BoardSize { step: at, found, implied }) => {
                &&& at == step
                &&& found == s.obs.board@.len()
                &&& found != d.shape.channels * (d.shape.rows * d.shape.cols)
                &&& implied matches Some(n) ==> n == d.shape.channels * (d.shape.rows
                    * d.shape.cols)
                &&& implied is None ==> d.shape.channels * (d.shape.rows * d.shape.cols)
                    > usize::MAX
                &&& s.obs.shape@ == seq![d.shape.channels, d.shape.rows, d.shape.cols]
                &&& s.obs.scalars@.len() == d.scalar_count
                &&& s.policy@.len() == d.action_space
                &&& s.mask@.len() == d.action_space
            },
            Some(CodecError::BoardNotBinary { step: at, index, bits }) => {
                &&& at == step
                &&& index < s.obs.board@.len()
                &&& bits == s.obs.board@[index as int]
                &&& bits != 0 && bits != 0x8000_0000 && bits != 0x3f80_0000
                &&& forall|i: int|
                    0 <= i < index ==> {
                        let b = #[trigger] s.obs.board@[i];
                        b == 0 || b == 0x8000_0000 || b == 0x3f80_0000
                    }
                &&& extent_fault(s, step, d) is None
            },
            Some(CodecError::MaskNotBinary { step: at, index, entry }) => {
                &&& at == step
                &&& index < s.mask@.len()
                &&& entry == s.mask@[index as int]
                &&& entry != 0 && entry != 1
                &&& forall|i: int|
                    0 <= i < index ==> {
                        let e = #[trigger] s.mask@[i];
                        e == 0 || e == 1
                    }
                &&& extent_fault(s, step, d) is None
                &&& board_fault(s.obs.board@, step) is None
            },
            Some(CodecError::TooLarge { what, value }) => {
                &&& what is ActionIndex
                &&& value == s.action
                &&& value > u32::MAX
                &&& extent_fault(s, step, d) is None
                &&& board_fault(s.obs.board@, step) is None
                &&& mask_fault(s.mask@, step) is None
            },
            Some(_) => false,
            None => true,
        },
{
    law_board_faults(s.obs.board@, 0);
    law_mask_faults(s.mask@, 0);
    assert(s.obs.scalars.len() == s.obs.scalars@.len());
    assert(s.policy.len() == s.policy@.len());
    assert(s.mask.len() == s.mask@.len());
    assert(s.obs.board.len() == s.obs.board@.len());
    if s.obs.shape@.len() == 3 {
        assert(s.obs.shape@ =~= seq![s.obs.shape@[0], s.obs.shape@[1], s.obs.shape@[2]]);
    }
}

/// All samples fit exactly where each does; otherwise the reason is that of the first one that does
/// not.
pub proof fn law_first_unfitting_sample(samples: Seq<Sample>, d: Dims, k: int)
    requires
        0 <= k,
    ensures
        steps_fault(samples, d, k) is None <==> forall|j: int|
            k <= j < samples.len() ==> step_fault(#[trigger] samples[j], j, d) is None,
        steps_fault(samples, d, k) matches Some(e) ==> exists|j: int|
            #![trigger samples[j]]
            k <= j < samples.len() && step_fault(samples[j], j, d) == Some(e) && forall|i: int|
                k <= i < j ==> step_fault(#[trigger] samples[i], i, d) is None,
    decreases samples.len() - k,
{
    if k < samples.len() {
        law_first_unfitting_sample(samples, d, k + 1);
        let here = samples[k];
        if step_fault(here, k, d) is None {
            if let Some(e) = steps_fault(samples, d, k + 1) {
                let j = choose|j: int|
                    #![trigger samples[j]]
                    k + 1 <= j < samples.len() && step_fault(samples[j], j, d) == Some(e) && forall|
                        i: int,
                    |
                        k + 1 <= i < j ==> step_fault(#[trigger] samples[i], i, d) is None;
                assert(k <= j < samples.len() && step_fault(samples[j], j, d) == Some(e));
            }
        }
    }
}

/// A list of features is refused exactly where one of its indices is not below the size of the
/// feature space, and the reason names the first of these.
pub proof fn law_index_faults(list: Seq<u16>, dim: usize, k: int)
    requires
        0 <= k,
    ensures
        first_bad_index(list, dim, k) is None <==> forall|i: int|
            k <= i < list.len() ==> #[trigger] list[i] < dim,
        first_bad_index(list, dim, k) matches Some(j) ==> k <= j < list.len() && list[j] >= dim
            && forall|i: int| k <= i < j ==> #[trigger] list[i] < dim,
    decreases list.len() - k,
{
    if k < list.len() {
        law_index_faults(list, dim, k + 1);
        let x = list[k];
    }
}

proof fn lemma_list_fits(feats: Seq<NnueStepFeatures>, dim: usize, k: int)
    requires
        0 <= k < 2 * feats.len(),
    ensures
        list_fault(feats, dim, k) is None <==> {
            &&& forall|i: int| 0 <= i < list_at(feats, k).len() ==> #[trigger] list_at(feats, k)[i] < dim
            &&& total(feats, k + 1) <= u32::MAX
        },
{
    law_index_faults(list_at(feats, k), dim, 0);
    lemma_total_monotone(feats, 0, k);
}

proof fn lemma_lists_fit(feats: Seq<NnueStepFeatures>, dim: usize, k: int)
    requires
        0 <= k,
    ensures
        features_fault(feats, dim, k) is None <==> forall|j: int|
            k <= j < 2 * feats.len() ==> #[trigger] list_fault(feats, dim, j) is None,
        features_fault(feats, dim, k) matches Some(e) ==> exists|j: int|
            k <= j < 2 * feats.len() && #[trigger] list_fault(feats, dim, j) == Some(e) && forall|
                i: int,
            |
                k <= i < j ==> #[trigger] list_fault(feats, dim, i) is None,
    decreases 2 * feats.len() - k,
{
    if k < 2 * feats.len() {
        lemma_lists_fit(feats, dim, k + 1);
        let here = list_fault(feats, dim, k);
        if here is None {
            if let Some(e) = features_fault(feats, dim, k + 1) {
                let j = choose|j: int|
                    k + 1 <= j < 2 * feats.len() && #[trigger] list_fault(feats, dim, j) == Some(e)
                        && forall|i: int|
                        k + 1 <= i < j ==> #[trigger] list_fault(feats, dim, i) is None;
                assert(list_fault(feats, dim, j) == Some(e));
            }
        } else {
            assert(list_fault(feats, dim, k) == here);
        }
    }
}

/// Sparse features fit exactly where every index of either side is below the size of the feature
/// space, and 32 bits can count them all.
pub proof fn law_fitting_features(feats: Seq<NnueStepFeatures>, dim: usize)
    ensures
        features_fault(feats, dim, 0) is None <==> {
            &&& forall|s: int, i: int|
                #![trigger feats[s].mover@[i]]
                0 <= s < feats.len() && 0 <= i < feats[s].mover@.len() ==> feats[s].mover@[i] < dim
            &&& forall|s: int, i: int|
                #![trigger feats[s].opponent@[i]]
                0 <= s < feats.len() && 0 <= i < feats[s].opponent@.len()
                    ==> feats[s].opponent@[i] < dim
            &&& total(feats, 2 * feats.len() as int) <= u32::MAX
        },
{
    let n = 2 * feats.len() as int;
    lemma_lists_fit(feats, dim, 0);
    assert forall|k: int| 0 <= k < n implies (#[trigger] list_fault(feats, dim, k) is None <==> {
        &&& forall|i: int| 0 <= i < list_at(feats, k).len() ==> #[trigger] list_at(feats, k)[i] < dim
        &&& total(feats, k + 1) <= u32::MAX
    }) by {
        lemma_list_fits(feats, dim, k);
    }
    if features_fault(feats, dim, 0) is None {
        assert forall|s: int, i: int|
            #![trigger feats[s].mover@[i]]
            0 <= s < feats.len() && 0 <= i < feats[s].mover@.len() implies feats[s].mover@[i]
            < dim by {
            assert(list_fault(feats, dim, 2 * s) is None);
            assert(list_at(feats, 2 * s)[i] < dim);
        }
        assert forall|s: int, i: int|
            #![trigger feats[s].opponent@[i]]
            0 <= s < feats.len() && 0 <= i < feats[s].opponent@.len() implies feats[s].opponent@[i]
            < dim by {
            assert(list_fault(feats, dim, 2 * s + 1) is None);
            assert(list_at(feats, 2 * s + 1)[i] < dim);
        }
        if n > 0 {
            assert(list_fault(feats, dim, n - 1) is None);
        }
    }
    if {
        &&& forall|s: int, i: int|
            #![trigger feats[s].mover@[i]]
            0 <= s < feats.len() && 0 <= i < feats[s].mover@.len() ==> feats[s].mover@[i] < dim
        &&& forall|s: int, i: int|
            #![trigger feats[s].opponent@[i]]
            0 <= s < feats.len() && 0 <= i < feats[s].opponent@.len() ==> feats[s].opponent@[i]
                < dim
        &&& total(feats, n) <= u32::MAX
    } {
        assert forall|k: int| 0 <= k < n implies #[trigger] list_fault(feats, dim, k) is None by {
            lemma_total_monotone(feats, k + 1, n);
            assert forall|i: int| 0 <= i < list_at(feats, k).len() implies #[trigger] list_at(
                feats,
                k,
            )[i] < dim by {
                if k % 2 == 0 {
                    assert(feats[k / 2].mover@[i] < dim);
                } else {
                    assert(feats[k / 2].opponent@[i] < dim);
                }
            }
        }
    }
}

/// What is wrong with sparse features is what the reason says: an index that is not below the size of
/// the feature space, in a list of that side and step, or more indices than 32 bits can count.
pub proof fn law_feature_reasons_are_true(feats: Seq<NnueStepFeatures>, dim: usize)
    requires
        feats.len() <= usize::MAX,
    ensures
        match features_fault(feats, dim, 0) {
            Some(CodecError::FeatureIndex { side, step, feature, feature_dim }) => {
                &&& step < feats.len()
                &&& feature_dim == dim
                &&& feature >= dim
                &&& if side is Mover {
                    exists|i: int|
                        0 <= i < feats[step as int].mover@.len()
                            && #[trigger] feats[step as int].mover@[i] == feature && forall|j: int|
                            0 <= j < i ==> #[trigger] feats[step as int].mover@[j] < dim
                } else {
                    exists|i: int|
                        0 <= i < feats[step as int].opponent@.len()
                            && #[trigger] feats[step as int].opponent@[i] == feature && forall|
                            j: int,
                        |
                            0 <= j < i ==> #[trigger] feats[step as int].opponent@[j] < dim
                }
                &&& forall|k: int|
                    0 <= k < 2 * step + if side is Mover {
                        0int
                    } else {
                        1
                    } ==> #[trigger] list_fault(feats, dim, k) is None
            },
            Some(CodecError::TooLarge { what, value }) => what is FeatureCount && value > u32::MAX,
            Some(CodecError::FeatureOffset { side, step }) => {
                &&& step < feats.len()
                &&& total(
                    feats,
                    2 * step + if side is Mover {
                        1int
                    } else {
                        2
                    },
                ) > u32::MAX
            },
            Some(_) => false,
            None => true,
        },
{
    lemma_lists_fit(feats, dim, 0);
    if let Some(e) = features_fault(feats, dim, 0) {
        let k = choose|k: int|
            0 <= k < 2 * feats.len() && #[trigger] list_fault(feats, dim, k) == Some(e) && forall|
                i: int,
            |
                0 <= i < k ==> #[trigger] list_fault(feats, dim, i) is None;
        let list = list_at(feats, k);
        law_index_faults(list, dim, 0);
        if let Some(i) = first_bad_index(list, dim, 0) {
            let at = (k / 2) as usize;
            assert(at == k / 2);
            if k % 2 == 0 {
                assert(list == feats[at as int].mover@);
                assert(feats[at as int].mover@[i] >= dim);
                assert forall|j: int| 0 <= j < i implies #[trigger] feats[at as int].mover@[j]
                    < dim by {
                    assert(list[j] < dim);
                }
                assert(k == 2 * at);
            } else {
                assert(list == feats[at as int].opponent@);
                assert(feats[at as int].opponent@[i] >= dim);
                assert forall|j: int| 0 <= j < i implies #[trigger] feats[at as int].opponent@[j]
                    < dim by {
                    assert(list[j] < dim);
                }
                assert(k == 2 * at + 1);
            }
            assert(e->FeatureIndex_step == at);
            assert(e->FeatureIndex_side is Mover <==> k % 2 == 0);
            assert(e->feature == list[i]);
        }
        let step = k / 2;
        if k % 2 == 0 {
            assert(feats[step].mover.len() == list.len());
            assert(k + 1 == 2 * step + 1);
        } else {
            assert(feats[step].opponent.len() == list.len());
            assert(k + 1 == 2 * step + 2);
        }
    }
}

/// A game with samples can be encoded exactly where its first sample has a board of three positive
/// extents, scalars and actions; every sample fits the first one; sparse features and snapshots,
/// where there are any, are one for every sample, and the features fit; and every number of the
/// record fits 32 bits.
pub proof fn law_encodable_games(ep: GameEpisode)
    requires
        ep.samples@.len() > 0,
    ensures
        episode_fault(ep) is None <==> {
            let first = ep.samples@[0];
            let d = dims_of(first);
            &&& first.obs.shape@.len() == 3
            &&& first.obs.shape@[0] > 0 && first.obs.shape@[1] > 0 && first.obs.shape@[2] > 0
            &&& first.obs.scalars@.len() > 0
            &&& first.policy@.len() > 0
            &&& forall|j: int|
                0 <= j < ep.samples@.len() ==> step_fault(#[trigger] ep.samples@[j], j, d) is None
            &&& ep.nnue matches Some((meta, feats)) ==> {
                &&& feats@.len() == ep.samples@.len()
                &&& features_fault(feats@, meta.feature_dim, 0) is None
            }
            &&& ep.positions matches Some(list) ==> list@.len() == ep.samples@.len()
            &&& ep.samples@.len() <= u32::MAX
            &&& first.obs.shape@[0] <= u32::MAX
            &&& first.obs.shape@[1] <= u32::MAX
            &&& first.obs.shape@[2] <= u32::MAX
            &&& first.obs.scalars@.len() <= u32::MAX
            &&& first.policy@.len() <= u32::MAX
            &&& ep.game_length <= u32::MAX
        },
{
    let first = ep.samples@[0];
    assert(ep.samples.len() == ep.samples@.len());
    assert(first.obs.scalars.len() == first.obs.scalars@.len());
    assert(first.policy.len() == first.policy@.len());
    law_first_unfitting_sample(ep.samples@, dims_of(first), 0);
}

/// The extents of a sample are those of its lists: none is cut off or changed.
pub proof fn law_extents_are_those_of_the_lists(s: Sample)
    ensures
        dims_of(s).shape.channels == s.obs.shape@[0],
        dims_of(s).shape.rows == s.obs.shape@[1],
        dims_of(s).shape.cols == s.obs.shape@[2],
        dims_of(s).scalar_count == s.obs.scalars@.len(),
        dims_of(s).action_space == s.policy@.len(),
{
    assert(s.obs.scalars.len() == s.obs.scalars@.len());
    assert(s.policy.len() == s.policy@.len());
}

/// What is looked at first decides about a game: its first board, then whether it has scalars and
/// actions, then its samples in order, then its sparse features, then its snapshots, and last the
/// numbers of its record.
pub proof fn law_reasons_come_in_order(ep: GameEpisode)
    requires
        ep.samples@.len() > 0,
    ensures
        ({
            let first = ep.samples@[0];
            let d = dims_of(first);
            let fault = episode_fault(ep);
            let flat = shape_fault(first.obs, 0);
            let empty = first.obs.scalars@.len() == 0 || first.policy@.len() == 0;
            let steps = steps_fault(ep.samples@, d, 0);
            let features = features_of_fault(ep);
            let positions = positions_fault(ep);
            &&& flat is Some ==> fault == flat
            &&& flat is None && empty ==> fault == Some(
                (Fault::ZeroDimension {
                    scalar_count: d.scalar_count,
                    action_space: d.action_space,
                }),
            )
            &&& flat is None && !empty && steps is Some ==> fault == steps
            &&& flat is None && !empty && steps is None && features is Some ==> fault == features
            &&& flat is None && !empty && steps is None && features is None && positions is Some
                ==> fault == positions
            &&& flat is None && !empty && steps is None && features is None && positions is None
                ==> fault == limits_fault(ep, d)
        }),
{
    let first = ep.samples@[0];
    assert(first.obs.scalars.len() == first.obs.scalars@.len());
    assert(first.policy.len() == first.policy@.len());
}

/// What is wrong with the features, the snapshots or the numbers of a game is what the reason says.
pub proof fn law_game_reasons_are_true(ep: GameEpisode)
    requires
        ep.samples@.len() > 0,
    ensures
        match shape_fault(ep.samples@[0].obs, 0) {
            Some(CodecError::BadShape { step, extents }) => {
                &&& step == 0
                &&& extents == ep.samples@[0].obs.shape@
                &&& extents.len() != 3 || extents[0] == 0 || extents[1] == 0 || extents[2] == 0
            },
            Some(_) => false,
            None => ({
                let s = ep.samples@[0].obs.shape@;
                s.len() == 3 && s[0] > 0 && s[1] > 0 && s[2] > 0
            }),
        },
        match positions_fault(ep) {
            Some(CodecError::PositionCount { found, expected }) => {
                &&& ep.positions matches Some(list) && found == list@.len()
                &&& expected == ep.samples@.len()
                &&& found != expected
            },
            Some(_) => false,
            None => ep.positions matches Some(list) ==> list@.len() == ep.samples@.len(),
        },
        match features_of_fault(ep) {
            Some(CodecError::FeatureSteps { found, expected }) => {
                &&& ep.nnue matches Some((meta, feats)) && found == feats@.len()
                &&& expected == ep.samples@.len()
                &&& found != expected
            },
            Some(e) => ep.nnue matches Some((meta, feats)) && feats@.len() == ep.samples@.len()
                && features_fault(feats@, meta.feature_dim, 0) == Some(e),
            None => true,
        },
        ({
            let d = dims_of(ep.samples@[0]);
            match limits_fault(ep, d) {
                Some(CodecError::TooLarge { what, value }) => {
                    &&& value > u32::MAX
                    &&& what is Steps ==> value == ep.samples@.len()
                    &&& what is BoardChannels ==> value == d.shape.channels
                    &&& what is BoardRows ==> value == d.shape.rows
                    &&& what is BoardCols ==> value == d.shape.cols
                    &&& what is ScalarCount ==> value == d.scalar_count
                    &&& what is ActionSpace ==> value == d.action_space
                    &&& what is GameLength ==> value == ep.game_length
                    &&& what !is ActionIndex
                    &&& what !is FeatureCount
                    &&& what !is Steps ==> ep.samples@.len() <= u32::MAX
                    &&& what !is Steps && what !is BoardChannels ==> d.shape.channels <= u32::MAX
                    &&& what is BoardCols ==> d.shape.rows <= u32::MAX
                    &&& what is ScalarCount ==> d.shape.rows <= u32::MAX && d.shape.cols <= u32::MAX
                    &&& what is ActionSpace ==> d.shape.cols <= u32::MAX && d.scalar_count <= u32::MAX
                    &&& what is GameLength ==> d.scalar_count <= u32::MAX && d.action_space
                        <= u32::MAX
                },
                Some(_) => false,
                None => true,
            }
        }),
{
    assert(ep.samples.len() == ep.samples@.len());
    if let Some(list) = ep.positions {
        assert(list.len() == list@.len());
    }
    if let Some((meta, feats)) = ep.nnue {
        assert(feats.len() == feats@.len());
        law_feature_reasons_are_true(feats@, meta.feature_dim);
    }
}

proof fn lemma_plies_fit(ep: NnueEpisode, k: int)
    requires
        0 <= k,
    ensures
        plies_fault(ep, k) is None <==> forall|j: int|
            k <= j < ep.players@.len() ==> #[trigger] ply_fault(ep, j) is None,
        plies_fault(ep, k) matches Some(e) ==> exists|j: int|
            k <= j < ep.players@.len() && #[trigger] ply_fault(ep, j) == Some(e) && forall|i: int|
                k <= i < j ==> #[trigger] ply_fault(ep, i) is None,
    decreases ep.players@.len() - k,
{
    if k < ep.players@.len() {
        lemma_plies_fit(ep, k + 1);
        let here = ply_fault(ep, k);
        if here is None {
            if let Some(e) = plies_fault(ep, k + 1) {
                let j = choose|j: int|
                    k + 1 <= j < ep.players@.len() && #[trigger] ply_fault(ep, j) == Some(e)
                        && forall|i: int|
                        k + 1 <= i < j ==> #[trigger] ply_fault(ep, i) is None;
                assert(ply_fault(ep, j) == Some(e));
            }
        } else {
            assert(ply_fault(ep, k) == here);
        }
    }
}

/// A game of an expectimax search can be encoded exactly where its lists are equally long, its
/// features fit, every mover is 1 or -1, and every action, the number of steps and the length of the
/// game fit 32 bits.
pub proof fn law_encodable_nnue_games(ep: NnueEpisode)
    ensures
        nnue_episode_fault(ep) is None <==> {
            &&& ep.search_values@.len() == ep.features@.len()
            &&& ep.players@.len() == ep.features@.len()
            &&& ep.actions@.len() == ep.features@.len()
            &&& features_fault(ep.features@, ep.meta.feature_dim, 0) is None
            &&& forall|k: int|
                0 <= k < ep.players@.len() ==> {
                    let p = #[trigger] ep.players@[k];
                    p == 1 || p == -1
                }
            &&& forall|k: int|
                0 <= k < ep.actions@.len() ==> #[trigger] ep.actions@[k] <= u32::MAX
            &&& ep.features@.len() <= u32::MAX
            &&& ep.game_length <= u32::MAX
        },
{
    assert(ep.features.len() == ep.features@.len());
    lemma_plies_fit(ep, 0);
    if ep.players@.len() == ep.features@.len() && ep.actions@.len() == ep.features@.len() {
        if plies_fault(ep, 0) is None {
            assert forall|k: int| 0 <= k < ep.players@.len() implies {
                let p = #[trigger] ep.players@[k];
                p == 1 || p == -1
            } by {
                assert(ply_fault(ep, k) is None);
            }
            assert forall|k: int| 0 <= k < ep.actions@.len() implies #[trigger] ep.actions@[k]
                <= u32::MAX by {
                assert(ply_fault(ep, k) is None);
            }
        }
        if (forall|k: int|
            0 <= k < ep.players@.len() ==> {
                let p = #[trigger] ep.players@[k];
                p == 1 || p == -1
            }) && (forall|k: int|
            0 <= k < ep.actions@.len() ==> #[trigger] ep.actions@[k] <= u32::MAX) {
            assert forall|k: int| 0 <= k < ep.players@.len() implies #[trigger] ply_fault(
                ep,
                k,
            ) is None by {
                let p = ep.players@[k];
                assert(ep.actions@[k] <= u32::MAX);
            }
        }
    }
}

/// What is wrong with the lists, the movers or the actions of a game of an expectimax search is what
/// the reason says, and the step is the first at fault.
pub proof fn law_nnue_reasons_are_true(ep: NnueEpisode)
    ensures
        match lengths_fault(ep) {
            Some(CodecError::LengthMismatch { features, search_values, players, actions }) => {
                &&& features == ep.features@.len()
                &&& search_values == ep.search_values@.len()
                &&& players == ep.players@.len()
                &&& actions == ep.actions@.len()
                &&& !(features == search_values == players == actions)
            },
            Some(_) => false,
            None => ep.features@.len() == ep.search_values@.len() == ep.players@.len()
                == ep.actions@.len(),
        },
        match plies_fault(ep, 0) {
            Some(CodecError::BadPlayer { step, player }) => {
                &&& step < ep.players@.len()
                &&& player == ep.players@[step as int]
                &&& player != 1 && player != -1
                &&& forall|i: int| 0 <= i < step ==> #[trigger] ply_fault(ep, i) is None
            },
            Some(CodecError::TooLarge { what, value }) => {
                &&& what is ActionIndex
                &&& value > u32::MAX
                &&& exists|j: int|
                    0 <= j < ep.players@.len() && #[trigger] ep.actions@[j] == value && forall|i: int|
                        0 <= i < j ==> #[trigger] ply_fault(ep, i) is None
            },
            Some(_) => false,
            None => true,
        },
        ({
            let fault = nnue_episode_fault(ep);
            let lengths = lengths_fault(ep);
            let features = features_fault(ep.features@, ep.meta.feature_dim, 0);
            let plies = plies_fault(ep, 0);
            &&& lengths is Some ==> fault == lengths
            &&& lengths is None && features is Some ==> fault == features
            &&& lengths is None && features is None && plies is Some ==> fault == plies
            &&& lengths is None && features is None && plies is None ==> (fault matches Some(e)
                ==> e matches CodecError::TooLarge { what, value } && value > u32::MAX && (what is Steps
                && value == ep.features@.len() || what is GameLength && value == ep.game_length))
        }),
{
    assert(ep.features.len() == ep.features@.len());
    assert(ep.search_values.len() == ep.search_values@.len());
    assert(ep.players.len() == ep.players@.len());
    assert(ep.actions.len() == ep.actions@.len());
    lemma_plies_fit(ep, 0);
    if let Some(e) = plies_fault(ep, 0) {
        let j = choose|j: int|
            0 <= j < ep.players@.len() && #[trigger] ply_fault(ep, j) == Some(e) && forall|i: int|
                0 <= i < j ==> #[trigger] ply_fault(ep, i) is None;
        assert(ply_fault(ep, j) == Some(e));
    }
}

proof fn lemma_first_bad_game(episodes: Seq<GameEpisode>, k: int)
    requires
        0 <= k,
    ensures
        first_bad_episode(episodes, k) is None <==> forall|i: int|
            k <= i < episodes.len() && (#[trigger] episodes[i]).samples@.len() > 0
                ==> episode_fault(episodes[i]) is None,
        first_bad_episode(episodes, k) matches Some((j, e)) ==> {
            &&& k <= j < episodes.len()
            &&& episodes[j].samples@.len() > 0
            &&& episode_fault(episodes[j]) == Some(e)
            &&& forall|i: int|
                k <= i < j && (#[trigger] episodes[i]).samples@.len() > 0 ==> episode_fault(
                    episodes[i],
                ) is None
        },
    decreases episodes.len() - k,
{
    if k < episodes.len() {
        lemma_first_bad_game(episodes, k + 1);
        let here = episodes[k];
    }
}

proof fn lemma_first_bad_nnue_game(episodes: Seq<NnueEpisode>, k: int)
    requires
        0 <= k,
    ensures
        first_bad_nnue_episode(episodes, k) is None <==> forall|i: int|
            k <= i < episodes.len() && (#[trigger] episodes[i]).features@.len() > 0
                ==> nnue_episode_fault(episodes[i]) is None,
        first_bad_nnue_episode(episodes, k) matches Some((j, e)) ==> {
            &&& k <= j < episodes.len()
            &&& episodes[j].features@.len() > 0
            &&& nnue_episode_fault(episodes[j]) == Some(e)
            &&& forall|i: int|
                k <= i < j && (#[trigger] episodes[i]).features@.len() > 0 ==> nnue_episode_fault(
                    episodes[i],
                ) is None
        },
    decreases episodes.len() - k,
{
    if k < episodes.len() {
        lemma_first_bad_nnue_game(episodes, k + 1);
        let here = episodes[k];
    }
}

/// The games with samples are exactly those that a batch keeps.
pub proof fn law_games_with_samples_are_kept(episodes: Seq<GameEpisode>, k: int)
    requires
        0 <= k < episodes.len(),
    ensures
        episodes[k].samples@.len() > 0 <==> with_samples(episodes).contains(episodes[k]),
        with_samples(episodes).len() <= episodes.len(),
        forall|i: int|
            0 <= i < with_samples(episodes).len() ==> (#[trigger] with_samples(
                episodes,
            )[i]).samples@.len() > 0 && episodes.contains(with_samples(episodes)[i]),
{
    let pred = |ep: GameEpisode| ep.samples@.len() > 0;
    episodes.lemma_filter_len(pred);
    if episodes[k].samples@.len() > 0 {
        episodes.lemma_filter_contains(pred, k);
    }
    assert forall|i: int| 0 <= i < with_samples(episodes).len() implies (#[trigger] with_samples(
        episodes,
    )[i]).samples@.len() > 0 && episodes.contains(with_samples(episodes)[i]) by {
        let g = with_samples(episodes)[i];
        episodes.lemma_filter_pred(pred, i);
        assert(with_samples(episodes).contains(g));
        episodes.lemma_filter_contains_rev(pred, g);
    }
}

/// A batch is encoded exactly where it names a board, holds records of one kind only, and every game
/// with samples or steps can be encoded.
pub proof fn law_encodable_batches(
    variant: Seq<char>,
    episodes: Seq<GameEpisode>,
    nnue_episodes: Seq<NnueEpisode>,
)
    ensures
        batch_fault(variant, episodes, nnue_episodes) is None <==> {
            &&& variant.len() > 0
            &&& with_samples(episodes).len() == 0 || with_steps(nnue_episodes).len() == 0
            &&& forall|i: int|
                0 <= i < episodes.len() && (#[trigger] episodes[i]).samples@.len() > 0
                    ==> episode_fault(episodes[i]) is None
            &&& forall|i: int|
                0 <= i < nnue_episodes.len() && (#[trigger] nnue_episodes[i]).features@.len() > 0
                    ==> nnue_episode_fault(nnue_episodes[i]) is None
        },
{
    lemma_first_bad_game(episodes, 0);
    lemma_first_bad_nnue_game(nnue_episodes, 0);
}

/// What is wrong with a batch is what the reason says, and the game that it names is the first one
/// that cannot be encoded.
pub proof fn law_batch_reasons_are_true(
    variant: Seq<char>,
    episodes: Seq<GameEpisode>,
    nnue_episodes: Seq<NnueEpisode>,
)
    requires
        episodes.len() <= usize::MAX,
        nnue_episodes.len() <= usize::MAX,
    ensures
        match batch_fault(variant, episodes, nnue_episodes) {
            Some(BatchError::EmptyVariant) => variant.len() == 0,
            Some(BatchError::MixedKinds { resnet, nnue }) => {
                &&& variant.len() > 0
                &&& resnet == with_samples(episodes).len() && resnet > 0
                &&& nnue == with_steps(nnue_episodes).len() && nnue > 0
            },
            Some(BatchError::Resnet { episode, cause }) => {
                &&& variant.len() > 0
                &&& with_samples(episodes).len() == 0 || with_steps(nnue_episodes).len() == 0
                &&& episode < episodes.len()
                &&& episodes[episode as int].samples@.len() > 0
                &&& episode_fault(episodes[episode as int]) == Some(cause)
                &&& forall|i: int|
                    0 <= i < episode && (#[trigger] episodes[i]).samples@.len() > 0
                        ==> episode_fault(episodes[i]) is None
            },
            Some(BatchError::Nnue { episode, cause }) => {
                &&& variant.len() > 0
                &&& with_samples(episodes).len() == 0 || with_steps(nnue_episodes).len() == 0
                &&& episode < nnue_episodes.len()
                &&& nnue_episodes[episode as int].features@.len() > 0
                &&& nnue_episode_fault(nnue_episodes[episode as int]) == Some(cause)
                &&& forall|i: int|
                    0 <= i < episode && (#[trigger] nnue_episodes[i]).features@.len() > 0
                        ==> nnue_episode_fault(nnue_episodes[i]) is None
                &&& first_bad_episode(episodes, 0) is None
            },
            None => true,
        },
{
    lemma_first_bad_game(episodes, 0);
    lemma_first_bad_nnue_game(nnue_episodes, 0);
    let a = |ep: GameEpisode| ep.samples@.len() > 0;
    let b = |ep: NnueEpisode| ep.features@.len() > 0;
    episodes.lemma_filter_len(a);
    nnue_episodes.lemma_filter_len(b);
}

/// A batch keeps the order of its games: the games that are kept of two lists are those kept of the
/// first, then those kept of the second, and a single game is kept exactly where it has samples.
pub proof fn law_kept_games_stay_in_order(
    a: Seq<GameEpisode>,
    b: Seq<GameEpisode>,
    ep: GameEpisode,
)
    ensures
        with_samples(a + b) == with_samples(a) + with_samples(b),
        with_samples(seq![ep]) == if ep.samples@.len() > 0 {
            seq![ep]
        } else {
            Seq::empty()
        },
{
    let pred = |ep: GameEpisode| ep.samples@.len() > 0;
    Seq::filter_distributes_over_add(a, b, pred);
    reveal_with_fuel(Seq::filter, 2);
    assert(seq![ep].drop_last() =~= Seq::empty());
    assert(with_samples(seq![ep]) =~= if ep.samples@.len() > 0 {
        seq![ep]
    } else {
        Seq::empty()
    });
}

/// The same of games of an expectimax search, which are kept where they have steps.
pub proof fn law_kept_nnue_games_stay_in_order(
    a: Seq<NnueEpisode>,
    b: Seq<NnueEpisode>,
    ep: NnueEpisode,
)
    ensures
        with_steps(a + b) == with_steps(a) + with_steps(b),
        with_steps(seq![ep]) == if ep.features@.len() > 0 {
            seq![ep]
        } else {
            Seq::empty()
        },
{
    let pred = |ep: NnueEpisode| ep.features@.len() > 0;
    Seq::filter_distributes_over_add(a, b, pred);
    reveal_with_fuel(Seq::filter, 2);
    assert(seq![ep].drop_last() =~= Seq::empty());
    assert(with_steps(seq![ep]) =~= if ep.features@.len() > 0 {
        seq![ep]
    } else {
        Seq::empty()
    });
}

} // verus!
