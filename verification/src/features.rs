//! Sparse features: one list of active indices per position and side, laid end to end.
//!
//! The lists follow each other as mover, opponent, mover, opponent, ... The offsets say where each
//! list begins and where the last one ends.

use vstd::prelude::*;

use crate::bits::{le32s, lemma_le32s_push, low32, low_word, push_u32};
use crate::codec_error::{u32_of, CodecError, Fault, FeatureSide, Quantity};
use crate::episode::{NnueEpisodeMeta, NnueStepFeatures};

verus! {

/// List `k` of a game: the mover's of position `k / 2` where `k` is even, else the opponent's.
pub open spec fn list_at(feats: Seq<NnueStepFeatures>, k: int) -> Seq<u16> {
    if k % 2 == 0 {
        feats[k / 2].mover@
    } else {
        feats[k / 2].opponent@
    }
}

/// The side that list `k` belongs to.
pub open spec fn side_at(k: int) -> FeatureSide {
    if k % 2 == 0 {
        FeatureSide::Mover
    } else {
        FeatureSide::Opponent
    }
}

/// How many indices the first `k` lists hold.
pub open spec fn total(feats: Seq<NnueStepFeatures>, k: int) -> int
    decreases k,
{
    if k <= 0 {
        0
    } else {
        total(feats, k - 1) + list_at(feats, k - 1).len()
    }
}

/// The indices of a list as words.
pub open spec fn widened(list: Seq<u16>) -> Seq<u32> {
    Seq::new(list.len(), |i: int| list[i] as u32)
}

/// The indices of the first `k` lists, one after the other.
pub open spec fn index_words(feats: Seq<NnueStepFeatures>, k: int) -> Seq<u32>
    decreases k,
{
    if k <= 0 {
        Seq::empty()
    } else {
        index_words(feats, k - 1) + widened(list_at(feats, k - 1))
    }
}

/// Where each of the first `k` lists begins, and where the last of them ends.
pub open spec fn offset_words(feats: Seq<NnueStepFeatures>, k: int) -> Seq<u32> {
    Seq::new((k + 1) as nat, |j: int| total(feats, j) as u32)
}

/// The first index of a list, from `i` on, that is outside the feature space.
pub open spec fn first_bad_index(list: Seq<u16>, dim: usize, i: int) -> Option<int>
    decreases list.len() - i,
{
    if i >= list.len() {
        None
    } else if list[i] >= dim {
        Some(i)
    } else {
        first_bad_index(list, dim, i + 1)
    }
}

/// What is wrong with list `k`, if anything.
pub open spec fn list_fault(feats: Seq<NnueStepFeatures>, dim: usize, k: int) -> Option<Fault> {
    let list = list_at(feats, k);
    let side = side_at(k);
    let step = (k / 2) as usize;
    match first_bad_index(list, dim, 0) {
        Some(i) => Some(
            CodecError::FeatureIndex { side, step, feature: list[i], feature_dim: dim },
        ),
        None => if list.len() > u32::MAX {
            Some(
                CodecError::TooLarge { what: Quantity::FeatureCount, value: list.len() as usize },
            )
        } else if total(feats, k + 1) > u32::MAX {
            Some(CodecError::FeatureOffset { side, step })
        } else {
            None
        },
    }
}

/// The first fault of the lists from `k` on.
pub open spec fn features_fault(feats: Seq<NnueStepFeatures>, dim: usize, k: int) -> Option<
    Fault,
>
    decreases 2 * feats.len() - k,
{
    if k >= 2 * feats.len() {
        None
    } else {
        match list_fault(feats, dim, k) {
            Some(e) => Some(e),
            None => features_fault(feats, dim, k + 1),
        }
    }
}

/// The extents of a feature space, as a record holds them.
#[derive(Clone, Copy, Debug, PartialEq, Eq, Structural)]
pub struct NnueMeta {
    pub feature_dim: u32,
    pub states_per_square: u32,
    pub bag_stride: u32,
    pub num_active: u32,
    pub total_positions: u32,
}

/// The extents of a feature space in 32 bits each.
pub open spec fn meta_words(meta: NnueEpisodeMeta) -> NnueMeta {
    NnueMeta {
        feature_dim: low32(meta.feature_dim as int) as u32,
        states_per_square: low32(meta.states_per_square as int) as u32,
        bag_stride: low32(meta.bag_stride as int) as u32,
        num_active: low32(meta.num_active as int) as u32,
        total_positions: low32(meta.total_positions as int) as u32,
    }
}

/// The extents of a feature space in 32 bits each.
pub fn meta_of(meta: &NnueEpisodeMeta) -> (res: NnueMeta)
    ensures
        res == meta_words(*meta),
{
    NnueMeta {
        feature_dim: low_word(meta.feature_dim as u64),
        states_per_square: low_word(meta.states_per_square as u64),
        bag_stride: low_word(meta.bag_stride as u64),
        num_active: low_word(meta.num_active as u64),
        total_positions: low_word(meta.total_positions as u64),
    }
}

/// Sparse features as a record holds them.
#[derive(Debug)]
pub struct NnueFeatures {
    pub meta: NnueMeta,
    pub indices: Vec<u8>,
    pub offsets: Vec<u8>,
}

/// What a record of sparse features holds.
#[verifier::ext_equal]
pub struct FeaturesModel {
    pub meta: NnueMeta,
    pub indices: Seq<u8>,
    pub offsets: Seq<u8>,
}

impl View for NnueFeatures {
    type V = FeaturesModel;

    open spec fn view(&self) -> FeaturesModel {
        FeaturesModel { meta: self.meta, indices: self.indices@, offsets: self.offsets@ }
    }
}

/// What the record of these features holds.
pub open spec fn features_model(meta: NnueEpisodeMeta, feats: Seq<NnueStepFeatures>) -> FeaturesModel {
    FeaturesModel {
        meta: meta_words(meta),
        indices: le32s(index_words(feats, 2 * feats.len() as int)),
        offsets: le32s(offset_words(feats, 2 * feats.len() as int)),
    }
}

/// Appends list `k` to the indices, and where it ends to the offsets.
fn push_list(
    feats: &Vec<NnueStepFeatures>,
    list: &Vec<u16>,
    dim: usize,
    step: usize,
    side: FeatureSide,
    cursor: u32,
    indices: &mut Vec<u8>,
    offsets: &mut Vec<u8>,
    Ghost(k): Ghost<int>,
) -> (res: Result<u32, CodecError>)
    requires
        0 <= k < 2 * feats@.len(),
        step == k / 2,
        side == side_at(k),
        list@ == list_at(feats@, k),
        cursor == total(feats@, k),
        old(indices)@ == le32s(index_words(feats@, k)),
        old(offsets)@ == le32s(offset_words(feats@, k)),
    ensures
        match list_fault(feats@, dim, k) {
            Some(e) => res is Err && res->Err_0@ == e,
            None => {
                &&& res is Ok
                &&& res->Ok_0 == total(feats@, k + 1)
                &&& final(indices)@ == le32s(index_words(feats@, k + 1))
                &&& final(offsets)@ == le32s(offset_words(feats@, k + 1))
            },
        },
{
    let n: usize = list.len();
    let mut i: usize = 0;
    let ghost before = index_words(feats@, k);
    let ghost words = widened(list@);
    assert(before + words.take(0) =~= before);
    while i < n
        invariant
            i <= n,
            n == list@.len(),
            words == widened(list@),
            step == k / 2,
            side == side_at(k),
            list@ == list_at(feats@, k),
            first_bad_index(list@, dim, 0) == first_bad_index(list@, dim, i as int),
            indices@ == le32s(before + words.take(i as int)),
        decreases n - i,
    {
        let index: u16 = list[i];
        if index as usize >= dim {
            return Err(CodecError::FeatureIndex { side, step, feature: index, feature_dim: dim });
        }
        push_u32(indices, index as u32);
        proof {
            lemma_le32s_push(before + words.take(i as int), index as u32);
            assert((before + words.take(i as int)).push(index as u32) =~= before + words.take(
                i + 1,
            ));
        }
        i += 1;
    }
    assert(words.take(n as int) =~= words);
    let count: u32 = match u32_of(n, Quantity::FeatureCount) {
        Ok(count) => count,
        Err(e) => {
            return Err(e);
        },
    };
    let next: u32 = match cursor.checked_add(count) {
        Some(next) => next,
        None => {
            return Err(CodecError::FeatureOffset { side, step });
        },
    };
    push_u32(offsets, next);
    proof {
        lemma_le32s_push(offset_words(feats@, k), next);
        assert(offset_words(feats@, k).push(next) =~= offset_words(feats@, k + 1));
    }
    Ok(next)
}

/// Lays the features of a game end to end: the indices of every list in turn, and the offsets at
/// which the lists begin. An index outside the feature space is an error, and so are more indices
/// than 32 bits can count.
pub fn encode_nnue_features(meta: &NnueEpisodeMeta, feats: &Vec<NnueStepFeatures>) -> (res: Result<
    NnueFeatures,
    CodecError,
>)
    ensures
        match features_fault(feats@, meta.feature_dim, 0) {
            Some(e) => res is Err && res->Err_0@ == e,
            None => res is Ok && res->Ok_0@ == features_model(*meta, feats@),
        },
{
    let steps: usize = feats.len();
    let dim: usize = meta.feature_dim;
    let mut indices: Vec<u8> = Vec::new();
    let mut offsets: Vec<u8> = Vec::new();
    let mut cursor: u32 = 0;
    push_u32(&mut offsets, 0);
    proof {
        lemma_le32s_push(Seq::<u32>::empty(), 0);
        assert(offset_words(feats@, 0) =~= Seq::<u32>::empty().push(0));
        assert(le32s(Seq::<u32>::empty()) =~= Seq::<u8>::empty());
        assert(offsets@ =~= le32s(offset_words(feats@, 0)));
    }
    let mut step: usize = 0;
    while step < steps
        invariant
            step <= steps,
            steps == feats@.len(),
            dim == meta.feature_dim,
            cursor == total(feats@, 2 * step),
            features_fault(feats@, dim, 0) == features_fault(feats@, dim, 2 * step),
            indices@ == le32s(index_words(feats@, 2 * step)),
            offsets@ == le32s(offset_words(feats@, 2 * step)),
        decreases steps - step,
    {
        let ghost k = 2 * step as int;
        assert(features_fault(feats@, dim, k) == match list_fault(feats@, dim, k) {
            Some(e) => Some(e),
            None => features_fault(feats@, dim, k + 1),
        });
        assert(features_fault(feats@, dim, k + 1) == match list_fault(feats@, dim, k + 1) {
            Some(e) => Some(e),
            None => features_fault(feats@, dim, k + 2),
        });
        cursor = match push_list(
            feats,
            &feats[step].mover,
            dim,
            step,
            FeatureSide::Mover,
            cursor,
            &mut indices,
            &mut offsets,
            Ghost(k),
        ) {
            Ok(next) => next,
            Err(e) => {
                return Err(e);
            },
        };
        cursor = match push_list(
            feats,
            &feats[step].opponent,
            dim,
            step,
            FeatureSide::Opponent,
            cursor,
            &mut indices,
            &mut offsets,
            Ghost(k + 1),
        ) {
            Ok(next) => next,
            Err(e) => {
                return Err(e);
            },
        };
        step += 1;
    }
    Ok(NnueFeatures { meta: meta_of(meta), indices, offsets })
}

/// The lists laid end to end have as many indices as the offsets say.
pub proof fn lemma_index_words_len(feats: Seq<NnueStepFeatures>, k: int)
    requires
        0 <= k,
    ensures
        index_words(feats, k).len() == total(feats, k),
    decreases k,
{
    if k > 0 {
        lemma_index_words_len(feats, k - 1);
    }
}

/// Offsets never decrease.
pub proof fn lemma_total_monotone(feats: Seq<NnueStepFeatures>, j: int, k: int)
    requires
        j <= k,
    ensures
        0 <= total(feats, j) <= total(feats, k),
    decreases k,
{
    if k > 0 {
        lemma_total_monotone(feats, if j < k { j } else { k - 1 }, k - 1);
    }
}

/// Cutting the indices of `n` lists at the offsets of list `k` gives back that list.
pub proof fn law_offsets_cut_lists(feats: Seq<NnueStepFeatures>, n: int, k: int)
    requires
        0 <= k < n,
    ensures
        0 <= total(feats, k) <= total(feats, k + 1) <= index_words(feats, n).len(),
        index_words(feats, n).subrange(total(feats, k), total(feats, k + 1)) == widened(
            list_at(feats, k),
        ),
    decreases n,
{
    lemma_index_words_len(feats, n);
    lemma_index_words_len(feats, n - 1);
    lemma_total_monotone(feats, 0, k);
    lemma_total_monotone(feats, k, k + 1);
    lemma_total_monotone(feats, k + 1, n);
    if k < n - 1 {
        law_offsets_cut_lists(feats, n - 1, k);
        assert(index_words(feats, n).subrange(total(feats, k), total(feats, k + 1))
            =~= index_words(feats, n - 1).subrange(total(feats, k), total(feats, k + 1)));
    } else {
        assert(index_words(feats, n).subrange(total(feats, k), total(feats, k + 1)) =~= widened(
            list_at(feats, k),
        ));
    }
}

} // verus!
