//! What a reader gets back from a batch: every value of every sample, at the place where the layout
//! says it is.

use vstd::prelude::*;

use crate::batch::{
    batch_bytes, batch_fault, episode_messages, first_bad_episode, nnue_messages, with_samples,
    with_steps,
};
use crate::bits::{
    bit_at, bytes_for, from_le32, law_le32_reads_back, law_le32s_reads_back, le32s, lemma_le32s_len,
    lemma_pack_bit, pack_bits, twos_complement,
};
use crate::codec::{
    action_of, board_part, column, completed_q_of, dims_of, episode_fault, full_part,
    game_result_of, health_diff_of, mask_part, mcts_value_of, model_of, policy_part, root_visits_of,
    scalar_part, shape_fault, squares, step_fault, steps_fault, word_part, Dims,
};
use crate::episode::{
    F32Bits, GameEpisode, NnueEpisode, NnueEpisodeMeta, NnueStepFeatures, Sample, F32_ONE,
};
use crate::features::{
    features_fault, features_model, index_words, law_offsets_cut_lists, lemma_index_words_len,
    lemma_total_monotone, list_at, meta_words, offset_words, total,
};
use crate::frames::{first_bad_element, first_bad_entry, frame_bits, is_binary, mask_flags, plane};
use crate::nnue_codec::{
    action_words, nnue_episode_fault, nnue_model_of, player_words, plies_fault, ply_fault,
};
use crate::reading::{
    law_batch_reads_back, law_episode_reads_back, law_nnue_episode_reads_back, read_batch,
    read_episode, read_nnue_episode,
};
use crate::records::{EpisodeModel, SCHEMA_VERSION};
use crate::soundness::law_encodable_batches;
use crate::wire::read_message;

verus! {

proof fn lemma_bit_of_slice(buf: Seq<u8>, from: int, to: int, i: int)
    requires
        0 <= from <= to <= buf.len(),
        0 <= i < 8 * (to - from),
    ensures
        bit_at(buf, 8 * from + i) == bit_at(buf.subrange(from, to), i),
{
    assert((8 * from + i) / 8 == from + i / 8);
    assert((8 * from + i) % 8 == i % 8);
}

proof fn lemma_frame_len(board: Seq<F32Bits>, channels: int, positions: int)
    requires
        0 <= channels,
        0 <= positions,
    ensures
        frame_bits(board, channels, positions).len() == channels * bytes_for(positions),
    decreases channels,
{
    if channels > 0 {
        lemma_frame_len(board, channels - 1, positions);
        assert((channels - 1) * bytes_for(positions) + bytes_for(positions) == channels
            * bytes_for(positions)) by (nonlinear_arith);
    } else {
        assert(0 * bytes_for(positions) == 0);
    }
}

proof fn lemma_frame_channel(board: Seq<F32Bits>, channels: int, positions: int, c: int)
    requires
        0 <= c < channels,
        0 <= positions,
    ensures
        0 <= c * bytes_for(positions) <= (c + 1) * bytes_for(positions) <= frame_bits(
            board,
            channels,
            positions,
        ).len(),
        frame_bits(board, channels, positions).subrange(
            c * bytes_for(positions),
            (c + 1) * bytes_for(positions),
        ) == pack_bits(plane(board, c, positions)),
    decreases channels,
{
    let w = bytes_for(positions);
    let whole = frame_bits(board, channels, positions);
    let rest = frame_bits(board, channels - 1, positions);
    lemma_frame_len(board, channels, positions);
    lemma_frame_len(board, channels - 1, positions);
    assert(0 <= c * w && c * w + w == (c + 1) * w && (c + 1) * w <= channels * w)
        by (nonlinear_arith)
        requires
            0 <= c < channels,
            0 <= w,
    ;
    if c < channels - 1 {
        lemma_frame_channel(board, channels - 1, positions, c);
        assert(whole.subrange(c * w, (c + 1) * w) =~= rest.subrange(c * w, (c + 1) * w));
    } else {
        assert(whole.subrange(c * w, (c + 1) * w) =~= pack_bits(plane(board, c, positions)));
    }
}

proof fn lemma_frame_bit(board: Seq<F32Bits>, channels: int, positions: int, c: int, p: int)
    requires
        0 <= c < channels,
        0 <= positions,
        0 <= p < 8 * bytes_for(positions),
    ensures
        0 <= 8 * (c * bytes_for(positions)) + p < 8 * frame_bits(board, channels, positions).len(),
        bit_at(frame_bits(board, channels, positions), 8 * (c * bytes_for(positions)) + p) == (p
            < positions && board[c * positions + p] == F32_ONE),
{
    let w = bytes_for(positions);
    lemma_frame_channel(board, channels, positions, c);
    lemma_pack_bit(plane(board, c, positions), p);
    assert((c + 1) * w == c * w + w) by (nonlinear_arith);
    lemma_bit_of_slice(frame_bits(board, channels, positions), c * w, (c + 1) * w, p);
}

proof fn lemma_column_cut(samples: Seq<Sample>, part: spec_fn(Sample) -> Seq<u8>, w: int, i: int)
    requires
        0 <= w,
        0 <= i < samples.len(),
        forall|j: int| 0 <= j < samples.len() ==> part(#[trigger] samples[j]).len() == w,
    ensures
        0 <= i * w <= (i + 1) * w <= column(samples, part).len(),
        column(samples, part).len() == samples.len() * w,
        column(samples, part).subrange(i * w, (i + 1) * w) == part(samples[i]),
    decreases samples.len(),
{
    let n = samples.len() as int;
    let init = samples.drop_last();
    assert(0 <= i * w && i * w + w == (i + 1) * w && (i + 1) * w <= n * w && (n - 1) * w + w == n
        * w) by (nonlinear_arith)
        requires
            0 <= i < n,
            0 <= w,
    ;
    if n == 1 {
        reveal_with_fuel(column, 2);
        assert(init.len() == 0);
        assert(column(samples, part) =~= part(samples[0]));
        assert((n - 1) * w == 0) by (nonlinear_arith)
            requires
                n == 1,
        ;
    } else {
        assert forall|j: int| 0 <= j < init.len() implies part(#[trigger] init[j]).len() == w by {
            assert(init[j] == samples[j]);
        }
        lemma_column_cut(init, part, w, if i < n - 1 { i } else { 0 });
    }
    if i < n - 1 {
        assert(init[i] == samples[i]);
        assert(column(samples, part).subrange(i * w, (i + 1) * w) =~= column(init, part).subrange(
            i * w,
            (i + 1) * w,
        ));
    } else {
        assert(column(samples, part).subrange(i * w, (i + 1) * w) =~= part(samples[i]));
    }
}

proof fn lemma_step_is_sound(samples: Seq<Sample>, d: Dims, k: int, j: int)
    requires
        steps_fault(samples, d, k) is None,
        0 <= k <= j < samples.len(),
    ensures
        step_fault(samples[j], j, d) is None,
    decreases j - k,
{
    if k < j {
        lemma_step_is_sound(samples, d, k + 1, j);
    }
}

/// Whether a game has samples and can be encoded.
pub open spec fn encodable(ep: GameEpisode) -> bool {
    ep.samples@.len() > 0 && episode_fault(ep) is None
}

proof fn lemma_widths(ep: GameEpisode)
    requires
        encodable(ep),
    ensures
        ({
            let d = dims_of(ep.samples@[0]);
            &&& forall|j: int|
                0 <= j < ep.samples@.len() ==> board_part(d.shape)(
                    #[trigger] ep.samples@[j],
                ).len() == d.shape.channels * bytes_for(squares(d.shape))
            &&& forall|j: int|
                0 <= j < ep.samples@.len() ==> mask_part()(#[trigger] ep.samples@[j]).len()
                    == bytes_for(d.action_space as int)
            &&& forall|j: int|
                0 <= j < ep.samples@.len() ==> scalar_part()(#[trigger] ep.samples@[j]).len() == 4
                    * d.scalar_count
            &&& forall|j: int|
                0 <= j < ep.samples@.len() ==> policy_part()(#[trigger] ep.samples@[j]).len() == 4
                    * d.action_space
            &&& squares(d.shape) > 0
        }),
{
    let samples = ep.samples@;
    let d = dims_of(samples[0]);
    assert(squares(d.shape) > 0) by (nonlinear_arith)
        requires
            d.shape.rows > 0,
            d.shape.cols > 0,
            squares(d.shape) == d.shape.rows * d.shape.cols,
    ;
    assert forall|j: int| 0 <= j < samples.len() implies {
        &&& board_part(d.shape)(#[trigger] samples[j]).len() == d.shape.channels * bytes_for(
            squares(d.shape),
        )
        &&& mask_part()(samples[j]).len() == bytes_for(d.action_space as int)
        &&& scalar_part()(samples[j]).len() == 4 * d.scalar_count
        &&& policy_part()(samples[j]).len() == 4 * d.action_space
    } by {
        lemma_step_is_sound(samples, d, 0, j);
        lemma_frame_len(samples[j].obs.board@, d.shape.channels as int, squares(d.shape));
        lemma_le32s_len(samples[j].obs.scalars@);
        lemma_le32s_len(samples[j].policy@);
    }
}

proof fn lemma_board_is_binary(board: Seq<F32Bits>, k: int, i: int)
    requires
        first_bad_element(board, k) is None,
        k <= i < board.len(),
    ensures
        is_binary(board[i]),
    decreases i - k,
{
    if k < i {
        lemma_board_is_binary(board, k + 1, i);
    }
}

proof fn lemma_mask_is_binary(mask: Seq<i32>, k: int, i: int)
    requires
        first_bad_entry(mask, k) is None,
        k <= i < mask.len(),
    ensures
        mask[i] == 0 || mask[i] == 1,
    decreases i - k,
{
    if k < i {
        lemma_mask_is_binary(mask, k + 1, i);
    }
}

/// Packing loses nothing: every board element and every mask entry of a game that was encoded is 0
/// or 1.
pub proof fn law_encoded_games_are_binary(ep: GameEpisode, step: int)
    requires
        encodable(ep),
        0 <= step < ep.samples@.len(),
    ensures
        forall|i: int|
            0 <= i < ep.samples@[step].obs.board@.len() ==> is_binary(
                #[trigger] ep.samples@[step].obs.board@[i],
            ),
        forall|a: int|
            0 <= a < ep.samples@[step].mask@.len() ==> {
                let entry = #[trigger] ep.samples@[step].mask@[a];
                entry == 0 || entry == 1
            },
{
    let s = ep.samples@[step];
    lemma_step_is_sound(ep.samples@, dims_of(ep.samples@[0]), 0, step);
    assert forall|i: int| 0 <= i < s.obs.board@.len() implies is_binary(
        #[trigger] s.obs.board@[i],
    ) by {
        lemma_board_is_binary(s.obs.board@, 0, i);
    }
    assert forall|a: int| 0 <= a < s.mask@.len() implies {
        let entry = #[trigger] s.mask@[a];
        entry == 0 || entry == 1
    } by {
        lemma_mask_is_binary(s.mask@, 0, a);
    }
}

proof fn lemma_column_len(samples: Seq<Sample>, part: spec_fn(Sample) -> Seq<u8>, w: int)
    requires
        0 <= w,
        samples.len() > 0,
        forall|j: int| 0 <= j < samples.len() ==> part(#[trigger] samples[j]).len() == w,
    ensures
        column(samples, part).len() == samples.len() * w,
{
    lemma_column_cut(samples, part, w, 0);
}

proof fn lemma_word_column_len(samples: Seq<Sample>, of: spec_fn(Sample) -> u32)
    requires
        samples.len() > 0,
    ensures
        column(samples, word_part(of)).len() == 4 * samples.len(),
{
    lemma_column_len(samples, word_part(of), 4);
}

/// The planes and the masks of a record are as long as its extents say, so that a reader can cut them
/// without looking at their contents.
pub proof fn law_packed_sizes(ep: GameEpisode)
    requires
        encodable(ep),
    ensures
        ({
            let d = dims_of(ep.samples@[0]);
            let n = ep.samples@.len() as int;
            &&& model_of(ep).boards_bits.len() == n * (d.shape.channels * bytes_for(
                squares(d.shape),
            ))
            &&& model_of(ep).action_masks_bits.len() == n * bytes_for(d.action_space as int)
        }),
{
    let samples = ep.samples@;
    let d = dims_of(samples[0]);
    let w = d.shape.channels * bytes_for(squares(d.shape));
    lemma_widths(ep);
    assert(0 <= w) by (nonlinear_arith)
        requires
            0 <= d.shape.channels,
            0 <= bytes_for(squares(d.shape)),
            w == d.shape.channels * bytes_for(squares(d.shape)),
    ;
    lemma_column_len(samples, board_part(d.shape), w);
    lemma_column_len(samples, mask_part(), bytes_for(d.action_space as int));
}

/// The dense buffers of a record are as long as its extents say.
pub proof fn law_dense_sizes(ep: GameEpisode)
    requires
        encodable(ep),
    ensures
        ({
            let d = dims_of(ep.samples@[0]);
            let n = ep.samples@.len() as int;
            &&& model_of(ep).scalars.len() == n * (4 * d.scalar_count)
            &&& model_of(ep).policies.len() == n * (4 * d.action_space)
            &&& model_of(ep).mcts_values.len() == 4 * n
            &&& model_of(ep).completed_qs.len() == 4 * n
            &&& model_of(ep).game_results.len() == 4 * n
            &&& model_of(ep).health_diffs.len() == 4 * n
            &&& model_of(ep).root_visits.len() == 4 * n
            &&& model_of(ep).actions.len() == 4 * n
            &&& model_of(ep).is_full_search.len() == n
        }),
{
    let samples = ep.samples@;
    let d = dims_of(samples[0]);
    lemma_widths(ep);
    lemma_column_len(samples, scalar_part(), 4 * d.scalar_count);
    lemma_column_len(samples, policy_part(), 4 * d.action_space);
    lemma_word_column_len(samples, mcts_value_of());
    lemma_word_column_len(samples, completed_q_of());
    lemma_word_column_len(samples, game_result_of());
    lemma_word_column_len(samples, health_diff_of());
    lemma_word_column_len(samples, root_visits_of());
    lemma_word_column_len(samples, action_of());
    lemma_column_len(samples, full_part(), 1);
}

/// The numbers of a record are those of the game: none was cut off.
pub proof fn law_record_numbers(ep: GameEpisode)
    requires
        encodable(ep),
        ep.samples@.len() <= usize::MAX,
    ensures
        ({
            let m = model_of(ep);
            let d = dims_of(ep.samples@[0]);
            &&& m.steps == ep.samples@.len()
            &&& m.board_channels == d.shape.channels
            &&& m.board_rows == d.shape.rows
            &&& m.board_cols == d.shape.cols
            &&& m.scalar_count == d.scalar_count
            &&& m.action_space == d.action_space
            &&& m.game_length == ep.game_length
        }),
{
}

/// How the game ended is in the record as it is: a win of either side, a draw, or no result at all.
pub proof fn law_record_keeps_the_winner(ep: GameEpisode)
    ensures
        model_of(ep).winner == ep.winner,
{
}

/// The difference in health at the end is in the record as it is, also where there is none.
pub proof fn law_record_keeps_the_health(ep: GameEpisode)
    ensures
        model_of(ep).health_diff_red == ep.health_diff_red,
{
}

/// The snapshots of a game are in the record, in order and byte by byte, and there are sparse
/// features exactly where the game has them.
pub proof fn law_record_keeps_the_positions(ep: GameEpisode)
    ensures
        ep.positions is None ==> model_of(ep).positions.len() == 0,
        ep.positions matches Some(list) ==> {
            &&& model_of(ep).positions.len() == list@.len()
            &&& forall|i: int|
                0 <= i < list@.len() ==> #[trigger] model_of(ep).positions[i] == list@[i]@
        },
        model_of(ep).nnue is Some <==> ep.nnue is Some,
        ep.nnue matches Some((meta, feats)) ==> model_of(ep).nnue == Some(
            features_model(meta, feats@),
        ),
{
}

/// A game of an expectimax search: how it ended is in the record as it is, and no number was cut
/// off.
pub proof fn law_nnue_record_keeps_the_ending(ep: NnueEpisode)
    requires
        nnue_episode_fault(ep) is None,
    ensures
        nnue_model_of(ep).winner == ep.winner,
        nnue_model_of(ep).steps == ep.features@.len(),
        nnue_model_of(ep).game_length == ep.game_length,
        nnue_model_of(ep).meta == meta_words(ep.meta),
        nnue_model_of(ep).features_indices == features_model(ep.meta, ep.features@).indices,
        nnue_model_of(ep).features_offsets == features_model(ep.meta, ep.features@).offsets,
        nnue_model_of(ep).search_values.len() == 4 * ep.features@.len(),
        nnue_model_of(ep).players.len() == 4 * ep.features@.len(),
        nnue_model_of(ep).actions.len() == 4 * ep.features@.len(),
{
    assert(ep.features.len() == ep.features@.len());
    lemma_le32s_len(ep.search_values@);
    lemma_le32s_len(player_words(ep.players@));
    lemma_le32s_len(action_words(ep.actions@));
}

/// The extents of a feature space are in a record as they are, where 32 bits hold them, and else
/// their low 32 bits are.
pub proof fn law_feature_space_is_kept(meta: NnueEpisodeMeta, feats: Seq<NnueStepFeatures>)
    ensures
        ({
            let m = features_model(meta, feats).meta;
            &&& m == meta_words(meta)
            &&& (meta.feature_dim - m.feature_dim) % 0x1_0000_0000 == 0
            &&& (meta.states_per_square - m.states_per_square) % 0x1_0000_0000 == 0
            &&& (meta.bag_stride - m.bag_stride) % 0x1_0000_0000 == 0
            &&& (meta.num_active - m.num_active) % 0x1_0000_0000 == 0
            &&& (meta.total_positions - m.total_positions) % 0x1_0000_0000 == 0
        }),
{
}

/// The features of position `s`: from the offset of list `2 * s` on the indices hold those of the
/// mover, from that of list `2 * s + 1` on those of the opponent; the first list begins at 0.
pub proof fn law_features_of_a_position(
    meta: NnueEpisodeMeta,
    feats: Seq<NnueStepFeatures>,
    s: int,
    i: int,
)
    requires
        features_fault(feats, meta.feature_dim, 0) is None,
        0 <= s < feats.len(),
        0 <= i,
    ensures
        ({
            let m = features_model(meta, feats);
            &&& word_at(m.offsets, 0) == 0
            &&& word_at(m.offsets, 2 * s + 1) - word_at(m.offsets, 2 * s) == feats[s].mover@.len()
            &&& word_at(m.offsets, 2 * s + 2) - word_at(m.offsets, 2 * s + 1)
                == feats[s].opponent@.len()
            &&& i < feats[s].mover@.len() ==> word_at(
                m.indices,
                word_at(m.offsets, 2 * s) + i,
            ) == feats[s].mover@[i]
            &&& i < feats[s].opponent@.len() ==> word_at(
                m.indices,
                word_at(m.offsets, 2 * s + 1) + i,
            ) == feats[s].opponent@[i]
        }),
{
    let offsets = offset_words(feats, 2 * feats.len() as int);
    lemma_word_at(offsets, 0);
    lemma_word_at(offsets, 2 * s);
    lemma_word_at(offsets, 2 * s + 1);
    lemma_word_at(offsets, 2 * s + 2);
    lemma_total_monotone(feats, 0, 2 * s);
    lemma_total_monotone(feats, 2 * s, 2 * s + 1);
    lemma_total_monotone(feats, 2 * s + 1, 2 * s + 2);
    lemma_totals_fit(feats, meta.feature_dim, 0, 2 * s + 2);
    if i < feats[s].mover@.len() {
        law_feature_words(meta, feats, 2 * s, i);
    }
    if i < feats[s].opponent@.len() {
        law_feature_words(meta, feats, 2 * s + 1, i);
    }
}

/// There is one offset more than there are lists, and as many indices as the last offset says.
pub proof fn law_feature_sizes(meta: NnueEpisodeMeta, feats: Seq<NnueStepFeatures>)
    ensures
        features_model(meta, feats).offsets.len() == 4 * (2 * feats.len() + 1),
        features_model(meta, feats).indices.len() == 4 * total(feats, 2 * feats.len() as int),
{
    let n = 2 * feats.len() as int;
    lemma_le32s_len(offset_words(feats, n));
    lemma_le32s_len(index_words(feats, n));
    lemma_index_words_len(feats, n);
}

/// The planes of a record are in the order step, channel, square, every plane in bytes of its own,
/// and hold a set bit exactly where the board holds a 1: the bits that fill up the last byte of a
/// plane are zero.
pub proof fn law_board_bit(ep: GameEpisode, step: int, c: int, p: int)
    requires
        encodable(ep),
        0 <= step < ep.samples@.len(),
        0 <= c < dims_of(ep.samples@[0]).shape.channels,
        0 <= p < 8 * bytes_for(squares(dims_of(ep.samples@[0]).shape)),
    ensures
        ({
            let shape = dims_of(ep.samples@[0]).shape;
            let w = bytes_for(squares(shape));
            bit_at(model_of(ep).boards_bits, 8 * ((step * shape.channels + c) * w) + p) == (p
                < squares(shape) && ep.samples@[step].obs.board@[c * squares(shape) + p]
                == F32_ONE)
        }),
{
    let samples = ep.samples@;
    let shape = dims_of(samples[0]).shape;
    let n = squares(shape);
    let w = bytes_for(n);
    let ch = shape.channels as int;
    let whole = column(samples, board_part(shape));
    let board = samples[step].obs.board@;
    let size = ch * w;
    let inner = 8 * (c * w) + p;
    lemma_widths(ep);
    assert(0 <= size) by (nonlinear_arith)
        requires
            0 <= ch,
            0 <= w,
            size == ch * w,
    ;
    lemma_column_cut(samples, board_part(shape), size, step);
    lemma_frame_bit(board, ch, n, c, p);
    assert((step + 1) * size == step * size + size) by (nonlinear_arith);
    lemma_bit_of_slice(whole, step * size, (step + 1) * size, inner);
    assert(8 * (step * size) + inner == 8 * ((step * ch + c) * w) + p) by (nonlinear_arith)
        requires
            size == ch * w,
            inner == 8 * (c * w) + p,
    ;
}

/// The masks of a record follow each other, each in bytes of its own, and hold a set bit exactly at
/// the legal actions: the bits that fill up the last byte of a mask are zero.
pub proof fn law_mask_bit(ep: GameEpisode, step: int, a: int)
    requires
        encodable(ep),
        0 <= step < ep.samples@.len(),
        0 <= a < 8 * bytes_for(dims_of(ep.samples@[0]).action_space as int),
    ensures
        ({
            let d = dims_of(ep.samples@[0]);
            let w = bytes_for(d.action_space as int);
            bit_at(model_of(ep).action_masks_bits, 8 * (step * w) + a) == (a < d.action_space
                && ep.samples@[step].mask@[a] == 1)
        }),
{
    let samples = ep.samples@;
    let d = dims_of(samples[0]);
    let w = bytes_for(d.action_space as int);
    lemma_widths(ep);
    lemma_column_cut(samples, mask_part(), w, step);
    lemma_step_is_sound(samples, d, 0, step);
    lemma_pack_bit(mask_flags(samples[step].mask@), a);
    assert((step + 1) * w == step * w + w) by (nonlinear_arith);
    lemma_bit_of_slice(column(samples, mask_part()), step * w, (step + 1) * w, a);
}

proof fn lemma_slice_of_slice(buf: Seq<u8>, from: int, to: int, a: int, b: int)
    requires
        0 <= from <= to <= buf.len(),
        0 <= a <= b <= to - from,
    ensures
        buf.subrange(from, to).subrange(a, b) == buf.subrange(from + a, from + b),
{
    assert(buf.subrange(from, to).subrange(a, b) =~= buf.subrange(from + a, from + b));
}

proof fn lemma_word_read(words: Seq<u32>, i: int)
    requires
        0 <= i < words.len(),
    ensures
        from_le32(le32s(words).subrange(4 * i, 4 * i + 4)) == words[i],
{
    law_le32s_reads_back(words, i);
    law_le32_reads_back(words[i]);
}

proof fn lemma_word_in_column(
    samples: Seq<Sample>,
    part: spec_fn(Sample) -> Seq<u8>,
    count: int,
    step: int,
    words: Seq<u32>,
    i: int,
)
    requires
        0 <= step < samples.len(),
        0 <= i < count,
        count == words.len(),
        forall|j: int| 0 <= j < samples.len() ==> part(#[trigger] samples[j]).len() == 4 * count,
        part(samples[step]) == le32s(words),
    ensures
        ({
            let at = 4 * (step * count + i);
            &&& 0 <= at && at + 4 <= column(samples, part).len()
            &&& from_le32(column(samples, part).subrange(at, at + 4)) == words[i]
        }),
{
    let whole = column(samples, part);
    let at = 4 * (step * count + i);
    let from = step * (4 * count);
    let to = (step + 1) * (4 * count);
    lemma_column_cut(samples, part, 4 * count, step);
    assert(from + 4 * i == at && to == from + 4 * count) by (nonlinear_arith)
        requires
            at == 4 * (step * count + i),
            from == step * (4 * count),
            to == (step + 1) * (4 * count),
    ;
    lemma_slice_of_slice(whole, from, to, 4 * i, 4 * i + 4);
    lemma_word_read(words, i);
}

/// The scalars of a record are in the order step, index.
pub proof fn law_scalar_word(ep: GameEpisode, step: int, i: int)
    requires
        encodable(ep),
        0 <= step < ep.samples@.len(),
        0 <= i < dims_of(ep.samples@[0]).scalar_count,
    ensures
        ({
            let at = 4 * (step * dims_of(ep.samples@[0]).scalar_count + i);
            from_le32(model_of(ep).scalars.subrange(at, at + 4))
                == ep.samples@[step].obs.scalars@[i]
        }),
{
    let samples = ep.samples@;
    let d = dims_of(samples[0]);
    lemma_widths(ep);
    lemma_step_is_sound(samples, d, 0, step);
    lemma_word_in_column(
        samples,
        scalar_part(),
        d.scalar_count as int,
        step,
        samples[step].obs.scalars@,
        i,
    );
}

/// The policies of a record are in the order step, action.
pub proof fn law_policy_word(ep: GameEpisode, step: int, a: int)
    requires
        encodable(ep),
        0 <= step < ep.samples@.len(),
        0 <= a < dims_of(ep.samples@[0]).action_space,
    ensures
        ({
            let at = 4 * (step * dims_of(ep.samples@[0]).action_space + a);
            from_le32(model_of(ep).policies.subrange(at, at + 4)) == ep.samples@[step].policy@[a]
        }),
{
    let samples = ep.samples@;
    let d = dims_of(samples[0]);
    lemma_widths(ep);
    lemma_step_is_sound(samples, d, 0, step);
    lemma_word_in_column(
        samples,
        policy_part(),
        d.action_space as int,
        step,
        samples[step].policy@,
        a,
    );
}

/// The word at place `i` of a buffer.
#[verifier::opaque]
pub open spec fn word_at(buf: Seq<u8>, i: int) -> int {
    from_le32(buf.subrange(4 * i, 4 * i + 4))
}

proof fn lemma_word_at(words: Seq<u32>, i: int)
    requires
        0 <= i < words.len(),
    ensures
        word_at(le32s(words), i) == words[i],
{
    reveal(word_at);
    lemma_word_read(words, i);
}

proof fn lemma_step_word(samples: Seq<Sample>, of: spec_fn(Sample) -> u32, step: int)
    requires
        0 <= step < samples.len(),
    ensures
        word_at(column(samples, word_part(of)), step) == of(samples[step]),
{
    reveal(word_at);
    lemma_column_cut(samples, word_part(of), 4, step);
    law_le32_reads_back(of(samples[step]));
}

/// Every number of a sample is at the place of its step.
pub proof fn law_step_words(ep: GameEpisode, step: int)
    requires
        encodable(ep),
        0 <= step < ep.samples@.len(),
    ensures
        ({
            let m = model_of(ep);
            let s = ep.samples@[step];
            &&& word_at(m.mcts_values, step) == s.mcts_value
            &&& word_at(m.completed_qs, step) == s.completed_q
            &&& word_at(m.game_results, step) == s.game_result
            &&& word_at(m.health_diffs, step) == s.health_diff
            &&& word_at(m.root_visits, step) == s.root_visits
            &&& word_at(m.actions, step) == s.action
            &&& m.is_full_search[step] == if s.is_full_search {
                1u8
            } else {
                0u8
            }
        }),
{
    let samples = ep.samples@;
    lemma_step_word(samples, mcts_value_of(), step);
    lemma_step_word(samples, completed_q_of(), step);
    lemma_step_word(samples, game_result_of(), step);
    lemma_step_word(samples, health_diff_of(), step);
    lemma_step_word(samples, root_visits_of(), step);
    lemma_step_word(samples, action_of(), step);
    lemma_step_is_sound(samples, dims_of(samples[0]), 0, step);
    lemma_column_cut(samples, full_part(), 1, step);
    assert(full_part()(samples[step])[0] == column(samples, full_part()).subrange(
        step * 1,
        (step + 1) * 1,
    )[0]);
}

proof fn lemma_column_join(a: Seq<Sample>, b: Seq<Sample>, part: spec_fn(Sample) -> Seq<u8>)
    ensures
        column(a + b, part) == column(a, part) + column(b, part),
    decreases b.len(),
{
    if b.len() == 0 {
        assert(a + b =~= a);
        assert(column(a, part) + column(b, part) =~= column(a, part));
    } else {
        lemma_column_join(a, b.drop_last(), part);
        assert((a + b).drop_last() =~= a + b.drop_last());
        assert((a + b).last() == b.last());
        assert(column(a + b, part) =~= column(a, part) + column(b, part));
    }
}

proof fn lemma_sound_anywhere(s: Sample, d: Dims, i: int, j: int)
    requires
        step_fault(s, i, d) is None,
    ensures
        step_fault(s, j, d) is None,
{
}

proof fn lemma_all_steps_sound(samples: Seq<Sample>, d: Dims, k: int)
    requires
        0 <= k,
        forall|j: int| 0 <= j < samples.len() ==> step_fault(#[trigger] samples[j], j, d) is None,
    ensures
        steps_fault(samples, d, k) is None,
    decreases samples.len() - k,
{
    if k < samples.len() {
        assert(step_fault(samples[k], k, d) is None);
        lemma_all_steps_sound(samples, d, k + 1);
    }
}

proof fn lemma_sound_dims(s: Sample, d: Dims, i: int)
    requires
        step_fault(s, i, d) is None,
    ensures
        dims_of(s) == d,
        shape_fault(s.obs, 0) is None,
{
}

/// Whether two games agree in everything but their samples.
pub open spec fn same_but_samples(a: GameEpisode, b: GameEpisode) -> bool {
    &&& a.game_length == b.game_length
    &&& a.winner == b.winner
    &&& a.health_diff_red == b.health_diff_red
    &&& a.nnue == b.nnue
    &&& a.positions == b.positions
}

proof fn lemma_part_is_encodable(whole: GameEpisode, ep: GameEpisode, from: int)
    requires
        encodable(whole),
        same_but_samples(whole, ep),
        whole.nnue is None,
        whole.positions is None,
        0 <= from,
        from + ep.samples@.len() <= whole.samples@.len() <= usize::MAX,
        ep.samples@.len() > 0,
        forall|j: int|
            0 <= j < ep.samples@.len() ==> #[trigger] ep.samples@[j] == whole.samples@[from + j],
    ensures
        encodable(ep),
        dims_of(ep.samples@[0]) == dims_of(whole.samples@[0]),
{
    let d = dims_of(whole.samples@[0]);
    assert(ep.samples@[0] == whole.samples@[from]);
    lemma_step_is_sound(whole.samples@, d, 0, from);
    lemma_sound_dims(ep.samples@[0], d, from);
    assert forall|j: int| 0 <= j < ep.samples@.len() implies step_fault(
        #[trigger] ep.samples@[j],
        j,
        d,
    ) is None by {
        lemma_step_is_sound(whole.samples@, d, 0, from + j);
        lemma_sound_anywhere(ep.samples@[j], d, from + j, j);
    }
    lemma_all_steps_sound(ep.samples@, d, 0);
}

/// Whether the record `m` has the extents of `a`, and every buffer of `m` is that of `a` followed by
/// that of `b`.
pub open spec fn is_joined(m: EpisodeModel, a: EpisodeModel, b: EpisodeModel) -> bool {
    &&& m.steps == a.steps + b.steps
    &&& m.board_channels == a.board_channels == b.board_channels
    &&& m.board_rows == a.board_rows == b.board_rows
    &&& m.board_cols == a.board_cols == b.board_cols
    &&& m.scalar_count == a.scalar_count == b.scalar_count
    &&& m.action_space == a.action_space == b.action_space
    &&& m.boards_bits == a.boards_bits + b.boards_bits
    &&& m.scalars == a.scalars + b.scalars
    &&& m.policies == a.policies + b.policies
    &&& m.action_masks_bits == a.action_masks_bits + b.action_masks_bits
    &&& m.mcts_values == a.mcts_values + b.mcts_values
    &&& m.completed_qs == a.completed_qs + b.completed_qs
    &&& m.game_results == a.game_results + b.game_results
    &&& m.health_diffs == a.health_diffs + b.health_diffs
    &&& m.root_visits == a.root_visits + b.root_visits
    &&& m.actions == a.actions + b.actions
    &&& m.is_full_search == a.is_full_search + b.is_full_search
}

/// The record of two joined lists of samples is the two records joined: both parts can be encoded
/// where the whole can, with the same extents; the steps add up, and every buffer is that of the first
/// part followed by that of the second.
pub proof fn law_records_join(whole: GameEpisode, a: GameEpisode, b: GameEpisode)
    requires
        encodable(whole),
        same_but_samples(whole, a),
        same_but_samples(whole, b),
        whole.nnue is None,
        whole.positions is None,
        a.samples@.len() > 0,
        b.samples@.len() > 0,
        whole.samples@ == a.samples@ + b.samples@,
        whole.samples@.len() <= usize::MAX,
    ensures
        encodable(a),
        encodable(b),
        is_joined(model_of(whole), model_of(a), model_of(b)),
        model_of(a).game_length == model_of(whole).game_length,
        model_of(b).game_length == model_of(whole).game_length,
{
    let (x, y) = (a.samples@, b.samples@);
    let shape = dims_of(whole.samples@[0]).shape;
    lemma_part_is_encodable(whole, a, 0);
    assert forall|j: int| 0 <= j < y.len() implies #[trigger] y[j] == whole.samples@[x.len()
        + j] by {}
    lemma_part_is_encodable(whole, b, x.len() as int);
    lemma_column_join(x, y, board_part(shape));
    lemma_column_join(x, y, scalar_part());
    lemma_column_join(x, y, policy_part());
    lemma_column_join(x, y, mask_part());
    lemma_column_join(x, y, word_part(mcts_value_of()));
    lemma_column_join(x, y, word_part(completed_q_of()));
    lemma_column_join(x, y, word_part(game_result_of()));
    lemma_column_join(x, y, word_part(health_diff_of()));
    lemma_column_join(x, y, word_part(root_visits_of()));
    lemma_column_join(x, y, word_part(action_of()));
    lemma_column_join(x, y, full_part());
}

proof fn lemma_totals_fit(feats: Seq<NnueStepFeatures>, dim: usize, k: int, j: int)
    requires
        features_fault(feats, dim, k) is None,
        0 <= k < j <= 2 * feats.len(),
    ensures
        total(feats, j) <= u32::MAX,
    decreases j - k,
{
    if k + 1 < j {
        lemma_totals_fit(feats, dim, k + 1, j);
    }
}

/// Sparse features: word `k` of the offsets says where list `k` begins, and from there on the
/// indices hold the list; the next offset says where it ends.
pub proof fn law_feature_words(
    meta: NnueEpisodeMeta,
    feats: Seq<NnueStepFeatures>,
    k: int,
    i: int,
)
    requires
        features_fault(feats, meta.feature_dim, 0) is None,
        0 <= k < 2 * feats.len(),
        0 <= i < list_at(feats, k).len(),
    ensures
        ({
            let m = features_model(meta, feats);
            let begin = word_at(m.offsets, k);
            let end = word_at(m.offsets, k + 1);
            &&& end - begin == list_at(feats, k).len()
            &&& word_at(m.indices, begin + i) == list_at(feats, k)[i]
        }),
{
    let n = 2 * feats.len() as int;
    let offsets = offset_words(feats, n);
    let indices = index_words(feats, n);
    lemma_word_at(offsets, k);
    lemma_word_at(offsets, k + 1);
    lemma_total_monotone(feats, 0, k);
    if k > 0 {
        lemma_totals_fit(feats, meta.feature_dim, 0, k);
    }
    lemma_totals_fit(feats, meta.feature_dim, 0, k + 1);
    law_offsets_cut_lists(feats, n, k);
    let begin = total(feats, k);
    lemma_word_at(indices, begin + i);
    assert(indices[begin + i] == indices.subrange(begin, total(feats, k + 1))[i]);
}

/// A game of an expectimax search: every number of a step is at the place of the step.
pub proof fn law_nnue_step_words(ep: NnueEpisode, step: int)
    requires
        nnue_episode_fault(ep) is None,
        0 <= step < ep.features@.len(),
    ensures
        ({
            let m = nnue_model_of(ep);
            &&& word_at(m.search_values, step) == ep.search_values@[step]
            &&& word_at(m.players, step) == twos_complement(ep.players@[step])
            &&& word_at(m.actions, step) == ep.actions@[step]
        }),
{
    lemma_word_at(ep.search_values@, step);
    lemma_word_at(player_words(ep.players@), step);
    lemma_word_at(action_words(ep.actions@), step);
    lemma_ply_is_sound(ep, 0, step);
}

proof fn lemma_ply_is_sound(ep: NnueEpisode, k: int, j: int)
    requires
        plies_fault(ep, k) is None,
        0 <= k <= j < ep.players@.len(),
    ensures
        ply_fault(ep, j) is None,
    decreases j - k,
{
    if k < j {
        lemma_ply_is_sound(ep, k + 1, j);
    }
}

proof fn lemma_good_episodes(episodes: Seq<GameEpisode>, k: int, i: int)
    requires
        first_bad_episode(episodes, k) is None,
        0 <= k <= i < episodes.len(),
        episodes[i].samples@.len() > 0,
    ensures
        encodable(episodes[i]),
    decreases i - k,
{
    if k < i {
        lemma_good_episodes(episodes, k + 1, i);
    }
}

proof fn lemma_game_source(episodes: Seq<GameEpisode>, i: int) -> (k: int)
    requires
        0 <= i < with_samples(episodes).len(),
    ensures
        0 <= k < episodes.len(),
        episodes[k] == with_samples(episodes)[i],
        episodes[k].samples@.len() > 0,
    decreases episodes.len(),
{
    reveal(Seq::filter);
    let init = episodes.drop_last();
    if i < with_samples(init).len() {
        lemma_game_source(init, i)
    } else {
        episodes.len() - 1
    }
}

/// Reading a batch that was encoded gives back the variant and, in order, the record of every game
/// that carries samples or steps, and of no other. The records are of one kind.
pub proof fn law_batch_recovers_games(
    variant: Seq<char>,
    episodes: Seq<GameEpisode>,
    nnue_episodes: Seq<NnueEpisode>,
)
    requires
        batch_fault(variant, episodes, nnue_episodes) is None,
    ensures
        ({
            let bytes = batch_bytes(variant, episodes, nnue_episodes);
            let b = read_batch(read_message(bytes)->Some_0);
            let games = with_samples(episodes);
            let nnue_games = with_steps(nnue_episodes);
            &&& read_message(bytes) is Some
            &&& b.schema_version == SCHEMA_VERSION
            &&& b.variant == variant
            &&& b.episodes.len() == games.len()
            &&& b.nnue_episodes.len() == nnue_games.len()
            &&& b.episodes.len() == 0 || b.nnue_episodes.len() == 0
            &&& forall|i: int|
                0 <= i < games.len() ==> {
                    &&& read_message(#[trigger] b.episodes[i]) is Some
                    &&& read_episode(read_message(b.episodes[i])->Some_0) == model_of(games[i])
                }
            &&& forall|i: int|
                0 <= i < nnue_games.len() ==> {
                    &&& read_message(#[trigger] b.nnue_episodes[i]) is Some
                    &&& read_nnue_episode(read_message(b.nnue_episodes[i])->Some_0)
                        == nnue_model_of(nnue_games[i])
                }
        }),
{
    let messages = episode_messages(episodes);
    let nnue = nnue_messages(nnue_episodes);
    law_batch_reads_back(variant, messages, nnue);
    let games = with_samples(episodes);
    let nnue_games = with_steps(nnue_episodes);
    assert forall|i: int| 0 <= i < games.len() implies {
        &&& read_message(#[trigger] messages[i]) is Some
        &&& read_episode(read_message(messages[i])->Some_0) == model_of(games[i])
    } by {
        law_episode_reads_back(model_of(games[i]));
    }
    assert forall|i: int| 0 <= i < nnue_games.len() implies {
        &&& read_message(#[trigger] nnue[i]) is Some
        &&& read_nnue_episode(read_message(nnue[i])->Some_0) == nnue_model_of(nnue_games[i])
    } by {
        law_nnue_episode_reads_back(nnue_model_of(nnue_games[i]));
    }
}

/// Every game of a batch that was encoded is sound: what the laws on bits and words say of
/// encodable games holds of each of them.
pub proof fn law_batch_games_are_encodable(
    variant: Seq<char>,
    episodes: Seq<GameEpisode>,
    nnue_episodes: Seq<NnueEpisode>,
    i: int,
)
    requires
        batch_fault(variant, episodes, nnue_episodes) is None,
        0 <= i < with_samples(episodes).len(),
    ensures
        encodable(with_samples(episodes)[i]),
{
    let k = lemma_game_source(episodes, i);
    lemma_good_episodes(episodes, 0, k);
}

/// Whoever reads a batch that was encoded learns of every game how it ended, also where it has no
/// result, how long it was, and its snapshots.
pub proof fn law_batch_recovers_endings(
    variant: Seq<char>,
    episodes: Seq<GameEpisode>,
    nnue_episodes: Seq<NnueEpisode>,
    i: int,
)
    requires
        batch_fault(variant, episodes, nnue_episodes) is None,
        0 <= i < with_samples(episodes).len(),
    ensures
        ({
            let bytes = batch_bytes(variant, episodes, nnue_episodes);
            let b = read_batch(read_message(bytes)->Some_0);
            let game = with_samples(episodes)[i];
            let m = read_episode(read_message(b.episodes[i])->Some_0);
            &&& m.winner == game.winner
            &&& m.health_diff_red == game.health_diff_red
            &&& m.game_length == game.game_length
            &&& m.steps == game.samples@.len()
            &&& m.positions.len() == match game.positions {
                Some(list) => list@.len(),
                None => 0,
            }
            &&& game.positions matches Some(list) ==> forall|k: int|
                0 <= k < list@.len() ==> #[trigger] m.positions[k] == list@[k]@
        }),
{
    law_batch_recovers_games(variant, episodes, nnue_episodes);
    law_batch_games_are_encodable(variant, episodes, nnue_episodes, i);
    let game = with_samples(episodes)[i];
    assert(game.samples.len() == game.samples@.len());
    law_record_numbers(game);
    law_record_keeps_the_winner(game);
    law_record_keeps_the_health(game);
    law_record_keeps_the_positions(game);
    let b = read_batch(read_message(batch_bytes(variant, episodes, nnue_episodes))->Some_0);
    assert(read_message(b.episodes[i]) is Some);
}

/// The same of a game of an expectimax search.
pub proof fn law_batch_recovers_nnue_endings(
    variant: Seq<char>,
    episodes: Seq<GameEpisode>,
    nnue_episodes: Seq<NnueEpisode>,
    i: int,
)
    requires
        batch_fault(variant, episodes, nnue_episodes) is None,
        0 <= i < with_steps(nnue_episodes).len(),
    ensures
        ({
            let bytes = batch_bytes(variant, episodes, nnue_episodes);
            let b = read_batch(read_message(bytes)->Some_0);
            let game = with_steps(nnue_episodes)[i];
            let m = read_nnue_episode(read_message(b.nnue_episodes[i])->Some_0);
            &&& m.winner == game.winner
            &&& m.game_length == game.game_length
            &&& m.steps == game.features@.len()
        }),
{
    law_batch_recovers_games(variant, episodes, nnue_episodes);
    law_encodable_batches(variant, episodes, nnue_episodes);
    let pred = |ep: NnueEpisode| ep.features@.len() > 0;
    let game = with_steps(nnue_episodes)[i];
    nnue_episodes.lemma_filter_pred(pred, i);
    assert(with_steps(nnue_episodes).contains(game));
    nnue_episodes.lemma_filter_contains_rev(pred, game);
    let k = choose|k: int| 0 <= k < nnue_episodes.len() && nnue_episodes[k] == game;
    assert(nnue_episode_fault(nnue_episodes[k]) is None);
    law_nnue_record_keeps_the_ending(game);
    let b = read_batch(read_message(batch_bytes(variant, episodes, nnue_episodes))->Some_0);
    assert(read_message(b.nnue_episodes[i]) is Some);
}

} // verus!
