//! What a reader makes of a batch of records, and that it gets back what was written.

use vstd::prelude::*;

use crate::features::{FeaturesModel, NnueMeta};
use crate::records::{
    batch_fields, episode_fields, features_fields, features_option, meta_fields, nested,
    nnue_episode_fields, EpisodeModel, NnueEpisodeModel, SCHEMA_VERSION,
};
use crate::wire::{
    bytes_field, int_option_field, law_message_reads_back, message_bytes, read_message,
    repeated_field, sign_extended, text_field, uint_field, valid_field, word_option_field, Field,
};

verus! {

/// The signed number that a 64-bit word stands for.
pub open spec fn signed64(v: u64) -> int {
    if v < 0x8000_0000_0000_0000 {
        v as int
    } else {
        v - 0x1_0000_0000_0000_0000
    }
}

/// The extents of a feature space before any field is read.
pub open spec fn no_meta() -> NnueMeta {
    NnueMeta {
        feature_dim: 0,
        states_per_square: 0,
        bag_stride: 0,
        num_active: 0,
        total_positions: 0,
    }
}

/// `m` after one more field is read.
pub open spec fn meta_with(m: NnueMeta, f: Field) -> NnueMeta {
    match f {
        Field::Varint { tag, value } => if tag == 1 {
            NnueMeta { feature_dim: value as u32, ..m }
        } else if tag == 2 {
            NnueMeta { states_per_square: value as u32, ..m }
        } else if tag == 3 {
            NnueMeta { bag_stride: value as u32, ..m }
        } else if tag == 4 {
            NnueMeta { num_active: value as u32, ..m }
        } else if tag == 5 {
            NnueMeta { total_positions: value as u32, ..m }
        } else {
            m
        },
        _ => m,
    }
}

/// The extents that the fields `fs` say.
pub open spec fn read_meta(fs: Seq<Field>) -> NnueMeta
    decreases fs.len(),
{
    if fs.len() == 0 {
        no_meta()
    } else {
        meta_with(read_meta(fs.drop_last()), fs.last())
    }
}

/// The extents that a nested message says.
pub open spec fn meta_in(data: Seq<u8>) -> NnueMeta {
    match read_message(data) {
        Some(fs) => read_meta(fs),
        None => no_meta(),
    }
}

/// Sparse features before any field is read.
pub open spec fn no_features() -> FeaturesModel {
    FeaturesModel { meta: no_meta(), indices: Seq::empty(), offsets: Seq::empty() }
}

/// `m` after one more field is read.
pub open spec fn features_with(m: FeaturesModel, f: Field) -> FeaturesModel {
    match f {
        Field::Bytes { tag, data } => if tag == 1 {
            FeaturesModel { meta: meta_in(data), ..m }
        } else if tag == 2 {
            FeaturesModel { indices: data, ..m }
        } else if tag == 3 {
            FeaturesModel { offsets: data, ..m }
        } else {
            m
        },
        _ => m,
    }
}

/// The features that the fields `fs` say.
pub open spec fn read_features(fs: Seq<Field>) -> FeaturesModel
    decreases fs.len(),
{
    if fs.len() == 0 {
        no_features()
    } else {
        features_with(read_features(fs.drop_last()), fs.last())
    }
}

/// The features that a nested message says.
pub open spec fn features_in(data: Seq<u8>) -> FeaturesModel {
    match read_message(data) {
        Some(fs) => read_features(fs),
        None => no_features(),
    }
}

/// A game before any field is read.
pub open spec fn no_episode() -> EpisodeModel {
    EpisodeModel {
        steps: 0,
        board_channels: 0,
        board_rows: 0,
        board_cols: 0,
        scalar_count: 0,
        action_space: 0,
        boards_bits: Seq::empty(),
        scalars: Seq::empty(),
        policies: Seq::empty(),
        action_masks_bits: Seq::empty(),
        mcts_values: Seq::empty(),
        completed_qs: Seq::empty(),
        game_results: Seq::empty(),
        health_diffs: Seq::empty(),
        root_visits: Seq::empty(),
        actions: Seq::empty(),
        is_full_search: Seq::empty(),
        game_length: 0,
        winner: None,
        health_diff_red: None,
        nnue: None,
        positions: Seq::empty(),
    }
}

/// `m` after one more field is read.
pub open spec fn episode_with(m: EpisodeModel, f: Field) -> EpisodeModel {
    match f {
        Field::Varint { tag, value } => if tag == 1 {
            EpisodeModel { steps: value as u32, ..m }
        } else if tag == 2 {
            EpisodeModel { board_channels: value as u32, ..m }
        } else if tag == 3 {
            EpisodeModel { board_rows: value as u32, ..m }
        } else if tag == 4 {
            EpisodeModel { board_cols: value as u32, ..m }
        } else if tag == 5 {
            EpisodeModel { scalar_count: value as u32, ..m }
        } else if tag == 6 {
            EpisodeModel { action_space: value as u32, ..m }
        } else if tag == 18 {
            EpisodeModel { game_length: value as u32, ..m }
        } else if tag == 19 {
            EpisodeModel { winner: Some(signed64(value) as i32), ..m }
        } else {
            m
        },
        Field::Fixed32 { tag, word } => if tag == 20 {
            EpisodeModel { health_diff_red: Some(word), ..m }
        } else {
            m
        },
        Field::Bytes { tag, data } => if tag == 7 {
            EpisodeModel { boards_bits: data, ..m }
        } else if tag == 8 {
            EpisodeModel { scalars: data, ..m }
        } else if tag == 9 {
            EpisodeModel { policies: data, ..m }
        } else if tag == 10 {
            EpisodeModel { action_masks_bits: data, ..m }
        } else if tag == 11 {
            EpisodeModel { mcts_values: data, ..m }
        } else if tag == 12 {
            EpisodeModel { completed_qs: data, ..m }
        } else if tag == 13 {
            EpisodeModel { game_results: data, ..m }
        } else if tag == 14 {
            EpisodeModel { health_diffs: data, ..m }
        } else if tag == 15 {
            EpisodeModel { root_visits: data, ..m }
        } else if tag == 16 {
            EpisodeModel { actions: data, ..m }
        } else if tag == 17 {
            EpisodeModel { is_full_search: data, ..m }
        } else if tag == 21 {
            EpisodeModel { nnue: Some(features_in(data)), ..m }
        } else if tag == 22 {
            EpisodeModel { positions: m.positions.push(data), ..m }
        } else {
            m
        },
    }
}

/// The game that the fields `fs` say.
pub open spec fn read_episode(fs: Seq<Field>) -> EpisodeModel
    decreases fs.len(),
{
    if fs.len() == 0 {
        no_episode()
    } else {
        episode_with(read_episode(fs.drop_last()), fs.last())
    }
}

proof fn lemma_read_meta_push(fs: Seq<Field>, f: Field)
    ensures
        read_meta(fs + seq![f]) == meta_with(read_meta(fs), f),
{
    assert((fs + seq![f]).drop_last() =~= fs);
}

proof fn lemma_meta_uint(fs: Seq<Field>, tag: u32, v: u32)
    ensures
        v != 0 ==> read_meta(fs + uint_field(tag, v)) == meta_with(
            read_meta(fs),
            (Field::Varint { tag, value: v as u64 }),
        ),
        v == 0 ==> read_meta(fs + uint_field(tag, v)) == read_meta(fs),
{
    if v == 0 {
        assert(fs + uint_field(tag, v) =~= fs);
    } else {
        lemma_read_meta_push(fs, Field::Varint { tag, value: v as u64 });
    }
}

/// Whether every field of `fs` can be written.
pub open spec fn all_valid(fs: Seq<Field>) -> bool {
    forall|i: int| 0 <= i < fs.len() ==> valid_field(#[trigger] fs[i])
}

/// Reading the extents of a feature space gives back what was written.
pub proof fn law_meta_reads_back(m: NnueMeta)
    ensures
        meta_in(message_bytes(meta_fields(m))) == m,
{
    let f1 = uint_field(1, m.feature_dim);
    let f2 = f1 + uint_field(2, m.states_per_square);
    let f3 = f2 + uint_field(3, m.bag_stride);
    let f4 = f3 + uint_field(4, m.num_active);
    let e = Seq::<Field>::empty();
    assert(e + f1 =~= f1);
    lemma_meta_uint(e, 1, m.feature_dim);
    lemma_meta_uint(f1, 2, m.states_per_square);
    lemma_meta_uint(f2, 3, m.bag_stride);
    lemma_meta_uint(f3, 4, m.num_active);
    lemma_meta_uint(f4, 5, m.total_positions);
    assert(read_meta(e) == no_meta());
    assert(read_meta(meta_fields(m)) == m);
    assert(all_valid(meta_fields(m)));
    law_message_reads_back(meta_fields(m));
}

proof fn lemma_read_features_push(fs: Seq<Field>, f: Field)
    ensures
        read_features(fs + seq![f]) == features_with(read_features(fs), f),
{
    assert((fs + seq![f]).drop_last() =~= fs);
}

proof fn lemma_features_bytes(fs: Seq<Field>, tag: u32, data: Seq<u8>)
    requires
        data.len() == 0 ==> features_with(read_features(fs), (Field::Bytes { tag, data }))
            == read_features(fs),
    ensures
        read_features(fs + bytes_field(tag, data)) == features_with(
            read_features(fs),
            (Field::Bytes { tag, data }),
        ),
{
    if data.len() == 0 {
        assert(fs + bytes_field(tag, data) =~= fs);
    } else {
        lemma_read_features_push(fs, Field::Bytes { tag, data });
    }
}

/// Reading sparse features gives back what was written.
pub proof fn law_features_read_back(m: FeaturesModel)
    ensures
        features_in(message_bytes(features_fields(m))) == m,
{
    let e = Seq::<Field>::empty();
    let f1 = nested(1, meta_fields(m.meta));
    let f2 = f1 + bytes_field(2, m.indices);
    assert(e + f1 =~= f1);
    lemma_read_features_push(e, f1[0]);
    assert(read_features(e) == no_features());
    law_meta_reads_back(m.meta);
    assert(read_features(f1) == FeaturesModel { meta: m.meta, ..no_features() });
    assert(m.indices.len() == 0 ==> m.indices =~= Seq::empty());
    assert(m.offsets.len() == 0 ==> m.offsets =~= Seq::empty());
    lemma_features_bytes(f1, 2, m.indices);
    lemma_features_bytes(f2, 3, m.offsets);
    assert(read_features(features_fields(m)) =~= m);
    assert(all_valid(features_fields(m)));
    law_message_reads_back(features_fields(m));
}

proof fn lemma_read_episode_push(fs: Seq<Field>, f: Field)
    ensures
        read_episode(fs + seq![f]) == episode_with(read_episode(fs), f),
{
    assert((fs + seq![f]).drop_last() =~= fs);
}

proof fn lemma_episode_uint(fs: Seq<Field>, tag: u32, v: u32)
    requires
        v == 0 ==> episode_with(read_episode(fs), (Field::Varint { tag, value: 0 }))
            == read_episode(fs),
    ensures
        read_episode(fs + uint_field(tag, v)) == episode_with(
            read_episode(fs),
            (Field::Varint { tag, value: v as u64 }),
        ),
{
    if v == 0 {
        assert(fs + uint_field(tag, v) =~= fs);
    } else {
        lemma_read_episode_push(fs, Field::Varint { tag, value: v as u64 });
    }
}

proof fn lemma_episode_bytes(fs: Seq<Field>, tag: u32, data: Seq<u8>)
    requires
        data.len() == 0 ==> episode_with(read_episode(fs), (Field::Bytes { tag, data }))
            == read_episode(fs),
    ensures
        read_episode(fs + bytes_field(tag, data)) == episode_with(
            read_episode(fs),
            (Field::Bytes { tag, data }),
        ),
{
    if data.len() == 0 {
        assert(fs + bytes_field(tag, data) =~= fs);
    } else {
        lemma_read_episode_push(fs, Field::Bytes { tag, data });
    }
}

/// The numbers at the front of a game's message.
spec fn head_fields(m: EpisodeModel) -> Seq<Field> {
    uint_field(1, m.steps) + uint_field(2, m.board_channels) + uint_field(3, m.board_rows)
        + uint_field(4, m.board_cols) + uint_field(5, m.scalar_count) + uint_field(
        6,
        m.action_space,
    )
}

spec fn head_model(m: EpisodeModel) -> EpisodeModel {
    EpisodeModel {
        steps: m.steps,
        board_channels: m.board_channels,
        board_rows: m.board_rows,
        board_cols: m.board_cols,
        scalar_count: m.scalar_count,
        action_space: m.action_space,
        ..no_episode()
    }
}

proof fn lemma_head(m: EpisodeModel)
    ensures
        read_episode(head_fields(m)) == head_model(m),
{
    let e = Seq::<Field>::empty();
    let f1 = uint_field(1, m.steps);
    let f2 = f1 + uint_field(2, m.board_channels);
    let f3 = f2 + uint_field(3, m.board_rows);
    let f4 = f3 + uint_field(4, m.board_cols);
    let f5 = f4 + uint_field(5, m.scalar_count);
    assert(e + f1 =~= f1);
    assert(read_episode(e) == no_episode());
    lemma_episode_uint(e, 1, m.steps);
    lemma_episode_uint(f1, 2, m.board_channels);
    lemma_episode_uint(f2, 3, m.board_rows);
    lemma_episode_uint(f3, 4, m.board_cols);
    lemma_episode_uint(f4, 5, m.scalar_count);
    lemma_episode_uint(f5, 6, m.action_space);
}

/// The numbers and the byte strings of a game's message.
spec fn middle_fields(m: EpisodeModel) -> Seq<Field> {
    head_fields(m) + bytes_field(7, m.boards_bits) + bytes_field(8, m.scalars)
        + bytes_field(9, m.policies) + bytes_field(10, m.action_masks_bits)
        + bytes_field(11, m.mcts_values) + bytes_field(12, m.completed_qs)
        + bytes_field(13, m.game_results) + bytes_field(14, m.health_diffs)
        + bytes_field(15, m.root_visits) + bytes_field(16, m.actions)
        + bytes_field(17, m.is_full_search)
}

spec fn middle_model(m: EpisodeModel) -> EpisodeModel {
    EpisodeModel {
        steps: m.steps,
        board_channels: m.board_channels,
        board_rows: m.board_rows,
        board_cols: m.board_cols,
        scalar_count: m.scalar_count,
        action_space: m.action_space,
        boards_bits: m.boards_bits,
        scalars: m.scalars,
        policies: m.policies,
        action_masks_bits: m.action_masks_bits,
        mcts_values: m.mcts_values,
        completed_qs: m.completed_qs,
        game_results: m.game_results,
        health_diffs: m.health_diffs,
        root_visits: m.root_visits,
        actions: m.actions,
        is_full_search: m.is_full_search,
        ..no_episode()
    }
}

proof fn lemma_middle(m: EpisodeModel)
    ensures
        read_episode(middle_fields(m)) == middle_model(m),
{
    lemma_head(m);
    let g6 = head_fields(m);
    let g7 = g6 + bytes_field(7, m.boards_bits);
    let g8 = g7 + bytes_field(8, m.scalars);
    let g9 = g8 + bytes_field(9, m.policies);
    let g10 = g9 + bytes_field(10, m.action_masks_bits);
    let g11 = g10 + bytes_field(11, m.mcts_values);
    let g12 = g11 + bytes_field(12, m.completed_qs);
    let g13 = g12 + bytes_field(13, m.game_results);
    let g14 = g13 + bytes_field(14, m.health_diffs);
    let g15 = g14 + bytes_field(15, m.root_visits);
    let g16 = g15 + bytes_field(16, m.actions);
    let g17 = g16 + bytes_field(17, m.is_full_search);
    assert(m.boards_bits.len() == 0 ==> m.boards_bits =~= Seq::empty());
    lemma_episode_bytes(g6, 7, m.boards_bits);
    assert(m.scalars.len() == 0 ==> m.scalars =~= Seq::empty());
    lemma_episode_bytes(g7, 8, m.scalars);
    assert(m.policies.len() == 0 ==> m.policies =~= Seq::empty());
    lemma_episode_bytes(g8, 9, m.policies);
    assert(m.action_masks_bits.len() == 0 ==> m.action_masks_bits =~= Seq::empty());
    lemma_episode_bytes(g9, 10, m.action_masks_bits);
    assert(m.mcts_values.len() == 0 ==> m.mcts_values =~= Seq::empty());
    lemma_episode_bytes(g10, 11, m.mcts_values);
    assert(m.completed_qs.len() == 0 ==> m.completed_qs =~= Seq::empty());
    lemma_episode_bytes(g11, 12, m.completed_qs);
    assert(m.game_results.len() == 0 ==> m.game_results =~= Seq::empty());
    lemma_episode_bytes(g12, 13, m.game_results);
    assert(m.health_diffs.len() == 0 ==> m.health_diffs =~= Seq::empty());
    lemma_episode_bytes(g13, 14, m.health_diffs);
    assert(m.root_visits.len() == 0 ==> m.root_visits =~= Seq::empty());
    lemma_episode_bytes(g14, 15, m.root_visits);
    assert(m.actions.len() == 0 ==> m.actions =~= Seq::empty());
    lemma_episode_bytes(g15, 16, m.actions);
    assert(m.is_full_search.len() == 0 ==> m.is_full_search =~= Seq::empty());
    lemma_episode_bytes(g16, 17, m.is_full_search);
    assert(read_episode(middle_fields(m)) =~= middle_model(m));
}

proof fn lemma_episode_positions(fs: Seq<Field>, parts: Seq<Seq<u8>>)
    ensures
        read_episode(fs + repeated_field(22, parts)) == (EpisodeModel {
            positions: read_episode(fs).positions + parts,
            ..read_episode(fs)
        }),
    decreases parts.len(),
{
    let all = repeated_field(22, parts);
    if parts.len() == 0 {
        assert(fs + all =~= fs);
        assert(read_episode(fs).positions + parts =~= read_episode(fs).positions);
    } else {
        lemma_episode_positions(fs, parts.drop_last());
        assert(all =~= repeated_field(22, parts.drop_last()) + seq![all.last()]);
        assert(fs + all =~= fs + repeated_field(22, parts.drop_last()) + seq![all.last()]);
        lemma_read_episode_push(fs + repeated_field(22, parts.drop_last()), all.last());
        assert(read_episode(fs).positions + parts =~= (read_episode(fs).positions
            + parts.drop_last()).push(parts.last()));
    }
}

proof fn lemma_valid_join(a: Seq<Field>, b: Seq<Field>)
    requires
        all_valid(a),
        all_valid(b),
    ensures
        all_valid(a + b),
{
}

proof fn lemma_head_valid(m: EpisodeModel)
    ensures
        all_valid(head_fields(m)),
{
    let f1 = uint_field(1, m.steps);
    let f2 = f1 + uint_field(2, m.board_channels);
    let f3 = f2 + uint_field(3, m.board_rows);
    let f4 = f3 + uint_field(4, m.board_cols);
    let f5 = f4 + uint_field(5, m.scalar_count);
    lemma_valid_join(f1, uint_field(2, m.board_channels));
    lemma_valid_join(f2, uint_field(3, m.board_rows));
    lemma_valid_join(f3, uint_field(4, m.board_cols));
    lemma_valid_join(f4, uint_field(5, m.scalar_count));
    lemma_valid_join(f5, uint_field(6, m.action_space));
}

proof fn lemma_middle_valid(m: EpisodeModel)
    ensures
        all_valid(middle_fields(m)),
{
    lemma_head_valid(m);
    let g6 = head_fields(m);
    let g7 = g6 + bytes_field(7, m.boards_bits);
    let g8 = g7 + bytes_field(8, m.scalars);
    let g9 = g8 + bytes_field(9, m.policies);
    let g10 = g9 + bytes_field(10, m.action_masks_bits);
    let g11 = g10 + bytes_field(11, m.mcts_values);
    let g12 = g11 + bytes_field(12, m.completed_qs);
    let g13 = g12 + bytes_field(13, m.game_results);
    let g14 = g13 + bytes_field(14, m.health_diffs);
    let g15 = g14 + bytes_field(15, m.root_visits);
    let g16 = g15 + bytes_field(16, m.actions);
    let g17 = g16 + bytes_field(17, m.is_full_search);
    lemma_valid_join(g6, bytes_field(7, m.boards_bits));
    lemma_valid_join(g7, bytes_field(8, m.scalars));
    lemma_valid_join(g8, bytes_field(9, m.policies));
    lemma_valid_join(g9, bytes_field(10, m.action_masks_bits));
    lemma_valid_join(g10, bytes_field(11, m.mcts_values));
    lemma_valid_join(g11, bytes_field(12, m.completed_qs));
    lemma_valid_join(g12, bytes_field(13, m.game_results));
    lemma_valid_join(g13, bytes_field(14, m.health_diffs));
    lemma_valid_join(g14, bytes_field(15, m.root_visits));
    lemma_valid_join(g15, bytes_field(16, m.actions));
    lemma_valid_join(g16, bytes_field(17, m.is_full_search));
}

proof fn lemma_episode_valid(m: EpisodeModel)
    ensures
        all_valid(episode_fields(m)),
{
    let g17 = middle_fields(m);
    let g18 = g17 + uint_field(18, m.game_length);
    let g19 = g18 + int_option_field(19, m.winner);
    let g20 = g19 + word_option_field(20, m.health_diff_red);
    let g21 = g20 + features_option(21, m.nnue);
    lemma_middle_valid(m);
    lemma_valid_join(g17, uint_field(18, m.game_length));
    lemma_valid_join(g18, int_option_field(19, m.winner));
    lemma_valid_join(g19, word_option_field(20, m.health_diff_red));
    lemma_valid_join(g20, features_option(21, m.nnue));
    lemma_valid_join(g21, repeated_field(22, m.positions));
}

/// The message of a game up to its snapshots.
spec fn late_fields(m: EpisodeModel) -> Seq<Field> {
    middle_fields(m) + uint_field(18, m.game_length) + int_option_field(19, m.winner)
        + word_option_field(20, m.health_diff_red) + features_option(21, m.nnue)
}

proof fn lemma_late(m: EpisodeModel)
    ensures
        read_episode(late_fields(m)) == (EpisodeModel { positions: Seq::empty(), ..m }),
{
    lemma_middle(m);
    let g17 = middle_fields(m);
    let m17 = middle_model(m);
    let g18 = g17 + uint_field(18, m.game_length);
    let m18 = EpisodeModel { game_length: m.game_length, ..m17 };
    let g19 = g18 + int_option_field(19, m.winner);
    let m19 = EpisodeModel { winner: m.winner, ..m18 };
    let g20 = g19 + word_option_field(20, m.health_diff_red);
    let m20 = EpisodeModel { health_diff_red: m.health_diff_red, ..m19 };
    let g21 = g20 + features_option(21, m.nnue);
    let m21 = EpisodeModel { nnue: m.nnue, ..m20 };
    lemma_episode_uint(g17, 18, m.game_length);
    assert(read_episode(g18) == m18);
    assert(read_episode(g19) == m19) by {
        match m.winner {
            Some(v) => {
                lemma_read_episode_push(
                    g18,
                    Field::Varint { tag: 19, value: sign_extended(v) as u64 },
                );
            },
            None => {
                assert(g19 =~= g18);
            },
        }
    }
    assert(read_episode(g20) == m20) by {
        match m.health_diff_red {
            Some(word) => {
                lemma_read_episode_push(g19, Field::Fixed32 { tag: 20, word });
            },
            None => {
                assert(g20 =~= g19);
            },
        }
    }
    assert(read_episode(g21) == m21) by {
        match m.nnue {
            Some(f) => {
                law_features_read_back(f);
                lemma_read_episode_push(
                    g20,
                    Field::Bytes { tag: 21, data: message_bytes(features_fields(f)) },
                );
            },
            None => {
                assert(g21 =~= g20);
            },
        }
    }
}

/// Reading the message of a game gives back the whole record.
pub proof fn law_episode_reads_back(m: EpisodeModel)
    ensures
        read_message(message_bytes(episode_fields(m))) == Some(episode_fields(m)),
        read_episode(episode_fields(m)) == m,
{
    lemma_late(m);
    lemma_episode_positions(late_fields(m), m.positions);
    assert(late_fields(m) + repeated_field(22, m.positions) == episode_fields(m));
    assert(Seq::<Seq<u8>>::empty() + m.positions =~= m.positions);
    lemma_episode_valid(m);
    law_message_reads_back(episode_fields(m));
}

/// A game of an expectimax search before any field is read.
pub open spec fn no_nnue_episode() -> NnueEpisodeModel {
    NnueEpisodeModel {
        meta: no_meta(),
        steps: 0,
        features_indices: Seq::empty(),
        features_offsets: Seq::empty(),
        search_values: Seq::empty(),
        players: Seq::empty(),
        actions: Seq::empty(),
        game_length: 0,
        winner: None,
    }
}

/// `m` after one more field is read.
pub open spec fn nnue_episode_with(m: NnueEpisodeModel, f: Field) -> NnueEpisodeModel {
    match f {
        Field::Varint { tag, value } => if tag == 2 {
            NnueEpisodeModel { steps: value as u32, ..m }
        } else if tag == 8 {
            NnueEpisodeModel { game_length: value as u32, ..m }
        } else if tag == 9 {
            NnueEpisodeModel { winner: Some(signed64(value) as i32), ..m }
        } else {
            m
        },
        Field::Fixed32 { tag, word } => m,
        Field::Bytes { tag, data } => if tag == 1 {
            NnueEpisodeModel { meta: meta_in(data), ..m }
        } else if tag == 3 {
            NnueEpisodeModel { features_indices: data, ..m }
        } else if tag == 4 {
            NnueEpisodeModel { features_offsets: data, ..m }
        } else if tag == 5 {
            NnueEpisodeModel { search_values: data, ..m }
        } else if tag == 6 {
            NnueEpisodeModel { players: data, ..m }
        } else if tag == 7 {
            NnueEpisodeModel { actions: data, ..m }
        } else {
            m
        },
    }
}

/// The game of an expectimax search that the fields `fs` say.
pub open spec fn read_nnue_episode(fs: Seq<Field>) -> NnueEpisodeModel
    decreases fs.len(),
{
    if fs.len() == 0 {
        no_nnue_episode()
    } else {
        nnue_episode_with(read_nnue_episode(fs.drop_last()), fs.last())
    }
}

proof fn lemma_read_nnue_push(fs: Seq<Field>, f: Field)
    ensures
        read_nnue_episode(fs + seq![f]) == nnue_episode_with(read_nnue_episode(fs), f),
{
    assert((fs + seq![f]).drop_last() =~= fs);
}

proof fn lemma_nnue_uint(fs: Seq<Field>, tag: u32, v: u32)
    requires
        v == 0 ==> nnue_episode_with(read_nnue_episode(fs), (Field::Varint { tag, value: 0 }))
            == read_nnue_episode(fs),
    ensures
        read_nnue_episode(fs + uint_field(tag, v)) == nnue_episode_with(
            read_nnue_episode(fs),
            (Field::Varint { tag, value: v as u64 }),
        ),
{
    if v == 0 {
        assert(fs + uint_field(tag, v) =~= fs);
    } else {
        lemma_read_nnue_push(fs, Field::Varint { tag, value: v as u64 });
    }
}

proof fn lemma_nnue_bytes(fs: Seq<Field>, tag: u32, data: Seq<u8>)
    requires
        data.len() == 0 ==> nnue_episode_with(read_nnue_episode(fs), (Field::Bytes { tag, data }))
            == read_nnue_episode(fs),
    ensures
        read_nnue_episode(fs + bytes_field(tag, data)) == nnue_episode_with(
            read_nnue_episode(fs),
            (Field::Bytes { tag, data }),
        ),
{
    if data.len() == 0 {
        assert(fs + bytes_field(tag, data) =~= fs);
    } else {
        lemma_read_nnue_push(fs, Field::Bytes { tag, data });
    }
}

/// Reading the message of a game of an expectimax search gives back the whole record.
pub proof fn law_nnue_episode_reads_back(m: NnueEpisodeModel)
    ensures
        read_message(message_bytes(nnue_episode_fields(m))) == Some(nnue_episode_fields(m)),
        read_nnue_episode(nnue_episode_fields(m)) == m,
{
    let e = Seq::<Field>::empty();
    let f1 = nested(1, meta_fields(m.meta));
    let f2 = f1 + uint_field(2, m.steps);
    let f3 = f2 + bytes_field(3, m.features_indices);
    let f4 = f3 + bytes_field(4, m.features_offsets);
    let f5 = f4 + bytes_field(5, m.search_values);
    let f6 = f5 + bytes_field(6, m.players);
    let f7 = f6 + bytes_field(7, m.actions);
    let f8 = f7 + uint_field(8, m.game_length);
    let f9 = f8 + int_option_field(9, m.winner);
    assert(read_nnue_episode(f1) == NnueEpisodeModel { meta: m.meta, ..no_nnue_episode() }) by {
        assert(e + f1 =~= f1);
        assert(read_nnue_episode(e) == no_nnue_episode());
        lemma_read_nnue_push(e, f1[0]);
        law_meta_reads_back(m.meta);
    }
    assert(m.features_indices.len() == 0 ==> m.features_indices =~= Seq::empty());
    assert(m.features_offsets.len() == 0 ==> m.features_offsets =~= Seq::empty());
    assert(m.search_values.len() == 0 ==> m.search_values =~= Seq::empty());
    assert(m.players.len() == 0 ==> m.players =~= Seq::empty());
    assert(m.actions.len() == 0 ==> m.actions =~= Seq::empty());
    lemma_nnue_uint(f1, 2, m.steps);
    lemma_nnue_bytes(f2, 3, m.features_indices);
    lemma_nnue_bytes(f3, 4, m.features_offsets);
    lemma_nnue_bytes(f4, 5, m.search_values);
    lemma_nnue_bytes(f5, 6, m.players);
    lemma_nnue_bytes(f6, 7, m.actions);
    lemma_nnue_uint(f7, 8, m.game_length);
    assert(read_nnue_episode(f8) == NnueEpisodeModel { winner: None, ..m });
    assert(read_nnue_episode(f9) == m) by {
        match m.winner {
            Some(v) => {
                lemma_read_nnue_push(
                    f8,
                    Field::Varint { tag: 9, value: sign_extended(v) as u64 },
                );
            },
            None => {
                assert(f9 =~= f8);
            },
        }
    }
    assert(all_valid(nnue_episode_fields(m))) by {
        lemma_valid_join(f1, uint_field(2, m.steps));
        lemma_valid_join(f2, bytes_field(3, m.features_indices));
        lemma_valid_join(f3, bytes_field(4, m.features_offsets));
        lemma_valid_join(f4, bytes_field(5, m.search_values));
        lemma_valid_join(f5, bytes_field(6, m.players));
        lemma_valid_join(f6, bytes_field(7, m.actions));
        lemma_valid_join(f7, uint_field(8, m.game_length));
        lemma_valid_join(f8, int_option_field(9, m.winner));
    }
    law_message_reads_back(nnue_episode_fields(m));
}

/// What a reader takes from a batch: the version of the layout, the variant, and the messages of
/// the games.
#[verifier::ext_equal]
pub struct BatchModel {
    pub schema_version: u32,
    pub variant: Seq<char>,
    pub episodes: Seq<Seq<u8>>,
    pub nnue_episodes: Seq<Seq<u8>>,
}

/// `b` after one more field is read.
pub open spec fn batch_with(b: BatchModel, f: Field) -> BatchModel {
    match f {
        Field::Varint { tag, value } => if tag == 1 {
            BatchModel { schema_version: value as u32, ..b }
        } else {
            b
        },
        Field::Fixed32 { tag, word } => b,
        Field::Bytes { tag, data } => if tag == 2 {
            BatchModel { variant: vstd::utf8::decode_utf8(data), ..b }
        } else if tag == 3 {
            BatchModel { episodes: b.episodes.push(data), ..b }
        } else if tag == 4 {
            BatchModel { nnue_episodes: b.nnue_episodes.push(data), ..b }
        } else {
            b
        },
    }
}

/// The batch that the fields `fs` say.
pub open spec fn read_batch(fs: Seq<Field>) -> BatchModel
    decreases fs.len(),
{
    if fs.len() == 0 {
        BatchModel {
            schema_version: 0,
            variant: Seq::empty(),
            episodes: Seq::empty(),
            nnue_episodes: Seq::empty(),
        }
    } else {
        batch_with(read_batch(fs.drop_last()), fs.last())
    }
}

proof fn lemma_read_batch_push(fs: Seq<Field>, f: Field)
    ensures
        read_batch(fs + seq![f]) == batch_with(read_batch(fs), f),
{
    assert((fs + seq![f]).drop_last() =~= fs);
}

proof fn lemma_batch_repeated(fs: Seq<Field>, tag: u32, parts: Seq<Seq<u8>>)
    requires
        tag == 3 || tag == 4,
    ensures
        tag == 3 ==> read_batch(fs + repeated_field(tag, parts)) == (BatchModel {
            episodes: read_batch(fs).episodes + parts,
            ..read_batch(fs)
        }),
        tag == 4 ==> read_batch(fs + repeated_field(tag, parts)) == (BatchModel {
            nnue_episodes: read_batch(fs).nnue_episodes + parts,
            ..read_batch(fs)
        }),
    decreases parts.len(),
{
    let all = repeated_field(tag, parts);
    let b = read_batch(fs);
    if parts.len() == 0 {
        assert(fs + all =~= fs);
        assert(b.episodes + parts =~= b.episodes);
        assert(b.nnue_episodes + parts =~= b.nnue_episodes);
    } else {
        let init = parts.drop_last();
        lemma_batch_repeated(fs, tag, init);
        assert(all =~= repeated_field(tag, init) + seq![all.last()]);
        assert(fs + all =~= fs + repeated_field(tag, init) + seq![all.last()]);
        lemma_read_batch_push(fs + repeated_field(tag, init), all.last());
        assert(b.episodes + parts =~= (b.episodes + init).push(parts.last()));
        assert(b.nnue_episodes + parts =~= (b.nnue_episodes + init).push(parts.last()));
    }
}

/// Reading a batch gives back the version of the layout, the variant, and the message of every
/// game, in order.
pub proof fn law_batch_reads_back(
    variant: Seq<char>,
    episodes: Seq<Seq<u8>>,
    nnue_episodes: Seq<Seq<u8>>,
)
    ensures
        ({
            let fs = batch_fields(variant, episodes, nnue_episodes);
            &&& read_message(message_bytes(fs)) == Some(fs)
            &&& read_batch(fs) == (BatchModel {
                schema_version: SCHEMA_VERSION,
                variant,
                episodes,
                nnue_episodes,
            })
        }),
{
    let e = Seq::<Field>::empty();
    let f1 = uint_field(1, SCHEMA_VERSION);
    let f2 = f1 + text_field(2, variant);
    let f3 = f2 + repeated_field(3, episodes);
    assert(e + f1 =~= f1);
    lemma_read_batch_push(e, Field::Varint { tag: 1, value: SCHEMA_VERSION as u64 });
    assert(read_batch(f1).schema_version == SCHEMA_VERSION);
    if variant.len() == 0 {
        assert(f2 =~= f1);
        assert(variant =~= Seq::empty());
    } else {
        let data = vstd::utf8::encode_utf8(variant);
        lemma_read_batch_push(f1, Field::Bytes { tag: 2, data });
        vstd::utf8::encode_utf8_decode_utf8(variant);
    }
    lemma_batch_repeated(f2, 3, episodes);
    lemma_batch_repeated(f3, 4, nnue_episodes);
    assert(Seq::<Seq<u8>>::empty() + episodes =~= episodes);
    assert(Seq::<Seq<u8>>::empty() + nnue_episodes =~= nnue_episodes);
    lemma_valid_join(f1, text_field(2, variant));
    lemma_valid_join(f2, repeated_field(3, episodes));
    lemma_valid_join(f3, repeated_field(4, nnue_episodes));
    law_message_reads_back(batch_fields(variant, episodes, nnue_episodes));
}

} // verus!
