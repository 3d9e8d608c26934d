//! Training records and their messages.
//!
//! A batch of records is one message; every game is a message nested in it. The numbers of the
//! fields are the contract with the reader.

use vstd::prelude::*;

use crate::episode::F32Bits;
use crate::features::{FeaturesModel, NnueFeatures, NnueMeta};
use crate::wire::{
    bytes_field, contents, int_option_field, message_bytes, repeated_field, text_field, uint_field,
    word_option_field, Field, MessageWriter,
};

verus! {

/// The layout that records have. A reader refuses a version that it does not know.
pub const SCHEMA_VERSION: u32 = 1;

/// A game recorded by a Gumbel tree search.
#[derive(Debug)]
pub struct EpisodeRecord {
    pub steps: u32,
    pub board_channels: u32,
    pub board_rows: u32,
    pub board_cols: u32,
    pub scalar_count: u32,
    pub action_space: u32,
    pub boards_bits: Vec<u8>,
    pub scalars: Vec<u8>,
    pub policies: Vec<u8>,
    pub action_masks_bits: Vec<u8>,
    pub mcts_values: Vec<u8>,
    pub completed_qs: Vec<u8>,
    pub game_results: Vec<u8>,
    pub health_diffs: Vec<u8>,
    pub root_visits: Vec<u8>,
    pub actions: Vec<u8>,
    pub is_full_search: Vec<u8>,
    pub game_length: u32,
    pub winner: Option<i32>,
    pub health_diff_red: Option<F32Bits>,
    pub nnue: Option<NnueFeatures>,
    pub positions: Vec<Vec<u8>>,
}

/// What the record of a game holds.
#[verifier::ext_equal]
pub struct EpisodeModel {
    pub steps: u32,
    pub board_channels: u32,
    pub board_rows: u32,
    pub board_cols: u32,
    pub scalar_count: u32,
    pub action_space: u32,
    pub boards_bits: Seq<u8>,
    pub scalars: Seq<u8>,
    pub policies: Seq<u8>,
    pub action_masks_bits: Seq<u8>,
    pub mcts_values: Seq<u8>,
    pub completed_qs: Seq<u8>,
    pub game_results: Seq<u8>,
    pub health_diffs: Seq<u8>,
    pub root_visits: Seq<u8>,
    pub actions: Seq<u8>,
    pub is_full_search: Seq<u8>,
    pub game_length: u32,
    pub winner: Option<i32>,
    pub health_diff_red: Option<F32Bits>,
    pub nnue: Option<FeaturesModel>,
    pub positions: Seq<Seq<u8>>,
}

impl View for EpisodeRecord {
    type V = EpisodeModel;

    open spec fn view(&self) -> EpisodeModel {
        EpisodeModel {
            steps: self.steps,
            board_channels: self.board_channels,
            board_rows: self.board_rows,
            board_cols: self.board_cols,
            scalar_count: self.scalar_count,
            action_space: self.action_space,
            boards_bits: self.boards_bits@,
            scalars: self.scalars@,
            policies: self.policies@,
            action_masks_bits: self.action_masks_bits@,
            mcts_values: self.mcts_values@,
            completed_qs: self.completed_qs@,
            game_results: self.game_results@,
            health_diffs: self.health_diffs@,
            root_visits: self.root_visits@,
            actions: self.actions@,
            is_full_search: self.is_full_search@,
            game_length: self.game_length,
            winner: self.winner,
            health_diff_red: self.health_diff_red,
            nnue: match self.nnue {
                Some(n) => Some(n@),
                None => None,
            },
            positions: contents(self.positions@),
        }
    }
}

/// A game recorded by an expectimax search.
#[derive(Debug)]
pub struct NnueEpisodeRecord {
    pub meta: NnueMeta,
    pub steps: u32,
    pub features_indices: Vec<u8>,
    pub features_offsets: Vec<u8>,
    pub search_values: Vec<u8>,
    pub players: Vec<u8>,
    pub actions: Vec<u8>,
    pub game_length: u32,
    pub winner: Option<i32>,
}

/// What the record of such a game holds.
#[verifier::ext_equal]
pub struct NnueEpisodeModel {
    pub meta: NnueMeta,
    pub steps: u32,
    pub features_indices: Seq<u8>,
    pub features_offsets: Seq<u8>,
    pub search_values: Seq<u8>,
    pub players: Seq<u8>,
    pub actions: Seq<u8>,
    pub game_length: u32,
    pub winner: Option<i32>,
}

impl View for NnueEpisodeRecord {
    type V = NnueEpisodeModel;

    open spec fn view(&self) -> NnueEpisodeModel {
        NnueEpisodeModel {
            meta: self.meta,
            steps: self.steps,
            features_indices: self.features_indices@,
            features_offsets: self.features_offsets@,
            search_values: self.search_values@,
            players: self.players@,
            actions: self.actions@,
            game_length: self.game_length,
            winner: self.winner,
        }
    }
}

/// The fields of the extents of a feature space.
pub open spec fn meta_fields(m: NnueMeta) -> Seq<Field> {
    uint_field(1, m.feature_dim) + uint_field(2, m.states_per_square) + uint_field(3, m.bag_stride)
        + uint_field(4, m.num_active) + uint_field(5, m.total_positions)
}

/// A nested message, which is written even where it is empty.
pub open spec fn nested(tag: u32, fields: Seq<Field>) -> Seq<Field> {
    seq![Field::Bytes { tag, data: message_bytes(fields) }]
}

/// The fields of sparse features.
pub open spec fn features_fields(m: FeaturesModel) -> Seq<Field> {
    nested(1, meta_fields(m.meta)) + bytes_field(2, m.indices) + bytes_field(3, m.offsets)
}

/// A nested message of sparse features, where there are any.
pub open spec fn features_option(tag: u32, m: Option<FeaturesModel>) -> Seq<Field> {
    match m {
        Some(f) => nested(tag, features_fields(f)),
        None => Seq::empty(),
    }
}

/// The fields of a game.
pub open spec fn episode_fields(m: EpisodeModel) -> Seq<Field> {
    uint_field(1, m.steps) + uint_field(2, m.board_channels) + uint_field(3, m.board_rows)
        + uint_field(4, m.board_cols) + uint_field(5, m.scalar_count) + uint_field(
        6,
        m.action_space,
    ) + bytes_field(7, m.boards_bits) + bytes_field(8, m.scalars) + bytes_field(9, m.policies)
        + bytes_field(10, m.action_masks_bits) + bytes_field(11, m.mcts_values) + bytes_field(
        12,
        m.completed_qs,
    ) + bytes_field(13, m.game_results) + bytes_field(14, m.health_diffs) + bytes_field(
        15,
        m.root_visits,
    ) + bytes_field(16, m.actions) + bytes_field(17, m.is_full_search) + uint_field(
        18,
        m.game_length,
    ) + int_option_field(19, m.winner) + word_option_field(20, m.health_diff_red)
        + features_option(21, m.nnue) + repeated_field(22, m.positions)
}

/// The fields of a game recorded by an expectimax search.
pub open spec fn nnue_episode_fields(m: NnueEpisodeModel) -> Seq<Field> {
    nested(1, meta_fields(m.meta)) + uint_field(2, m.steps) + bytes_field(3, m.features_indices)
        + bytes_field(4, m.features_offsets) + bytes_field(5, m.search_values) + bytes_field(
        6,
        m.players,
    ) + bytes_field(7, m.actions) + uint_field(8, m.game_length) + int_option_field(9, m.winner)
}

/// The fields of a batch, given the messages of its games.
pub open spec fn batch_fields(
    variant: Seq<char>,
    episodes: Seq<Seq<u8>>,
    nnue_episodes: Seq<Seq<u8>>,
) -> Seq<Field> {
    uint_field(1, SCHEMA_VERSION) + text_field(2, variant) + repeated_field(3, episodes)
        + repeated_field(4, nnue_episodes)
}

fn meta_message(meta: &NnueMeta) -> (res: Vec<u8>)
    ensures
        res@ == message_bytes(meta_fields(*meta)),
{
    let mut w = MessageWriter::new();
    w.uint(1, meta.feature_dim);
    w.uint(2, meta.states_per_square);
    w.uint(3, meta.bag_stride);
    w.uint(4, meta.num_active);
    w.uint(5, meta.total_positions);
    assert(w.fields() =~= meta_fields(*meta));
    w.finish()
}

fn features_message(features: &NnueFeatures) -> (res: Vec<u8>)
    ensures
        res@ == message_bytes(features_fields(features@)),
{
    let mut w = MessageWriter::new();
    let meta = meta_message(&features.meta);
    w.message(1, &meta);
    w.bytes(2, &features.indices);
    w.bytes(3, &features.offsets);
    assert(w.fields() =~= features_fields(features@));
    w.finish()
}

/// The message of a game.
pub fn episode_message(rec: &EpisodeRecord) -> (res: Vec<u8>)
    ensures
        res@ == message_bytes(episode_fields(rec@)),
{
    let mut w = MessageWriter::new();
    w.uint(1, rec.steps);
    w.uint(2, rec.board_channels);
    w.uint(3, rec.board_rows);
    w.uint(4, rec.board_cols);
    w.uint(5, rec.scalar_count);
    w.uint(6, rec.action_space);
    w.bytes(7, &rec.boards_bits);
    w.bytes(8, &rec.scalars);
    w.bytes(9, &rec.policies);
    w.bytes(10, &rec.action_masks_bits);
    w.bytes(11, &rec.mcts_values);
    w.bytes(12, &rec.completed_qs);
    w.bytes(13, &rec.game_results);
    w.bytes(14, &rec.health_diffs);
    w.bytes(15, &rec.root_visits);
    w.bytes(16, &rec.actions);
    w.bytes(17, &rec.is_full_search);
    w.uint(18, rec.game_length);
    w.int_option(19, rec.winner);
    w.word_option(20, rec.health_diff_red);
    let ghost before = w.fields();
    if let Some(features) = &rec.nnue {
        let message = features_message(features);
        w.message(21, &message);
    }
    assert(w.fields() =~= before + features_option(21, rec@.nnue));
    w.repeated(22, &rec.positions);
    proof {
        assert(Seq::<Field>::empty() + uint_field(1, rec.steps) =~= uint_field(1, rec.steps));
    }
    w.finish()
}

/// The message of a game recorded by an expectimax search.
pub fn nnue_episode_message(rec: &NnueEpisodeRecord) -> (res: Vec<u8>)
    ensures
        res@ == message_bytes(nnue_episode_fields(rec@)),
{
    let mut w = MessageWriter::new();
    let meta = meta_message(&rec.meta);
    w.message(1, &meta);
    assert(w.fields() =~= nested(1, meta_fields(rec.meta)));
    w.uint(2, rec.steps);
    w.bytes(3, &rec.features_indices);
    w.bytes(4, &rec.features_offsets);
    w.bytes(5, &rec.search_values);
    w.bytes(6, &rec.players);
    w.bytes(7, &rec.actions);
    w.uint(8, rec.game_length);
    w.int_option(9, rec.winner);
    w.finish()
}

/// The message of a batch, given the messages of its games.
pub fn batch_message(variant: &String, episodes: &Vec<Vec<u8>>, nnue_episodes: &Vec<Vec<u8>>) -> (res:
    Vec<u8>)
    ensures
        res@ == message_bytes(
            batch_fields(variant@, contents(episodes@), contents(nnue_episodes@)),
        ),
{
    let mut w = MessageWriter::new();
    w.uint(1, SCHEMA_VERSION);
    assert(w.fields() =~= uint_field(1, SCHEMA_VERSION));
    w.text(2, variant);
    w.repeated(3, episodes);
    w.repeated(4, nnue_episodes);
    w.finish()
}

proof fn lemma_in_either(a: Seq<Field>, b: Seq<Field>, f: Field)
    ensures
        (a + b).contains(f) ==> a.contains(f) || b.contains(f),
{
    if (a + b).contains(f) {
        let k = choose|k: int| 0 <= k < (a + b).len() && (a + b)[k] == f;
        if k < a.len() {
            assert(a[k] == f);
        } else {
            assert(b[k - a.len()] == f);
        }
    }
}

/// Every field of the message of a game stands under its own number: 1 to 6 the extents, 7 to 10 the
/// boards, scalars, policies and masks, 11 to 17 one value per step, 18 to 20 how the game ended, 21
/// the sparse features, 22 the snapshots.
pub proof fn law_fields_of_a_game(m: EpisodeModel, f: Field)
    requires
        episode_fields(m).contains(f),
    ensures
        match f {
            Field::Varint { tag, value } => {
                ||| tag == 1 && value == m.steps
                ||| tag == 2 && value == m.board_channels
                ||| tag == 3 && value == m.board_rows
                ||| tag == 4 && value == m.board_cols
                ||| tag == 5 && value == m.scalar_count
                ||| tag == 6 && value == m.action_space
                ||| tag == 18 && value == m.game_length
                ||| tag == 19 && m.winner is Some && (value - m.winner->Some_0)
                    % 0x1_0000_0000_0000_0000 == 0
            },
            Field::Fixed32 { tag, word } => tag == 20 && m.health_diff_red == Some(word),
            Field::Bytes { tag, data } => {
                ||| tag == 7 && data == m.boards_bits
                ||| tag == 8 && data == m.scalars
                ||| tag == 9 && data == m.policies
                ||| tag == 10 && data == m.action_masks_bits
                ||| tag == 11 && data == m.mcts_values
                ||| tag == 12 && data == m.completed_qs
                ||| tag == 13 && data == m.game_results
                ||| tag == 14 && data == m.health_diffs
                ||| tag == 15 && data == m.root_visits
                ||| tag == 16 && data == m.actions
                ||| tag == 17 && data == m.is_full_search
                ||| tag == 21 && m.nnue is Some && data == message_bytes(
                    features_fields(m.nnue->Some_0),
                )
                ||| tag == 22 && m.positions.contains(data)
            },
        },
{
    let q1 = uint_field(1, m.steps);
    let p1 = q1;
    let q2 = uint_field(2, m.board_channels);
    let p2 = p1 + q2;
    lemma_in_either(p1, q2, f);
    let q3 = uint_field(3, m.board_rows);
    let p3 = p2 + q3;
    lemma_in_either(p2, q3, f);
    let q4 = uint_field(4, m.board_cols);
    let p4 = p3 + q4;
    lemma_in_either(p3, q4, f);
    let q5 = uint_field(5, m.scalar_count);
    let p5 = p4 + q5;
    lemma_in_either(p4, q5, f);
    let q6 = uint_field(6, m.action_space);
    let p6 = p5 + q6;
    lemma_in_either(p5, q6, f);
    let q7 = bytes_field(7, m.boards_bits);
    let p7 = p6 + q7;
    lemma_in_either(p6, q7, f);
    let q8 = bytes_field(8, m.scalars);
    let p8 = p7 + q8;
    lemma_in_either(p7, q8, f);
    let q9 = bytes_field(9, m.policies);
    let p9 = p8 + q9;
    lemma_in_either(p8, q9, f);
    let q10 = bytes_field(10, m.action_masks_bits);
    let p10 = p9 + q10;
    lemma_in_either(p9, q10, f);
    let q11 = bytes_field(11, m.mcts_values);
    let p11 = p10 + q11;
    lemma_in_either(p10, q11, f);
    let q12 = bytes_field(12, m.completed_qs);
    let p12 = p11 + q12;
    lemma_in_either(p11, q12, f);
    let q13 = bytes_field(13, m.game_results);
    let p13 = p12 + q13;
    lemma_in_either(p12, q13, f);
    let q14 = bytes_field(14, m.health_diffs);
    let p14 = p13 + q14;
    lemma_in_either(p13, q14, f);
    let q15 = bytes_field(15, m.root_visits);
    let p15 = p14 + q15;
    lemma_in_either(p14, q15, f);
    let q16 = bytes_field(16, m.actions);
    let p16 = p15 + q16;
    lemma_in_either(p15, q16, f);
    let q17 = bytes_field(17, m.is_full_search);
    let p17 = p16 + q17;
    lemma_in_either(p16, q17, f);
    let q18 = uint_field(18, m.game_length);
    let p18 = p17 + q18;
    lemma_in_either(p17, q18, f);
    let q19 = int_option_field(19, m.winner);
    let p19 = p18 + q19;
    lemma_in_either(p18, q19, f);
    let q20 = word_option_field(20, m.health_diff_red);
    let p20 = p19 + q20;
    lemma_in_either(p19, q20, f);
    let q21 = features_option(21, m.nnue);
    let p21 = p20 + q21;
    lemma_in_either(p20, q21, f);
    let q22 = repeated_field(22, m.positions);
    let p22 = p21 + q22;
    lemma_in_either(p21, q22, f);
    assert(p22 == episode_fields(m));
    if q22.contains(f) {
        let k = choose|k: int| 0 <= k < q22.len() && q22[k] == f;
        assert(m.positions.contains(m.positions[k]));
    }
}

/// Every field of the message of a game of an expectimax search stands under its own number.
pub proof fn law_fields_of_an_nnue_game(m: NnueEpisodeModel, f: Field)
    requires
        nnue_episode_fields(m).contains(f),
    ensures
        match f {
            Field::Varint { tag, value } => {
                ||| tag == 2 && value == m.steps
                ||| tag == 8 && value == m.game_length
                ||| tag == 9 && m.winner is Some && (value - m.winner->Some_0)
                    % 0x1_0000_0000_0000_0000 == 0
            },
            Field::Fixed32 { tag, word } => false,
            Field::Bytes { tag, data } => {
                ||| tag == 1 && data == message_bytes(meta_fields(m.meta))
                ||| tag == 3 && data == m.features_indices
                ||| tag == 4 && data == m.features_offsets
                ||| tag == 5 && data == m.search_values
                ||| tag == 6 && data == m.players
                ||| tag == 7 && data == m.actions
            },
        },
{
    let q1 = nested(1, meta_fields(m.meta));
    let p1 = q1;
    let q2 = uint_field(2, m.steps);
    let p2 = p1 + q2;
    lemma_in_either(p1, q2, f);
    let q3 = bytes_field(3, m.features_indices);
    let p3 = p2 + q3;
    lemma_in_either(p2, q3, f);
    let q4 = bytes_field(4, m.features_offsets);
    let p4 = p3 + q4;
    lemma_in_either(p3, q4, f);
    let q5 = bytes_field(5, m.search_values);
    let p5 = p4 + q5;
    lemma_in_either(p4, q5, f);
    let q6 = bytes_field(6, m.players);
    let p6 = p5 + q6;
    lemma_in_either(p5, q6, f);
    let q7 = bytes_field(7, m.actions);
    let p7 = p6 + q7;
    lemma_in_either(p6, q7, f);
    let q8 = uint_field(8, m.game_length);
    let p8 = p7 + q8;
    lemma_in_either(p7, q8, f);
    let q9 = int_option_field(9, m.winner);
    let p9 = p8 + q9;
    lemma_in_either(p8, q9, f);
    assert(p9 == nnue_episode_fields(m));
}

/// Every field of the extents of a feature space stands under its own number.
pub proof fn law_fields_of_a_feature_space(m: NnueMeta, f: Field)
    requires
        meta_fields(m).contains(f),
    ensures
        match f {
            Field::Varint { tag, value } => {
                ||| tag == 1 && value == m.feature_dim
                ||| tag == 2 && value == m.states_per_square
                ||| tag == 3 && value == m.bag_stride
                ||| tag == 4 && value == m.num_active
                ||| tag == 5 && value == m.total_positions
            },
            _ => false,
        },
{
    let q1 = uint_field(1, m.feature_dim);
    let p1 = q1;
    let q2 = uint_field(2, m.states_per_square);
    let p2 = p1 + q2;
    lemma_in_either(p1, q2, f);
    let q3 = uint_field(3, m.bag_stride);
    let p3 = p2 + q3;
    lemma_in_either(p2, q3, f);
    let q4 = uint_field(4, m.num_active);
    let p4 = p3 + q4;
    lemma_in_either(p3, q4, f);
    let q5 = uint_field(5, m.total_positions);
    let p5 = p4 + q5;
    lemma_in_either(p4, q5, f);
    assert(p5 == meta_fields(m));
}

/// Every field of sparse features stands under its own number.
pub proof fn law_fields_of_features(m: FeaturesModel, f: Field)
    requires
        features_fields(m).contains(f),
    ensures
        match f {
            Field::Bytes { tag, data } => {
                ||| tag == 1 && data == message_bytes(meta_fields(m.meta))
                ||| tag == 2 && data == m.indices
                ||| tag == 3 && data == m.offsets
            },
            _ => false,
        },
{
    let q1 = nested(1, meta_fields(m.meta));
    let p1 = q1;
    let q2 = bytes_field(2, m.indices);
    let p2 = p1 + q2;
    lemma_in_either(p1, q2, f);
    let q3 = bytes_field(3, m.offsets);
    let p3 = p2 + q3;
    lemma_in_either(p2, q3, f);
    assert(p3 == features_fields(m));
}

/// A batch names version 1 of the layout, the board, and its games, each under its own number.
pub proof fn law_fields_of_a_batch(
    variant: Seq<char>,
    episodes: Seq<Seq<u8>>,
    nnue_episodes: Seq<Seq<u8>>,
    f: Field,
)
    requires
        batch_fields(variant, episodes, nnue_episodes).contains(f),
    ensures
        match f {
            Field::Varint { tag, value } => tag == 1 && value == 1,
            Field::Fixed32 { tag, word } => false,
            Field::Bytes { tag, data } => {
                ||| tag == 2 && data == vstd::utf8::encode_utf8(variant)
                ||| tag == 3 && episodes.contains(data)
                ||| tag == 4 && nnue_episodes.contains(data)
            },
        },
{
    let q1 = uint_field(1, SCHEMA_VERSION);
    let q2 = text_field(2, variant);
    let q3 = repeated_field(3, episodes);
    let q4 = repeated_field(4, nnue_episodes);
    lemma_in_either(q1 + q2 + q3, q4, f);
    lemma_in_either(q1 + q2, q3, f);
    lemma_in_either(q1, q2, f);
    if q3.contains(f) {
        let k = choose|k: int| 0 <= k < q3.len() && q3[k] == f;
        assert(episodes.contains(episodes[k]));
    }
    if q4.contains(f) {
        let k = choose|k: int| 0 <= k < q4.len() && q4[k] == f;
        assert(nnue_episodes.contains(nnue_episodes[k]));
    }
}

/// What a record holds is what it is written with, one buffer after the other.
pub proof fn law_views_of_records(rec: EpisodeRecord, nnue: NnueEpisodeRecord)
    ensures
        rec@.steps == rec.steps,
        rec@.board_channels == rec.board_channels,
        rec@.board_rows == rec.board_rows,
        rec@.board_cols == rec.board_cols,
        rec@.scalar_count == rec.scalar_count,
        rec@.action_space == rec.action_space,
        rec@.boards_bits == rec.boards_bits@,
        rec@.scalars == rec.scalars@,
        rec@.policies == rec.policies@,
        rec@.action_masks_bits == rec.action_masks_bits@,
        rec@.mcts_values == rec.mcts_values@,
        rec@.completed_qs == rec.completed_qs@,
        rec@.game_results == rec.game_results@,
        rec@.health_diffs == rec.health_diffs@,
        rec@.root_visits == rec.root_visits@,
        rec@.actions == rec.actions@,
        rec@.is_full_search == rec.is_full_search@,
        rec@.game_length == rec.game_length,
        rec@.winner == rec.winner,
        rec@.health_diff_red == rec.health_diff_red,
        rec@.nnue is Some <==> rec.nnue is Some,
        rec@.positions.len() == rec.positions@.len(),
        forall|i: int|
            0 <= i < rec.positions@.len() ==> #[trigger] rec@.positions[i] == rec.positions@[i]@,
        nnue@.meta == nnue.meta,
        nnue@.steps == nnue.steps,
        nnue@.features_indices == nnue.features_indices@,
        nnue@.features_offsets == nnue.features_offsets@,
        nnue@.search_values == nnue.search_values@,
        nnue@.players == nnue.players@,
        nnue@.actions == nnue.actions@,
        nnue@.game_length == nnue.game_length,
        nnue@.winner == nnue.winner,
{
}

} // verus!
