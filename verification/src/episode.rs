//! What self-play produces: games, their samples, and what a search said about each position.

use vstd::prelude::*;

verus! {

/// A single-precision number, held as its bit pattern.
pub type F32Bits = u32;

/// The bit pattern of `1.0`.
pub const F32_ONE: F32Bits = 0x3f80_0000;

/// The bit pattern of `-0.0`, which compares equal to `0.0`.
pub const F32_NEGATIVE_ZERO: F32Bits = 0x8000_0000;

/// One of the two sides.
#[derive(Clone, Copy, Debug, PartialEq, Eq, Structural)]
pub enum Player {
    Red,
    Black,
}

/// What a network sees of a position: a board of 0/1 planes and a vector of scalars, both dense and
/// in row-major order.
#[derive(Debug, Clone)]
pub struct ResNetObservation {
    /// The extents of the board tensor: channels, rows, columns.
    pub shape: Vec<usize>,
    pub board: Vec<F32Bits>,
    pub scalars: Vec<F32Bits>,
}

impl ResNetObservation {
    /// An observation from flat data and the extents (channels, rows, columns) of the board.
    pub fn from_flat(
        board: Vec<F32Bits>,
        scalars: Vec<F32Bits>,
        shape: (usize, usize, usize),
    ) -> (res: Self)
        ensures
            res.board == board,
            res.scalars == scalars,
            res.shape@ == seq![shape.0, shape.1, shape.2],
    {
        let mut extents: Vec<usize> = Vec::new();
        extents.push(shape.0);
        extents.push(shape.1);
        extents.push(shape.2);
        assert(extents@ =~= seq![shape.0, shape.1, shape.2]);
        ResNetObservation { shape: extents, board, scalars }
    }
}

/// One decision of a recorded game.
#[derive(Debug, Clone)]
pub struct Sample {
    pub obs: ResNetObservation,
    /// The improved policy of the search.
    pub policy: Vec<F32Bits>,
    pub mcts_value: F32Bits,
    pub completed_q: F32Bits,
    pub root_visits: u32,
    /// The result of the game for the side to move.
    pub game_result: F32Bits,
    /// 1 for a legal action, 0 for any other.
    pub mask: Vec<i32>,
    /// The action that was played.
    pub action: usize,
    /// The final difference in health for the side to move.
    pub health_diff: F32Bits,
    pub is_full_search: bool,
}

/// A recorded game.
#[derive(Debug, Clone)]
pub struct GameEpisode {
    pub samples: Vec<Sample>,
    pub game_length: usize,
    /// 1 where red won, -1 where black won, 0 for a draw, `None` for a game without a result.
    pub winner: Option<i32>,
    /// The final difference in health, from red's side.
    pub health_diff_red: Option<F32Bits>,
    /// Sparse features of every position, where they were collected.
    pub nnue: Option<(NnueEpisodeMeta, Vec<NnueStepFeatures>)>,
    /// A snapshot of every position, where they were collected.
    pub positions: Option<Vec<Vec<u8>>>,
}

/// The extents of a sparse feature space.
#[derive(Clone, Copy, Debug, PartialEq, Eq, Structural)]
pub struct NnueEpisodeMeta {
    pub feature_dim: usize,
    pub states_per_square: usize,
    pub bag_stride: usize,
    pub num_active: usize,
    pub total_positions: usize,
}

/// The active features of one position, seen from either side.
#[derive(Debug, Clone)]
pub struct NnueStepFeatures {
    pub mover: Vec<u16>,
    pub opponent: Vec<u16>,
}

/// A game recorded by an expectimax search.
#[derive(Debug, Clone)]
pub struct NnueEpisode {
    pub meta: NnueEpisodeMeta,
    pub features: Vec<NnueStepFeatures>,
    pub search_values: Vec<F32Bits>,
    /// 1 where red was to move, -1 where black was.
    pub players: Vec<i32>,
    pub actions: Vec<usize>,
    pub game_length: usize,
    pub winner: Option<i32>,
}

impl NnueEpisode {
    /// The number of recorded positions.
    pub fn num_steps(&self) -> (res: usize)
        ensures
            res == self.features@.len(),
    {
        self.features.len()
    }
}

} // verus!
