//! Why a game cannot be encoded.

use vstd::prelude::*;

verus! {

/// The extents of a board tensor.
#[derive(Clone, Copy, Debug, PartialEq, Eq, Structural)]
pub struct BoardShape {
    pub channels: usize,
    pub rows: usize,
    pub cols: usize,
}

/// A number that a record holds in 32 bits.
#[derive(Clone, Copy, Debug, PartialEq, Eq, Structural)]
pub enum Quantity {
    Steps,
    BoardChannels,
    BoardRows,
    BoardCols,
    ScalarCount,
    ActionSpace,
    GameLength,
    ActionIndex,
    FeatureCount,
}

/// The side whose features a list holds.
#[derive(Clone, Copy, Debug, PartialEq, Eq, Structural)]
pub enum FeatureSide {
    Mover,
    Opponent,
}

/// Why a game cannot be encoded. Every variant says where the fault is. `E` is how the extents of a
/// board tensor are listed.
#[derive(Clone, Debug, PartialEq, Eq)]
pub enum CodecError<E = Vec<usize>> {
    /// The board tensor has not three extents, all positive.
    BadShape { step: usize, extents: E },
    /// The first step has no scalars or no actions.
    ZeroDimension { scalar_count: usize, action_space: usize },
    ShapeMismatch { step: usize, shape: BoardShape, expected_shape: BoardShape },
    ScalarMismatch { step: usize, found: usize, expected: usize },
    PolicyMismatch { step: usize, found: usize, expected: usize },
    MaskMismatch { step: usize, found: usize, expected: usize },
    /// The board has not as many elements as its extents say. `implied` is that number, where
    /// memory could hold so many.
    BoardSize { step: usize, found: usize, implied: Option<usize> },
    /// A board element, given as its bit pattern, is neither 0 nor 1.
    BoardNotBinary { step: usize, index: usize, bits: u32 },
    /// An entry of the action mask is neither 0 nor 1.
    MaskNotBinary { step: usize, index: usize, entry: i32 },
    /// A number does not fit 32 bits.
    TooLarge { what: Quantity, value: usize },
    /// There are not as many steps with sparse features as there are samples.
    FeatureSteps { found: usize, expected: usize },
    /// There are not as many position snapshots as there are samples.
    PositionCount { found: usize, expected: usize },
    /// A feature index is not below the size of the feature space.
    FeatureIndex { side: FeatureSide, step: usize, feature: u16, feature_dim: usize },
    /// More features than 32 bits can count.
    FeatureOffset { side: FeatureSide, step: usize },
    /// The lists of a game disagree about the number of its steps.
    LengthMismatch { features: usize, search_values: usize, players: usize, actions: usize },
    /// A side to move that is neither 1 nor -1.
    BadPlayer { step: usize, player: i32 },
}

/// What an error says, with the extents as a sequence.
pub type Fault = CodecError<Seq<usize>>;

impl View for CodecError {
    type V = Fault;

    open spec fn view(&self) -> Fault {
        match *self {
            CodecError::BadShape { step, extents } => CodecError::BadShape { step, extents: extents@ },
            CodecError::ZeroDimension { scalar_count, action_space } => CodecError::ZeroDimension {
                scalar_count,
                action_space,
            },
            CodecError::ShapeMismatch { step, shape, expected_shape } => CodecError::ShapeMismatch {
                step,
                shape,
                expected_shape,
            },
            CodecError::ScalarMismatch { step, found, expected } => CodecError::ScalarMismatch {
                step,
                found,
                expected,
            },
            CodecError::PolicyMismatch { step, found, expected } => CodecError::PolicyMismatch {
                step,
                found,
                expected,
            },
            CodecError::MaskMismatch { step, found, expected } => CodecError::MaskMismatch {
                step,
                found,
                expected,
            },
            CodecError::BoardSize { step, found, implied } => CodecError::BoardSize {
                step,
                found,
                implied,
            },
            CodecError::BoardNotBinary { step, index, bits } => CodecError::BoardNotBinary {
                step,
                index,
                bits,
            },
            CodecError::MaskNotBinary { step, index, entry } => CodecError::MaskNotBinary {
                step,
                index,
                entry,
            },
            CodecError::TooLarge { what, value } => CodecError::TooLarge { what, value },
            CodecError::FeatureSteps { found, expected } => CodecError::FeatureSteps {
                found,
                expected,
            },
            CodecError::PositionCount { found, expected } => CodecError::PositionCount {
                found,
                expected,
            },
            CodecError::FeatureIndex { side, step, feature, feature_dim } => CodecError::FeatureIndex {
                side,
                step,
                feature,
                feature_dim,
            },
            CodecError::FeatureOffset { side, step } => CodecError::FeatureOffset { side, step },
            CodecError::LengthMismatch { features, search_values, players, actions } => CodecError::LengthMismatch {
                features,
                search_values,
                players,
                actions,
            },
            CodecError::BadPlayer { step, player } => CodecError::BadPlayer { step, player },
        }
    }
}

/// The first of two faults.
pub open spec fn first_fault(a: Option<Fault>, b: Option<Fault>) -> Option<Fault> {
    if a is Some {
        a
    } else {
        b
    }
}

/// The fault of a number that does not fit 32 bits.
pub open spec fn too_large(value: usize, what: Quantity) -> Option<Fault> {
    if value > u32::MAX {
        Some(CodecError::TooLarge { what, value })
    } else {
        None
    }
}

/// `value` in 32 bits; an error where it does not fit.
pub fn u32_of(value: usize, what: Quantity) -> (res: Result<u32, CodecError>)
    ensures
        match too_large(value, what) {
            Some(e) => res is Err && res->Err_0@ == e,
            None => res == Ok::<u32, CodecError>(value as u32) && value as u32 == value,
        },
{
    if value > u32::MAX as usize {
        Err(CodecError::TooLarge { what, value })
    } else {
        Ok(value as u32)
    }
}

} // verus!
