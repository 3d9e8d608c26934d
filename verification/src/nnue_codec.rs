//! Games of an expectimax search as records.

use vstd::prelude::*;

use crate::bits::{le32s, lemma_le32s_push, push_f32, push_i32, push_u32, twos_complement};
use crate::codec_error::{first_fault, too_large, u32_of, CodecError, Fault, Quantity};
use crate::episode::NnueEpisode;
use crate::features::{encode_nnue_features, features_fault, features_model, meta_of, meta_words};
use crate::records::{NnueEpisodeModel, NnueEpisodeRecord};

verus! {

/// The fault of lists that disagree about the number of steps.
pub open spec fn lengths_fault(ep: NnueEpisode) -> Option<Fault> {
    let steps = ep.features@.len();
    if ep.search_values@.len() != steps || ep.players@.len() != steps || ep.actions@.len()
        != steps {
        Some(
            CodecError::LengthMismatch {
                features: steps as usize,
                search_values: ep.search_values@.len() as usize,
                players: ep.players@.len() as usize,
                actions: ep.actions@.len() as usize,
            },
        )
    } else {
        None
    }
}

/// What is wrong with the mover or the action of step `k`, if anything.
pub open spec fn ply_fault(ep: NnueEpisode, k: int) -> Option<Fault> {
    let player = ep.players@[k];
    if player != 1 && player != -1 {
        Some(CodecError::BadPlayer { step: k as usize, player })
    } else {
        too_large(ep.actions@[k], Quantity::ActionIndex)
    }
}

/// The first fault of the movers and actions from step `k` on.
pub open spec fn plies_fault(ep: NnueEpisode, k: int) -> Option<Fault>
    decreases ep.players@.len() - k,
{
    if k >= ep.players@.len() {
        None
    } else {
        first_fault(ply_fault(ep, k), plies_fault(ep, k + 1))
    }
}

/// Why a game that has steps cannot be encoded, if so.
pub open spec fn nnue_episode_fault(ep: NnueEpisode) -> Option<Fault> {
    first_fault(
        lengths_fault(ep),
        first_fault(
            features_fault(ep.features@, ep.meta.feature_dim, 0),
            first_fault(
                plies_fault(ep, 0),
                first_fault(
                    too_large(ep.features@.len() as usize, Quantity::Steps),
                    too_large(ep.game_length, Quantity::GameLength),
                ),
            ),
        ),
    )
}

/// The movers as words.
pub open spec fn player_words(players: Seq<i32>) -> Seq<u32> {
    Seq::new(players.len(), |i: int| twos_complement(players[i]) as u32)
}

/// The actions as words.
pub open spec fn action_words(actions: Seq<usize>) -> Seq<u32> {
    Seq::new(actions.len(), |i: int| actions[i] as u32)
}

/// What the record of a game holds.
pub open spec fn nnue_model_of(ep: NnueEpisode) -> NnueEpisodeModel {
    NnueEpisodeModel {
        meta: meta_words(ep.meta),
        steps: ep.features@.len() as u32,
        features_indices: features_model(ep.meta, ep.features@).indices,
        features_offsets: features_model(ep.meta, ep.features@).offsets,
        search_values: le32s(ep.search_values@),
        players: le32s(player_words(ep.players@)),
        actions: le32s(action_words(ep.actions@)),
        game_length: ep.game_length as u32,
        winner: ep.winner,
    }
}

/// Checks and encodes the movers and the actions of a game.
fn plies(ep: &NnueEpisode) -> (res: Result<(Vec<u8>, Vec<u8>), CodecError>)
    requires
        ep.players@.len() == ep.actions@.len(),
    ensures
        match plies_fault(*ep, 0) {
            Some(e) => res is Err && res->Err_0@ == e,
            None => res is Ok && res->Ok_0.0@ == le32s(player_words(ep.players@))
                && res->Ok_0.1@ == le32s(action_words(ep.actions@)),
        },
{
    let steps: usize = ep.players.len();
    let mut players: Vec<u8> = Vec::new();
    let mut actions: Vec<u8> = Vec::new();
    let ghost movers = player_words(ep.players@);
    let ghost moves = action_words(ep.actions@);
    let mut i: usize = 0;
    assert(movers.take(0) =~= Seq::empty());
    assert(moves.take(0) =~= Seq::empty());
    while i < steps
        invariant
            i <= steps,
            steps == ep.players@.len(),
            steps == ep.actions@.len(),
            movers == player_words(ep.players@),
            moves == action_words(ep.actions@),
            plies_fault(*ep, 0) == plies_fault(*ep, i as int),
            players@ == le32s(movers.take(i as int)),
            actions@ == le32s(moves.take(i as int)),
        decreases steps - i,
    {
        let player: i32 = ep.players[i];
        if player != 1 && player != -1 {
            return Err(CodecError::BadPlayer { step: i, player });
        }
        let action: u32 = match u32_of(ep.actions[i], Quantity::ActionIndex) {
            Ok(action) => action,
            Err(e) => {
                return Err(e);
            },
        };
        push_i32(&mut players, player);
        push_u32(&mut actions, action);
        proof {
            lemma_le32s_push(movers.take(i as int), movers[i as int]);
            lemma_le32s_push(moves.take(i as int), moves[i as int]);
            assert(movers.take(i as int).push(movers[i as int]) =~= movers.take(i + 1));
            assert(moves.take(i as int).push(moves[i as int]) =~= moves.take(i + 1));
        }
        i += 1;
    }
    assert(movers.take(steps as int) =~= movers);
    assert(moves.take(steps as int) =~= moves);
    Ok((players, actions))
}

/// Encodes a game of an expectimax search. A game without steps has no record; a game that does not
/// fit the layout is an error.
pub fn encode_nnue_episode(ep: &NnueEpisode) -> (res: Result<
    Option<NnueEpisodeRecord>,
    CodecError,
>)
    ensures
        if ep.features@.len() == 0 {
            res == Ok::<Option<NnueEpisodeRecord>, CodecError>(None)
        } else {
            match nnue_episode_fault(*ep) {
                Some(e) => res is Err && res->Err_0@ == e,
                None => res is Ok && res->Ok_0 is Some && res->Ok_0->Some_0@ == nnue_model_of(*ep),
            }
        },
        res matches Ok(Some(rec)) ==> {
            &&& rec.winner == ep.winner
            &&& rec.game_length == ep.game_length
            &&& rec.steps == ep.features@.len()
        },
{
    let count: usize = ep.num_steps();
    if count == 0 {
        return Ok(None);
    }
    let values: usize = ep.search_values.len();
    let movers: usize = ep.players.len();
    let moves: usize = ep.actions.len();
    if values != count || movers != count || moves != count {
        return Err(
            CodecError::LengthMismatch {
                features: count,
                search_values: values,
                players: movers,
                actions: moves,
            },
        );
    }
    let features = match encode_nnue_features(&ep.meta, &ep.features) {
        Ok(features) => features,
        Err(e) => {
            return Err(e);
        },
    };
    let mut search_values: Vec<u8> = Vec::new();
    push_f32(&mut search_values, &ep.search_values);
    assert(search_values@ =~= le32s(ep.search_values@));
    let (players, actions) = match plies(ep) {
        Ok(plies) => plies,
        Err(e) => {
            return Err(e);
        },
    };
    let steps: u32 = match u32_of(count, Quantity::Steps) {
        Ok(v) => v,
        Err(e) => {
            return Err(e);
        },
    };
    let game_length: u32 = match u32_of(ep.game_length, Quantity::GameLength) {
        Ok(v) => v,
        Err(e) => {
            return Err(e);
        },
    };
    Ok(
        Some(
            NnueEpisodeRecord {
                meta: meta_of(&ep.meta),
                steps,
                features_indices: features.indices,
                features_offsets: features.offsets,
                search_values,
                players,
                actions,
                game_length,
                winner: ep.winner,
            },
        ),
    )
}

} // verus!
