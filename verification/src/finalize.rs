//! From the steps of a game to its record.

use vstd::prelude::*;

use crate::episode::{F32Bits, GameEpisode, Player, Sample, F32_ONE};
use crate::search::SearchStep;

verus! {

/// The bit pattern of `-1.0`.
pub const F32_MINUS_ONE: F32Bits = 0xbf80_0000;

/// The result of a game for one side: 1 for a win, -1 for a loss, 0 for a draw or no result.
pub open spec fn result_for(winner: Option<i32>, player: Player) -> F32Bits {
    let own = match player {
        Player::Red => 1,
        Player::Black => -1,
    };
    match winner {
        Some(w) => if w != 1 && w != -1 {
            0
        } else if w == own {
            F32_ONE
        } else {
            F32_MINUS_ONE
        },
        None => 0,
    }
}

/// `bits` with the other sign.
pub open spec fn negated(bits: F32Bits) -> F32Bits {
    if bits >= 0x8000_0000 {
        (bits - 0x8000_0000) as F32Bits
    } else {
        (bits + 0x8000_0000) as F32Bits
    }
}

/// A difference in health, given from red's side, for one side; 0 where there is none.
pub open spec fn health_for(health_diff_red: Option<F32Bits>, player: Player) -> F32Bits {
    match health_diff_red {
        Some(bits) => match player {
            Player::Red => bits,
            Player::Black => negated(bits),
        },
        None => 0,
    }
}

/// The sample that a step leaves, once the game is over.
pub open spec fn sample_of(
    step: SearchStep,
    winner: Option<i32>,
    health_diff_red: Option<F32Bits>,
) -> Sample {
    Sample {
        obs: step.obs,
        policy: step.policy,
        mcts_value: step.mcts_value,
        completed_q: step.completed_q,
        root_visits: step.root_visits,
        game_result: result_for(winner, step.player),
        mask: step.mask,
        action: step.action,
        health_diff: health_for(health_diff_red, step.player),
        is_full_search: step.is_full_search,
    }
}

/// The samples of a game, once it is over.
pub open spec fn samples_of(
    steps: Seq<SearchStep>,
    winner: Option<i32>,
    health_diff_red: Option<F32Bits>,
) -> Seq<Sample> {
    Seq::new(steps.len(), |i: int| sample_of(steps[i], winner, health_diff_red))
}

fn result_bits(winner: Option<i32>, player: Player) -> (res: F32Bits)
    ensures
        res == result_for(winner, player),
{
    let own: i32 = match player {
        Player::Red => 1,
        Player::Black => -1,
    };
    match winner {
        Some(w) => if w != 1 && w != -1 {
            0
        } else if w == own {
            F32_ONE
        } else {
            F32_MINUS_ONE
        },
        None => 0,
    }
}

fn health_bits(health_diff_red: Option<F32Bits>, player: Player) -> (res: F32Bits)
    ensures
        res == health_for(health_diff_red, player),
{
    match health_diff_red {
        Some(bits) => match player {
            Player::Red => bits,
            Player::Black => if bits >= 0x8000_0000 {
                bits - 0x8000_0000
            } else {
                bits + 0x8000_0000
            },
        },
        None => 0,
    }
}

/// Whether `ep` is the record of a game of these steps: every step leaves a sample, and snapshots are
/// kept where there is one for every step.
pub open spec fn is_final(
    ep: GameEpisode,
    steps: Seq<SearchStep>,
    winner: Option<i32>,
    health_diff_red: Option<F32Bits>,
    positions: Option<Vec<Vec<u8>>>,
) -> bool {
    &&& ep.samples@ == samples_of(steps, winner, health_diff_red)
    &&& ep.game_length == steps.len()
    &&& ep.winner == winner
    &&& ep.health_diff_red == health_diff_red
    &&& ep.nnue is None
    &&& ep.positions == match positions {
        Some(list) => if list@.len() == steps.len() {
            positions
        } else {
            None
        },
        None => None,
    }
}

/// The steps, every one marked as a full search.
pub open spec fn all_full(steps: Seq<SearchStep>) -> Seq<SearchStep> {
    Seq::new(steps.len(), |i: int| SearchStep { is_full_search: true, ..steps[i] })
}

/// The record of a game whose searches were all full ones.
pub fn finalize_full_search(
    steps: Vec<SearchStep>,
    winner: Option<i32>,
    health_diff_red: Option<F32Bits>,
    positions: Option<Vec<Vec<u8>>>,
) -> (res: GameEpisode)
    ensures
        is_final(res, all_full(steps@), winner, health_diff_red, positions),
        forall|i: int|
            0 <= i < res.samples@.len() ==> (#[trigger] res.samples@[i]).is_full_search,
        res.samples@.len() == steps@.len(),
        forall|k: int|
            #![trigger res.samples@[k]]
            0 <= k < steps@.len() ==> {
                &&& res.samples@[k].obs == steps@[k].obs
                &&& res.samples@[k].policy == steps@[k].policy
                &&& res.samples@[k].mcts_value == steps@[k].mcts_value
                &&& res.samples@[k].completed_q == steps@[k].completed_q
                &&& res.samples@[k].root_visits == steps@[k].root_visits
                &&& res.samples@[k].mask == steps@[k].mask
                &&& res.samples@[k].action == steps@[k].action
            },
{
    let ghost all = steps@;
    let mut full: Vec<SearchStep> = Vec::new();
    for step in it: steps
        invariant
            it.seq() == all,
            full@ == all_full(all).take(it.index() as int),
    {
        let ghost k = it.index() as int;
        full.push(SearchStep { is_full_search: true, ..step });
        assert(full@ =~= all_full(all).take(k + 1));
    }
    assert(full@ =~= all_full(all));
    finalize_episode(full, winner, health_diff_red, positions)
}

/// The record of a game that is over: every step becomes a sample that tells the result and the
/// difference in health from the side that was to move. Snapshots that are not one for every step
/// are dropped.
pub fn finalize_episode(
    steps: Vec<SearchStep>,
    winner: Option<i32>,
    health_diff_red: Option<F32Bits>,
    positions: Option<Vec<Vec<u8>>>,
) -> (res: GameEpisode)
    ensures
        is_final(res, steps@, winner, health_diff_red, positions),
        res.samples@.len() == steps@.len(),
        forall|k: int|
            #![trigger res.samples@[k]]
            0 <= k < steps@.len() ==> {
                &&& res.samples@[k].obs == steps@[k].obs
                &&& res.samples@[k].policy == steps@[k].policy
                &&& res.samples@[k].mcts_value == steps@[k].mcts_value
                &&& res.samples@[k].completed_q == steps@[k].completed_q
                &&& res.samples@[k].root_visits == steps@[k].root_visits
                &&& res.samples@[k].mask == steps@[k].mask
                &&& res.samples@[k].action == steps@[k].action
                &&& res.samples@[k].is_full_search == steps@[k].is_full_search
            },
{
    let game_length: usize = steps.len();
    let mut samples: Vec<Sample> = Vec::new();
    let ghost all = steps@;
    for step in it: steps
        invariant
            it.seq() == all,
            samples@ == samples_of(all, winner, health_diff_red).take(it.index() as int),
    {
        let ghost k = it.index() as int;
        let game_result: F32Bits = result_bits(winner, step.player);
        let health_diff: F32Bits = health_bits(health_diff_red, step.player);
        samples.push(
            Sample {
                obs: step.obs,
                policy: step.policy,
                mcts_value: step.mcts_value,
                completed_q: step.completed_q,
                root_visits: step.root_visits,
                game_result,
                mask: step.mask,
                action: step.action,
                health_diff,
                is_full_search: step.is_full_search,
            },
        );
        assert(samples@ =~= samples_of(all, winner, health_diff_red).take(k + 1));
    }
    assert(samples@ =~= samples_of(all, winner, health_diff_red));
    let positions = match positions {
        Some(list) => if list.len() == game_length {
            Some(list)
        } else {
            None
        },
        None => None,
    };
    GameEpisode { samples, game_length, winner, health_diff_red, nnue: None, positions }
}

/// Sample `k` carries what the search of step `k` said, field by field.
pub proof fn law_samples_carry_the_search(
    ep: GameEpisode,
    steps: Seq<SearchStep>,
    winner: Option<i32>,
    health_diff_red: Option<F32Bits>,
    positions: Option<Vec<Vec<u8>>>,
    k: int,
)
    requires
        is_final(ep, steps, winner, health_diff_red, positions),
        0 <= k < steps.len(),
    ensures
        ep.samples@.len() == steps.len(),
        ep.samples@[k].obs == steps[k].obs,
        ep.samples@[k].policy == steps[k].policy,
        ep.samples@[k].mcts_value == steps[k].mcts_value,
        ep.samples@[k].completed_q == steps[k].completed_q,
        ep.samples@[k].root_visits == steps[k].root_visits,
        ep.samples@[k].mask == steps[k].mask,
        ep.samples@[k].action == steps[k].action,
        ep.samples@[k].is_full_search == steps[k].is_full_search,
{
}

/// Sample `k` tells the result from the side that was to move: `1.0` exactly where that side won,
/// `-1.0` exactly where the other one did, else `0.0`.
pub proof fn law_samples_tell_the_result(
    ep: GameEpisode,
    steps: Seq<SearchStep>,
    winner: Option<i32>,
    health_diff_red: Option<F32Bits>,
    positions: Option<Vec<Vec<u8>>>,
    k: int,
)
    requires
        is_final(ep, steps, winner, health_diff_red, positions),
        0 <= k < steps.len(),
    ensures
        ({
            let red = steps[k].player is Red;
            let told = ep.samples@[k].game_result;
            &&& told == 0x3f80_0000 <==> (red && winner == Some(1i32)) || (!red && winner == Some(
                -1i32,
            ))
            &&& told == 0xbf80_0000 <==> (red && winner == Some(-1i32)) || (!red && winner == Some(
                1i32,
            ))
            &&& told == 0 || told == 0x3f80_0000 || told == 0xbf80_0000
        }),
{
}

/// Sample `k` tells the difference in health from the side that was to move: red's as it is, black's
/// with the sign bit turned round and no other; `0.0` where there is none.
pub proof fn law_samples_tell_the_health(
    ep: GameEpisode,
    steps: Seq<SearchStep>,
    winner: Option<i32>,
    health_diff_red: Option<F32Bits>,
    positions: Option<Vec<Vec<u8>>>,
    k: int,
)
    requires
        is_final(ep, steps, winner, health_diff_red, positions),
        0 <= k < steps.len(),
    ensures
        health_diff_red is None ==> ep.samples@[k].health_diff == 0,
        health_diff_red matches Some(h) ==> {
            if steps[k].player is Red {
                ep.samples@[k].health_diff == h
            } else {
                ep.samples@[k].health_diff == h ^ 0x8000_0000u32
            }
        },
{
    if let Some(h) = health_diff_red {
        let n = negated(h);
        assert(n == h ^ 0x8000_0000u32) by (bit_vector)
            requires
                h >= 0x8000_0000u32 ==> n == h - 0x8000_0000u32,
                h < 0x8000_0000u32 ==> n == h + 0x8000_0000u32,
        ;
    }
}

/// A record keeps how the game ended and how long it was, and its snapshots exactly where there is
/// one for every step; it has no sparse features.
pub proof fn law_record_keeps_the_game(
    ep: GameEpisode,
    steps: Seq<SearchStep>,
    winner: Option<i32>,
    health_diff_red: Option<F32Bits>,
    positions: Option<Vec<Vec<u8>>>,
)
    requires
        is_final(ep, steps, winner, health_diff_red, positions),
    ensures
        ep.winner == winner,
        ep.health_diff_red == health_diff_red,
        ep.game_length == steps.len(),
        ep.samples@.len() == steps.len(),
        ep.nnue is None,
        positions matches Some(list) ==> if list@.len() == steps.len() {
            ep.positions == Some(list)
        } else {
            ep.positions is None
        },
        positions is None ==> ep.positions is None,
{
}

/// Marking steps as full searches changes nothing else of them.
pub proof fn law_marking_full_keeps_the_search(steps: Seq<SearchStep>, k: int)
    requires
        0 <= k < steps.len(),
    ensures
        all_full(steps).len() == steps.len(),
        all_full(steps)[k].is_full_search,
        all_full(steps)[k].obs == steps[k].obs,
        all_full(steps)[k].policy == steps[k].policy,
        all_full(steps)[k].mcts_value == steps[k].mcts_value,
        all_full(steps)[k].completed_q == steps[k].completed_q,
        all_full(steps)[k].root_visits == steps[k].root_visits,
        all_full(steps)[k].player == steps[k].player,
        all_full(steps)[k].mask == steps[k].mask,
        all_full(steps)[k].action == steps[k].action,
{
}

/// The two sides see opposite results.
pub proof fn law_results_are_opposite(winner: Option<i32>)
    ensures
        result_for(winner, Player::Black) == F32_ONE <==> result_for(winner, Player::Red)
            == F32_MINUS_ONE,
        result_for(winner, Player::Black) == F32_MINUS_ONE <==> result_for(winner, Player::Red)
            == F32_ONE,
        result_for(winner, Player::Black) == 0 <==> result_for(winner, Player::Red) == 0,
{
}

/// Seeing a difference in health from the other side twice gives it back.
pub proof fn law_negation_is_involutive(bits: F32Bits)
    ensures
        negated(negated(bits)) == bits,
{
}

} // verus!
