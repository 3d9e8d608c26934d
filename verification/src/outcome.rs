//! How games ended, and what they add up to.

use vstd::prelude::*;

use crate::episode::{GameEpisode, NnueEpisode};

verus! {

/// How one game ended.
#[derive(Debug)]
pub struct GameOutcome {
    /// 1 where the first player won, -1 where the second did, 0 for neither.
    pub result: i32,
    pub moves: usize,
    /// Whether the game counts as played, but neither as won nor as drawn nor as lost.
    pub void: bool,
    pub episode: Option<GameEpisode>,
    pub nnue_episode: Option<NnueEpisode>,
}

/// Whether `g` is the outcome of a game that leaves nothing.
pub open spec fn is_void(g: GameOutcome) -> bool {
    &&& g.result == 0
    &&& g.moves == 0
    &&& g.void
    &&& g.episode is None
    &&& g.nnue_episode is None
}

/// The outcome of a game that leaves nothing.
pub fn void_outcome() -> (res: GameOutcome)
    ensures
        is_void(res),
{
    GameOutcome { result: 0, moves: 0, void: true, episode: None, nnue_episode: None }
}

/// A winner, given as 1 for red and -1 for black, as the first player sees it.
pub open spec fn result_for_a(winner: Option<i32>, player_a_is_red: bool) -> i32 {
    match winner {
        Some(w) => if player_a_is_red || w == i32::MIN {
            w
        } else {
            (-w) as i32
        },
        None => 0,
    }
}

/// A winner, given as 1 for red and -1 for black, as the first player sees it: 1 for a win, -1 for a
/// loss, 0 for a draw or no result.
pub fn seen_by_a(winner: Option<i32>, player_a_is_red: bool) -> (res: i32)
    ensures
        res == result_for_a(winner, player_a_is_red),
{
    match winner {
        Some(w) => if player_a_is_red || w == i32::MIN {
            w
        } else {
            -w
        },
        None => 0,
    }
}

/// Changing the colours turns the result round.
pub proof fn law_colours_turn_the_result(winner: Option<i32>)
    requires
        winner != Some(i32::MIN),
    ensures
        result_for_a(winner, false) == -result_for_a(winner, true),
{
}

/// The outcome of a recorded game.
pub fn outcome_from_episode(episode: GameEpisode, player_a_is_red: bool) -> (res: GameOutcome)
    ensures
        res.result == result_for_a(episode.winner, player_a_is_red),
        res.moves == episode.game_length,
        !res.void,
        res.episode == Some(episode),
        res.nnue_episode is None,
{
    GameOutcome {
        result: seen_by_a(episode.winner, player_a_is_red),
        moves: episode.game_length,
        void: false,
        episode: Some(episode),
        nnue_episode: None,
    }
}

/// The outcome of a game that was not recorded.
pub fn outcome_unrecorded(winner: Option<i32>, player_a_is_red: bool, moves: usize) -> (res:
    GameOutcome)
    ensures
        res.result == result_for_a(winner, player_a_is_red),
        res.moves == moves,
        !res.void,
        res.episode is None,
        res.nnue_episode is None,
{
    GameOutcome {
        result: seen_by_a(winner, player_a_is_red),
        moves,
        void: false,
        episode: None,
        nnue_episode: None,
    }
}

/// How many of the first `k` games ended with `result` for the first player; void games do not count.
pub open spec fn games_with(games: Seq<GameOutcome>, result: int, k: int) -> int
    decreases k,
{
    if k <= 0 {
        0
    } else {
        games_with(games, result, k - 1) + if !games[k - 1].void && games[k - 1].result == result {
            1int
        } else {
            0
        }
    }
}

/// How many games the first player won, drew and lost.
#[derive(Clone, Copy, Debug, PartialEq, Eq, Structural)]
pub struct Tally {
    pub wins: usize,
    pub draws: usize,
    pub losses: usize,
}

/// Counts how many games the first player won, drew and lost. Void games do not count.
pub fn tally(games: &Vec<GameOutcome>) -> (res: Tally)
    ensures
        res.wins == games_with(games@, 1, games@.len() as int),
        res.draws == games_with(games@, 0, games@.len() as int),
        res.losses == games_with(games@, -1, games@.len() as int),
{
    let n: usize = games.len();
    let mut wins: usize = 0;
    let mut draws: usize = 0;
    let mut losses: usize = 0;
    let mut i: usize = 0;
    while i < n
        invariant
            i <= n,
            n == games@.len(),
            wins <= i,
            draws <= i,
            losses <= i,
            wins == games_with(games@, 1, i as int),
            draws == games_with(games@, 0, i as int),
            losses == games_with(games@, -1, i as int),
        decreases n - i,
    {
        if !games[i].void {
            let result: i32 = games[i].result;
            if result == 1 {
                wins += 1;
            } else if result == 0 {
                draws += 1;
            } else if result == -1 {
                losses += 1;
            }
        }
        i += 1;
    }
    Tally { wins, draws, losses }
}

/// The results of the first `k` pairs of games, less the pairs with a void game in them.
pub open spec fn paired_results(games: Seq<GameOutcome>, k: int) -> Seq<i32>
    decreases k,
{
    if k <= 0 {
        Seq::empty()
    } else if games[2 * k - 2].void || games[2 * k - 1].void {
        paired_results(games, k - 1)
    } else {
        paired_results(games, k - 1) + seq![games[2 * k - 2].result, games[2 * k - 1].result]
    }
}

/// The results of the games that pairs are counted from: two after the other make a pair, and a pair
/// with a void game in it does not count, nor does a last game without a partner.
pub fn results_in_pairs(games: &Vec<GameOutcome>) -> (res: Vec<i32>)
    ensures
        res@ == paired_results(games@, games@.len() as int / 2),
{
    let n: usize = games.len();
    let pairs: usize = n / 2;
    let mut res: Vec<i32> = Vec::new();
    let mut k: usize = 0;
    while k < pairs
        invariant
            k <= pairs,
            pairs == n / 2,
            n == games@.len(),
            res@ == paired_results(games@, k as int),
        decreases pairs - k,
    {
        let first = &games[2 * k];
        let second = &games[2 * k + 1];
        if !first.void && !second.void {
            let ghost before = res@;
            res.push(first.result);
            res.push(second.result);
            assert(res@ =~= before + seq![first.result, second.result]);
        }
        k += 1;
    }
    res
}

/// The first player wins exactly where the colour that won is their own, loses exactly where it is
/// the other one, and neither where nobody won.
pub proof fn law_first_player_wins_with_their_colour(winner: Option<i32>, player_a_is_red: bool)
    requires
        winner matches Some(w) ==> -1 <= w <= 1,
    ensures
        result_for_a(winner, player_a_is_red) == 1 <==> winner == Some(
            if player_a_is_red {
                1i32
            } else {
                -1i32
            },
        ),
        result_for_a(winner, player_a_is_red) == -1 <==> winner == Some(
            if player_a_is_red {
                -1i32
            } else {
                1i32
            },
        ),
        result_for_a(winner, player_a_is_red) == 0 <==> winner is None || winner == Some(0i32),
{
}

/// A tally counts exactly the games that are not void and ended with the result.
pub proof fn law_tally_counts_games(games: Seq<GameOutcome>, result: int, k: int)
    requires
        0 <= k <= games.len(),
    ensures
        games_with(games, result, k) == games.take(k).filter(
            |g: GameOutcome| !g.void && g.result == result,
        ).len(),
    decreases k,
{
    reveal(Seq::filter);
    if k > 0 {
        law_tally_counts_games(games, result, k - 1);
        assert(games.take(k).drop_last() =~= games.take(k - 1));
        assert(games.take(k).last() == games[k - 1]);
    }
}

/// Wins, draws and losses together are the games that are not void, where every game ended with one
/// of these.
pub proof fn law_tally_adds_up(games: Seq<GameOutcome>, k: int)
    requires
        0 <= k <= games.len(),
        forall|i: int| 0 <= i < games.len() ==> -1 <= (#[trigger] games[i]).result <= 1,
    ensures
        games_with(games, 1, k) + games_with(games, 0, k) + games_with(games, -1, k)
            == games.take(k).filter(|g: GameOutcome| !g.void).len(),
    decreases k,
{
    reveal(Seq::filter);
    if k > 0 {
        law_tally_adds_up(games, k - 1);
        assert(games.take(k).drop_last() =~= games.take(k - 1));
        assert(games.take(k).last() == games[k - 1]);
    }
}

/// Two results are kept for every pair without a void game, whatever the results are: those of its
/// two games, and the pairs in order.
pub proof fn law_whole_pairs_are_kept(games: Seq<GameOutcome>, k: int)
    requires
        0 <= k,
        2 * k <= games.len(),
    ensures
        ({
            let whole = Seq::new(k as nat, |p: int| p).filter(
                |p: int| !games[2 * p].void && !games[2 * p + 1].void,
            );
            let kept = paired_results(games, k);
            &&& kept.len() == 2 * whole.len()
            &&& forall|j: int|
                #![trigger whole[j]]
                0 <= j < whole.len() ==> kept[2 * j] == games[2 * whole[j]].result && kept[2 * j
                    + 1] == games[2 * whole[j] + 1].result
        }),
    decreases k,
{
    reveal(Seq::filter);
    let free = |p: int| !games[2 * p].void && !games[2 * p + 1].void;
    let all = Seq::new(k as nat, |p: int| p);
    if k > 0 {
        law_whole_pairs_are_kept(games, k - 1);
        let fewer = Seq::new((k - 1) as nat, |p: int| p);
        assert(all.drop_last() =~= fewer);
        assert(all.last() == k - 1);
        let before = fewer.filter(free);
        let whole = all.filter(free);
        assert forall|j: int| #![trigger whole[j]] 0 <= j < whole.len() implies paired_results(
            games,
            k,
        )[2 * j] == games[2 * whole[j]].result && paired_results(games, k)[2 * j + 1] == games[2
            * whole[j] + 1].result by {
            if j < before.len() {
                assert(whole[j] == before[j]);
            }
        }
    }
}

/// Where no game is void, the results are those of all games in order, less a last one without a
/// partner.
pub proof fn law_played_games_are_all_paired(games: Seq<GameOutcome>, k: int)
    requires
        0 <= k,
        2 * k <= games.len(),
        forall|i: int| 0 <= i < 2 * k ==> !(#[trigger] games[i]).void,
    ensures
        paired_results(games, k).len() == 2 * k,
        forall|i: int|
            0 <= i < 2 * k ==> #[trigger] paired_results(games, k)[i] == games[i].result,
    decreases k,
{
    if k > 0 {
        law_played_games_are_all_paired(games, k - 1);
    }
}

/// A void game leaves nothing: no result, no moves and no record.
pub proof fn law_void_games_leave_nothing(g: GameOutcome)
    requires
        is_void(g),
    ensures
        g.void,
        g.result == 0,
        g.moves == 0,
        g.episode is None,
        g.nnue_episode is None,
{
}

/// With red the first player sees the winner as it is; without a result they see 0.
pub proof fn law_red_sees_the_winner(winner: i32, player_a_is_red: bool)
    ensures
        result_for_a(Some(winner), true) == winner,
        result_for_a(None, player_a_is_red) == 0,
{
}

} // verus!
