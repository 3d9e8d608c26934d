//! Searching old positions again.
//!
//! A stronger network searches positions of games that are over. Every position leaves a record of
//! its own with one sample: its policy and values are those of the new search, its result and its
//! difference in health are those of the game that it is from.

use vstd::prelude::*;

use crate::episode::{F32Bits, GameEpisode};
use crate::finalize::{finalize_episode, health_for, result_for, samples_of};
use crate::search::SearchStep;

verus! {

/// How many reasons of failures a report lists.
pub const MAX_LOGGED_ERRORS: usize = 5;

/// A position to search again, and how its game ended.
#[derive(Debug, Clone)]
pub struct ReanalysisItem {
    /// The snapshot of the position.
    pub snapshot: Vec<u8>,
    /// 1 where red won, -1 where black won, 0 for a draw, `None` for a game without a result.
    pub winner: Option<i32>,
    /// The final difference in health, from red's side.
    pub health_diff_red: Option<F32Bits>,
}

/// What became of one search.
#[derive(Debug)]
pub enum SearchOutcome {
    Searched { step: SearchStep },
    /// The position has no legal action.
    Terminal,
    /// The snapshot is invalid, or the evaluation failed.
    Failed { reason: String },
}

/// What a run leaves.
#[derive(Debug)]
pub struct ReanalysisReport {
    /// One game per position that was searched, in order.
    pub episodes: Vec<GameEpisode>,
    /// How many snapshots were invalid or searches failed.
    pub failed: usize,
    /// How many positions had no legal action.
    pub skipped: usize,
    /// The reasons of the first failures.
    pub errors: Vec<String>,
}

/// The places of the positions, among the first `k`, that were searched.
pub open spec fn searched(outcomes: Seq<SearchOutcome>, k: int) -> Seq<int>
    decreases k,
{
    if k <= 0 {
        Seq::empty()
    } else if outcomes[k - 1] is Searched {
        searched(outcomes, k - 1).push(k - 1)
    } else {
        searched(outcomes, k - 1)
    }
}

/// The places of the failures among the first `k` positions.
pub open spec fn failures(outcomes: Seq<SearchOutcome>, k: int) -> Seq<int>
    decreases k,
{
    if k <= 0 {
        Seq::empty()
    } else if outcomes[k - 1] is Failed {
        failures(outcomes, k - 1).push(k - 1)
    } else {
        failures(outcomes, k - 1)
    }
}

/// How many of the first `k` positions had no legal action.
pub open spec fn terminals(outcomes: Seq<SearchOutcome>, k: int) -> int
    decreases k,
{
    if k <= 0 {
        0
    } else if outcomes[k - 1] is Terminal {
        terminals(outcomes, k - 1) + 1
    } else {
        terminals(outcomes, k - 1)
    }
}

/// Whether `ep` is the game that searching `item` with the outcome `step` leaves.
pub open spec fn is_researched(ep: GameEpisode, item: ReanalysisItem, step: SearchStep) -> bool {
    let full = SearchStep { is_full_search: true, ..step };
    &&& ep.samples@ == samples_of(seq![full], item.winner, item.health_diff_red)
    &&& ep.game_length == 1
    &&& ep.winner == item.winner
    &&& ep.health_diff_red == item.health_diff_red
    &&& ep.nnue is None
    &&& ep.positions is None
}

/// The reasons that are listed: those of the first failures.
pub open spec fn listed(count: int) -> int {
    if count < MAX_LOGGED_ERRORS {
        count
    } else {
        MAX_LOGGED_ERRORS as int
    }
}

proof fn lemma_counts(outcomes: Seq<SearchOutcome>, k: int)
    requires
        0 <= k <= outcomes.len(),
    ensures
        searched(outcomes, k).len() + failures(outcomes, k).len() + terminals(outcomes, k) == k,
        terminals(outcomes, k) >= 0,
        forall|j: int|
            0 <= j < searched(outcomes, k).len() ==> 0 <= #[trigger] searched(outcomes, k)[j] < k
                && outcomes[searched(outcomes, k)[j]] is Searched,
        forall|j: int|
            0 <= j < failures(outcomes, k).len() ==> 0 <= #[trigger] failures(outcomes, k)[j] < k
                && outcomes[failures(outcomes, k)[j]] is Failed,
    decreases k,
{
    if k > 0 {
        lemma_counts(outcomes, k - 1);
    }
}

/// Every position is accounted for: it left a game, or failed, or had no legal action.
pub proof fn law_every_position_counts(outcomes: Seq<SearchOutcome>)
    ensures
        searched(outcomes, outcomes.len() as int).len() + failures(
            outcomes,
            outcomes.len() as int,
        ).len() + terminals(outcomes, outcomes.len() as int) == outcomes.len(),
{
    lemma_counts(outcomes, outcomes.len() as int);
}

/// Collects what became of every position: a game with one sample for every position that was
/// searched, in the order of the positions, and a count of the others. Failures leave no data; the
/// reasons of the first few are kept.
pub fn run_reanalysis(items: &Vec<ReanalysisItem>, outcomes: Vec<SearchOutcome>) -> (res:
    ReanalysisReport)
    requires
        items@.len() == outcomes@.len(),
    ensures
        ({
            let n = outcomes@.len() as int;
            let done = searched(outcomes@, n);
            let bad = failures(outcomes@, n);
            &&& res.episodes@.len() == done.len()
            &&& forall|j: int|
                0 <= j < done.len() ==> is_researched(
                    #[trigger] res.episodes@[j],
                    items@[done[j]],
                    outcomes@[done[j]]->step,
                )
            &&& res.failed == bad.len()
            &&& res.skipped == terminals(outcomes@, n)
            &&& res.errors@.len() == listed(bad.len() as int)
            &&& forall|j: int|
                0 <= j < res.errors@.len() ==> #[trigger] res.errors@[j]
                    == outcomes@[bad[j]]->reason
        }),
{
    let ghost all = outcomes@;
    let n: usize = outcomes.len();
    let mut episodes: Vec<GameEpisode> = Vec::new();
    let mut failed: usize = 0;
    let mut skipped: usize = 0;
    let mut errors: Vec<String> = Vec::new();
    let mut i: usize = 0;
    for outcome in it: outcomes
        invariant
            it.seq() == all,
            i == it.index(),
            i <= n,
            n == all.len(),
            items@.len() == n,
            episodes@.len() == searched(all, i as int).len(),
            forall|j: int|
                0 <= j < episodes@.len() ==> is_researched(
                    #[trigger] episodes@[j],
                    items@[searched(all, i as int)[j]],
                    all[searched(all, i as int)[j]]->step,
                ),
            failed == failures(all, i as int).len(),
            skipped == terminals(all, i as int),
            errors@.len() == listed(failed as int),
            forall|j: int|
                0 <= j < errors@.len() ==> #[trigger] errors@[j] == all[failures(
                    all,
                    i as int,
                )[j]]->reason,
    {
        proof {
            lemma_counts(all, i as int);
            lemma_counts(all, i + 1);
            assert(outcome == all[i as int]);
        }
        match outcome {
            SearchOutcome::Searched { step } => {
                let ghost found = step;
                let full = SearchStep { is_full_search: true, ..step };
                let mut steps: Vec<SearchStep> = Vec::new();
                steps.push(full);
                assert(steps@ =~= seq![full]);
                let episode = finalize_episode(
                    steps,
                    items[i].winner,
                    items[i].health_diff_red,
                    None,
                );
                assert(is_researched(episode, items@[i as int], found));
                episodes.push(episode);
            },
            SearchOutcome::Terminal => {
                skipped += 1;
            },
            SearchOutcome::Failed { reason } => {
                failed += 1;
                if errors.len() < MAX_LOGGED_ERRORS {
                    errors.push(reason);
                }
            },
        }
        i += 1;
    }
    ReanalysisReport { episodes, failed, skipped, errors }
}

/// How many of `count` failures are not listed.
pub open spec fn left_out(count: int) -> int {
    if count > MAX_LOGGED_ERRORS {
        count - MAX_LOGGED_ERRORS
    } else {
        0
    }
}

/// Every failure is listed or counted among those that are not.
pub proof fn law_no_failure_is_passed_over(count: int)
    requires
        0 <= count,
    ensures
        listed(count) + left_out(count) == count,
        0 <= listed(count) <= 5,
        left_out(count) > 0 ==> listed(count) == 5,
{
}

/// How many failures a report does not list.
pub fn unlisted(report: &ReanalysisReport) -> (res: usize)
    ensures
        res == left_out(report.failed as int),
        res == if report.failed > MAX_LOGGED_ERRORS {
            report.failed - MAX_LOGGED_ERRORS
        } else {
            0
        },
{
    if report.failed > MAX_LOGGED_ERRORS {
        report.failed - MAX_LOGGED_ERRORS
    } else {
        0
    }
}

/// The positions that leave a game are exactly those that were searched, in order.
pub proof fn law_searched_positions(outcomes: Seq<SearchOutcome>, k: int)
    requires
        0 <= k <= outcomes.len(),
    ensures
        forall|a: int, b: int|
            #![trigger searched(outcomes, k)[a], searched(outcomes, k)[b]]
            0 <= a < b < searched(outcomes, k).len() ==> searched(outcomes, k)[a] < searched(
                outcomes,
                k,
            )[b],
        forall|a: int|
            #![trigger searched(outcomes, k)[a]]
            0 <= a < searched(outcomes, k).len() ==> 0 <= searched(outcomes, k)[a] < k
                && outcomes[searched(outcomes, k)[a]] is Searched,
        forall|i: int|
            #![trigger outcomes[i]]
            0 <= i < k && outcomes[i] is Searched ==> searched(outcomes, k).contains(i),
    decreases k,
{
    if k > 0 {
        law_searched_positions(outcomes, k - 1);
        let before = searched(outcomes, k - 1);
        let whole = searched(outcomes, k);
        assert forall|i: int| #![trigger outcomes[i]] 0 <= i < k && outcomes[i] is Searched implies
            whole.contains(i) by {
            if i < k - 1 {
                assert(before.contains(i));
                let a = choose|a: int| 0 <= a < before.len() && before[a] == i;
                assert(whole[a] == i);
            } else {
                assert(whole[before.len() as int] == i);
            }
        }
    }
}

/// The failures that are counted are exactly those searches that failed, in order.
pub proof fn law_failed_positions(outcomes: Seq<SearchOutcome>, k: int)
    requires
        0 <= k <= outcomes.len(),
    ensures
        forall|a: int, b: int|
            #![trigger failures(outcomes, k)[a], failures(outcomes, k)[b]]
            0 <= a < b < failures(outcomes, k).len() ==> failures(outcomes, k)[a] < failures(
                outcomes,
                k,
            )[b],
        forall|a: int|
            #![trigger failures(outcomes, k)[a]]
            0 <= a < failures(outcomes, k).len() ==> 0 <= failures(outcomes, k)[a] < k
                && outcomes[failures(outcomes, k)[a]] is Failed,
        forall|i: int|
            #![trigger outcomes[i]]
            0 <= i < k && outcomes[i] is Failed ==> failures(outcomes, k).contains(i),
    decreases k,
{
    if k > 0 {
        law_failed_positions(outcomes, k - 1);
        let before = failures(outcomes, k - 1);
        let whole = failures(outcomes, k);
        assert forall|i: int| #![trigger outcomes[i]] 0 <= i < k && outcomes[i] is Failed implies
            whole.contains(i) by {
            if i < k - 1 {
                assert(before.contains(i));
                let a = choose|a: int| 0 <= a < before.len() && before[a] == i;
                assert(whole[a] == i);
            } else {
                assert(whole[before.len() as int] == i);
            }
        }
    }
}

/// The positions that are skipped are counted one by one: exactly those without a legal action.
pub proof fn law_skipped_positions(outcomes: Seq<SearchOutcome>, k: int)
    requires
        0 <= k <= outcomes.len(),
    ensures
        terminals(outcomes, k) == outcomes.take(k).filter(
            |o: SearchOutcome| o is Terminal,
        ).len(),
    decreases k,
{
    reveal(Seq::filter);
    if k > 0 {
        law_skipped_positions(outcomes, k - 1);
        assert(outcomes.take(k).drop_last() =~= outcomes.take(k - 1));
        assert(outcomes.take(k).last() == outcomes[k - 1]);
    }
}

/// A position that was searched leaves one sample that carries what the new search said, as a full
/// search, and tells the result of the old game; the game keeps how the old one ended.
pub proof fn law_researched_games_keep_the_ending(
    ep: GameEpisode,
    item: ReanalysisItem,
    step: SearchStep,
)
    requires
        is_researched(ep, item, step),
    ensures
        ep.samples@.len() == 1,
        ep.samples@[0].obs == step.obs,
        ep.samples@[0].policy == step.policy,
        ep.samples@[0].mcts_value == step.mcts_value,
        ep.samples@[0].completed_q == step.completed_q,
        ep.samples@[0].root_visits == step.root_visits,
        ep.samples@[0].mask == step.mask,
        ep.samples@[0].action == step.action,
        ep.samples@[0].is_full_search,
        ep.samples@[0].game_result == result_for(item.winner, step.player),
        ep.samples@[0].health_diff == health_for(item.health_diff_red, step.player),
        ep.game_length == 1,
        ep.winner == item.winner,
        ep.health_diff_red == item.health_diff_red,
        ep.nnue is None,
        ep.positions is None,
{
}

/// The reasons of the first five failures are listed: all of them where there are no more.
pub proof fn law_first_reasons_are_listed(count: int)
    requires
        0 <= count,
    ensures
        count <= 5 ==> listed(count) == count,
        count > 5 ==> listed(count) == 5,
{
}

} // verus!
