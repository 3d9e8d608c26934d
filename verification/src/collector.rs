//! The main loop of a collector: ask for a task, run it, report, repeat.

use vstd::prelude::*;

use crate::batched::{eval_workers, workers_for};
use crate::config::SelfPlayConfig;
use crate::outcome::{law_whole_pairs_are_kept, paired_results, GameOutcome, Tally};
use crate::reanalysis::ReanalysisReport;
use crate::registry::MatchReport;
use crate::rule_opponents::EvalOpponent;
use crate::task::{SchedulerTask, TaskKind};
use crate::text::same_text;

verus! {

broadcast use vstd::string::group_string_axioms;

/// How long to wait before asking again when there is no task, in seconds.
pub const TASK_BACKOFF_SECS: u64 = 30;

/// The boards that games are played on.
#[derive(Clone, Copy, Debug, PartialEq, Eq, Structural)]
pub enum Variant {
    Full4x8,
    Small4x4,
    Mini4x2,
}

/// The board of that name.
pub open spec fn variant_named(name: Seq<char>) -> Option<Variant> {
    if name == "4x8"@ {
        Some(Variant::Full4x8)
    } else if name == "4x4"@ {
        Some(Variant::Small4x4)
    } else if name == "4x2"@ {
        Some(Variant::Mini4x2)
    } else {
        None
    }
}

impl Variant {
    /// The board of that name, or `None` for an unknown one.
    pub fn parse(name: &str) -> (res: Option<Self>)
        ensures
            res == variant_named(name@),
    {
        if same_text(name, "4x8") {
            Some(Variant::Full4x8)
        } else if same_text(name, "4x4") {
            Some(Variant::Small4x4)
        } else if same_text(name, "4x2") {
            Some(Variant::Mini4x2)
        } else {
            None
        }
    }
}

/// How a network plays.
#[derive(Clone, Copy, Debug, PartialEq, Eq, Structural)]
pub enum NetworkMode {
    /// The best action of its policy, without a search.
    PolicyArgmax,
    /// A tree search.
    Mcts { sims: usize },
}

/// What to do for a task.
#[derive(Clone, Copy, Debug, PartialEq, Eq, Structural)]
pub enum RunPlan {
    /// Play games of the network against itself and record them. `batched` says to play them in lock
    /// step.
    Selfplay { board: Variant, count: usize, batched: bool },
    /// Play the network against the opponent's, an even number of games, so that both colours are
    /// played equally often.
    Rating { board: Variant, count: usize },
    /// Play the network against a fixed opponent.
    Eval { board: Variant, count: usize, mode: NetworkMode, opponent: EvalOpponent },
    /// Search the positions of the task again.
    Reanalysis { board: Variant },
}

/// Why a task cannot be run.
#[derive(Clone, Copy, Debug, PartialEq, Eq, Structural)]
pub enum RunError {
    UnknownVariant,
    /// The task has no work, or an evaluation has no opponent.
    NotRunnable,
    /// Games were to be recorded, but there is not one record.
    NothingProduced,
}

/// The next even number of games at or below `games`, and at least two.
pub open spec fn rating_games(games: usize) -> int {
    let even = games - games % 2;
    if even < 2 {
        2
    } else {
        even
    }
}

/// What to do for a task, where the settings are `config`.
pub open spec fn run_plan_of(task: SchedulerTask, config: SelfPlayConfig) -> Result<
    RunPlan,
    RunError,
> {
    match variant_named(task.variant@) {
        None => Err(RunError::UnknownVariant),
        Some(board) => match task.kind {
            TaskKind::TaskNone => Err(RunError::NotRunnable),
            TaskKind::TaskSelfplay => Ok(
                RunPlan::Selfplay {
                    board,
                    count: task.games,
                    batched: config.lists(task.variant@),
                },
            ),
            TaskKind::TaskRating => Ok(
                RunPlan::Rating { board, count: rating_games(task.games) as usize },
            ),
            TaskKind::TaskEval => match task.opponent {
                Some(opponent) => Ok(
                    RunPlan::Eval {
                        board,
                        count: task.games,
                        mode: if task.mcts_sims == 0 {
                            NetworkMode::PolicyArgmax
                        } else {
                            NetworkMode::Mcts { sims: task.mcts_sims }
                        },
                        opponent,
                    },
                ),
                None => Err(RunError::NotRunnable),
            },
            TaskKind::TaskReanalysis => Ok(RunPlan::Reanalysis { board }),
        },
    }
}

/// What to do for a task, where the settings are `config`. Only games that are recorded are played
/// in lock step: there both sides are the same network.
pub fn plan_run(task: &SchedulerTask, config: &SelfPlayConfig) -> (res: Result<RunPlan, RunError>)
    ensures
        res == run_plan_of(*task, *config),
{
    let board = match Variant::parse(task.variant.as_str()) {
        Some(board) => board,
        None => {
            return Err(RunError::UnknownVariant);
        },
    };
    match task.kind {
        TaskKind::TaskNone => Err(RunError::NotRunnable),
        TaskKind::TaskSelfplay => {
            let batched: bool = config.batched_for(task.variant.as_str());
            Ok(RunPlan::Selfplay { board, count: task.games, batched })
        },
        TaskKind::TaskRating => {
            let even: usize = task.games - task.games % 2;
            let count: usize = if even < 2 {
                2
            } else {
                even
            };
            Ok(RunPlan::Rating { board, count })
        },
        TaskKind::TaskEval => match task.opponent {
            Some(opponent) => {
                let mode = if task.mcts_sims == 0 {
                    NetworkMode::PolicyArgmax
                } else {
                    NetworkMode::Mcts { sims: task.mcts_sims }
                };
                Ok(RunPlan::Eval { board, count: task.games, mode, opponent })
            },
            None => Err(RunError::NotRunnable),
        },
        TaskKind::TaskReanalysis => Ok(RunPlan::Reanalysis { board }),
    }
}

/// A match for a rating has an even number of games, at least two, and where at least two are asked
/// for, at most one less than asked for.
pub proof fn law_rating_games_are_even(games: usize)
    ensures
        rating_games(games) % 2 == 0,
        rating_games(games) >= 2,
        games >= 2 ==> games - 1 <= rating_games(games) <= games,
{
}

/// What the loop does next.
#[derive(Clone, Copy, Debug, PartialEq, Eq, Structural)]
pub enum LoopStep {
    /// Ask for a task.
    GetTask,
    /// Wait for the reports that are on their way, and end.
    Flush,
}

/// The state of the loop.
pub struct RunLoop {
    limit: usize,
    iteration: usize,
    selfplay: SelfPlayConfig,
}

impl RunLoop {
    /// How many tasks to run; 0 for no end.
    pub closed spec fn limit(self) -> usize {
        self.limit
    }

    /// How many tasks were run.
    pub closed spec fn done(self) -> usize {
        self.iteration
    }

    /// The settings that games are played with.
    pub closed spec fn settings(self) -> SelfPlayConfig {
        self.selfplay
    }

    /// What the loop does next.
    pub open spec fn step(self) -> LoopStep {
        if self.limit() == 0 || self.done() < self.limit() {
            LoopStep::GetTask
        } else {
            LoopStep::Flush
        }
    }

    /// A loop over `limit` tasks, or without end where that is 0.
    pub fn new(limit: usize, selfplay: SelfPlayConfig) -> (res: Self)
        ensures
            res.limit() == limit,
            res.done() == 0,
            res.settings() == selfplay,
    {
        RunLoop { limit, iteration: 0, selfplay }
    }

    /// What the loop does next.
    pub fn next_step(&self) -> (res: LoopStep)
        ensures
            res == self.step(),
            res == LoopStep::Flush <==> 0 < self.limit() <= self.done(),
    {
        if self.limit == 0 || self.iteration < self.limit {
            LoopStep::GetTask
        } else {
            LoopStep::Flush
        }
    }

    /// How many tasks were run.
    pub fn iteration(&self) -> (res: usize)
        ensures
            res == self.done(),
    {
        self.iteration
    }

    /// The settings that games are played with.
    pub fn selfplay(&self) -> (res: &SelfPlayConfig)
        ensures
            *res == self.settings(),
    {
        &self.selfplay
    }

    /// Takes over the number of simulations that a task brings, if it brings one; the number of a
    /// fast decision then follows from it. No other setting changes.
    pub fn adopt(&mut self, task: &SchedulerTask)
        ensures
            final(self).limit() == old(self).limit(),
            final(self).done() == old(self).done(),
            final(self).settings() == if task.mcts_sims > 0 {
                SelfPlayConfig {
                    mcts_sims: task.mcts_sims,
                    fast_mcts_sims: 0,
                    ..old(self).settings()
                }
            } else {
                old(self).settings()
            },
            final(self).settings() == adopted(old(self).settings(), task.mcts_sims),
            task.mcts_sims > 0 ==> final(self).settings().mcts_sims == task.mcts_sims,
            task.mcts_sims == 0 ==> final(self).settings() == old(self).settings(),
    {
        if task.mcts_sims > 0 {
            self.selfplay.mcts_sims = task.mcts_sims;
            self.selfplay.fast_mcts_sims = 0;
        }
    }

    /// Counts a task as run.
    pub fn complete(&mut self)
        requires
            old(self).step() == LoopStep::GetTask,
            old(self).done() < usize::MAX,
        ensures
            final(self).limit() == old(self).limit(),
            final(self).done() == old(self).done() + 1,
            final(self).settings() == old(self).settings(),
            final(self).limit() > 0 ==> final(self).done() <= final(self).limit(),
    {
        self.iteration += 1;
    }
}

/// Settings with the number of simulations of a task taken over.
pub open spec fn adopted(config: SelfPlayConfig, sims: usize) -> SelfPlayConfig {
    if sims > 0 {
        SelfPlayConfig { mcts_sims: sims, fast_mcts_sims: 0, ..config }
    } else {
        config
    }
}

/// A task that brings a number of simulations sets it, and a fast search then does a quarter; one
/// that brings none changes nothing; and no other setting ever changes.
pub proof fn law_tasks_set_the_simulations(config: SelfPlayConfig, sims: usize)
    ensures
        ({
            let after = adopted(config, sims);
            &&& sims > 0 ==> after.mcts_sims == sims && after.spec_fast_sims() == sims / 4
            &&& sims == 0 ==> after == config
            &&& after.threads == config.threads
            &&& after.max_considered_actions == config.max_considered_actions
            &&& after.scenario == config.scenario
            &&& after.c_scale == config.c_scale
            &&& after.gumbel_scale == config.gumbel_scale
            &&& after.health_enabled == config.health_enabled
            &&& after.health_weight == config.health_weight
            &&& after.health_confidence_exp == config.health_confidence_exp
            &&& after.collect_positions == config.collect_positions
            &&& after.playout_cap_random_enabled == config.playout_cap_random_enabled
            &&& after.full_search_prob == config.full_search_prob
            &&& after.tree_reuse == config.tree_reuse
            &&& after.batched_variants == config.batched_variants
        }),
{
}

/// Settings that a task's number of simulations was taken over into never make a fast decision as
/// dear as a full one.
pub proof fn law_adopted_sims_are_sound(config: SelfPlayConfig, sims: usize)
    requires
        sims > 0,
    ensures
        (SelfPlayConfig { mcts_sims: sims, fast_mcts_sims: 0, ..config }).spec_fast_sims() < sims,
{
}

/// The side that won more games: 1 the first player, -1 the second, 0 neither.
pub open spec fn leading_side(wins: int, losses: int) -> int {
    if wins > losses {
        1
    } else if wins < losses {
        -1
    } else {
        0
    }
}

/// The two players see opposite sides in front; a side is in front exactly where it won more games,
/// and games that both won make no difference.
pub proof fn law_more_wins_are_in_front(wins: int, losses: int, both: int)
    ensures
        leading_side(losses, wins) == -leading_side(wins, losses),
        leading_side(wins, losses) == 1 <==> wins > losses,
        leading_side(wins, losses) == 0 <==> wins == losses,
        leading_side(wins + both, losses + both) == leading_side(wins, losses),
{
}

/// The side that won more games: 1 the first player, -1 the second, 0 neither.
pub fn aggregate_winner(wins: usize, losses: usize) -> (res: i32)
    ensures
        res == if wins > losses {
            1
        } else if wins < losses {
            -1int
        } else {
            0
        },
        res == leading_side(wins as int, losses as int),
{
    if wins > losses {
        1
    } else if wins < losses {
        -1
    } else {
        0
    }
}

/// Checks that a match that was to record games did so.
pub fn check_yield(record_episodes: bool, episodes: usize, nnue_episodes: usize) -> (res: Result<
    (),
    RunError,
>)
    ensures
        res == if record_episodes && episodes == 0 && nnue_episodes == 0 {
            Err::<(), RunError>(RunError::NothingProduced)
        } else {
            Ok(())
        },
        res is Err <==> record_episodes && episodes + nnue_episodes == 0,
        res matches Err(e) ==> e == RunError::NothingProduced,
{
    if record_episodes && episodes == 0 && nnue_episodes == 0 {
        Err(RunError::NothingProduced)
    } else {
        Ok(())
    }
}

/// Whether searching positions again left anything to report.
pub fn has_yield(report: &ReanalysisReport) -> (res: bool)
    ensures
        res == (report.episodes@.len() > 0),
{
    report.episodes.len() > 0
}

/// How many inference channels make sense for games in lock step: one for every batch that can be
/// away.
pub fn batch_worker_hint(concurrency: usize) -> (res: usize)
    ensures
        res == if concurrency == 0 {
            1
        } else if concurrency < 8 {
            concurrency as int
        } else {
            8
        },
        res == workers_for(concurrency as int),
{
    eval_workers(concurrency)
}

/// How many threads play games: as many as asked for, or one per core where that is 0.
pub fn pool_threads(threads: usize, cores: usize) -> (res: usize)
    ensures
        res == if threads > 0 {
            threads
        } else {
            cores
        },
        threads > 0 ==> res == threads,
        threads == 0 ==> res == cores,
{
    if threads > 0 {
        threads
    } else {
        cores
    }
}

/// How many inference channels there are: as many as asked for, or one per thread where that is 0.
pub fn session_count(sessions: usize, threads: usize) -> (res: usize)
    ensures
        res == if sessions == 0 {
            threads
        } else {
            sessions
        },
        sessions > 0 ==> res == sessions,
        sessions == 0 ==> res == threads,
{
    if sessions == 0 {
        threads
    } else {
        sessions
    }
}

/// What a game counts: 2 for a win, 1 for a draw, 0 for anything else.
pub open spec fn score(outcome: i32) -> int {
    if outcome == 1 {
        2
    } else if outcome == 0 {
        1
    } else {
        0
    }
}

/// How many of the first `k` pairs of games score `points` together. Games 0 and 1 are a pair, games
/// 2 and 3, and so on.
pub open spec fn pairs_scoring(outcomes: Seq<i32>, points: int, k: int) -> int
    decreases k,
{
    if k <= 0 {
        0
    } else {
        pairs_scoring(outcomes, points, k - 1) + if score(outcomes[2 * k - 2]) + score(
            outcomes[2 * k - 1],
        ) == points {
            1int
        } else {
            0
        }
    }
}

fn score_of(outcome: i32) -> (res: usize)
    ensures
        res == score(outcome),
        res <= 2,
{
    if outcome == 1 {
        2
    } else if outcome == 0 {
        1
    } else {
        0
    }
}

proof fn lemma_pairs_bounded(outcomes: Seq<i32>, points: int, k: int)
    requires
        0 <= k,
    ensures
        0 <= pairs_scoring(outcomes, points, k) <= k,
    decreases k,
{
    if k > 0 {
        lemma_pairs_bounded(outcomes, points, k - 1);
    }
}

/// Counts the pairs of games by their joint score, from two losses to two wins. A game without a
/// partner does not count.
pub fn pairs_from_outcomes(outcomes: &[i32]) -> (res: [usize; 5])
    ensures
        forall|points: int|
            0 <= points < 5 ==> #[trigger] res@[points] == pairs_scoring(
                outcomes@,
                points,
                outcomes@.len() as int / 2,
            ),
{
    let n: usize = outcomes.len();
    let half: usize = n / 2;
    let mut pairs: [usize; 5] = [0, 0, 0, 0, 0];
    let mut k: usize = 0;
    while k < half
        invariant
            k <= half,
            half == n / 2,
            n == outcomes@.len(),
            forall|points: int|
                0 <= points < 5 ==> #[trigger] pairs@[points] == pairs_scoring(
                    outcomes@,
                    points,
                    k as int,
                ),
        decreases half - k,
    {
        let points: usize = score_of(outcomes[2 * k]) + score_of(outcomes[2 * k + 1]);
        proof {
            lemma_pairs_bounded(outcomes@, points as int, k as int);
        }
        pairs[points] = pairs[points] + 1;
        k += 1;
    }
    pairs
}

/// The report about a match for a task: `count` games with these results, one per game, for the first
/// player, against `opponent_spec` where the opponent is a fixed one.
pub fn match_report(
    task: &SchedulerTask,
    count: usize,
    tally: Tally,
    results: &[i32],
    opponent_spec: &str,
) -> (res: MatchReport)
    ensures
        res.task_id@ == task.task_id@,
        res.kind == task.kind,
        res.network_sha@ == task.network_sha@,
        res.opponent_sha@ == task.opponent_sha@,
        res.opponent_spec@ == opponent_spec@,
        res.games == count,
        res.wins == tally.wins,
        res.losses == tally.losses,
        res.draws == tally.draws,
        forall|points: int|
            0 <= points < 5 ==> #[trigger] res.pairs@[points] == pairs_scoring(
                results@,
                points,
                results@.len() as int / 2,
            ),
{
    MatchReport {
        task_id: task.task_id.clone(),
        kind: task.kind,
        network_sha: task.network_sha.clone(),
        opponent_sha: task.opponent_sha.clone(),
        opponent_spec: opponent_spec.to_string(),
        games: count,
        wins: tally.wins,
        losses: tally.losses,
        draws: tally.draws,
        pairs: pairs_from_outcomes(results),
    }
}

/// Every pair is counted exactly once.
pub proof fn law_pairs_sum(outcomes: Seq<i32>, k: int)
    requires
        0 <= k,
    ensures
        pairs_scoring(outcomes, 0, k) + pairs_scoring(outcomes, 1, k) + pairs_scoring(
            outcomes,
            2,
            k,
        ) + pairs_scoring(outcomes, 3, k) + pairs_scoring(outcomes, 4, k) == k,
    decreases k,
{
    if k > 0 {
        law_pairs_sum(outcomes, k - 1);
    }
}

/// The pairs that are counted for `points` are those whose two games are worth so much together: a
/// win 2, a draw 1, a loss 0.
pub proof fn law_pairs_are_counted_by_worth(outcomes: Seq<i32>, points: int, k: int)
    requires
        0 <= k,
        2 * k <= outcomes.len(),
        forall|i: int| 0 <= i < outcomes.len() ==> -1 <= #[trigger] outcomes[i] <= 1,
    ensures
        pairs_scoring(outcomes, points, k) == Seq::new(k as nat, |p: int| p).filter(
            |p: int| (outcomes[2 * p] + 1) + (outcomes[2 * p + 1] + 1) == points,
        ).len(),
    decreases k,
{
    reveal(Seq::filter);
    if k > 0 {
        law_pairs_are_counted_by_worth(outcomes, points, k - 1);
        let all = Seq::new(k as nat, |p: int| p);
        assert(all.drop_last() =~= Seq::new((k - 1) as nat, |p: int| p));
        assert(all.last() == k - 1);
        assert(-1 <= outcomes[2 * k - 2] <= 1);
        assert(-1 <= outcomes[2 * k - 1] <= 1);
    }
}

/// The five counts of a match add up to its pairs without a void game.
pub proof fn law_five_counts_are_the_whole_pairs(games: Seq<GameOutcome>)
    ensures
        ({
            let n = games.len() as int / 2;
            let kept = paired_results(games, n);
            let k = kept.len() as int / 2;
            pairs_scoring(kept, 0, k) + pairs_scoring(kept, 1, k) + pairs_scoring(kept, 2, k)
                + pairs_scoring(kept, 3, k) + pairs_scoring(kept, 4, k) == Seq::new(
                n as nat,
                |p: int| p,
            ).filter(|p: int| !games[2 * p].void && !games[2 * p + 1].void).len()
        }),
{
    let n = games.len() as int / 2;
    let kept = paired_results(games, n);
    law_whole_pairs_are_kept(games, n);
    law_pairs_sum(kept, kept.len() as int / 2);
}

/// A board is known by its own name and by no other.
pub proof fn law_boards_have_one_name(name: Seq<char>)
    ensures
        variant_named(name) == Some(Variant::Full4x8) <==> name == "4x8"@,
        variant_named(name) == Some(Variant::Small4x4) <==> name == "4x4"@,
        variant_named(name) == Some(Variant::Mini4x2) <==> name == "4x2"@,
        variant_named(name) is None <==> name != "4x8"@ && name != "4x4"@ && name != "4x2"@,
{
    reveal_strlit("4x8");
    reveal_strlit("4x4");
    reveal_strlit("4x2");
    assert("4x8"@[2] == '8');
    assert("4x4"@[2] == '4');
    assert("4x2"@[2] == '2');
}

/// A task is run on the board that it names, and refused exactly where it names none, has no work,
/// or is an evaluation without an opponent.
pub proof fn law_tasks_run_on_their_board(task: SchedulerTask, config: SelfPlayConfig)
    ensures
        run_plan_of(task, config) == Err::<RunPlan, RunError>(RunError::UnknownVariant)
            <==> task.variant@ != "4x8"@ && task.variant@ != "4x4"@ && task.variant@ != "4x2"@,
        run_plan_of(task, config) is Err <==> {
            ||| task.variant@ != "4x8"@ && task.variant@ != "4x4"@ && task.variant@ != "4x2"@
            ||| task.kind is TaskNone
            ||| task.kind is TaskEval && task.opponent is None
        },
        match run_plan_of(task, config) {
            Ok(RunPlan::Selfplay { board, count, batched }) => {
                &&& task.kind is TaskSelfplay
                &&& variant_named(task.variant@) == Some(board)
                &&& count == task.games
                &&& batched <==> exists|i: int|
                    0 <= i < config.batched_variants@.len()
                        && #[trigger] config.batched_variants@[i]@ == task.variant@
            },
            Ok(RunPlan::Rating { board, count }) => {
                &&& task.kind is TaskRating
                &&& variant_named(task.variant@) == Some(board)
                &&& count % 2 == 0
                &&& count >= 2
                &&& task.games >= 2 ==> count == task.games || count + 1 == task.games
                &&& task.games < 2 ==> count == 2
            },
            Ok(RunPlan::Eval { board, count, mode, opponent }) => {
                &&& task.kind is TaskEval
                &&& variant_named(task.variant@) == Some(board)
                &&& count == task.games
                &&& mode is PolicyArgmax <==> task.mcts_sims == 0
                &&& mode matches NetworkMode::Mcts { sims } ==> sims == task.mcts_sims
                &&& Some(opponent) == task.opponent
            },
            Ok(RunPlan::Reanalysis { board }) => {
                &&& task.kind is TaskReanalysis
                &&& variant_named(task.variant@) == Some(board)
            },
            Err(_) => true,
        },
{
    law_boards_have_one_name(task.variant@);
}

/// A loop with a limit ends exactly once that many tasks were run; one without never does.
pub proof fn law_loop_ends_at_its_limit(run: RunLoop)
    ensures
        run.step() == LoopStep::Flush <==> 0 < run.limit() <= run.done(),
        run.step() == LoopStep::GetTask <==> run.limit() == 0 || run.done() < run.limit(),
{
}

/// A win is worth two, a draw one, and anything else nothing.
pub proof fn law_worth_of_a_game(outcome: i32)
    ensures
        score(outcome) == 2 <==> outcome == 1,
        score(outcome) == 1 <==> outcome == 0,
        score(outcome) == 0 <==> outcome != 0 && outcome != 1,
{
}

} // verus!
