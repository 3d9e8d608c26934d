use banqi_collector::batched::{
    eval_workers, game_seed, wave_size, worker_step, Pace, Settlement, TreeShare, Wave, WorkerStep,
};
use banqi_collector::episode::{Player, ResNetObservation};
use banqi_collector::collector::pairs_from_outcomes;
use banqi_collector::outcome::{
    outcome_unrecorded, results_in_pairs, seen_by_a, tally, void_outcome, Tally,
};
use banqi_collector::search::SearchStep;

fn plain(shares: Vec<TreeShare>) -> Vec<(usize, Vec<usize>)> {
    shares.into_iter().map(|s| (s.tree, s.places)).collect()
}

#[test]
fn a_batch_blocks_the_trees_that_took_part() {
    let mut wave = Wave::new(3);
    assert_eq!(wave.games(), 3);
    assert_eq!(wave.pace(), Pace::Advance);
    assert_eq!(wave.submit(&vec![2, 0, 1]), Some(0));
    assert!(!wave.may_step(0));
    assert!(wave.may_step(1));
    assert!(!wave.may_step(2));
    assert_eq!(wave.pace(), Pace::Advance);
    // Trees that wait contribute nothing to the next batch.
    assert_eq!(wave.submit(&vec![5, 3, 5]), Some(1));
    assert_eq!(wave.pace(), Pace::Await);
    let shares = wave.apply_response(1, false, 3, 3);
    assert_eq!(plain(shares), vec![(1, vec![0, 1, 2])]);
    assert!(wave.may_step(1));
    let shares = wave.apply_response(0, false, 3, 3);
    assert_eq!(plain(shares), vec![(0, vec![0, 1]), (2, vec![2])]);
    assert!(wave.may_step(0) && wave.may_step(2));
}

#[test]
fn nothing_to_evaluate_is_no_batch() {
    let mut wave = Wave::new(2);
    assert_eq!(wave.submit(&vec![0, 0]), None);
    assert_eq!(wave.submit(&vec![1, 0]), Some(0));
}

#[test]
fn a_failed_batch_voids_its_games() {
    let mut wave = Wave::new(3);
    assert_eq!(wave.submit(&vec![1, 1, 0]), Some(0));
    assert!(wave.apply_response(0, true, 0, 0).is_empty());
    assert!(wave.is_abandoned(0) && wave.is_abandoned(1) && !wave.is_abandoned(2));
    assert!(!wave.may_step(0) && !wave.may_step(1) && wave.may_step(2));
    assert_eq!(wave.settle(0, 0, 5), Settlement::Void);
    wave.finish_game(2);
    assert_eq!(wave.pace(), Pace::Finished);
}

#[test]
fn an_incomplete_answer_voids_its_games() {
    let mut wave = Wave::new(1);
    assert_eq!(wave.submit(&vec![4]), Some(0));
    assert_eq!(wave.pace(), Pace::Await);
    assert!(wave.apply_response(0, false, 3, 3).is_empty());
    assert!(wave.is_abandoned(0));
    assert_eq!(wave.pace(), Pace::Finished);
}

#[test]
fn too_few_values_void_its_games() {
    let mut wave = Wave::new(2);
    assert_eq!(wave.submit(&vec![2, 1]), Some(0));
    assert!(wave.apply_response(0, false, 3, 2).is_empty());
    assert!(wave.is_abandoned(0) && wave.is_abandoned(1));
    assert!(!wave.may_step(0) && !wave.may_step(1));
    assert_eq!(wave.pace(), Pace::Finished);
}

fn step(player: Player) -> SearchStep {
    SearchStep {
        obs: ResNetObservation::from_flat(vec![0], vec![1], (1, 1, 1)),
        policy: vec![2],
        mcts_value: 3,
        completed_q: 4,
        root_visits: 5,
        player,
        mask: vec![1],
        action: 0,
        is_full_search: false,
    }
}

#[test]
fn a_concluded_game_leaves_a_record_of_full_searches() {
    let wave = Wave::new(2);
    let steps = || vec![step(Player::Red), step(Player::Black)];
    let g = wave.conclude(1, 4, steps(), Some(1), Some(0.5f32.to_bits()), None);
    assert_eq!((g.result, g.moves, g.void), (-1, 2, false));
    assert!(g.nnue_episode.is_none());
    let ep = g.episode.unwrap();
    assert!(ep.samples.iter().all(|s| s.is_full_search));
    assert_eq!(f32::from_bits(ep.samples[1].game_result), -1.0);
    assert_eq!(f32::from_bits(ep.samples[1].health_diff), -0.5);
    assert_eq!(wave.conclude(0, 4, steps(), Some(1), None, None).result, 1);
}

#[test]
fn a_failed_or_empty_game_leaves_nothing() {
    let mut wave = Wave::new(2);
    assert_eq!(wave.submit(&vec![1, 0]), Some(0));
    wave.apply_response(0, true, 0, 0);
    for (i, steps) in [(0, vec![step(Player::Red)]), (1, vec![])] {
        let g = wave.conclude(i, 0, steps, Some(1), None, None);
        assert_eq!((g.result, g.moves, g.void), (0, 0, true));
        assert!(g.episode.is_none() && g.nnue_episode.is_none());
    }
}

#[test]
fn games_are_listed_in_the_order_in_which_they_ended() {
    let mut wave = Wave::new(5);
    wave.finish_game(3);
    assert_eq!(wave.submit(&vec![1, 0, 1, 0, 0]), Some(0));
    wave.finish_game(1);
    wave.apply_response(0, true, 0, 0);
    assert_eq!(wave.completion_order(), vec![3, 1, 0, 2, 4]);
}

#[test]
fn outcomes_add_up_without_void_games() {
    assert_eq!(seen_by_a(Some(1), true), 1);
    assert_eq!(seen_by_a(Some(1), false), -1);
    assert_eq!(seen_by_a(Some(0), false), 0);
    assert_eq!(seen_by_a(None, false), 0);
    let games = vec![
        outcome_unrecorded(Some(1), true, 9),
        outcome_unrecorded(Some(1), false, 7),
        void_outcome(),
        outcome_unrecorded(Some(-1), false, 5),
        outcome_unrecorded(Some(0), true, 3),
    ];
    assert_eq!(games[1].moves, 7);
    assert_eq!(tally(&games), Tally { wins: 2, draws: 1, losses: 1 });
    // The second pair has a void game in it, and the last game has no partner.
    assert_eq!(results_in_pairs(&games), vec![1, -1]);
    assert_eq!(pairs_from_outcomes(&results_in_pairs(&games)), [0, 0, 1, 0, 0]);
    assert_eq!(results_in_pairs(&vec![void_outcome(), void_outcome()]), Vec::<i32>::new());
}

#[test]
fn an_unknown_batch_changes_nothing() {
    let mut wave = Wave::new(2);
    assert_eq!(wave.submit(&vec![1, 0]), Some(0));
    assert!(wave.apply_response(9, true, 0, 0).is_empty());
    assert!(!wave.may_step(0) && wave.may_step(1));
    assert!(!wave.is_abandoned(0));
    // A batch is answered once.
    assert_eq!(plain(wave.apply_response(0, false, 1, 1)), vec![(0, vec![0])]);
    assert!(wave.apply_response(0, true, 1, 1).is_empty());
    assert!(!wave.is_abandoned(0));
}

#[test]
fn games_settle_by_their_number() {
    let wave = Wave::new(2);
    assert_eq!(wave.settle(0, 4, 10), Settlement::Record { player_a_is_red: true });
    assert_eq!(wave.settle(1, 4, 10), Settlement::Record { player_a_is_red: false });
    assert_eq!(wave.settle(1, 4, 0), Settlement::Void);
}

#[test]
fn waves_play_every_game_once() {
    let mut sizes = Vec::new();
    let mut played = 0;
    while played < 10 {
        let n = wave_size(4, 10, played);
        sizes.push(n);
        played += n;
    }
    assert_eq!(sizes, vec![4, 4, 2]);
    assert_eq!(wave_size(0, 10, 3), 1);
}

#[test]
fn seeds_count_up_and_go_round() {
    assert_eq!(game_seed(Some(7), 3), Some(10));
    assert_eq!(game_seed(Some(u64::MAX), 2), Some(1));
    assert_eq!(game_seed(None, 2), None);
}

#[test]
fn workers_are_between_one_and_eight() {
    assert_eq!(eval_workers(0), 1);
    assert_eq!(eval_workers(5), 5);
    assert_eq!(eval_workers(64), 8);
}

#[test]
fn a_worker_ends_once_it_is_stopped() {
    assert_eq!(worker_step(true, 3), WorkerStep::Exit);
    assert_eq!(worker_step(false, 3), WorkerStep::Evaluate);
    assert_eq!(worker_step(false, 0), WorkerStep::Sleep);
}
