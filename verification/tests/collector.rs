use banqi_collector::collector::{
    aggregate_winner, batch_worker_hint, check_yield, has_yield, match_report, pairs_from_outcomes, plan_run,
    pool_threads, session_count, LoopStep, NetworkMode, RunError, RunLoop, RunPlan, Variant,
};
use banqi_collector::config::{CliOverrides, CollectorConfig, ConfigError, SelfPlayConfig};
use banqi_collector::outcome::Tally;
use banqi_collector::reanalysis::run_reanalysis;
use banqi_collector::rule_opponents::EvalOpponent;
use banqi_collector::task::{SchedulerTask, TaskKind};
use banqi_collector::upload::DataKind;

fn task(kind: TaskKind, variant: &str, games: usize, mcts_sims: usize) -> SchedulerTask {
    SchedulerTask {
        task_id: "t".to_string(),
        kind,
        network_sha: "a".to_string(),
        opponent_sha: "b".to_string(),
        games,
        mcts_sims,
        variant: variant.to_string(),
        initial_revealed: None,
        data_kind: DataKind::DataResnet,
        opponent: None,
        reanalysis_payload: vec![],
    }
}

#[test]
fn pairs_are_counted_by_their_joint_score() {
    assert_eq!(pairs_from_outcomes(&[]), [0, 0, 0, 0, 0]);
    assert_eq!(pairs_from_outcomes(&[-1, -1]), [1, 0, 0, 0, 0]);
    assert_eq!(pairs_from_outcomes(&[-1, 0]), [0, 1, 0, 0, 0]);
    assert_eq!(pairs_from_outcomes(&[0, 0, 1, -1]), [0, 0, 2, 0, 0]);
    assert_eq!(pairs_from_outcomes(&[1, 0]), [0, 0, 0, 1, 0]);
    assert_eq!(pairs_from_outcomes(&[1, 1, 1, 1, 1]), [0, 0, 0, 0, 2]);
    let pairs = pairs_from_outcomes(&[1, -1, 0, 0, -1, -1, 1, 1, 0, 1, 0, -1]);
    assert_eq!(pairs.iter().sum::<usize>(), 6);
}

#[test]
fn every_task_has_its_plan() {
    let mut config = SelfPlayConfig::default();
    config.batched_variants = vec!["4x8".to_string()];
    assert_eq!(
        plan_run(&task(TaskKind::TaskSelfplay, "4x8", 7, 0), &config),
        Ok(RunPlan::Selfplay { board: Variant::Full4x8, count: 7, batched: true })
    );
    assert_eq!(
        plan_run(&task(TaskKind::TaskSelfplay, "4x4", 7, 0), &config),
        Ok(RunPlan::Selfplay { board: Variant::Small4x4, count: 7, batched: false })
    );
    for (games, count) in [(0, 2), (1, 2), (2, 2), (7, 6), (8, 8)] {
        assert_eq!(
            plan_run(&task(TaskKind::TaskRating, "4x2", games, 0), &config),
            Ok(RunPlan::Rating { board: Variant::Mini4x2, count })
        );
    }
    let mut eval = task(TaskKind::TaskEval, "4x2", 5, 0);
    assert_eq!(plan_run(&eval, &config), Err(RunError::NotRunnable));
    eval.opponent = Some(EvalOpponent::Random);
    assert_eq!(
        plan_run(&eval, &config),
        Ok(RunPlan::Eval {
            board: Variant::Mini4x2,
            count: 5,
            mode: NetworkMode::PolicyArgmax,
            opponent: EvalOpponent::Random,
        })
    );
    eval.mcts_sims = 64;
    assert!(matches!(
        plan_run(&eval, &config),
        Ok(RunPlan::Eval { mode: NetworkMode::Mcts { sims: 64 }, .. })
    ));
    assert_eq!(
        plan_run(&task(TaskKind::TaskReanalysis, "4x2", 0, 0), &config),
        Ok(RunPlan::Reanalysis { board: Variant::Mini4x2 })
    );
    assert_eq!(
        plan_run(&task(TaskKind::TaskSelfplay, "5x5", 1, 0), &config),
        Err(RunError::UnknownVariant)
    );
    assert_eq!(
        plan_run(&task(TaskKind::TaskNone, "4x2", 1, 0), &config),
        Err(RunError::NotRunnable)
    );
}

#[test]
fn a_loop_runs_as_many_tasks_as_asked_for() {
    let mut run = RunLoop::new(2, SelfPlayConfig::default());
    assert_eq!(run.next_step(), LoopStep::GetTask);
    run.complete();
    assert_eq!((run.iteration(), run.next_step()), (1, LoopStep::GetTask));
    run.complete();
    assert_eq!((run.iteration(), run.next_step()), (2, LoopStep::Flush));

    let mut run = RunLoop::new(0, SelfPlayConfig::default());
    for _ in 0..100 {
        run.complete();
    }
    assert_eq!(run.next_step(), LoopStep::GetTask);
}

#[test]
fn a_task_overrides_the_simulations() {
    let mut config = SelfPlayConfig::default();
    config.fast_mcts_sims = 20;
    let mut run = RunLoop::new(0, config);
    run.adopt(&task(TaskKind::TaskSelfplay, "4x2", 1, 0));
    assert_eq!((run.selfplay().mcts_sims, run.selfplay().fast_sims()), (64, 20));
    run.adopt(&task(TaskKind::TaskSelfplay, "4x2", 1, 10));
    assert_eq!((run.selfplay().mcts_sims, run.selfplay().fast_sims()), (10, 2));
    run.adopt(&task(TaskKind::TaskSelfplay, "4x2", 1, 0));
    assert_eq!(run.selfplay().mcts_sims, 10);
}

#[test]
fn small_decisions_of_the_loop() {
    assert_eq!(aggregate_winner(3, 2), 1);
    assert_eq!(aggregate_winner(2, 3), -1);
    assert_eq!(aggregate_winner(2, 2), 0);
    assert_eq!(check_yield(true, 0, 0), Err(RunError::NothingProduced));
    assert_eq!(check_yield(true, 0, 1), Ok(()));
    assert_eq!(check_yield(false, 0, 0), Ok(()));
    assert!(!has_yield(&run_reanalysis(&vec![], vec![])));
    assert_eq!((batch_worker_hint(0), batch_worker_hint(3), batch_worker_hint(12)), (1, 3, 8));
    assert_eq!((pool_threads(0, 16), pool_threads(3, 16)), (16, 3));
    assert_eq!((session_count(0, 12), session_count(2, 12)), (12, 2));
}

fn no_overrides() -> CliOverrides {
    CliOverrides {
        config: None,
        config_dump: None,
        scheduler_endpoint: None,
        worker_id: None,
        cache_dir: None,
        device: None,
        sessions: None,
        mcts_sims: None,
        max_considered_actions: None,
        threads: None,
    }
}

#[test]
fn settings_are_layered() {
    let cfg = CollectorConfig::load(&no_overrides(), None, 42).unwrap();
    assert_eq!(cfg.scheduler.endpoint, "http://127.0.0.1:50051");
    assert_eq!(cfg.scheduler.worker_id, "worker-42");
    assert_eq!(cfg.scheduler.cache_dir, "outputs/distributed_cache");
    assert_eq!((cfg.scheduler.sessions, cfg.scheduler.max_inflight_reports), (0, 2));
    assert_eq!((cfg.selfplay.mcts_sims, cfg.selfplay.fast_sims()), (64, 16));

    let mut file = CollectorConfig::default();
    file.scheduler.worker_id = "from-file".to_string();
    file.scheduler.device = "cpu".to_string();
    file.selfplay.fast_mcts_sims = 8;
    let mut cli = no_overrides();
    cli.scheduler_endpoint = Some("http://h:1".to_string());
    cli.mcts_sims = Some(4);
    cli.sessions = Some(3);
    cli.threads = Some(12);
    let cfg = CollectorConfig::load(&cli, Some(file), 42).unwrap();
    assert_eq!(cfg.scheduler.worker_id, "from-file");
    assert_eq!(cfg.scheduler.device, "cpu");
    assert_eq!(cfg.scheduler.endpoint, "http://h:1");
    assert_eq!((cfg.scheduler.sessions, cfg.selfplay.threads), (3, 12));
    assert_eq!((cfg.selfplay.mcts_sims, cfg.selfplay.fast_mcts_sims), (4, 0));
}

#[test]
fn settings_out_of_range_are_refused() {
    let fault = |change: fn(&mut CollectorConfig)| {
        let mut file = CollectorConfig::default();
        change(&mut file);
        CollectorConfig::load(&no_overrides(), Some(file), 1).unwrap_err()
    };
    assert_eq!(fault(|c| c.scheduler.max_inflight_reports = 0), ConfigError::NoInflightReports);
    assert_eq!(fault(|c| c.selfplay.mcts_sims = 0), ConfigError::NoSimulations);
    assert_eq!(
        fault(|c| c.selfplay.max_considered_actions = 0),
        ConfigError::NoConsideredActions
    );
    assert_eq!(
        fault(|c| {
            c.selfplay.playout_cap_random_enabled = true;
            c.selfplay.fast_mcts_sims = 64;
        }),
        ConfigError::FastNotBelowFull { fast: 64, full: 64 }
    );
}

#[test]
fn effective_settings_load_again_unchanged() {
    let mut cli = no_overrides();
    cli.mcts_sims = Some(100);
    cli.threads = Some(3);
    let first = CollectorConfig::load(&cli, None, 7).unwrap();
    let again = CollectorConfig::load(&no_overrides(), Some(first.clone()), 8).unwrap();
    assert_eq!(again.scheduler.worker_id, "worker-7");
    assert_eq!(format!("{:?}", again), format!("{:?}", first));
}

#[test]
fn a_match_report_is_filled_from_its_task() {
    let t = task(TaskKind::TaskEval, "4x2", 4, 0);
    let tally = Tally { wins: 2, draws: 1, losses: 1 };
    let rep = match_report(&t, 4, tally, &[1, 1, 0, -1], "random");
    assert_eq!((rep.task_id.as_str(), rep.kind), ("t", TaskKind::TaskEval));
    assert_eq!((rep.network_sha.as_str(), rep.opponent_sha.as_str()), ("a", "b"));
    assert_eq!(rep.opponent_spec, "random");
    assert_eq!((rep.games, rep.wins, rep.draws, rep.losses), (4, 2, 1, 1));
    assert_eq!(rep.pairs, [0, 1, 0, 0, 1]);
}
