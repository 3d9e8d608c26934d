use banqi_collector::config::SchedulerConfig;
use banqi_collector::integrity::hex_sha256;
use banqi_collector::meminfo::{parse_available_memory, parse_i64};
use banqi_collector::paths::{extension, network_path, temp_path};
use banqi_collector::registry::{
    match_result, plan_network, read_match_ack, wants_prefetch, BestNews, CachedFile, LoadError,
    MatchAck, MatchReport, NetworkPlan, SchedulerRegistry,
};
use banqi_collector::rule_opponents::{default_eval_opponents, EvalOpponent, RuleOpponent};
use banqi_collector::task::{
    finish_task, initial_revealed, parse_extra_config, plan_task, task_on, SelfPlayParams,
    TaskError, TaskKind, TaskPlan, TaskReply,
};
use banqi_collector::upload::DataKind;

fn reply() -> TaskReply {
    TaskReply {
        kind: Some(TaskKind::TaskSelfplay),
        message: String::new(),
        task_id: "task-1".to_string(),
        network_sha: "aa".to_string(),
        network_key: "networks/aa.onnx".to_string(),
        network_url: "http://n".to_string(),
        opponent_sha: "bb".to_string(),
        opponent_key: "networks/bb.onnx".to_string(),
        opponent_url: "http://o".to_string(),
        opponent_spec: " rule:reveal_first".to_string(),
        games: 10,
        params: Some(SelfPlayParams {
            mcts_sims: 32,
            variant: " 4X4 ".to_string(),
            extra_config: "{\"initial_revealed_pieces\": 6}".to_string(),
            data_kind: Some(DataKind::DataResnet),
        }),
        reanalysis_payload: vec![1, 2],
    }
}

fn as_kind(r: &TaskReply, kind: TaskKind) -> TaskReply {
    let mut r = r.clone();
    r.kind = Some(kind);
    assert!(matches!(plan_task(&r), TaskPlan::Fetch));
    r
}

#[test]
fn a_reply_without_work_is_idle() {
    let mut r = reply();
    r.kind = Some(TaskKind::TaskNone);
    r.network_key = String::new();
    assert!(matches!(plan_task(&r), TaskPlan::Idle { unknown_kind: false }));
    r.kind = None;
    assert!(matches!(plan_task(&r), TaskPlan::Idle { unknown_kind: true }));
}

#[test]
fn a_task_is_refused_before_anything_is_fetched() {
    assert!(matches!(plan_task(&reply()), TaskPlan::Fetch));
    let mut r = reply();
    r.network_key = String::new();
    assert!(matches!(plan_task(&r), TaskPlan::Refuse { error: TaskError::NoNetworkKey }));
    let mut r = reply();
    r.params.as_mut().unwrap().data_kind = Some(DataKind::DataNnue);
    assert!(matches!(
        plan_task(&r),
        TaskPlan::Refuse {
            error: TaskError::UnsupportedDataKind { kind: Some(DataKind::DataNnue) }
        }
    ));
    let mut r = reply();
    r.params = None;
    assert!(matches!(plan_task(&r), TaskPlan::Fetch));
    let mut r = as_kind(&reply(), TaskKind::TaskEval);
    assert!(matches!(plan_task(&r), TaskPlan::Fetch));
    r.opponent_spec = "best".to_string();
    assert!(matches!(
        plan_task(&r),
        TaskPlan::Refuse { error: TaskError::UnknownOpponent { opponent_spec } }
            if opponent_spec == "best"
    ));
    // Only an evaluation is played against a fixed opponent.
    r.kind = Some(TaskKind::TaskRating);
    assert!(matches!(plan_task(&r), TaskPlan::Fetch));
}

#[test]
fn a_task_is_read_from_its_reply() {
    let task = finish_task(&reply()).unwrap();
    assert_eq!(task.task_id, "task-1");
    assert_eq!(task.kind, TaskKind::TaskSelfplay);
    assert_eq!((task.network_sha.as_str(), task.opponent_sha.as_str()), ("aa", "bb"));
    assert_eq!((task.games, task.mcts_sims), (10, 32));
    assert_eq!(task.variant, "4x4");
    assert_eq!(task.initial_revealed, Some(6));
    assert_eq!(task.data_kind, DataKind::DataResnet);
    assert_eq!(task.opponent, None);
    assert_eq!(task.reanalysis_payload, vec![1, 2]);

    let mut r = reply();
    r.games = -3;
    r.params.as_mut().unwrap().mcts_sims = -1;
    r.params.as_mut().unwrap().extra_config = String::new();
    let task = finish_task(&as_kind(&r, TaskKind::TaskSelfplay)).unwrap();
    assert_eq!((task.games, task.mcts_sims, task.initial_revealed), (0, 0, None));
}

#[test]
fn a_task_that_lacks_something_is_refused() {
    let mut r = reply();
    r.params.as_mut().unwrap().variant = " \t".to_string();
    assert!(matches!(
        finish_task(&as_kind(&r, TaskKind::TaskSelfplay)),
        Err(TaskError::NoVariant)
    ));
    r.params = None;
    assert!(matches!(finish_task(&as_kind(&r, TaskKind::TaskRating)), Err(TaskError::NoVariant)));

    let mut r = reply();
    r.opponent_key = String::new();
    assert!(matches!(finish_task(&as_kind(&r, TaskKind::TaskRating)), Err(TaskError::NoOpponentKey)));
    assert!(finish_task(&as_kind(&r, TaskKind::TaskSelfplay)).is_ok());

    let task = finish_task(&as_kind(&r, TaskKind::TaskEval)).unwrap();
    assert_eq!(task.opponent, Some(EvalOpponent::Rule { rule: RuleOpponent::RevealFirst }));
    r.opponent_spec = "best".to_string();
    assert!(matches!(
        task_on(&r, TaskKind::TaskEval, "4x4".to_string(), None),
        Err(TaskError::UnknownOpponent { opponent_spec }) if opponent_spec == "best"
    ));
}

#[test]
fn a_task_is_made_for_a_given_board() {
    let task = task_on(&reply(), TaskKind::TaskReanalysis, "4x8".to_string(), Some(3)).unwrap();
    assert_eq!((task.variant.as_str(), task.initial_revealed), ("4x8", Some(3)));
    assert!(matches!(
        task_on(&reply(), TaskKind::TaskReanalysis, String::new(), None),
        Err(TaskError::NoVariant)
    ));
}

#[test]
fn only_the_number_of_revealed_pieces_is_read() {
    assert_eq!(parse_extra_config("{\"initial_revealed_pieces\": 4, \"x\": [1]}"), Some(4));
    assert_eq!(parse_extra_config("{\"initial_revealed_pieces\": 0}"), None);
    assert_eq!(parse_extra_config("{\"initial_revealed_pieces\": -1}"), None);
    assert_eq!(parse_extra_config("{\"initial_revealed_pieces\": \"4\"}"), None);
    assert_eq!(parse_extra_config("{\"other\": 4}"), None);
    assert_eq!(parse_extra_config("[4]"), None);
    assert_eq!(parse_extra_config("{"), None);
    assert_eq!(initial_revealed(Some(9)), Some(9));
    assert_eq!(initial_revealed(Some(0)), None);
    assert_eq!(initial_revealed(None), None);
}

#[test]
fn fixed_opponents_are_named() {
    assert_eq!(EvalOpponent::parse(" random "), Some(EvalOpponent::Random));
    assert_eq!(EvalOpponent::parse("rule:random"), None);
    let all = default_eval_opponents();
    let names: Vec<&str> = all.iter().map(|o| o.spec()).collect();
    assert_eq!(names, vec!["random", "rule:reveal_first", "rule:capture_first"]);
    for o in all {
        assert_eq!(EvalOpponent::parse(o.spec()), Some(o));
    }
    assert_eq!(RuleOpponent::CaptureFirst.label(), "优先吃子");
    assert_eq!(RuleOpponent::RevealFirst.label(), "优先翻棋");
}

#[test]
fn a_file_is_used_only_with_the_right_digest() {
    let sha = hex_sha256(b"weights");
    let good = CachedFile::Content { data: b"weights".to_vec() };
    let bad = CachedFile::Content { data: b"weight".to_vec() };
    assert_eq!(plan_network(&good, &sha, ""), NetworkPlan::UseCached);
    assert_eq!(plan_network(&good, &sha.to_uppercase(), "u"), NetworkPlan::UseCached);
    assert_eq!(plan_network(&bad, &sha, "u"), NetworkPlan::Download { discard: true });
    assert_eq!(plan_network(&bad, &sha, ""), NetworkPlan::NoUrl { discard: true });
    assert_eq!(
        plan_network(&CachedFile::Unreadable, &sha, "u"),
        NetworkPlan::Download { discard: true }
    );
    assert_eq!(
        plan_network(&CachedFile::Missing, &sha, "u"),
        NetworkPlan::Download { discard: false }
    );
    assert_eq!(
        plan_network(&CachedFile::Missing, &sha, ""),
        NetworkPlan::NoUrl { discard: false }
    );
}

#[test]
fn paths_are_joined_and_their_extensions_told() {
    assert_eq!(network_path("cache", "networks/a.onnx"), "cache/networks/a.onnx");
    assert_eq!(network_path("cache/", "a"), "cache/a");
    assert_eq!(network_path("", "a"), "a");
    assert_eq!(network_path("cache", "/abs"), "/abs");
    for path in [
        "cache/networks/a.onnx", "a.b.c", "a", ".onnx", "x/.onnx", "x.onnx/", "x.onnx/.", "x/..",
        "", "/", "a.", "dir.d/file", "./a.bin", "..", ".", "a//b.c//",
    ] {
        let std_path = std::path::Path::new(path);
        let want = std_path.extension().map(|e| e.to_str().unwrap().to_string());
        assert_eq!(extension(path), want, "{}", path);
        let want = std_path.with_extension("7.3.tmp").to_str().unwrap().to_string();
        assert_eq!(temp_path(path, 7, 3), want, "{}", path);
        let want = std::path::Path::new("cache").join(path).to_str().unwrap().to_string();
        assert_eq!(network_path("cache", path), want, "{}", path);
    }
}

#[test]
fn temporary_files_have_names_of_their_own() {
    assert_eq!(temp_path("c/n/a.onnx", 12, 0), "c/n/a.12.0.tmp");
    assert_ne!(temp_path("c/n/a.onnx", 1, 23), temp_path("c/n/a.onnx", 12, 3));
}

fn registry() -> SchedulerRegistry {
    let mut cfg = SchedulerConfig::default();
    cfg.worker_id = "w".to_string();
    cfg.cache_dir = "cache".to_string();
    SchedulerRegistry::new(cfg)
}

#[test]
fn networks_are_found_under_their_keys() {
    let mut r = registry();
    assert!(matches!(r.model("aa"), Err(LoadError::NotFetched)));
    r.register_network("aa", "networks/aa.onnx");
    r.register_network("bb", "networks/bb.bin");
    r.register_network("cc", "networks/cc");
    let plan = r.model("aa").unwrap();
    assert_eq!(plan.path, "cache/networks/aa.onnx");
    assert_eq!((plan.device.as_str(), plan.sessions), ("auto", 1));
    assert!(matches!(
        r.model("bb"),
        Err(LoadError::UnsupportedFormat { extension }) if extension == "bin"
    ));
    assert!(matches!(r.model("cc"), Err(LoadError::NoExtension)));
    assert_eq!(r.task_request("1.0", 8, 512).current_network, "cc");
    r.register_network("bb", "networks/bb.onnx");
    assert_eq!(r.key_of("bb").unwrap(), "networks/bb.onnx");
    assert_eq!(r.model("bb").unwrap().path, "cache/networks/bb.onnx");
    assert_eq!(r.key_of("aa").unwrap(), "networks/aa.onnx");
}

#[test]
fn reports_wait_for_a_free_slot() {
    let mut r = registry();
    assert!(r.reports_flushed());
    assert!(r.acquire_report_slot());
    assert!(r.acquire_report_slot());
    assert!(!r.acquire_report_slot());
    r.finish_report(false);
    assert!(!r.reports_flushed());
    assert!(r.acquire_report_slot());
    r.finish_report(true);
    r.finish_report(true);
    assert!(r.reports_flushed());
    assert_eq!(r.failed_reports(), 1);
}

#[test]
fn the_heartbeat_tells_what_was_done() {
    let mut r = registry();
    r.set_running_task("t9");
    r.add_completed_games(5);
    r.add_completed_games(6);
    let beat = r.heartbeat("1.2", 4, 77);
    assert_eq!(beat.worker_id, "w");
    assert_eq!((beat.current_threads, beat.completed_games, beat.memory_mb), (4, 11, 77));
    assert_eq!(beat.running_task_id, "t9");
    assert_eq!(beat.client_version, "1.2");
    let request = r.task_request("1.2", 4, 77);
    assert_eq!((request.worker_id.as_str(), request.threads), ("w", 4));
    assert_eq!((request.client_version.as_str(), request.memory_mb), ("1.2", 77));
    assert_eq!((r.next_temp(), r.next_temp()), (0, 1));
}

#[test]
fn a_new_best_network_is_noted_once() {
    let mut r = registry();
    assert!(matches!(r.note_best(""), BestNews::Same));
    assert!(matches!(r.note_best("aa"), BestNews::First));
    assert!(matches!(r.note_best("aa"), BestNews::Same));
    assert!(matches!(r.note_best("bb"), BestNews::Changed { from } if from == "aa"));
    assert!(matches!(r.note_best(""), BestNews::Same));
    assert!(matches!(r.note_best("bb"), BestNews::Same));
    assert!(wants_prefetch("bb", "bb", "k", "u", false));
    assert!(!wants_prefetch("bb", "cc", "k", "u", false));
    assert!(!wants_prefetch("bb", "bb", "", "u", false));
    assert!(!wants_prefetch("bb", "bb", "k", "", false));
    assert!(!wants_prefetch("bb", "bb", "k", "u", true));
}

#[test]
fn a_match_is_reported_with_its_pairs() {
    let rep = MatchReport {
        task_id: "t".to_string(),
        kind: TaskKind::TaskRating,
        network_sha: "a".to_string(),
        opponent_sha: "b".to_string(),
        opponent_spec: String::new(),
        games: 20,
        wins: 9,
        losses: 7,
        draws: 4,
        pairs: [1, 2, 3, 4, 0xffff_ffff],
    };
    let m = match_result("w", &rep);
    assert_eq!((m.games, m.wins, m.losses, m.draws), (20, 9, 7, 4));
    assert_eq!((m.pair_ll, m.pair_ld, m.pair_dd, m.pair_dw, m.pair_ww), (1, 2, 3, 4, -1));
    assert_eq!((m.worker_id.as_str(), m.task_id.as_str()), ("w", "t"));
    assert_eq!((m.network_sha.as_str(), m.opponent_sha.as_str()), ("a", "b"));
    assert_eq!(m.kind, TaskKind::TaskRating);
}

#[test]
fn a_refused_match_gives_its_reason() {
    let ack = |accepted: bool| MatchAck {
        accepted,
        message: "no".to_string(),
        match_concluded: true,
        promoted: false,
        best_sha: "aa".to_string(),
    };
    let verdict = read_match_ack(ack(true)).unwrap();
    assert!(verdict.concluded && !verdict.promoted);
    assert_eq!(verdict.best_sha, "aa");
    assert_eq!(read_match_ack(ack(false)).unwrap_err(), "no");
}

#[test]
fn free_memory_is_read_in_megabytes() {
    let text = "MemTotal:       16000000 kB\nMemFree: 1 kB\nMemAvailable:    8388608 kB\n";
    assert_eq!(parse_available_memory(text), 8192);
    assert_eq!(parse_available_memory("MemAvailable: 2048\r\n"), 2);
    assert_eq!(parse_available_memory("MemAvailable: 4096 kB kB"), 4);
    assert_eq!(parse_available_memory("MemAvailable: -4096 kB"), -4);
    assert_eq!(parse_available_memory("MemAvailable: -1 kB"), 0);
    assert_eq!(parse_available_memory("MemAvailable: lots kB\nMemAvailable: 4096 kB"), 0);
    assert_eq!(parse_available_memory(" MemAvailable: 4096 kB"), 0);
    assert_eq!(parse_available_memory(""), 0);
}

#[test]
fn numbers_are_read_as_std_reads_them() {
    for s in [
        "0", "-0", "+7", "12345", "-12345", "", "-", "+", "1 ", "1_0", "--1", "٣",
        "9223372036854775807", "9223372036854775808", "-9223372036854775808",
        "-9223372036854775809", "18446744073709551616", "00000000000000000000000001",
    ] {
        assert_eq!(parse_i64(s), s.parse::<i64>().ok(), "{}", s);
    }
}
