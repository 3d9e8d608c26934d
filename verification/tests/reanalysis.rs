use banqi_collector::config::SelfPlayConfig;
use banqi_collector::episode::{Player, ResNetObservation};
use banqi_collector::finalize::finalize_episode;
use banqi_collector::reanalysis::{
    run_reanalysis, unlisted, ReanalysisItem, SearchOutcome, MAX_LOGGED_ERRORS,
};
use banqi_collector::reanalysis_payload::{
    decode_payload, encode_payload, PayloadError, PAYLOAD_VERSION,
};
use banqi_collector::search::{
    gumbel_config, search_budget, GumbelConfig, SearchBudget, SearchStep,
};

const BOARD_CHANNELS: usize = 3;

fn bits(values: &[f32]) -> Vec<u32> {
    values.iter().map(|v| v.to_bits()).collect()
}

fn step(player: Player) -> SearchStep {
    SearchStep {
        obs: ResNetObservation::from_flat(
            bits(&[0.0; 24]),
            bits(&[0.5]),
            (BOARD_CHANNELS, 4, 2),
        ),
        policy: bits(&[0.25, 0.5, 0.25, 0.0]),
        mcts_value: 0.125f32.to_bits(),
        completed_q: (-0.5f32).to_bits(),
        root_visits: 16,
        player,
        mask: vec![1, 1, 1, 0],
        action: 1,
        is_full_search: false,
    }
}

#[test]
fn reanalysis_produces_one_sample_episode_per_position() {
    let players: Vec<Player> = (0..6)
        .map(|i| if i % 2 == 0 { Player::Red } else { Player::Black })
        .collect();
    let items: Vec<ReanalysisItem> = (0..6u8)
        .map(|i| ReanalysisItem {
            snapshot: vec![i],
            winner: Some(1),
            health_diff_red: Some(0.5f32.to_bits()),
        })
        .collect();
    let outcomes: Vec<SearchOutcome> =
        players.iter().map(|p| SearchOutcome::Searched { step: step(*p) }).collect();

    let report = run_reanalysis(&items, outcomes);

    assert_eq!(report.failed, 0);
    assert_eq!(report.episodes.len(), items.len());
    assert_eq!(report.skipped, 0);

    for (i, (ep, item)) in report.episodes.iter().zip(&items).enumerate() {
        assert_eq!(ep.samples.len(), 1);
        assert_eq!(ep.game_length, 1);
        assert_eq!(ep.winner, item.winner);
        assert_eq!(ep.health_diff_red, item.health_diff_red);
        assert!(ep.positions.is_none());

        let s = &ep.samples[0];
        assert!(s.is_full_search);
        assert_eq!(s.mask.len(), s.policy.len());
        assert_eq!(s.obs.shape[0], BOARD_CHANNELS);

        let sign = if players[i] == Player::Red { 1.0f32 } else { -1.0 };
        assert_eq!(f32::from_bits(s.game_result), sign);
        assert_eq!(f32::from_bits(s.health_diff), sign * 0.5);

        let sum: f32 = s.policy.iter().map(|p| f32::from_bits(*p)).sum();
        assert!((sum - 1.0).abs() < 1e-3);
        assert!(s.action < s.policy.len());
        assert_eq!(f32::from_bits(s.mcts_value), 0.125);
    }
}

#[test]
fn invalid_payload_is_counted_not_panicking() {
    let items = vec![
        ReanalysisItem { snapshot: vec![0xff; 8], winner: Some(0), health_diff_red: None },
        ReanalysisItem { snapshot: Vec::new(), winner: None, health_diff_red: None },
    ];
    let outcomes = items
        .iter()
        .map(|_| SearchOutcome::Failed { reason: "快照解码失败".to_string() })
        .collect();
    let report = run_reanalysis(&items, outcomes);
    assert_eq!(report.failed, 2);
    assert!(report.episodes.is_empty());
    assert_eq!(report.errors.len(), 2);
    assert_eq!(unlisted(&report), 0);
}

#[test]
fn positions_keep_their_order_and_failures_are_listed_up_to_a_limit() {
    let mut items = Vec::new();
    let mut outcomes = Vec::new();
    for i in 0..9i32 {
        items.push(ReanalysisItem {
            snapshot: vec![i as u8],
            winner: Some(if i == 8 { -1 } else { 0 }),
            health_diff_red: None,
        });
        outcomes.push(match i {
            0 => SearchOutcome::Terminal,
            1 | 8 => SearchOutcome::Searched { step: step(Player::Black) },
            _ => SearchOutcome::Failed { reason: format!("reason {}", i) },
        });
    }
    items.push(ReanalysisItem { snapshot: vec![], winner: None, health_diff_red: None });
    outcomes.push(SearchOutcome::Failed { reason: "reason 9".to_string() });
    let report = run_reanalysis(&items, outcomes);
    assert_eq!(report.skipped, 1);
    assert_eq!(report.failed, 7);
    assert_eq!(report.episodes.len() + report.failed + report.skipped, items.len());
    assert_eq!(report.episodes[0].winner, Some(0));
    assert_eq!(report.episodes[1].winner, Some(-1));
    assert_eq!(f32::from_bits(report.episodes[1].samples[0].game_result), 1.0);
    assert_eq!(report.episodes[0].samples[0].game_result, 0);
    assert_eq!(report.errors.len(), MAX_LOGGED_ERRORS);
    assert_eq!(report.errors[0], "reason 2");
    assert_eq!(report.errors[4], "reason 6");
    assert_eq!(unlisted(&report), 2);
}

#[test]
fn finalizing_turns_results_to_the_side_to_move() {
    let ep = finalize_episode(
        vec![step(Player::Red), step(Player::Black)],
        Some(-1),
        Some((-0.25f32).to_bits()),
        Some(vec![vec![1], vec![2]]),
    );
    assert_eq!(ep.game_length, 2);
    let results: Vec<f32> = ep.samples.iter().map(|s| f32::from_bits(s.game_result)).collect();
    assert_eq!(results, vec![-1.0, 1.0]);
    let health: Vec<f32> = ep.samples.iter().map(|s| f32::from_bits(s.health_diff)).collect();
    assert_eq!(health, vec![-0.25, 0.25]);
    assert!(!ep.samples[0].is_full_search);
    assert_eq!(ep.positions, Some(vec![vec![1u8], vec![2]]));

    let ep = finalize_episode(vec![step(Player::Red)], None, None, Some(vec![]));
    assert!(ep.positions.is_none());
    assert_eq!(ep.samples[0].game_result, 0);
    assert_eq!(ep.samples[0].health_diff, 0);
}

fn payload_items() -> Vec<ReanalysisItem> {
    vec![
        ReanalysisItem {
            snapshot: vec![0xaa, 0xbb],
            winner: Some(-1),
            health_diff_red: Some(0.5f32.to_bits()),
        },
        ReanalysisItem { snapshot: vec![], winner: None, health_diff_red: None },
        ReanalysisItem { snapshot: vec![7], winner: Some(1), health_diff_red: None },
    ]
}

#[test]
fn a_payload_has_a_fixed_layout() {
    let bytes = encode_payload(&payload_items()[..1].to_vec()).unwrap();
    assert_eq!(
        bytes,
        vec![
            1, 1, 0, 0, 0, 2, 0, 0, 0, 0xaa, 0xbb, 3, 0xff, 0xff, 0xff, 0xff, 0, 0, 0, 0x3f,
        ]
    );
}

#[test]
fn a_payload_reads_back() {
    let items = payload_items();
    let bytes = encode_payload(&items).unwrap();
    let back = decode_payload(&bytes).unwrap();
    assert_eq!(back.len(), 3);
    for (a, b) in items.iter().zip(&back) {
        assert_eq!(a.snapshot, b.snapshot);
        assert_eq!(a.winner, b.winner);
        assert_eq!(a.health_diff_red, b.health_diff_red);
    }
}

#[test]
fn a_broken_payload_is_refused() {
    let bytes = encode_payload(&payload_items()).unwrap();
    assert_eq!(decode_payload(&vec![]).unwrap_err(), PayloadError::Empty);
    assert_eq!(
        decode_payload(&vec![PAYLOAD_VERSION + 1]).unwrap_err(),
        PayloadError::UnknownVersion { version: 2 }
    );
    assert_eq!(decode_payload(&bytes[..4].to_vec()).unwrap_err(), PayloadError::NoCount);
    let n = bytes.len();
    assert_eq!(
        decode_payload(&bytes[..n - 1].to_vec()).unwrap_err(),
        PayloadError::Truncated { item: 2 }
    );
    assert_eq!(
        decode_payload(&bytes[..7].to_vec()).unwrap_err(),
        PayloadError::Truncated { item: 0 }
    );
    let mut longer = bytes.clone();
    longer.push(0);
    assert_eq!(
        decode_payload(&longer).unwrap_err(),
        PayloadError::TrailingBytes { bytes: 1 }
    );
}

#[test]
fn the_search_is_told_what_the_settings_say() {
    let mut config = SelfPlayConfig::default();
    config.mcts_sims = 16;
    config.max_considered_actions = 4;
    config.gumbel_scale = 0.5f32.to_bits();
    config.health_enabled = true;
    assert_eq!(
        gumbel_config(&config),
        GumbelConfig {
            num_simulations: 16,
            max_considered_actions: 4,
            c_scale: 1.0f32.to_bits(),
            gumbel_scale: 0.5f32.to_bits(),
            health_enabled: true,
            health_weight: config.health_weight,
            health_confidence_exp: config.health_confidence_exp,
        }
    );
}

#[test]
fn lots_decide_how_much_a_search_may_do() {
    let mut config = SelfPlayConfig::default();
    config.mcts_sims = 64;
    config.fast_mcts_sims = 0;
    config.playout_cap_random_enabled = false;
    let full = SearchBudget { simulations: 64, is_full_search: true };
    assert_eq!(search_budget(&config, false), full);
    assert_eq!(search_budget(&config, true), full);
    config.playout_cap_random_enabled = true;
    assert_eq!(search_budget(&config, true), full);
    assert_eq!(
        search_budget(&config, false),
        SearchBudget { simulations: 16, is_full_search: false }
    );
}
