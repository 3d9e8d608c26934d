use std::io::Read;

use banqi_collector::batch::{encode_episode_batch, BatchError};
use banqi_collector::episode::{GameEpisode, ResNetObservation, Sample};
use banqi_collector::integrity::{check_sha256, hex_sha256, verify_sha256};
use banqi_collector::upload::{
    batch_gz, check_kind, compressed, episode_meta, plan_upload, total_steps, unpacked, DataKind,
    EpisodeBatch, ReportAck, UploadError, UploadPlan,
};

fn episode(length: usize) -> GameEpisode {
    GameEpisode {
        samples: vec![Sample {
            obs: ResNetObservation::from_flat(vec![0, 0x3f80_0000], vec![1, 2], (1, 2, 1)),
            policy: vec![5, 6, 7],
            mcts_value: 1,
            completed_q: 2,
            root_visits: 3,
            game_result: 4,
            mask: vec![1, 0, 1],
            action: 2,
            health_diff: 9,
            is_full_search: true,
        }],
        game_length: length,
        winner: None,
        health_diff_red: None,
        nnue: None,
        positions: None,
    }
}

#[test]
fn digests_are_those_of_sha256() {
    assert_eq!(
        hex_sha256(b""),
        "e3b0c44298fc1c149afbf4c8996fb92427ae41e4649b934ca495991b7852b855"
    );
    assert_eq!(
        hex_sha256(b"abc"),
        "ba7816bf8f01cfea414140de5dae2223b00361a396177a9cb410ff61f20015ad"
    );
}

#[test]
fn content_is_checked_in_either_case() {
    let expect = "BA7816BF8F01CFEA414140DE5DAE2223B00361A396177A9CB410FF61F20015AD";
    assert!(verify_sha256(b"abc", expect).is_ok());
    assert!(verify_sha256(b"abc", &hex_sha256(b"abc")).is_ok());
    let e = verify_sha256(b"abd", expect).unwrap_err();
    assert_eq!(e.actual, hex_sha256(b"abd"));
    assert!(verify_sha256(b"abc", "ba78").is_err());
    assert!(check_sha256("aB".to_string(), "Ab").is_ok());
    assert!(check_sha256("ab".to_string(), "ac").is_err());
}

#[test]
fn a_batch_unpacks_to_its_encoding() {
    let episodes = vec![episode(3), episode(4)];
    let body = batch_gz(DataKind::DataResnet, "4x4", &episodes, &[]).unwrap();
    let raw = encode_episode_batch("4x4", &episodes, &[]).unwrap();
    assert_ne!(body, raw);
    let mut back = Vec::new();
    flate2::read::GzDecoder::new(body.as_slice()).read_to_end(&mut back).unwrap();
    assert_eq!(back, raw);
    assert_eq!(unpacked(&body), Some(raw.clone()));
    // Nothing but one whole compressed text unpacks.
    assert_eq!(unpacked(&raw), None);
    assert_eq!(unpacked(&Vec::new()), None);
    assert_eq!(unpacked(&body[..body.len() - 1].to_vec()), None);
    let mut longer = body.clone();
    longer.push(0);
    assert_eq!(unpacked(&longer), None);
    let mut spoilt = body;
    let at = spoilt.len() - 5;
    spoilt[at] ^= 1;
    assert_eq!(unpacked(&spoilt), None);
}

#[test]
fn a_batch_holds_games_of_its_own_kind_only() {
    assert_eq!(check_kind(DataKind::DataResnet, 1, 0), Ok(()));
    assert_eq!(check_kind(DataKind::DataNnue, 0, 1), Ok(()));
    assert_eq!(
        check_kind(DataKind::DataNnue, 2, 1),
        Err(UploadError::WrongKind { kind: DataKind::DataNnue, others: 2 })
    );
    assert_eq!(
        batch_gz(DataKind::DataResnet, "4x4", &[], &[]).unwrap_err(),
        UploadError::NoGames { kind: DataKind::DataResnet }
    );
    let mut empty = episode(12);
    empty.samples.clear();
    assert_eq!(
        batch_gz(DataKind::DataResnet, "4x4", &[empty], &[]).unwrap_err(),
        UploadError::NoGames { kind: DataKind::DataResnet }
    );
    assert_eq!(
        batch_gz(DataKind::DataNnue, "4x4", &[episode(1)], &[]).unwrap_err(),
        UploadError::WrongKind { kind: DataKind::DataNnue, others: 1 }
    );
    assert_eq!(
        batch_gz(DataKind::DataResnet, "", &[episode(1)], &[]).unwrap_err(),
        UploadError::Encode { cause: BatchError::EmptyVariant }
    );
    assert_eq!(compressed(None), Err(UploadError::Gzip));
    assert_eq!(compressed(Some(vec![1])), Ok(vec![1]));
}

#[test]
fn a_report_describes_the_upload() {
    let batch = EpisodeBatch {
        task_id: "t1".to_string(),
        network_sha: "n1".to_string(),
        variant: "4x4".to_string(),
        data_kind: DataKind::DataResnet,
        winner: -1,
        episodes: vec![episode(3), episode(4)],
        nnue_episodes: vec![],
    };
    assert_eq!(total_steps(&batch.episodes, &batch.nnue_episodes), Some(7));
    assert_eq!(total_steps(&[episode(usize::MAX), episode(1)], &[]), None);
    let meta = episode_meta("w", &batch, 2, 7, 1234, b"abc");
    assert_eq!(meta.worker_id, "w");
    assert_eq!(meta.task_id, "t1");
    assert_eq!((meta.game_count, meta.total_steps, meta.winner), (2, 7, -1));
    assert_eq!(meta.network_sha, "n1");
    assert_eq!((meta.timestamp, meta.content_length), (1234, 3));
    assert_eq!(meta.content_sha256, hex_sha256(b"abc"));
    assert_eq!(meta.kind, DataKind::DataResnet);
    let meta = episode_meta("w", &batch, 0x1_8000_0001, 0xffff_ffff, 0, b"");
    assert_eq!((meta.game_count, meta.total_steps), (-0x7fff_ffff, -1));
}

fn ack(accepted: bool, url: &str) -> ReportAck {
    ReportAck {
        accepted,
        message: "why".to_string(),
        object_key: "episodes/1".to_string(),
        upload_url: url.to_string(),
    }
}

#[test]
fn an_upload_follows_only_an_accepted_report() {
    assert!(matches!(
        plan_upload(ack(true, "http://x")),
        UploadPlan::Upload { url, object_key } if url == "http://x" && object_key == "episodes/1"
    ));
    assert!(matches!(
        plan_upload(ack(false, "http://x")),
        UploadPlan::Refused { reason } if reason == "why"
    ));
    assert!(matches!(
        plan_upload(ack(true, "")),
        UploadPlan::NoUrl { object_key } if object_key == "episodes/1"
    ));
}
