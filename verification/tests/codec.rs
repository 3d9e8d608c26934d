use banqi_collector::batch::{encode_episode_batch, BatchError};
use banqi_collector::bits::set_bit;
use banqi_collector::codec::encode_episode;
use banqi_collector::codec_error::{BoardShape, CodecError, FeatureSide, Quantity};
use banqi_collector::episode::{
    GameEpisode, NnueEpisode, NnueEpisodeMeta, NnueStepFeatures, ResNetObservation, Sample,
};
use banqi_collector::nnue_codec::encode_nnue_episode;
use banqi_collector::records::SCHEMA_VERSION;
use prost::encoding::{decode_key, decode_varint, WireType};

/// One field of a message, as prost reads it.
#[derive(Debug, Clone, PartialEq)]
enum Value {
    Varint(u64),
    Word(u32),
    Bytes(Vec<u8>),
}

fn fields(message: &[u8]) -> Vec<(u32, Value)> {
    let mut buf = message;
    let mut out = Vec::new();
    while !buf.is_empty() {
        let (tag, wire) = decode_key(&mut buf).unwrap();
        let value = match wire {
            WireType::Varint => Value::Varint(decode_varint(&mut buf).unwrap()),
            WireType::ThirtyTwoBit => {
                let word = u32::from_le_bytes([buf[0], buf[1], buf[2], buf[3]]);
                buf = &buf[4..];
                Value::Word(word)
            },
            WireType::LengthDelimited => {
                let n = decode_varint(&mut buf).unwrap() as usize;
                let data = buf[..n].to_vec();
                buf = &buf[n..];
                Value::Bytes(data)
            },
            _ => panic!("unexpected wire type"),
        };
        out.push((tag, value));
    }
    out
}

fn uint(fs: &[(u32, Value)], tag: u32) -> u32 {
    for (t, v) in fs {
        if *t == tag {
            if let Value::Varint(n) = v {
                return *n as u32;
            }
        }
    }
    0
}

fn signed(fs: &[(u32, Value)], tag: u32) -> Option<i32> {
    for (t, v) in fs {
        if *t == tag {
            if let Value::Varint(n) = v {
                return Some(*n as i32);
            }
        }
    }
    None
}

fn word(fs: &[(u32, Value)], tag: u32) -> Option<u32> {
    for (t, v) in fs {
        if *t == tag {
            if let Value::Word(n) = v {
                return Some(*n);
            }
        }
    }
    None
}

fn all_bytes(fs: &[(u32, Value)], tag: u32) -> Vec<Vec<u8>> {
    let mut out = Vec::new();
    for (t, v) in fs {
        if *t == tag {
            if let Value::Bytes(b) = v {
                out.push(b.clone());
            }
        }
    }
    out
}

fn bytes(fs: &[(u32, Value)], tag: u32) -> Vec<u8> {
    all_bytes(fs, tag).pop().unwrap_or_default()
}

fn bits(values: &[f32]) -> Vec<u32> {
    values.iter().map(|v| v.to_bits()).collect()
}

/// Two steps, two channels of 2x2, three scalars, four actions.
///
/// The boards are laid out by channel, then square:
///   step 0: channel 0 = [0,1,0,0], channel 1 = [0,0,0,0]
///   step 1: channel 0 = [1,1,1,1], channel 1 = [1,0,1,0]
fn sample_episode() -> GameEpisode {
    let boards: [[f32; 8]; 2] = [
        [0.0, 1.0, 0.0, 0.0, 0.0, 0.0, 0.0, 0.0],
        [1.0, 1.0, 1.0, 1.0, 1.0, 0.0, 1.0, 0.0],
    ];
    let masks: [[i32; 4]; 2] = [[1, 1, 0, 0], [0, 1, 1, 0]];
    let mut samples = Vec::new();
    for step in 0..2usize {
        let obs = ResNetObservation::from_flat(
            bits(&boards[step]),
            bits(&[0.5, -0.5, 1.0]),
            (2, 2, 2),
        );
        samples.push(Sample {
            obs,
            policy: bits(&[0.25, 0.5, 0.25, 0.0]),
            mcts_value: 0.1f32.to_bits(),
            completed_q: (-0.2f32).to_bits(),
            root_visits: 7,
            game_result: 1.0f32.to_bits(),
            mask: masks[step].to_vec(),
            action: 2,
            health_diff: 0.3f32.to_bits(),
            is_full_search: step == 0,
        });
    }
    GameEpisode {
        samples,
        game_length: 2,
        winner: Some(1),
        health_diff_red: Some(0.3f32.to_bits()),
        nnue: None,
        positions: None,
    }
}

fn nnue_meta() -> NnueEpisodeMeta {
    NnueEpisodeMeta {
        feature_dim: 100,
        states_per_square: 16,
        bag_stride: 14,
        num_active: 12,
        total_positions: 8,
    }
}

fn nnue_episode() -> NnueEpisode {
    NnueEpisode {
        meta: nnue_meta(),
        features: vec![
            NnueStepFeatures { mover: vec![1, 2, 99], opponent: vec![3] },
            NnueStepFeatures { mover: vec![], opponent: vec![4, 5] },
        ],
        search_values: bits(&[0.5, -1.0]),
        players: vec![1, -1],
        actions: vec![7, 300],
        game_length: 9,
        winner: Some(-1),
    }
}

fn le(words: &[u32]) -> Vec<u8> {
    words.iter().flat_map(|w| w.to_le_bytes()).collect()
}

#[test]
fn encode_episode_layout() {
    let ep = sample_episode();
    let raw = encode_episode_batch("4x4", std::slice::from_ref(&ep), &[]).unwrap();
    let batch = fields(&raw);

    assert_eq!(uint(&batch, 1), SCHEMA_VERSION);
    assert_eq!(String::from_utf8(bytes(&batch, 2)).unwrap(), "4x4");
    let episodes = all_bytes(&batch, 3);
    assert_eq!(episodes.len(), 1);
    let rec = fields(&episodes[0]);

    assert_eq!((uint(&rec, 1), uint(&rec, 2), uint(&rec, 3), uint(&rec, 4)), (2, 2, 2, 2));
    assert_eq!(uint(&rec, 5), 3);
    assert_eq!(uint(&rec, 6), 4);
    // One byte per step and channel.
    assert_eq!(bytes(&rec, 7).len(), 4);
    // The smaller index is at the higher bit.
    assert_eq!(bytes(&rec, 7), vec![0x40u8, 0x00, 0xF0, 0xA0]);
    assert_eq!(bytes(&rec, 10), vec![0xC0u8, 0x60u8]);
    assert_eq!(bytes(&rec, 8).len(), 2 * 3 * 4);
    assert_eq!(bytes(&rec, 9).len(), 2 * 4 * 4);
    assert_eq!(bytes(&rec, 15).len(), 2 * 4);
    assert_eq!(bytes(&rec, 17), vec![1u8, 0u8]);
    assert_eq!(uint(&rec, 18), 2);
    assert_eq!(signed(&rec, 19), Some(1));
}

/// How the number that an error speaks of reads.
fn number_shown(err: &BatchError) -> String {
    match err.offending_bits() {
        Some(bits) => f32::from_bits(bits).to_string(),
        None => String::new(),
    }
}

#[test]
fn reject_non_binary_board() {
    let mut ep = sample_episode();
    ep.samples[0].obs.board[0] = 0.5f32.to_bits();
    let err = encode_episode_batch("4x4", &[ep], &[]).unwrap_err();
    let text = err.message(&number_shown(&err));
    assert!(text.contains("不是 0/1"), "{}", text);
    assert_eq!(
        text,
        "编码第 0 局 ResNet episode 失败: 棋盘特征 第 0 步下标 0 的值 0.5 不是 0/1，无法位打包"
    );
    assert_eq!(
        err,
        BatchError::Resnet {
            episode: 0,
            cause: CodecError::BoardNotBinary { step: 0, index: 0, bits: 0.5f32.to_bits() },
        }
    );
}

#[test]
fn skip_empty_episodes() {
    let ep = GameEpisode {
        samples: Vec::new(),
        game_length: 12,
        winner: None,
        health_diff_red: None,
        nnue: None,
        positions: None,
    };
    let raw = encode_episode_batch("4x4", &[ep], &[]).unwrap();
    let batch = fields(&raw);
    assert!(all_bytes(&batch, 3).is_empty());
}

#[test]
fn values_of_a_step_are_at_its_place() {
    let rec = encode_episode(&sample_episode()).unwrap().unwrap();
    let scalars = le(&bits(&[0.5, -0.5, 1.0, 0.5, -0.5, 1.0]));
    assert_eq!(rec.scalars, scalars);
    assert_eq!(rec.policies[16..32].to_vec(), le(&bits(&[0.25, 0.5, 0.25, 0.0])));
    assert_eq!(rec.mcts_values, le(&bits(&[0.1, 0.1])));
    assert_eq!(rec.completed_qs, le(&bits(&[-0.2, -0.2])));
    assert_eq!(rec.game_results, le(&bits(&[1.0, 1.0])));
    assert_eq!(rec.health_diffs, le(&bits(&[0.3, 0.3])));
    assert_eq!(rec.root_visits, le(&[7, 7]));
    assert_eq!(rec.actions, le(&[2, 2]));
    assert_eq!(rec.health_diff_red, Some(0.3f32.to_bits()));
}

#[test]
fn the_whole_record_reads_back_from_its_message() {
    let mut ep = sample_episode();
    ep.winner = Some(-1);
    ep.positions = Some(vec![vec![1, 2, 3], vec![]]);
    ep.nnue = Some((
        nnue_meta(),
        vec![
            NnueStepFeatures { mover: vec![1], opponent: vec![2, 3] },
            NnueStepFeatures { mover: vec![], opponent: vec![] },
        ],
    ));
    let raw = encode_episode_batch("4x2", &[ep], &[]).unwrap();
    let batch = fields(&raw);
    assert!(all_bytes(&batch, 4).is_empty());
    let rec = fields(&all_bytes(&batch, 3)[0]);
    assert_eq!(signed(&rec, 19), Some(-1));
    assert_eq!(word(&rec, 20), Some(0.3f32.to_bits()));
    assert_eq!(all_bytes(&rec, 22), vec![vec![1u8, 2, 3], vec![]]);
    let nnue = fields(&bytes(&rec, 21));
    let meta = fields(&bytes(&nnue, 1));
    assert_eq!((uint(&meta, 1), uint(&meta, 2), uint(&meta, 3)), (100, 16, 14));
    assert_eq!((uint(&meta, 4), uint(&meta, 5)), (12, 8));
    assert_eq!(bytes(&nnue, 2), le(&[1, 2, 3]));
    assert_eq!(bytes(&nnue, 3), le(&[0, 1, 3, 3, 3]));
}

#[test]
fn an_nnue_record_reads_back_from_its_message() {
    let raw = encode_episode_batch("4x2", &[], &[nnue_episode()]).unwrap();
    let batch = fields(&raw);
    assert!(all_bytes(&batch, 3).is_empty());
    let games = all_bytes(&batch, 4);
    assert_eq!(games.len(), 1);
    let game = fields(&games[0]);
    assert_eq!(uint(&game, 2), 2);
    assert_eq!(bytes(&game, 3), le(&[1, 2, 99, 3, 4, 5]));
    assert_eq!(bytes(&game, 4), le(&[0, 3, 4, 4, 6]));
    assert_eq!(bytes(&game, 5), le(&bits(&[0.5, -1.0])));
    assert_eq!(bytes(&game, 6), le(&[1, 0xffff_ffff]));
    assert_eq!(bytes(&game, 7), le(&[7, 300]));
    assert_eq!(uint(&game, 8), 9);
    assert_eq!(signed(&game, 9), Some(-1));
}

#[test]
fn games_are_kept_in_order_and_empty_ones_left_out() {
    let mut empty = sample_episode();
    empty.samples.clear();
    let mut other = sample_episode();
    other.game_length = 77;
    let raw = encode_episode_batch("4x4", &[empty, sample_episode(), other], &[]).unwrap();
    let episodes = all_bytes(&fields(&raw), 3);
    assert_eq!(episodes.len(), 2);
    assert_eq!(uint(&fields(&episodes[0]), 18), 2);
    assert_eq!(uint(&fields(&episodes[1]), 18), 77);
}

#[test]
fn a_plane_fills_whole_bytes() {
    let mut ep = sample_episode();
    ep.samples.truncate(1);
    let mut board = vec![0.0f32; 10];
    board[0] = 1.0;
    board[8] = -0.0;
    board[9] = 1.0;
    ep.samples[0].obs = ResNetObservation::from_flat(bits(&board), bits(&[1.0]), (1, 5, 2));
    ep.samples[0].policy = bits(&[0.0; 9]);
    ep.samples[0].mask = vec![0, 0, 0, 0, 0, 0, 0, 1, 1];
    let rec = encode_episode(&ep).unwrap().unwrap();
    assert_eq!(rec.boards_bits, vec![0x80u8, 0x40]);
    assert_eq!(rec.action_masks_bits, vec![0x01u8, 0x80]);
}

#[test]
fn an_empty_variant_is_refused() {
    let err = encode_episode_batch("", &[sample_episode()], &[]).unwrap_err();
    assert_eq!(err, BatchError::EmptyVariant);
    assert_eq!(err.offending_bits(), None);
    assert_eq!(err.message(""), "变体标识为空，无法标注训练数据来源");
}

#[test]
fn records_of_both_kinds_are_refused() {
    let err = encode_episode_batch("4x4", &[sample_episode()], &[nnue_episode()]).unwrap_err();
    assert_eq!(err, BatchError::MixedKinds { resnet: 1, nnue: 1 });
    assert_eq!(err.message(""), "一批只能含一类记录: ResNet=1 NNUE=1");
    // Games without steps leave no record.
    let mut empty = nnue_episode();
    empty.features.clear();
    assert!(encode_episode_batch("4x4", &[sample_episode()], &[empty]).is_ok());
}

#[test]
fn the_record_of_joined_games_is_the_joined_records() {
    let whole = sample_episode();
    let mut first = sample_episode();
    let second = GameEpisode { samples: first.samples.split_off(1), ..whole.clone() };
    let m = encode_episode(&whole).unwrap().unwrap();
    let a = encode_episode(&first).unwrap().unwrap();
    let b = encode_episode(&second).unwrap().unwrap();
    assert_eq!(m.steps, a.steps + b.steps);
    assert_eq!(m.boards_bits, [a.boards_bits, b.boards_bits].concat());
    assert_eq!(m.policies, [a.policies, b.policies].concat());
    assert_eq!(m.action_masks_bits, [a.action_masks_bits, b.action_masks_bits].concat());
    assert_eq!(m.is_full_search, [a.is_full_search, b.is_full_search].concat());
}

#[test]
fn a_bit_that_is_not_set_touches_nothing() {
    let mut buf = vec![0x0fu8];
    set_bit(&mut buf, 100, false);
    set_bit(&mut buf, 7, false);
    assert_eq!(buf, vec![0x0f]);
    set_bit(&mut buf, 0, true);
    assert_eq!(buf, vec![0x8f]);
}

fn cause(ep: GameEpisode) -> CodecError {
    encode_episode(&ep).unwrap_err()
}

#[test]
fn every_fault_of_a_game_has_its_error() {
    let mut ep = sample_episode();
    ep.samples[1].obs.shape = vec![2, 2];
    let e = cause(ep);
    assert_eq!(e, CodecError::BadShape { step: 1, extents: vec![2, 2] });
    assert_eq!(e.message(""), "第 1 步棋盘张量形状非法: [2, 2]");

    let mut ep = sample_episode();
    ep.samples[0].obs.shape = Vec::new();
    assert_eq!(cause(ep).message(""), "第 0 步棋盘张量形状非法: []");

    let mut ep = sample_episode();
    ep.samples[0].obs.shape = vec![2, 0, 2];
    let e = cause(ep);
    assert_eq!(e, CodecError::BadShape { step: 0, extents: vec![2, 0, 2] });
    assert_eq!(e.message(""), "第 0 步棋盘张量形状非法: [2, 0, 2]");

    let mut ep = sample_episode();
    ep.samples[0].obs.scalars.clear();
    assert_eq!(cause(ep), CodecError::ZeroDimension { scalar_count: 0, action_space: 4 });

    let mut ep = sample_episode();
    ep.samples[1].obs.shape = vec![2, 4, 1];
    let e = cause(ep);
    assert_eq!(
        e,
        CodecError::ShapeMismatch {
            step: 1,
            shape: BoardShape { channels: 2, rows: 4, cols: 1 },
            expected_shape: BoardShape { channels: 2, rows: 2, cols: 2 },
        }
    );
    assert_eq!(e.message(""), "第 1 步棋盘形状 (2,4,1) 与首步 (2,2,2) 不一致");

    let mut ep = sample_episode();
    ep.samples[1].obs.scalars.pop();
    let e = cause(ep);
    assert_eq!(e, CodecError::ScalarMismatch { step: 1, found: 2, expected: 3 });
    assert_eq!(e.message(""), "第 1 步标量维度 2 与首步 3 不一致");

    let mut ep = sample_episode();
    ep.samples[1].policy.pop();
    assert_eq!(cause(ep), CodecError::PolicyMismatch { step: 1, found: 3, expected: 4 });

    let mut ep = sample_episode();
    ep.samples[0].mask.push(0);
    assert_eq!(cause(ep), CodecError::MaskMismatch { step: 0, found: 5, expected: 4 });

    let mut ep = sample_episode();
    ep.samples[0].obs.board.pop();
    let e = cause(ep);
    assert_eq!(e, CodecError::BoardSize { step: 0, found: 7, implied: Some(8) });
    assert_eq!(e.message(""), "第 0 步棋盘元素数 7 与形状推导值 8 不一致");

    let mut ep = sample_episode();
    let huge = usize::MAX;
    ep.samples[0].obs.shape = vec![2, huge, huge];
    let e = cause(ep);
    assert_eq!(e, CodecError::BoardSize { step: 0, found: 8, implied: None });
    assert_eq!(e.message(""), "第 0 步棋盘元素数 8 与形状推导值不一致");

    let mut ep = sample_episode();
    ep.samples[1].obs.board[6] = (-2.25f32).to_bits();
    let e = cause(ep);
    assert_eq!(e.offending_bits(), Some((-2.25f32).to_bits()));
    assert_eq!(e.message("-2.25"), "棋盘特征 第 1 步下标 6 的值 -2.25 不是 0/1，无法位打包");

    let mut ep = sample_episode();
    ep.samples[1].mask[3] = -7;
    let e = cause(ep);
    assert_eq!(e, CodecError::MaskNotBinary { step: 1, index: 3, entry: -7 });
    assert_eq!(e.message(""), "动作掩码第 1 步下标 3 的值 -7 不是 0/1");

    let mut ep = sample_episode();
    ep.samples[1].action = 0x1_0000_0000;
    let e = cause(ep);
    assert_eq!(e, CodecError::TooLarge { what: Quantity::ActionIndex, value: 0x1_0000_0000 });
    assert_eq!(e.message(""), "动作索引=4294967296 超出 u32 范围");

    let mut ep = sample_episode();
    ep.game_length = usize::MAX;
    assert_eq!(cause(ep), CodecError::TooLarge { what: Quantity::GameLength, value: usize::MAX });

    let mut ep = sample_episode();
    ep.nnue = Some((nnue_meta(), vec![]));
    assert_eq!(cause(ep), CodecError::FeatureSteps { found: 0, expected: 2 });

    let mut ep = sample_episode();
    ep.positions = Some(vec![vec![1]]);
    assert_eq!(cause(ep), CodecError::PositionCount { found: 1, expected: 2 });
}

#[test]
fn every_fault_of_an_nnue_game_has_its_error() {
    let mut ep = nnue_episode();
    ep.players.push(1);
    assert_eq!(
        encode_nnue_episode(&ep).unwrap_err(),
        CodecError::LengthMismatch { features: 2, search_values: 2, players: 3, actions: 2 }
    );

    let mut ep = nnue_episode();
    ep.features[1].opponent.push(100);
    let e = encode_nnue_episode(&ep).unwrap_err();
    assert_eq!(
        e,
        CodecError::FeatureIndex {
            side: FeatureSide::Opponent,
            step: 1,
            feature: 100,
            feature_dim: 100,
        }
    );
    assert_eq!(e.message(""), "NNUE opponent 特征第 1 步索引 100 超出 feature_dim=100");

    let mut ep = nnue_episode();
    ep.players[1] = 0;
    let e = encode_nnue_episode(&ep).unwrap_err();
    assert_eq!(e, CodecError::BadPlayer { step: 1, player: 0 });
    assert_eq!(e.message(""), "第 1 步行棋方标记 0 非法（仅允许 1 红 / -1 黑）");

    let mut ep = nnue_episode();
    ep.features.clear();
    assert!(encode_nnue_episode(&ep).unwrap().is_none());

    let mut ep = nnue_episode();
    ep.actions[0] = usize::MAX;
    let e = encode_episode_batch("4x8", &[], &[nnue_episode(), ep]).unwrap_err();
    assert_eq!(
        e,
        BatchError::Nnue {
            episode: 1,
            cause: CodecError::TooLarge { what: Quantity::ActionIndex, value: usize::MAX },
        }
    );
}

#[test]
fn the_first_fault_is_the_one_reported() {
    let mut ep = sample_episode();
    ep.samples[0].mask[0] = 2;
    ep.samples[0].obs.board[5] = 2.0f32.to_bits();
    ep.samples[1].policy.pop();
    assert_eq!(
        cause(ep),
        CodecError::BoardNotBinary { step: 0, index: 5, bits: 2.0f32.to_bits() }
    );
}
