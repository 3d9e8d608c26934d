//! What is uploaded: a batch of games, encoded and compressed.

use std::io::Write;

use flate2::write::{GzDecoder, GzEncoder};
use flate2::Compression;
use vstd::prelude::*;

use crate::batch::{
    batch_bytes, batch_fault, count_with_samples, count_with_steps, encode_episode_batch,
    with_samples, with_steps, BatchError, BatchFault,
};
use crate::bits::{wrap_i32, wrapped32};
use crate::codec::model_of;
use crate::episode::{GameEpisode, NnueEpisode};
use crate::integrity::{hex_sha256, sha256};
use crate::nnue_codec::nnue_model_of;
use crate::reading::{read_batch, read_episode, read_nnue_episode};
use crate::recovery::law_batch_recovers_games;
use crate::text::hex_lower;
use crate::wire::read_message;

verus! {

/// What a batch holds games of.
#[derive(Clone, Copy, Debug, PartialEq, Eq, Structural)]
pub enum DataKind {
    /// Games of a Gumbel tree search.
    DataResnet,
    /// Games of an expectimax search.
    DataNnue,
}

/// The games of a task, to be uploaded.
#[derive(Debug)]
pub struct EpisodeBatch {
    pub task_id: String,
    pub network_sha: String,
    /// Which board the games were played on.
    pub variant: String,
    pub data_kind: DataKind,
    /// The side that won more games: 1 red, -1 black, 0 neither.
    pub winner: i32,
    pub episodes: Vec<GameEpisode>,
    pub nnue_episodes: Vec<NnueEpisode>,
}

/// Why a batch cannot be prepared for upload. `C` says why it cannot be encoded.
#[derive(Clone, Debug, PartialEq, Eq)]
pub enum UploadError<C = BatchError> {
    /// There are no records of the kind that the batch is said to hold.
    NoGames { kind: DataKind },
    /// There are records of another kind than the batch is said to hold.
    WrongKind { kind: DataKind, others: usize },
    Encode { cause: C },
    Gzip,
}

/// What an error of an upload says.
pub type UploadFault = UploadError<BatchFault>;

impl View for UploadError {
    type V = UploadFault;

    open spec fn view(&self) -> UploadFault {
        match *self {
            UploadError::NoGames { kind } => UploadError::NoGames { kind },
            UploadError::WrongKind { kind, others } => UploadError::WrongKind { kind, others },
            UploadError::Encode { cause } => UploadError::Encode { cause: cause@ },
            UploadError::Gzip => UploadError::Gzip,
        }
    }
}

/// A batch holds records of its own kind and of no other: `resnet` and `nnue` say how many games of
/// either kind leave a record.
pub open spec fn kind_fault(kind: DataKind, resnet: nat, nnue: nat) -> Option<UploadFault> {
    let (own, others) = match kind {
        DataKind::DataResnet => (resnet, nnue),
        DataKind::DataNnue => (nnue, resnet),
    };
    if others > 0 {
        Some(UploadError::WrongKind { kind, others: others as usize })
    } else if own == 0 {
        Some(UploadError::NoGames { kind })
    } else {
        None
    }
}

/// Checks that a batch holds records of its own kind and of no other.
pub fn check_kind(kind: DataKind, resnet: usize, nnue: usize) -> (res: Result<(), UploadError>)
    ensures
        match kind_fault(kind, resnet as nat, nnue as nat) {
            Some(e) => res is Err && res->Err_0@ == e,
            None => res is Ok,
        },
{
    let (own, others): (usize, usize) = match kind {
        DataKind::DataResnet => (resnet, nnue),
        DataKind::DataNnue => (nnue, resnet),
    };
    if others > 0 {
        Err(UploadError::WrongKind { kind, others })
    } else if own == 0 {
        Err(UploadError::NoGames { kind })
    } else {
        Ok(())
    }
}

/// What `flate2::write::GzEncoder` makes of `raw` at the default level, or `None` where it fails.
pub uninterp spec fn gzipped(raw: Seq<u8>) -> Option<Seq<u8>>;

/// What `flate2::write::GzDecoder` gets out of `body`, or `None` where it fails.
pub uninterp spec fn gunzipped(body: Seq<u8>) -> Option<Seq<u8>>;

/// `flate2::write::GzEncoder` at the default level, writing into memory: `new`, one `write_all` and
/// `finish`. The header carries no time and no file name, so the result depends on `raw` alone. The
/// decoder of the same crate gets `raw` back from it.
#[verifier::external_body]
fn gzip(raw: &Vec<u8>) -> (res: Option<Vec<u8>>)
    ensures
        match res {
            Some(body) => gzipped(raw@) == Some(body@) && gunzipped(body@) == Some(raw@),
            None => gzipped(raw@) == None::<Seq<u8>>,
        },
{
    let mut gz = GzEncoder::new(Vec::new(), Compression::default());
    match gz.write_all(raw) {
        Ok(()) => gz.finish().ok(),
        Err(_) => None,
    }
}

/// `flate2::write::GzDecoder`, writing into memory: `new`, one `write_all` and `finish`. It reads one
/// gzip member and holds its length and checksum against what came out of it, so the result depends
/// on `body` alone. Bytes behind the member make it fail.
#[verifier::external_body]
fn gunzip(body: &Vec<u8>) -> (res: Option<Vec<u8>>)
    ensures
        match res {
            Some(raw) => gunzipped(body@) == Some(raw@),
            None => gunzipped(body@) == None::<Seq<u8>>,
        },
{
    let mut gz = GzDecoder::new(Vec::new());
    match gz.write_all(body) {
        Ok(()) => gz.finish().ok(),
        Err(_) => None,
    }
}

/// What was compressed into `body`, or `None` where `body` is no compressed data.
pub fn unpacked(body: &Vec<u8>) -> (res: Option<Vec<u8>>)
    ensures
        match res {
            Some(raw) => gunzipped(body@) == Some(raw@),
            None => gunzipped(body@) == None::<Seq<u8>>,
        },
{
    gunzip(body)
}

/// Why a batch cannot be prepared for upload, if so, before it is compressed.
pub open spec fn upload_fault(
    kind: DataKind,
    variant: Seq<char>,
    episodes: Seq<GameEpisode>,
    nnue_episodes: Seq<NnueEpisode>,
) -> Option<UploadFault> {
    match kind_fault(kind, with_samples(episodes).len(), with_steps(nnue_episodes).len()) {
        Some(e) => Some(e),
        None => match batch_fault(variant, episodes, nnue_episodes) {
            Some(cause) => Some(UploadError::Encode { cause }),
            None => None,
        },
    }
}

/// The result of compressing an encoded batch.
pub fn compressed(body: Option<Vec<u8>>) -> (res: Result<Vec<u8>, UploadError>)
    ensures
        res == match body {
            Some(bytes) => Ok::<Vec<u8>, UploadError>(bytes),
            None => Err(UploadError::Gzip),
        },
{
    match body {
        Some(bytes) => Ok(bytes),
        None => Err(UploadError::Gzip),
    }
}

/// Encodes and compresses a batch. A batch with records of another kind than it says, or none of its
/// own, is refused whole, and so is one with a game that cannot be encoded: losing a batch is
/// better than training on bad data.
pub fn batch_gz(
    kind: DataKind,
    variant: &str,
    episodes: &[GameEpisode],
    nnue_episodes: &[NnueEpisode],
) -> (res: Result<Vec<u8>, UploadError>)
    ensures
        match upload_fault(kind, variant@, episodes@, nnue_episodes@) {
            Some(e) => res is Err && res->Err_0@ == e,
            None => {
                let raw = batch_bytes(variant@, episodes@, nnue_episodes@);
                match gzipped(raw) {
                    Some(body) => res is Ok && res->Ok_0@ == body && gunzipped(body) == Some(raw),
                    None => res == Err::<Vec<u8>, UploadError>(UploadError::Gzip),
                }
            },
        },
{
    match check_kind(kind, count_with_samples(episodes), count_with_steps(nnue_episodes)) {
        Ok(_) => {},
        Err(e) => {
            return Err(e);
        },
    }
    let raw = match encode_episode_batch(variant, episodes, nnue_episodes) {
        Ok(raw) => raw,
        Err(cause) => {
            return Err(UploadError::Encode { cause });
        },
    };
    compressed(gzip(&raw))
}

/// Whoever unpacks what a batch was turned into reads the record of every game that carries
/// samples or steps, in order.
pub proof fn law_upload_reads_back(
    kind: DataKind,
    variant: Seq<char>,
    episodes: Seq<GameEpisode>,
    nnue_episodes: Seq<NnueEpisode>,
    body: Seq<u8>,
)
    requires
        upload_fault(kind, variant, episodes, nnue_episodes) is None,
        gunzipped(body) == Some(batch_bytes(variant, episodes, nnue_episodes)),
    ensures
        ({
            let raw = gunzipped(body)->Some_0;
            let b = read_batch(read_message(raw)->Some_0);
            let games = with_samples(episodes);
            let nnue_games = with_steps(nnue_episodes);
            &&& read_message(raw) is Some
            &&& b.variant == variant
            &&& b.episodes.len() == games.len()
            &&& b.nnue_episodes.len() == nnue_games.len()
            &&& forall|i: int|
                0 <= i < games.len() ==> read_episode(
                    read_message(#[trigger] b.episodes[i])->Some_0,
                ) == model_of(games[i])
            &&& forall|i: int|
                0 <= i < nnue_games.len() ==> read_nnue_episode(
                    read_message(#[trigger] b.nnue_episodes[i])->Some_0,
                ) == nnue_model_of(nnue_games[i])
        }),
{
    law_batch_recovers_games(variant, episodes, nnue_episodes);
}

/// How many steps the games from `k` on have in all.
pub open spec fn steps_from(lengths: Seq<usize>, k: int) -> int
    decreases lengths.len() - k,
{
    if k >= lengths.len() {
        0
    } else {
        lengths[k] + steps_from(lengths, k + 1)
    }
}

/// The lengths of games.
pub open spec fn lengths_of(episodes: Seq<GameEpisode>) -> Seq<usize> {
    Seq::new(episodes.len(), |i: int| episodes[i].game_length)
}

/// The lengths of games of an expectimax search.
pub open spec fn nnue_lengths_of(episodes: Seq<NnueEpisode>) -> Seq<usize> {
    Seq::new(episodes.len(), |i: int| episodes[i].game_length)
}

/// How many steps the games of a batch have in all.
pub open spec fn total_steps_of(episodes: Seq<GameEpisode>, nnue_episodes: Seq<NnueEpisode>) -> int {
    steps_from(lengths_of(episodes), 0) + steps_from(nnue_lengths_of(nnue_episodes), 0)
}

proof fn lemma_steps_from_nonnegative(lengths: Seq<usize>, k: int)
    ensures
        steps_from(lengths, k) >= 0,
    decreases lengths.len() - k,
{
    if k < lengths.len() {
        lemma_steps_from_nonnegative(lengths, k + 1);
    }
}

/// How many steps the games of a batch have in all, or `None` where that is more than a machine word
/// holds.
pub fn total_steps(episodes: &[GameEpisode], nnue_episodes: &[NnueEpisode]) -> (res: Option<usize>)
    ensures
        res == if total_steps_of(episodes@, nnue_episodes@) <= usize::MAX {
            Some(total_steps_of(episodes@, nnue_episodes@) as usize)
        } else {
            None
        },
{
    let ghost lengths = lengths_of(episodes@);
    let ghost nnue_lengths = nnue_lengths_of(nnue_episodes@);
    let n: usize = episodes.len();
    let m: usize = nnue_episodes.len();
    let mut sum: usize = 0;
    let mut i: usize = 0;
    proof {
        lemma_steps_from_nonnegative(nnue_lengths, 0);
    }
    while i < n
        invariant
            i <= n,
            n == episodes@.len(),
            lengths == lengths_of(episodes@),
            sum + steps_from(lengths, i as int) == steps_from(lengths, 0),
            steps_from(nnue_lengths, 0) >= 0,
            total_steps_of(episodes@, nnue_episodes@) == steps_from(lengths, 0) + steps_from(
                nnue_lengths,
                0,
            ),
        decreases n - i,
    {
        proof {
            lemma_steps_from_nonnegative(lengths, i + 1);
        }
        sum = match sum.checked_add(episodes[i].game_length) {
            Some(next) => next,
            None => {
                return None;
            },
        };
        i += 1;
    }
    let mut j: usize = 0;
    while j < m
        invariant
            j <= m,
            m == nnue_episodes@.len(),
            nnue_lengths == nnue_lengths_of(nnue_episodes@),
            sum + steps_from(nnue_lengths, j as int) == total_steps_of(episodes@, nnue_episodes@),
        decreases m - j,
    {
        proof {
            lemma_steps_from_nonnegative(nnue_lengths, j + 1);
        }
        sum = match sum.checked_add(nnue_episodes[j].game_length) {
            Some(next) => next,
            None => {
                return None;
            },
        };
        j += 1;
    }
    Some(sum)
}

/// What a report says about an upload, before the upload.
#[derive(Debug)]
pub struct EpisodeMeta {
    pub worker_id: String,
    pub task_id: String,
    pub game_count: i32,
    pub total_steps: i32,
    pub winner: i32,
    pub network_sha: String,
    /// Seconds since the epoch.
    pub timestamp: i64,
    pub content_length: i64,
    pub content_sha256: String,
    pub kind: DataKind,
}

/// What a report says about the upload of `body`, where the batch has `games` games and `steps`
/// steps in all.
pub fn episode_meta(
    worker_id: &str,
    batch: &EpisodeBatch,
    games: usize,
    steps: usize,
    timestamp: i64,
    body: &[u8],
) -> (res: EpisodeMeta)
    ensures
        res.worker_id@ == worker_id@,
        res.task_id@ == batch.task_id@,
        res.game_count == wrapped32(games as int),
        res.total_steps == wrapped32(steps as int),
        res.winner == batch.winner,
        res.network_sha@ == batch.network_sha@,
        res.timestamp == timestamp,
        res.content_length == body@.len() as i64,
        res.content_sha256@ == hex_lower(sha256(body@)),
        res.kind == batch.data_kind,
        games <= i32::MAX ==> res.game_count == games,
        steps <= i32::MAX ==> res.total_steps == steps,
{
    EpisodeMeta {
        worker_id: worker_id.to_string(),
        task_id: batch.task_id.clone(),
        game_count: wrap_i32(games as u64),
        total_steps: wrap_i32(steps as u64),
        winner: batch.winner,
        network_sha: batch.network_sha.clone(),
        timestamp,
        content_length: body.len() as i64,
        content_sha256: hex_sha256(body),
        kind: batch.data_kind,
    }
}

/// A scheduler's answer to a report.
#[derive(Debug)]
pub struct ReportAck {
    pub accepted: bool,
    pub message: String,
    pub object_key: String,
    /// Where to upload to.
    pub upload_url: String,
}

/// What follows from a scheduler's answer.
#[derive(Debug)]
pub enum UploadPlan {
    Upload { url: String, object_key: String },
    /// The scheduler refused the report.
    Refused { reason: String },
    /// The report was accepted, but there is nowhere to upload to.
    NoUrl { object_key: String },
}

/// What follows from a scheduler's answer: an upload only where the report was accepted and the
/// answer says where to.
pub fn plan_upload(ack: ReportAck) -> (res: UploadPlan)
    ensures
        res == if !ack.accepted {
            UploadPlan::Refused { reason: ack.message }
        } else if ack.upload_url@.len() == 0 {
            UploadPlan::NoUrl { object_key: ack.object_key }
        } else {
            UploadPlan::Upload { url: ack.upload_url, object_key: ack.object_key }
        },
        res is Refused <==> !ack.accepted,
        res is Upload <==> ack.accepted && ack.upload_url@.len() > 0,
        res matches UploadPlan::Upload { url, object_key } ==> url@ == ack.upload_url@
            && object_key@ == ack.object_key@,
        res matches UploadPlan::Refused { reason } ==> reason@ == ack.message@,
        res matches UploadPlan::NoUrl { object_key } ==> object_key@ == ack.object_key@,
{
    if !ack.accepted {
        UploadPlan::Refused { reason: ack.message }
    } else if ack.upload_url.as_str().unicode_len() == 0 {
        UploadPlan::NoUrl { object_key: ack.object_key }
    } else {
        UploadPlan::Upload { url: ack.upload_url, object_key: ack.object_key }
    }
}

/// A batch is refused before it is encoded exactly where it holds a record of the other kind, or none
/// of its own; how many others there are is said.
pub proof fn law_batches_are_of_their_kind(kind: DataKind, resnet: nat, nnue: nat)
    requires
        resnet <= usize::MAX,
        nnue <= usize::MAX,
    ensures
        kind is DataResnet ==> {
            &&& kind_fault(kind, resnet, nnue) is None <==> resnet > 0 && nnue == 0
            &&& nnue > 0 ==> kind_fault(kind, resnet, nnue) == Some(
                (UploadFault::WrongKind { kind, others: nnue as usize }),
            )
            &&& resnet == 0 && nnue == 0 ==> kind_fault(kind, resnet, nnue) == Some(
                (UploadFault::NoGames { kind }),
            )
        },
        kind is DataNnue ==> {
            &&& kind_fault(kind, resnet, nnue) is None <==> nnue > 0 && resnet == 0
            &&& resnet > 0 ==> kind_fault(kind, resnet, nnue) == Some(
                (UploadFault::WrongKind { kind, others: resnet as usize }),
            )
            &&& resnet == 0 && nnue == 0 ==> kind_fault(kind, resnet, nnue) == Some(
                (UploadFault::NoGames { kind }),
            )
        },
{
}

/// A batch is uploaded exactly where it holds records of its own kind only and can be encoded; the
/// kind is looked at first.
pub proof fn law_uploads(
    kind: DataKind,
    variant: Seq<char>,
    episodes: Seq<GameEpisode>,
    nnue_episodes: Seq<NnueEpisode>,
)
    ensures
        ({
            let fault = upload_fault(kind, variant, episodes, nnue_episodes);
            let of_kind = kind_fault(
                kind,
                with_samples(episodes).len(),
                with_steps(nnue_episodes).len(),
            );
            let of_batch = batch_fault(variant, episodes, nnue_episodes);
            &&& fault is None <==> of_kind is None && of_batch is None
            &&& of_kind is Some ==> fault == of_kind
            &&& of_kind is None ==> (of_batch matches Some(e) ==> fault == Some(
                (UploadFault::Encode { cause: e }),
            ))
        }),
{
}

proof fn lemma_steps_push(lengths: Seq<usize>, n: usize, k: int)
    requires
        0 <= k <= lengths.len(),
    ensures
        steps_from(lengths.push(n), k) == steps_from(lengths, k) + n,
    decreases lengths.len() - k,
{
    if k < lengths.len() {
        lemma_steps_push(lengths, n, k + 1);
    } else {
        reveal_with_fuel(steps_from, 2);
    }
}

/// One more game adds its length to the steps of a batch, whichever kind it is of; no games have no
/// steps.
pub proof fn law_steps_add_up(
    episodes: Seq<GameEpisode>,
    nnue_episodes: Seq<NnueEpisode>,
    game: GameEpisode,
    nnue_game: NnueEpisode,
)
    ensures
        total_steps_of(Seq::empty(), Seq::empty()) == 0,
        total_steps_of(episodes.push(game), nnue_episodes) == total_steps_of(
            episodes,
            nnue_episodes,
        ) + game.game_length,
        total_steps_of(episodes, nnue_episodes.push(nnue_game)) == total_steps_of(
            episodes,
            nnue_episodes,
        ) + nnue_game.game_length,
{
    lemma_steps_push(lengths_of(episodes), game.game_length, 0);
    lemma_steps_push(nnue_lengths_of(nnue_episodes), nnue_game.game_length, 0);
    assert(lengths_of(episodes.push(game)) =~= lengths_of(episodes).push(game.game_length));
    assert(nnue_lengths_of(nnue_episodes.push(nnue_game)) =~= nnue_lengths_of(nnue_episodes).push(
        nnue_game.game_length,
    ));
}

} // verus!
