//! Batches of games.

use vstd::prelude::*;

use crate::codec::{encode_episode, episode_fault, model_of};
use crate::codec_error::{CodecError, Fault};
use crate::episode::{GameEpisode, NnueEpisode};
use crate::nnue_codec::{encode_nnue_episode, nnue_episode_fault, nnue_model_of};
use crate::records::{
    batch_fields, batch_message, episode_fields, episode_message, nnue_episode_fields,
    nnue_episode_message,
};
use crate::wire::{contents, message_bytes};

verus! {

/// Why a batch cannot be encoded. `E` is how the extents of a board tensor are listed.
#[derive(Clone, Debug, PartialEq, Eq)]
pub enum BatchError<E = Vec<usize>> {
    /// Nothing says which variant the data is from.
    EmptyVariant,
    /// Games of both searches carry steps: a batch holds records of one kind only.
    MixedKinds { resnet: usize, nnue: usize },
    /// A game of a Gumbel tree search does not fit.
    Resnet { episode: usize, cause: CodecError<E> },
    /// A game of an expectimax search does not fit.
    Nnue { episode: usize, cause: CodecError<E> },
}

/// What an error of a batch says, with extents as a sequence.
pub type BatchFault = BatchError<Seq<usize>>;

impl View for BatchError {
    type V = BatchFault;

    open spec fn view(&self) -> BatchFault {
        match *self {
            BatchError::EmptyVariant => BatchError::EmptyVariant,
            BatchError::MixedKinds { resnet, nnue } => BatchError::MixedKinds { resnet, nnue },
            BatchError::Resnet { episode, cause } => BatchError::Resnet { episode, cause: cause@ },
            BatchError::Nnue { episode, cause } => BatchError::Nnue { episode, cause: cause@ },
        }
    }
}

/// The first game from `k` on that has samples and cannot be encoded, and why.
pub open spec fn first_bad_episode(episodes: Seq<GameEpisode>, k: int) -> Option<(int, Fault)>
    decreases episodes.len() - k,
{
    if k >= episodes.len() {
        None
    } else if episodes[k].samples@.len() > 0 && episode_fault(episodes[k]) is Some {
        Some((k, episode_fault(episodes[k])->Some_0))
    } else {
        first_bad_episode(episodes, k + 1)
    }
}

/// The first game of an expectimax search from `k` on that has steps and cannot be encoded, and why.
pub open spec fn first_bad_nnue_episode(episodes: Seq<NnueEpisode>, k: int) -> Option<
    (int, Fault),
>
    decreases episodes.len() - k,
{
    if k >= episodes.len() {
        None
    } else if episodes[k].features@.len() > 0 && nnue_episode_fault(episodes[k]) is Some {
        Some((k, nnue_episode_fault(episodes[k])->Some_0))
    } else {
        first_bad_nnue_episode(episodes, k + 1)
    }
}

/// Why a batch cannot be encoded, if so.
pub open spec fn batch_fault(
    variant: Seq<char>,
    episodes: Seq<GameEpisode>,
    nnue_episodes: Seq<NnueEpisode>,
) -> Option<BatchFault> {
    if variant.len() == 0 {
        Some(BatchError::EmptyVariant)
    } else if with_samples(episodes).len() > 0 && with_steps(nnue_episodes).len() > 0 {
        Some(
            BatchError::MixedKinds {
                resnet: with_samples(episodes).len() as usize,
                nnue: with_steps(nnue_episodes).len() as usize,
            },
        )
    } else {
        match first_bad_episode(episodes, 0) {
            Some((k, cause)) => Some(BatchError::Resnet { episode: k as usize, cause }),
            None => match first_bad_nnue_episode(nnue_episodes, 0) {
                Some((k, cause)) => Some(BatchError::Nnue { episode: k as usize, cause }),
                None => None,
            },
        }
    }
}

/// The games that carry samples, in order.
pub open spec fn with_samples(episodes: Seq<GameEpisode>) -> Seq<GameEpisode> {
    episodes.filter(|ep: GameEpisode| ep.samples@.len() > 0)
}

/// The games of an expectimax search that carry steps, in order.
pub open spec fn with_steps(episodes: Seq<NnueEpisode>) -> Seq<NnueEpisode> {
    episodes.filter(|ep: NnueEpisode| ep.features@.len() > 0)
}

/// The messages of the games that carry samples.
pub open spec fn episode_messages(episodes: Seq<GameEpisode>) -> Seq<Seq<u8>> {
    with_samples(episodes).map_values(
        |ep: GameEpisode| message_bytes(episode_fields(model_of(ep))),
    )
}

/// The messages of the games of an expectimax search that carry steps.
pub open spec fn nnue_messages(episodes: Seq<NnueEpisode>) -> Seq<Seq<u8>> {
    with_steps(episodes).map_values(
        |ep: NnueEpisode| message_bytes(nnue_episode_fields(nnue_model_of(ep))),
    )
}

/// The bytes of a batch.
pub open spec fn batch_bytes(
    variant: Seq<char>,
    episodes: Seq<GameEpisode>,
    nnue_episodes: Seq<NnueEpisode>,
) -> Seq<u8> {
    message_bytes(batch_fields(variant, episode_messages(episodes), nnue_messages(nnue_episodes)))
}

proof fn lemma_episode_messages_step(episodes: Seq<GameEpisode>, k: int)
    requires
        0 <= k < episodes.len(),
    ensures
        episode_messages(episodes.take(k + 1)) == if episodes[k].samples@.len() > 0 {
            episode_messages(episodes.take(k)).push(
                message_bytes(episode_fields(model_of(episodes[k]))),
            )
        } else {
            episode_messages(episodes.take(k))
        },
{
    reveal(Seq::filter);
    let f = |ep: GameEpisode| ep.samples@.len() > 0;
    assert(episodes.take(k + 1).drop_last() =~= episodes.take(k));
    assert(episodes.take(k + 1).last() == episodes[k]);
    let m = |ep: GameEpisode| message_bytes(episode_fields(model_of(ep)));
    let before = episodes.take(k).filter(f);
    assert(before.push(episodes[k]).map_values(m) =~= before.map_values(m).push(m(episodes[k])));
}

proof fn lemma_nnue_messages_step(episodes: Seq<NnueEpisode>, k: int)
    requires
        0 <= k < episodes.len(),
    ensures
        nnue_messages(episodes.take(k + 1)) == if episodes[k].features@.len() > 0 {
            nnue_messages(episodes.take(k)).push(
                message_bytes(nnue_episode_fields(nnue_model_of(episodes[k]))),
            )
        } else {
            nnue_messages(episodes.take(k))
        },
{
    reveal(Seq::filter);
    let f = |ep: NnueEpisode| ep.features@.len() > 0;
    assert(episodes.take(k + 1).drop_last() =~= episodes.take(k));
    assert(episodes.take(k + 1).last() == episodes[k]);
    let m = |ep: NnueEpisode| message_bytes(nnue_episode_fields(nnue_model_of(ep)));
    let before = episodes.take(k).filter(f);
    assert(before.push(episodes[k]).map_values(m) =~= before.map_values(m).push(m(episodes[k])));
}

/// How many games carry samples.
pub fn count_with_samples(episodes: &[GameEpisode]) -> (res: usize)
    ensures
        res == with_samples(episodes@).len(),
{
    let n: usize = episodes.len();
    let mut count: usize = 0;
    let mut i: usize = 0;
    proof {
        reveal(Seq::filter);
        assert(with_samples(episodes@.take(0)).len() == 0);
    }
    while i < n
        invariant
            i <= n,
            n == episodes@.len(),
            count <= i,
            count == with_samples(episodes@.take(i as int)).len(),
        decreases n - i,
    {
        proof {
            reveal(Seq::filter);
            assert(episodes@.take(i + 1).drop_last() =~= episodes@.take(i as int));
            assert(episodes@.take(i + 1).last() == episodes@[i as int]);
        }
        if episodes[i].samples.len() > 0 {
            count += 1;
        }
        i += 1;
    }
    assert(episodes@.take(n as int) =~= episodes@);
    count
}

/// How many games of an expectimax search carry steps.
pub fn count_with_steps(episodes: &[NnueEpisode]) -> (res: usize)
    ensures
        res == with_steps(episodes@).len(),
{
    let n: usize = episodes.len();
    let mut count: usize = 0;
    let mut i: usize = 0;
    proof {
        reveal(Seq::filter);
        assert(with_steps(episodes@.take(0)).len() == 0);
    }
    while i < n
        invariant
            i <= n,
            n == episodes@.len(),
            count <= i,
            count == with_steps(episodes@.take(i as int)).len(),
        decreases n - i,
    {
        proof {
            reveal(Seq::filter);
            assert(episodes@.take(i + 1).drop_last() =~= episodes@.take(i as int));
            assert(episodes@.take(i + 1).last() == episodes@[i as int]);
        }
        if episodes[i].features.len() > 0 {
            count += 1;
        }
        i += 1;
    }
    assert(episodes@.take(n as int) =~= episodes@);
    count
}

fn encode_games(episodes: &[GameEpisode]) -> (res: Result<Vec<Vec<u8>>, BatchError>)
    ensures
        match first_bad_episode(episodes@, 0) {
            Some((k, cause)) => res is Err && res->Err_0@ == (BatchFault::Resnet {
                episode: k as usize,
                cause,
            }),
            None => res is Ok && contents(res->Ok_0@) == episode_messages(episodes@),
        },
{
    let n: usize = episodes.len();
    let mut out: Vec<Vec<u8>> = Vec::new();
    let mut i: usize = 0;
    proof {
        reveal(Seq::filter);
        assert(contents(out@) =~= episode_messages(episodes@.take(0)));
    }
    while i < n
        invariant
            i <= n,
            n == episodes@.len(),
            first_bad_episode(episodes@, 0) == first_bad_episode(episodes@, i as int),
            contents(out@) == episode_messages(episodes@.take(i as int)),
        decreases n - i,
    {
        proof {
            lemma_episode_messages_step(episodes@, i as int);
        }
        match encode_episode(&episodes[i]) {
            Ok(Some(rec)) => {
                let message = episode_message(&rec);
                let ghost before = contents(out@);
                out.push(message);
                assert(contents(out@) =~= before.push(message@));
            },
            Ok(None) => {},
            Err(cause) => {
                return Err(BatchError::Resnet { episode: i, cause });
            },
        }
        i += 1;
    }
    assert(episodes@.take(n as int) =~= episodes@);
    Ok(out)
}

fn encode_nnue_games(episodes: &[NnueEpisode]) -> (res: Result<Vec<Vec<u8>>, BatchError>)
    ensures
        match first_bad_nnue_episode(episodes@, 0) {
            Some((k, cause)) => res is Err && res->Err_0@ == (BatchFault::Nnue {
                episode: k as usize,
                cause,
            }),
            None => res is Ok && contents(res->Ok_0@) == nnue_messages(episodes@),
        },
{
    let n: usize = episodes.len();
    let mut out: Vec<Vec<u8>> = Vec::new();
    let mut i: usize = 0;
    proof {
        reveal(Seq::filter);
        assert(contents(out@) =~= nnue_messages(episodes@.take(0)));
    }
    while i < n
        invariant
            i <= n,
            n == episodes@.len(),
            first_bad_nnue_episode(episodes@, 0) == first_bad_nnue_episode(episodes@, i as int),
            contents(out@) == nnue_messages(episodes@.take(i as int)),
        decreases n - i,
    {
        proof {
            lemma_nnue_messages_step(episodes@, i as int);
        }
        match encode_nnue_episode(&episodes[i]) {
            Ok(Some(rec)) => {
                let message = nnue_episode_message(&rec);
                let ghost before = contents(out@);
                out.push(message);
                assert(contents(out@) =~= before.push(message@));
            },
            Ok(None) => {},
            Err(cause) => {
                return Err(BatchError::Nnue { episode: i, cause });
            },
        }
        i += 1;
    }
    assert(episodes@.take(n as int) =~= episodes@);
    Ok(out)
}

/// Encodes a batch of games as one message. `variant` says which board the games were played on.
/// Games without samples carry nothing to learn from and are left out; records of both kinds, or a
/// game that does not fit the layout, fail the whole batch.
pub fn encode_episode_batch(
    variant: &str,
    episodes: &[GameEpisode],
    nnue_episodes: &[NnueEpisode],
) -> (res: Result<Vec<u8>, BatchError>)
    ensures
        match batch_fault(variant@, episodes@, nnue_episodes@) {
            Some(e) => res is Err && res->Err_0@ == e,
            None => res is Ok && res->Ok_0@ == batch_bytes(variant@, episodes@, nnue_episodes@),
        },
{
    if variant.unicode_len() == 0 {
        return Err(BatchError::EmptyVariant);
    }
    let resnet: usize = count_with_samples(episodes);
    let nnue: usize = count_with_steps(nnue_episodes);
    if resnet > 0 && nnue > 0 {
        return Err(BatchError::MixedKinds { resnet, nnue });
    }
    let games = match encode_games(episodes) {
        Ok(games) => games,
        Err(e) => {
            return Err(e);
        },
    };
    let nnue_games = match encode_nnue_games(nnue_episodes) {
        Ok(games) => games,
        Err(e) => {
            return Err(e);
        },
    };
    let label = variant.to_string();
    Ok(batch_message(&label, &games, &nnue_games))
}

/// A batch that is encoded holds records of one kind only.
pub proof fn law_batch_has_one_kind(
    variant: Seq<char>,
    episodes: Seq<GameEpisode>,
    nnue_episodes: Seq<NnueEpisode>,
)
    requires
        batch_fault(variant, episodes, nnue_episodes) is None,
    ensures
        episode_messages(episodes).len() == 0 || nnue_messages(nnue_episodes).len() == 0,
{
}

} // verus!
