//! What follows from a scheduler's reply to a request for work.

use vstd::prelude::*;

use crate::rule_opponents::{opponent_of, EvalOpponent};
use crate::text::{lowercase, trimmed};
use crate::upload::DataKind;

verus! {

broadcast use vstd::string::group_string_axioms;

/// The kinds of work.
#[derive(Clone, Copy, Debug, PartialEq, Eq, Structural)]
pub enum TaskKind {
    /// There is nothing to do.
    TaskNone,
    /// Play games against oneself and record them.
    TaskSelfplay,
    /// Play a candidate network against another one.
    TaskRating,
    /// Play a network against a fixed opponent.
    TaskEval,
    /// Search old positions again.
    TaskReanalysis,
}

/// The only kind of data that can be produced.
pub const SUPPORTED_DATA_KIND: DataKind = DataKind::DataResnet;

/// How the games of a task are to be played.
#[derive(Debug, Clone)]
pub struct SelfPlayParams {
    pub mcts_sims: i32,
    pub variant: String,
    /// Further settings, as JSON.
    pub extra_config: String,
    /// What kind of data to produce; `None` for a kind that is not known.
    pub data_kind: Option<DataKind>,
}

/// A scheduler's reply to a request for work.
#[derive(Debug, Clone)]
pub struct TaskReply {
    /// `None` for a kind that is not known.
    pub kind: Option<TaskKind>,
    pub message: String,
    pub task_id: String,
    pub network_sha: String,
    pub network_key: String,
    pub network_url: String,
    pub opponent_sha: String,
    pub opponent_key: String,
    pub opponent_url: String,
    /// The fixed opponent of an evaluation.
    pub opponent_spec: String,
    pub games: i32,
    pub params: Option<SelfPlayParams>,
    /// The positions to search again.
    pub reanalysis_payload: Vec<u8>,
}

/// A task that is ready to run.
#[derive(Debug)]
pub struct SchedulerTask {
    pub task_id: String,
    pub kind: TaskKind,
    pub network_sha: String,
    pub opponent_sha: String,
    pub games: usize,
    pub mcts_sims: usize,
    pub variant: String,
    /// How many pieces lie face up at the start; `None` leaves it to the variant.
    pub initial_revealed: Option<usize>,
    pub data_kind: DataKind,
    /// The fixed opponent of an evaluation.
    pub opponent: Option<EvalOpponent>,
    pub reanalysis_payload: Vec<u8>,
}

/// Why a task is refused.
#[derive(Debug)]
pub enum TaskError {
    /// Without the key of the network its format cannot be told.
    NoNetworkKey,
    /// Data of that kind cannot be produced.
    UnsupportedDataKind { kind: Option<DataKind> },
    NoVariant,
    /// Without the key of the opponent's network its format cannot be told.
    NoOpponentKey,
    /// The fixed opponent is not known.
    UnknownOpponent { opponent_spec: String },
}

/// What to do about a reply.
#[derive(Debug)]
pub enum TaskPlan {
    /// There is no work; ask again later. `unknown_kind` says that there is work of a kind that is
    /// not known.
    Idle { unknown_kind: bool },
    Refuse { error: TaskError },
    /// Get the network of the reply, then call [`finish_task`].
    Fetch,
}

/// Whether there is nothing to do, or nothing that is known.
pub open spec fn is_idle(reply: TaskReply) -> bool {
    reply.kind is None || reply.kind == Some(TaskKind::TaskNone)
}

/// Whether a reply asks for data of a kind that cannot be produced.
pub open spec fn asks_unsupported(reply: TaskReply) -> bool {
    reply.params matches Some(p) && p.data_kind != Some(SUPPORTED_DATA_KIND)
}

/// Whether a reply asks for an evaluation against an opponent that is not known.
pub open spec fn names_no_opponent(reply: TaskReply) -> bool {
    reply.kind == Some(TaskKind::TaskEval) && opponent_of(reply.opponent_spec@) is None
}

/// What to do about a reply before anything is downloaded.
pub open spec fn plan_of(reply: TaskReply) -> TaskPlan {
    if is_idle(reply) {
        TaskPlan::Idle { unknown_kind: reply.kind is None }
    } else if reply.network_key@.len() == 0 {
        TaskPlan::Refuse { error: TaskError::NoNetworkKey }
    } else if asks_unsupported(reply) {
        TaskPlan::Refuse {
            error: TaskError::UnsupportedDataKind { kind: reply.params->Some_0.data_kind },
        }
    } else if names_no_opponent(reply) {
        TaskPlan::Refuse {
            error: TaskError::UnknownOpponent { opponent_spec: reply.opponent_spec },
        }
    } else {
        TaskPlan::Fetch
    }
}

/// Decides about a reply before anything is downloaded: no work, a task that is refused, or a
/// network to get.
pub fn plan_task(reply: &TaskReply) -> (res: TaskPlan)
    ensures
        res == plan_of(*reply),
{
    let kind = match reply.kind {
        None => {
            return TaskPlan::Idle { unknown_kind: true };
        },
        Some(TaskKind::TaskNone) => {
            return TaskPlan::Idle { unknown_kind: false };
        },
        Some(kind) => kind,
    };
    if reply.network_key.as_str().unicode_len() == 0 {
        return TaskPlan::Refuse { error: TaskError::NoNetworkKey };
    }
    if let Some(params) = &reply.params {
        let supported: bool = match params.data_kind {
            Some(kind) => kind == SUPPORTED_DATA_KIND,
            None => false,
        };
        if !supported {
            return TaskPlan::Refuse {
                error: TaskError::UnsupportedDataKind { kind: params.data_kind },
            };
        }
    }
    if kind == TaskKind::TaskEval && EvalOpponent::parse(reply.opponent_spec.as_str()).is_none() {
        return TaskPlan::Refuse {
            error: TaskError::UnknownOpponent { opponent_spec: reply.opponent_spec.clone() },
        };
    }
    TaskPlan::Fetch
}

/// An error of `serde_json`.
#[verifier::external_type_specification]
#[verifier::external_body]
pub struct ExJsonError(serde_json::Error);

/// What `serde_json` says about member `key` of the JSON text `text`: `None` where the text is not
/// JSON, else the member as an unsigned number, if the text is an object that has it and it is one.
pub uninterp spec fn json_u64(text: Seq<char>, key: Seq<char>) -> Option<Option<u64>>;

/// `serde_json::from_str` into a `serde_json::Value`, of which `Value::get` and `Value::as_u64` pick
/// one member. The result depends on the two texts alone.
#[verifier::external_body]
fn json_member_u64(text: &str, key: &str) -> (res: Result<Option<u64>, serde_json::Error>)
    ensures
        match res {
            Ok(member) => json_u64(text@, key@) == Some(member),
            Err(_) => json_u64(text@, key@) == None::<Option<u64>>,
        },
{
    let value: serde_json::Value = serde_json::from_str(text)?;
    Ok(value.get(key).and_then(|member| member.as_u64()))
}

/// The number of pieces that lie face up at the start, given the member that says so: a task that
/// says nothing, or 0, leaves it to the variant.
pub open spec fn revealed_by(member: Option<u64>) -> Option<usize> {
    match member {
        Some(n) => if n as usize == 0 {
            None
        } else {
            Some(n as usize)
        },
        None => None,
    }
}

/// The number of pieces that lie face up at the start, given the member that says so.
pub fn initial_revealed(member: Option<u64>) -> (res: Option<usize>)
    ensures
        res == revealed_by(member),
{
    match member {
        Some(n) => {
            let count: usize = n as usize;
            if count == 0 {
                None
            } else {
                Some(count)
            }
        },
        None => None,
    }
}

/// The number of pieces that lie face up at the start, as further settings say; settings that are
/// not JSON say nothing.
pub open spec fn revealed_in(extra_config: Seq<char>) -> Option<usize> {
    match json_u64(extra_config, "initial_revealed_pieces"@) {
        Some(member) => revealed_by(member),
        None => None,
    }
}

/// The number of pieces that lie face up at the start, as further settings (JSON) say.
pub fn parse_extra_config(json: &str) -> (res: Option<usize>)
    ensures
        res == revealed_in(json@),
{
    match json_member_u64(json, "initial_revealed_pieces") {
        Ok(member) => initial_revealed(member),
        Err(_) => None,
    }
}

/// The variant that a reply names, or nothing.
pub open spec fn variant_in(reply: TaskReply) -> Seq<char> {
    match reply.params {
        Some(p) => lowercase(trimmed(p.variant@)),
        None => Seq::empty(),
    }
}

/// `n`, or 0 where it is negative.
pub open spec fn at_least_zero(n: i32) -> usize {
    if n < 0 {
        0
    } else {
        n as usize
    }
}

fn clamped(n: i32) -> (res: usize)
    ensures
        res == at_least_zero(n),
{
    if n < 0 {
        0
    } else {
        n as usize
    }
}

/// The number of pieces that lie face up at the start, as a reply says.
pub open spec fn revealed_of(reply: TaskReply) -> Option<usize> {
    match reply.params {
        Some(p) => if p.extra_config@.len() == 0 {
            None
        } else {
            revealed_in(p.extra_config@)
        },
        None => None,
    }
}

/// Whether `task` is what a reply of kind `kind` asks for, on the board `variant` and with `revealed`
/// pieces face up at the start.
pub open spec fn describes(
    task: SchedulerTask,
    reply: TaskReply,
    kind: TaskKind,
    variant: Seq<char>,
    revealed: Option<usize>,
) -> bool {
    &&& task.task_id@ == reply.task_id@
    &&& task.kind == kind
    &&& task.network_sha@ == reply.network_sha@
    &&& task.opponent_sha@ == reply.opponent_sha@
    &&& task.games == at_least_zero(reply.games)
    &&& task.mcts_sims == match reply.params {
        Some(p) => at_least_zero(p.mcts_sims),
        None => 0,
    }
    &&& task.variant@ == variant
    &&& task.initial_revealed == revealed
    &&& task.data_kind == SUPPORTED_DATA_KIND
    &&& task.opponent == if kind == TaskKind::TaskEval {
        opponent_of(reply.opponent_spec@)
    } else {
        None
    }
    &&& task.reanalysis_payload@ == reply.reanalysis_payload@
}

/// Whether `res` is the right answer to a reply of kind `kind`, on the board `variant` and with
/// `revealed` pieces face up at the start: a task without a board is refused, and so is a match
/// without the key of the opponent's network, and an evaluation against an unknown opponent.
pub open spec fn answers(
    res: Result<SchedulerTask, TaskError>,
    reply: TaskReply,
    kind: TaskKind,
    variant: Seq<char>,
    revealed: Option<usize>,
) -> bool {
    if variant.len() == 0 {
        res == Err::<SchedulerTask, TaskError>(TaskError::NoVariant)
    } else if kind == TaskKind::TaskRating && reply.opponent_key@.len() == 0 {
        res == Err::<SchedulerTask, TaskError>(TaskError::NoOpponentKey)
    } else if kind == TaskKind::TaskEval && opponent_of(reply.opponent_spec@) is None {
        res matches Err(TaskError::UnknownOpponent { opponent_spec }) && opponent_spec@
            == reply.opponent_spec@
    } else {
        res is Ok && describes(res->Ok_0, reply, kind, variant, revealed)
    }
}

/// The task that a reply of kind `kind` asks for, on the board `variant` and with `revealed` pieces
/// face up at the start.
pub fn task_on(
    reply: &TaskReply,
    kind: TaskKind,
    variant: String,
    revealed: Option<usize>,
) -> (res: Result<SchedulerTask, TaskError>)
    ensures
        answers(res, *reply, kind, variant@, revealed),
{
    if variant.as_str().unicode_len() == 0 {
        return Err(TaskError::NoVariant);
    }
    let mut opponent: Option<EvalOpponent> = None;
    match kind {
        TaskKind::TaskRating => {
            if reply.opponent_key.as_str().unicode_len() == 0 {
                return Err(TaskError::NoOpponentKey);
            }
        },
        TaskKind::TaskEval => {
            opponent = EvalOpponent::parse(reply.opponent_spec.as_str());
            if opponent.is_none() {
                return Err(
                    TaskError::UnknownOpponent { opponent_spec: reply.opponent_spec.clone() },
                );
            }
        },
        _ => {},
    }
    let mcts_sims: usize = match &reply.params {
        Some(p) => clamped(p.mcts_sims),
        None => 0,
    };
    let mut reanalysis_payload: Vec<u8> = Vec::new();
    reanalysis_payload.extend_from_slice(reply.reanalysis_payload.as_slice());
    assert(reanalysis_payload@ =~= reply.reanalysis_payload@);
    Ok(
        SchedulerTask {
            task_id: reply.task_id.clone(),
            kind,
            network_sha: reply.network_sha.clone(),
            opponent_sha: reply.opponent_sha.clone(),
            games: clamped(reply.games),
            mcts_sims,
            variant,
            initial_revealed: revealed,
            data_kind: SUPPORTED_DATA_KIND,
            opponent,
            reanalysis_payload,
        },
    )
}

/// Reads the task that a reply asks for, once its network is there. A task of kind
/// [`TaskKind::TaskRating`] then needs the opponent's network, too.
pub fn finish_task(reply: &TaskReply) -> (res: Result<SchedulerTask, TaskError>)
    requires
        plan_of(*reply) is Fetch,
    ensures
        answers(res, *reply, reply.kind->Some_0, variant_in(*reply), revealed_of(*reply)),
{
    let kind = match reply.kind {
        Some(kind) => kind,
        None => TaskKind::TaskNone,
    };
    let (variant, revealed): (String, Option<usize>) = match &reply.params {
        Some(p) => {
            let variant = p.variant.as_str().trim().to_lowercase();
            let revealed: Option<usize> = if p.extra_config.as_str().unicode_len() == 0 {
                None
            } else {
                parse_extra_config(p.extra_config.as_str())
            };
            (variant, revealed)
        },
        None => (String::new(), None),
    };
    assert(variant@ =~= variant_in(*reply));
    task_on(reply, kind, variant, revealed)
}

/// Nothing is downloaded for a task that cannot produce its data: a reply that asks for another kind
/// of data never leads to [`TaskPlan::Fetch`].
pub proof fn law_unsupported_is_never_fetched(reply: TaskReply)
    requires
        asks_unsupported(reply),
    ensures
        plan_of(reply) !is Fetch,
{
}

/// Nothing is downloaded for an evaluation against an opponent that is not known.
pub proof fn law_unknown_opponent_is_never_fetched(reply: TaskReply)
    requires
        names_no_opponent(reply),
    ensures
        plan_of(reply) !is Fetch,
{
}

/// A kind of work that is not known counts as no work, whatever else the reply says.
pub proof fn law_unknown_kind_is_idle(reply: TaskReply)
    requires
        reply.kind is None,
    ensures
        plan_of(reply) == (TaskPlan::Idle { unknown_kind: true }),
{
}

/// What each answer to a reply means: there is no work, or the first of these is wrong, in this
/// order: the key of the network, the kind of data, the fixed opponent; else there is a network to
/// get.
pub proof fn law_plans_mean_what_they_say(reply: TaskReply)
    ensures
        ({
            let plan = plan_of(reply);
            let work = reply.kind is Some && reply.kind->Some_0 !is TaskNone;
            let keyed = reply.network_key@.len() > 0;
            let wanted = reply.params is None || reply.params->Some_0.data_kind == Some(
                DataKind::DataResnet,
            );
            let opposed = reply.kind != Some(TaskKind::TaskEval) || opponent_of(
                reply.opponent_spec@,
            ) is Some;
            &&& plan is Idle <==> !work
            &&& plan matches TaskPlan::Idle { unknown_kind } ==> (unknown_kind <==> reply.kind is None)
            &&& plan is Fetch <==> work && keyed && wanted && opposed
            &&& plan == (TaskPlan::Refuse { error: TaskError::NoNetworkKey }) <==> work && !keyed
            &&& plan matches TaskPlan::Refuse { error: TaskError::UnsupportedDataKind { kind } } ==> {
                &&& work && keyed && !wanted
                &&& reply.params matches Some(p) && kind == p.data_kind
            }
            &&& plan matches TaskPlan::Refuse {
                error: TaskError::UnknownOpponent { opponent_spec },
            } ==> {
                &&& work && keyed && wanted && !opposed
                &&& opponent_spec == reply.opponent_spec
            }
            &&& work && keyed && !wanted ==> plan is Refuse && plan->error is UnsupportedDataKind
            &&& work && keyed && wanted && !opposed ==> plan is Refuse
                && plan->error is UnknownOpponent
        }),
{
}

/// A task carries over what the reply says, one thing at a time; what is negative counts as zero.
pub proof fn law_tasks_carry_the_reply(
    task: SchedulerTask,
    reply: TaskReply,
    kind: TaskKind,
    variant: Seq<char>,
    revealed: Option<usize>,
)
    requires
        answers(Ok(task), reply, kind, variant, revealed),
    ensures
        task.task_id@ == reply.task_id@,
        task.kind == kind,
        task.network_sha@ == reply.network_sha@,
        task.opponent_sha@ == reply.opponent_sha@,
        reply.games >= 0 ==> task.games == reply.games,
        reply.games < 0 ==> task.games == 0,
        reply.params matches Some(p) ==> (p.mcts_sims >= 0 ==> task.mcts_sims == p.mcts_sims) && (
        p.mcts_sims < 0 ==> task.mcts_sims == 0),
        reply.params is None ==> task.mcts_sims == 0,
        task.variant@ == variant,
        variant.len() > 0,
        task.initial_revealed == revealed,
        task.data_kind is DataResnet,
        kind is TaskEval ==> task.opponent is Some && task.opponent == opponent_of(
            reply.opponent_spec@,
        ),
        kind !is TaskEval ==> task.opponent is None,
        task.reanalysis_payload@ == reply.reanalysis_payload@,
{
}

/// A task is refused exactly where it names no board, is a match whose opponent's network has no key,
/// or an evaluation against an unknown opponent; the first of these is the reason.
pub proof fn law_refused_tasks(
    res: Result<SchedulerTask, TaskError>,
    reply: TaskReply,
    kind: TaskKind,
    variant: Seq<char>,
    revealed: Option<usize>,
)
    requires
        answers(res, reply, kind, variant, revealed),
    ensures
        res is Err <==> {
            ||| variant.len() == 0
            ||| kind is TaskRating && reply.opponent_key@.len() == 0
            ||| kind is TaskEval && opponent_of(reply.opponent_spec@) is None
        },
        res matches Err(TaskError::NoVariant) <==> variant.len() == 0,
        res matches Err(TaskError::NoOpponentKey) <==> variant.len() > 0 && kind is TaskRating
            && reply.opponent_key@.len() == 0,
        res matches Err(TaskError::UnknownOpponent { opponent_spec }) ==> opponent_spec@
            == reply.opponent_spec@,
        variant.len() > 0 && kind is TaskEval && opponent_of(reply.opponent_spec@) is None
            ==> res->Err_0 is UnknownOpponent,
{
}

/// A number of pieces that lie face up at the start counts where it is positive, and as it is; none,
/// or zero, leaves it to the variant.
pub proof fn law_revealed_pieces(n: u64)
    requires
        n <= usize::MAX,
    ensures
        n > 0 ==> revealed_by(Some(n)) == Some(n as usize) && n as usize == n,
        revealed_by(Some(0)) is None,
        revealed_by(None) is None,
{
}

/// The further settings of a reply say how many pieces lie face up at the start, and nothing else
/// does; the board is the one of the settings, without white space around it and in lower case.
pub proof fn law_settings_of_a_reply(reply: TaskReply)
    ensures
        reply.params is None ==> revealed_of(reply) is None && variant_in(reply).len() == 0,
        reply.params matches Some(p) ==> {
            &&& variant_in(reply) == lowercase(trimmed(p.variant@))
            &&& p.extra_config@.len() == 0 ==> revealed_of(reply) is None
            &&& p.extra_config@.len() > 0 ==> match json_u64(
                p.extra_config@,
                "initial_revealed_pieces"@,
            ) {
                Some(Some(n)) => n > 0 && n <= usize::MAX ==> revealed_of(reply) == Some(n as usize),
                _ => revealed_of(reply) is None,
            }
        },
{
}

} // verus!
