//! What a collector keeps track of while it works for a scheduler: the networks that are at hand, the
//! reports that are on their way, and what the heartbeat tells.

use vstd::prelude::*;

use crate::bits::{wrap_i32, wrapped32};
use crate::config::SchedulerConfig;
use crate::integrity::{has_sha256, verify_sha256};
use crate::paths::{extension, extension_of, joined, network_path};
use crate::task::TaskKind;
use crate::text::same_text;

verus! {

broadcast use vstd::string::group_string_axioms;

/// What is found where a network is kept.
#[derive(Debug)]
pub enum CachedFile {
    Missing,
    Unreadable,
    Content { data: Vec<u8> },
}

/// How to come by a network.
#[derive(Clone, Copy, Debug, PartialEq, Eq, Structural)]
pub enum NetworkPlan {
    /// The file at hand is the right one.
    UseCached,
    /// Download it. `discard` says that there is a file that must not be used.
    Download { discard: bool },
    /// There is no right file at hand, and the reply does not say where to download it.
    NoUrl { discard: bool },
}

/// How to come by the network of digest `sha`, given what is at hand and where it can be had.
pub open spec fn network_plan_of(file: CachedFile, sha: Seq<char>, url: Seq<char>) -> NetworkPlan {
    if file matches CachedFile::Content { data } && has_sha256(data@, sha) {
        NetworkPlan::UseCached
    } else if url.len() == 0 {
        NetworkPlan::NoUrl { discard: file !is Missing }
    } else {
        NetworkPlan::Download { discard: file !is Missing }
    }
}

/// Decides how to come by a network. A file at hand is used only where its digest is the expected
/// one.
pub fn plan_network(file: &CachedFile, sha: &str, url: &str) -> (res: NetworkPlan)
    ensures
        res == network_plan_of(*file, sha@, url@),
{
    let mut discard: bool = false;
    match file {
        CachedFile::Missing => {},
        CachedFile::Unreadable => {
            discard = true;
        },
        CachedFile::Content { data } => {
            if verify_sha256(data.as_slice(), sha).is_ok() {
                return NetworkPlan::UseCached;
            }
            discard = true;
        },
    }
    if url.unicode_len() == 0 {
        NetworkPlan::NoUrl { discard }
    } else {
        NetworkPlan::Download { discard }
    }
}

/// A file whose digest is not the expected one is never used.
pub proof fn law_wrong_digest_is_never_used(data: Vec<u8>, sha: Seq<char>, url: Seq<char>)
    requires
        !has_sha256(data@, sha),
    ensures
        network_plan_of(CachedFile::Content { data }, sha, url) !is UseCached,
{
}

/// Why a network cannot be loaded.
#[derive(Debug)]
pub enum LoadError {
    /// The network was never fetched.
    NotFetched,
    /// The format, told by the extension, is not one that can be run.
    UnsupportedFormat { extension: String },
    /// The key has no extension, so the format cannot be told.
    NoExtension,
}

/// Where to load a network from, and how.
#[derive(Debug)]
pub struct LoadPlan {
    pub path: String,
    pub device: String,
    /// Parallel inference channels.
    pub sessions: usize,
}

/// What is kept about the networks and the reports.
#[verifier::ext_equal]
pub struct RegistryModel {
    /// The key of every network that was fetched, by its digest.
    pub keys: Map<Seq<char>, Seq<char>>,
    /// The digest of the network that was fetched last.
    pub current: Seq<char>,
    pub completed: u64,
    pub running: Seq<char>,
    pub failed: u64,
    /// How many reports are on their way.
    pub inflight: nat,
    /// How many reports may be on their way.
    pub slots: nat,
    pub temp_files: u64,
    /// The best network that the heartbeat heard of last.
    pub best: Seq<char>,
}

/// What a collector keeps track of.
pub struct SchedulerRegistry {
    cfg: SchedulerConfig,
    shas: Vec<String>,
    keys: Vec<String>,
    current_network: String,
    completed_games: u64,
    running_task_id: String,
    failed_reports: u64,
    inflight: usize,
    tmp_seq: u64,
    last_best: String,
}

/// The last of the first `n` entries for `sha`.
spec fn entry(shas: Seq<String>, sha: Seq<char>, n: int) -> Option<int>
    decreases n,
{
    if n <= 0 {
        None
    } else if shas[n - 1]@ == sha {
        Some(n - 1)
    } else {
        entry(shas, sha, n - 1)
    }
}

proof fn lemma_entry_bounds(shas: Seq<String>, sha: Seq<char>, n: int)
    requires
        0 <= n <= shas.len(),
    ensures
        entry(shas, sha, n) matches Some(i) ==> 0 <= i < n && shas[i]@ == sha,
    decreases n,
{
    if n > 0 {
        lemma_entry_bounds(shas, sha, n - 1);
    }
}

proof fn lemma_entry_push(shas: Seq<String>, new: String, sha: Seq<char>, n: int)
    requires
        0 <= n <= shas.len(),
    ensures
        entry(shas.push(new), sha, n) == entry(shas, sha, n),
    decreases n,
{
    if n > 0 {
        lemma_entry_push(shas, new, sha, n - 1);
    }
}

spec fn key_map(shas: Seq<String>, keys: Seq<String>) -> Map<Seq<char>, Seq<char>> {
    Map::new(
        |sha: Seq<char>| entry(shas, sha, shas.len() as int) is Some,
        |sha: Seq<char>| keys[entry(shas, sha, shas.len() as int)->Some_0]@,
    )
}

proof fn lemma_map_set(shas: Seq<String>, keys: Seq<String>, i: int, sha: Seq<char>, key: String)
    requires
        shas.len() == keys.len(),
        entry(shas, sha, shas.len() as int) == Some(i),
    ensures
        key_map(shas, keys.update(i, key)) == key_map(shas, keys).insert(sha, key@),
{
    let n = shas.len() as int;
    let after = key_map(shas, keys.update(i, key));
    let wanted = key_map(shas, keys).insert(sha, key@);
    lemma_entry_bounds(shas, sha, n);
    assert forall|s: Seq<char>| #[trigger] after.contains_key(s) implies after[s] == wanted[s] by {
        lemma_entry_bounds(shas, s, n);
    }
    assert(after =~= wanted);
}

proof fn lemma_map_push(shas: Seq<String>, keys: Seq<String>, sha: String, key: String)
    requires
        shas.len() == keys.len(),
    ensures
        key_map(shas.push(sha), keys.push(key)) == key_map(shas, keys).insert(sha@, key@),
{
    let n = shas.len() as int;
    let after = key_map(shas.push(sha), keys.push(key));
    let wanted = key_map(shas, keys).insert(sha@, key@);
    assert forall|s: Seq<char>| #[trigger] after.contains_key(s) == wanted.contains_key(s) by {
        lemma_entry_push(shas, sha, s, n);
    }
    assert forall|s: Seq<char>| #[trigger] after.contains_key(s) implies after[s] == wanted[s] by {
        lemma_entry_push(shas, sha, s, n);
        lemma_entry_bounds(shas, s, n);
    }
    assert(after =~= wanted);
}

impl View for SchedulerRegistry {
    type V = RegistryModel;

    closed spec fn view(&self) -> RegistryModel {
        RegistryModel {
            keys: key_map(self.shas@, self.keys@),
            current: self.current_network@,
            completed: self.completed_games,
            running: self.running_task_id@,
            failed: self.failed_reports,
            inflight: self.inflight as nat,
            slots: self.cfg.max_inflight_reports as nat,
            temp_files: self.tmp_seq,
            best: self.last_best@,
        }
    }
}

/// What the heartbeat learned about the best network.
#[derive(Debug)]
pub enum BestNews {
    /// Nothing new.
    Same,
    /// The first best network that was heard of: fetch it ahead of time.
    First,
    /// Another best network: fetch it ahead of time.
    Changed { from: String },
}

/// A request for work.
#[derive(Debug)]
pub struct TaskRequest {
    pub worker_id: String,
    pub client_version: String,
    pub threads: i32,
    pub memory_mb: i64,
    pub current_network: String,
}

/// A sign of life.
#[derive(Debug)]
pub struct HeartbeatRequest {
    pub worker_id: String,
    pub current_threads: i32,
    pub completed_games: i32,
    pub running_task_id: String,
    pub client_version: String,
    pub memory_mb: i64,
}

impl SchedulerRegistry {
    /// The settings that this registry works with.
    pub closed spec fn config(self) -> SchedulerConfig {
        self.cfg
    }

    /// What every registry keeps: no more reports on their way than there are slots.
    pub closed spec fn wf(self) -> bool {
        &&& self.shas@.len() == self.keys@.len()
        &&& self.inflight <= self.cfg.max_inflight_reports
    }

    /// A registry that has fetched nothing and reported nothing.
    pub fn new(cfg: SchedulerConfig) -> (res: Self)
        ensures
            res.wf(),
            res.config() == cfg,
            res@ == (RegistryModel {
                keys: Map::empty(),
                current: Seq::empty(),
                completed: 0,
                running: Seq::empty(),
                failed: 0,
                inflight: 0,
                slots: cfg.max_inflight_reports as nat,
                temp_files: 0,
                best: Seq::empty(),
            }),
    {
        let res = SchedulerRegistry {
            cfg,
            shas: Vec::new(),
            keys: Vec::new(),
            current_network: String::new(),
            completed_games: 0,
            running_task_id: String::new(),
            failed_reports: 0,
            inflight: 0,
            tmp_seq: 0,
            last_best: String::new(),
        };
        assert(res@.keys =~= Map::empty());
        res
    }

    /// Says which task is running.
    pub fn set_running_task(&mut self, task_id: &str)
        requires
            old(self).wf(),
        ensures
            final(self).wf(),
            final(self).config() == old(self).config(),
            final(self)@ == (RegistryModel { running: task_id@, ..old(self)@ }),
    {
        self.running_task_id = task_id.to_string();
    }

    /// Counts `n` more games as played. The count goes round at the end.
    pub fn add_completed_games(&mut self, n: usize)
        requires
            old(self).wf(),
        ensures
            final(self).wf(),
            final(self).config() == old(self).config(),
            final(self)@ == (RegistryModel {
                completed: ((old(self)@.completed + n) % 0x1_0000_0000_0000_0000) as u64,
                ..old(self)@
            }),
    {
        self.completed_games = self.completed_games.wrapping_add(n as u64);
    }

    /// How many reports failed.
    pub fn failed_reports(&self) -> (res: u64)
        ensures
            res == self@.failed,
    {
        self.failed_reports
    }

    /// Takes a slot for a report. Without a free slot nothing changes, and the caller has to wait.
    pub fn acquire_report_slot(&mut self) -> (res: bool)
        requires
            old(self).wf(),
        ensures
            final(self).wf(),
            final(self).config() == old(self).config(),
            res == (old(self)@.inflight < old(self)@.slots),
            final(self)@ == if res {
                RegistryModel { inflight: old(self)@.inflight + 1, ..old(self)@ }
            } else {
                old(self)@
            },
            final(self)@.inflight <= final(self)@.slots,
    {
        if self.inflight < self.cfg.max_inflight_reports {
            self.inflight += 1;
            true
        } else {
            false
        }
    }

    /// Gives back the slot of a report that is done. A report that failed is counted; the count goes
    /// round at the end.
    pub fn finish_report(&mut self, succeeded: bool)
        requires
            old(self).wf(),
            old(self)@.inflight > 0,
        ensures
            final(self).wf(),
            final(self).config() == old(self).config(),
            final(self)@ == (RegistryModel {
                inflight: (old(self)@.inflight - 1) as nat,
                failed: if succeeded {
                    old(self)@.failed
                } else {
                    ((old(self)@.failed + 1) % 0x1_0000_0000_0000_0000) as u64
                },
                ..old(self)@
            }),
    {
        self.inflight -= 1;
        if !succeeded {
            self.failed_reports = self.failed_reports.wrapping_add(1);
        }
    }

    /// Whether no report is on its way.
    pub fn reports_flushed(&self) -> (res: bool)
        ensures
            res == (self@.inflight == 0),
    {
        self.inflight == 0
    }

    /// The number of the next temporary file. The number goes round at the end.
    pub fn next_temp(&mut self) -> (res: u64)
        requires
            old(self).wf(),
        ensures
            final(self).wf(),
            final(self).config() == old(self).config(),
            res == old(self)@.temp_files,
            final(self)@ == (RegistryModel {
                temp_files: ((res + 1) % 0x1_0000_0000_0000_0000) as u64,
                ..old(self)@
            }),
    {
        let res: u64 = self.tmp_seq;
        self.tmp_seq = res.wrapping_add(1);
        res
    }

    /// Notes that the network of digest `sha` is at hand under `key`.
    pub fn register_network(&mut self, sha: &str, key: &str)
        requires
            old(self).wf(),
        ensures
            final(self).wf(),
            final(self).config() == old(self).config(),
            final(self)@ == (RegistryModel {
                keys: old(self)@.keys.insert(sha@, key@),
                current: sha@,
                ..old(self)@
            }),
    {
        let ghost shas = self.shas@;
        let name = sha.to_string();
        let place = key.to_string();
        match self.find(sha) {
            Some(i) => {
                proof {
                    lemma_map_set(shas, self.keys@, i as int, sha@, place);
                }
                self.keys.set(i, place);
            },
            None => {
                proof {
                    lemma_map_push(shas, self.keys@, name, place);
                }
                self.shas.push(name);
                self.keys.push(place);
            },
        }
        self.current_network = sha.to_string();
    }

    fn find(&self, sha: &str) -> (res: Option<usize>)
        requires
            self.wf(),
        ensures
            match res {
                Some(i) => i < self.shas@.len() && entry(
                    self.shas@,
                    sha@,
                    self.shas@.len() as int,
                ) == Some(i as int),
                None => entry(self.shas@, sha@, self.shas@.len() as int) is None,
            },
    {
        let mut i: usize = self.shas.len();
        while i > 0
            invariant
                i <= self.shas@.len(),
                entry(self.shas@, sha@, self.shas@.len() as int) == entry(
                    self.shas@,
                    sha@,
                    i as int,
                ),
            decreases i,
        {
            if same_text(self.shas[i - 1].as_str(), sha) {
                return Some(i - 1);
            }
            i -= 1;
        }
        None
    }

    /// The key of the network of digest `sha`, if it was fetched.
    pub fn key_of(&self, sha: &str) -> (res: Option<String>)
        requires
            self.wf(),
        ensures
            match res {
                Some(key) => self@.keys.contains_key(sha@) && key@ == self@.keys[sha@],
                None => !self@.keys.contains_key(sha@),
            },
    {
        match self.find(sha) {
            Some(i) => {
                assert(self@.keys.contains_key(sha@));
                Some(self.keys[i].clone())
            },
            None => {
                assert(!self@.keys.contains_key(sha@));
                None
            },
        }
    }

    /// Where to load the network of digest `sha` from. Its format is told by the extension of its
    /// path; only `onnx` can be run. There is at least one inference channel.
    pub fn model(&self, sha: &str) -> (res: Result<LoadPlan, LoadError>)
        requires
            self.wf(),
        ensures
            ({
                let path = joined(self.config().cache_dir@, self@.keys[sha@]);
                if !self@.keys.contains_key(sha@) {
                    res == Err::<LoadPlan, LoadError>(LoadError::NotFetched)
                } else {
                    match extension_of(path) {
                        Some(ext) => if ext == "onnx"@ {
                            &&& res matches Ok(plan)
                            &&& plan.path@ == path
                            &&& plan.device@ == self.config().device@
                            &&& plan.sessions == if self.config().sessions == 0 {
                                1
                            } else {
                                self.config().sessions
                            }
                        } else {
                            res matches Err(LoadError::UnsupportedFormat { extension: e }) && e@
                                == ext
                        },
                        None => res == Err::<LoadPlan, LoadError>(LoadError::NoExtension),
                    }
                }
            }),
    {
        let key = match self.key_of(sha) {
            Some(key) => key,
            None => {
                return Err(LoadError::NotFetched);
            },
        };
        let path = network_path(self.cfg.cache_dir.as_str(), key.as_str());
        match extension(path.as_str()) {
            Some(ext) => {
                if !same_text(ext.as_str(), "onnx") {
                    return Err(LoadError::UnsupportedFormat { extension: ext });
                }
            },
            None => {
                return Err(LoadError::NoExtension);
            },
        }
        let sessions: usize = if self.cfg.sessions == 0 {
            1
        } else {
            self.cfg.sessions
        };
        Ok(LoadPlan { path, device: self.cfg.device.clone(), sessions })
    }

    /// The next request for work.
    pub fn task_request(&self, client_version: &str, threads: usize, memory_mb: i64) -> (res:
        TaskRequest)
        ensures
            res.worker_id@ == self.config().worker_id@,
            res.client_version@ == client_version@,
            res.threads == wrapped32(threads as int),
            threads <= i32::MAX ==> res.threads == threads,
            res.memory_mb == memory_mb,
            res.current_network@ == self@.current,
    {
        TaskRequest {
            worker_id: self.cfg.worker_id.clone(),
            client_version: client_version.to_string(),
            threads: wrap_i32(threads as u64),
            memory_mb,
            current_network: self.current_network.clone(),
        }
    }

    /// The next sign of life.
    pub fn heartbeat(&self, client_version: &str, threads: usize, memory_mb: i64) -> (res:
        HeartbeatRequest)
        ensures
            res.worker_id@ == self.config().worker_id@,
            res.current_threads == wrapped32(threads as int),
            res.completed_games == wrapped32(self@.completed as int),
            threads <= i32::MAX ==> res.current_threads == threads,
            self@.completed <= i32::MAX ==> res.completed_games == self@.completed,
            res.running_task_id@ == self@.running,
            res.client_version@ == client_version@,
            res.memory_mb == memory_mb,
    {
        HeartbeatRequest {
            worker_id: self.cfg.worker_id.clone(),
            current_threads: wrap_i32(threads as u64),
            completed_games: wrap_i32(self.completed_games),
            running_task_id: self.running_task_id.clone(),
            client_version: client_version.to_string(),
            memory_mb,
        }
    }

    /// Notes which network the scheduler says is the best. News, and only news, is a reason to fetch
    /// it ahead of time.
    pub fn note_best(&mut self, best: &str) -> (res: BestNews)
        requires
            old(self).wf(),
        ensures
            final(self).wf(),
            final(self).config() == old(self).config(),
            if best@.len() == 0 || best@ == old(self)@.best {
                res == BestNews::Same && final(self)@ == old(self)@
            } else {
                &&& final(self)@ == (RegistryModel { best: best@, ..old(self)@ })
                &&& if old(self)@.best.len() == 0 {
                    res == BestNews::First
                } else {
                    res matches BestNews::Changed { from } && from@ == old(self)@.best
                }
            },
    {
        if best.unicode_len() == 0 || same_text(best, self.last_best.as_str()) {
            return BestNews::Same;
        }
        let from = self.last_best.clone();
        self.last_best = best.to_string();
        if from.as_str().unicode_len() == 0 {
            BestNews::First
        } else {
            BestNews::Changed { from }
        }
    }
}

/// There are never more reports on their way than there are slots.
pub proof fn law_reports_are_bounded(registry: SchedulerRegistry)
    requires
        registry.wf(),
    ensures
        registry@.inflight <= registry@.slots,
        registry@.slots == registry.config().max_inflight_reports,
{
}

/// Whether to fetch a network ahead of time: the scheduler still says that it is the best one, says
/// where to get it and what to call it, and it is not yet at hand.
pub fn wants_prefetch(sha: &str, best_sha: &str, key: &str, url: &str, at_hand: bool) -> (res: bool)
    ensures
        res == (best_sha@ == sha@ && url@.len() > 0 && key@.len() > 0 && !at_hand),
        at_hand ==> !res,
        best_sha@ != sha@ ==> !res,
        url@.len() == 0 || key@.len() == 0 ==> !res,
        best_sha@ == sha@ && url@.len() > 0 && key@.len() > 0 && !at_hand ==> res,
{
    same_text(best_sha, sha) && url.unicode_len() > 0 && key.unicode_len() > 0 && !at_hand
}

/// The result of a match against another network or a fixed opponent.
#[derive(Debug)]
pub struct MatchReport {
    pub task_id: String,
    pub kind: TaskKind,
    pub network_sha: String,
    pub opponent_sha: String,
    /// The fixed opponent of an evaluation.
    pub opponent_spec: String,
    pub games: usize,
    pub wins: usize,
    pub losses: usize,
    pub draws: usize,
    /// How many pairs of games ended with two losses, a loss and a draw, an even score, a draw and a
    /// win, two wins.
    pub pairs: [usize; 5],
}

/// What is sent about a match.
#[derive(Debug)]
pub struct MatchResult {
    pub worker_id: String,
    pub task_id: String,
    pub kind: TaskKind,
    pub network_sha: String,
    pub opponent_sha: String,
    pub opponent_spec: String,
    pub games: i32,
    pub wins: i32,
    pub losses: i32,
    pub draws: i32,
    pub pair_ll: i32,
    pub pair_ld: i32,
    pub pair_dd: i32,
    pub pair_dw: i32,
    pub pair_ww: i32,
}

/// What is sent about a match.
pub fn match_result(worker_id: &str, rep: &MatchReport) -> (res: MatchResult)
    ensures
        res.worker_id@ == worker_id@,
        res.task_id@ == rep.task_id@,
        res.kind == rep.kind,
        res.network_sha@ == rep.network_sha@,
        res.opponent_sha@ == rep.opponent_sha@,
        res.opponent_spec@ == rep.opponent_spec@,
        res.games == wrapped32(rep.games as int),
        res.wins == wrapped32(rep.wins as int),
        res.losses == wrapped32(rep.losses as int),
        res.draws == wrapped32(rep.draws as int),
        res.pair_ll == wrapped32(rep.pairs@[0] as int),
        res.pair_ld == wrapped32(rep.pairs@[1] as int),
        res.pair_dd == wrapped32(rep.pairs@[2] as int),
        res.pair_dw == wrapped32(rep.pairs@[3] as int),
        res.pair_ww == wrapped32(rep.pairs@[4] as int),
        rep.games <= i32::MAX ==> res.games == rep.games,
        rep.wins <= i32::MAX ==> res.wins == rep.wins,
        rep.losses <= i32::MAX ==> res.losses == rep.losses,
        rep.draws <= i32::MAX ==> res.draws == rep.draws,
        rep.pairs@[0] <= i32::MAX ==> res.pair_ll == rep.pairs@[0],
        rep.pairs@[1] <= i32::MAX ==> res.pair_ld == rep.pairs@[1],
        rep.pairs@[2] <= i32::MAX ==> res.pair_dd == rep.pairs@[2],
        rep.pairs@[3] <= i32::MAX ==> res.pair_dw == rep.pairs@[3],
        rep.pairs@[4] <= i32::MAX ==> res.pair_ww == rep.pairs@[4],
{
    MatchResult {
        worker_id: worker_id.to_string(),
        task_id: rep.task_id.clone(),
        kind: rep.kind,
        network_sha: rep.network_sha.clone(),
        opponent_sha: rep.opponent_sha.clone(),
        opponent_spec: rep.opponent_spec.clone(),
        games: wrap_i32(rep.games as u64),
        wins: wrap_i32(rep.wins as u64),
        losses: wrap_i32(rep.losses as u64),
        draws: wrap_i32(rep.draws as u64),
        pair_ll: wrap_i32(rep.pairs[0] as u64),
        pair_ld: wrap_i32(rep.pairs[1] as u64),
        pair_dd: wrap_i32(rep.pairs[2] as u64),
        pair_dw: wrap_i32(rep.pairs[3] as u64),
        pair_ww: wrap_i32(rep.pairs[4] as u64),
    }
}

/// A scheduler's answer to the result of a match.
#[derive(Debug)]
pub struct MatchAck {
    pub accepted: bool,
    pub message: String,
    pub match_concluded: bool,
    pub promoted: bool,
    pub best_sha: String,
}

/// What a scheduler made of the result of a match.
#[derive(Debug)]
pub struct MatchVerdict {
    pub concluded: bool,
    pub promoted: bool,
    pub best_sha: String,
}

/// What a scheduler made of the result of a match, or why it refused the report.
pub fn read_match_ack(ack: MatchAck) -> (res: Result<MatchVerdict, String>)
    ensures
        res == if ack.accepted {
            Ok::<MatchVerdict, String>(
                MatchVerdict {
                    concluded: ack.match_concluded,
                    promoted: ack.promoted,
                    best_sha: ack.best_sha,
                },
            )
        } else {
            Err(ack.message)
        },
        res is Ok <==> ack.accepted,
        res matches Ok(v) ==> v.concluded == ack.match_concluded && v.promoted == ack.promoted
            && v.best_sha@ == ack.best_sha@,
        res matches Err(reason) ==> reason@ == ack.message@,
{
    if ack.accepted {
        Ok(
            MatchVerdict {
                concluded: ack.match_concluded,
                promoted: ack.promoted,
                best_sha: ack.best_sha,
            },
        )
    } else {
        Err(ack.message)
    }
}

/// A network is used from the cache exactly where there is a file with the right digest; else it is
/// downloaded exactly where it can be had, and a file that is there, whatever its fault, is thrown
/// away first.
pub proof fn law_ways_to_come_by_a_network(file: CachedFile, sha: Seq<char>, url: Seq<char>)
    ensures
        ({
            let plan = network_plan_of(file, sha, url);
            let right = file is Content && has_sha256(file->data@, sha);
            &&& plan is UseCached <==> right
            &&& plan is Download <==> !right && url.len() > 0
            &&& plan is NoUrl <==> !right && url.len() == 0
            &&& plan matches NetworkPlan::Download { discard } ==> (discard <==> file is Unreadable
                || file is Content)
            &&& plan matches NetworkPlan::NoUrl { discard } ==> (discard <==> file is Unreadable
                || file is Content)
        }),
{
}

} // verus!
