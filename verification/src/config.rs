//! Layered configuration: defaults, then a file, then the command line.

use vstd::prelude::*;

use crate::episode::{F32Bits, F32_ONE};
use crate::text::{decimal, from_decimal, law_decimal_reads_back, push_decimal, same_text};

verus! {

broadcast use vstd::string::group_string_axioms;

/// How to reach the scheduler, and how to run what it hands out.
#[derive(Debug, Clone)]
pub struct SchedulerConfig {
    pub endpoint: String,
    /// Name of this worker; where it is empty, [`CollectorConfig::load`] fills in `worker-<pid>`.
    pub worker_id: String,
    /// Directory that downloaded networks are kept in.
    pub cache_dir: String,
    pub device: String,
    /// Parallel inference channels per network; 0 stands for the number of self-play threads.
    pub sessions: usize,
    /// How many reports may be on their way at the same time.
    pub max_inflight_reports: usize,
}

impl SchedulerConfig {
    /// Whether every setting has its default.
    pub open spec fn is_default(self) -> bool {
        &&& self.endpoint@ == "http://127.0.0.1:50051"@
        &&& self.worker_id@ == Seq::<char>::empty()
        &&& self.cache_dir@ == "outputs/distributed_cache"@
        &&& self.device@ == "auto"@
        &&& self.sessions == 0
        &&& self.max_inflight_reports == 2
    }
}

impl Default for SchedulerConfig {
    fn default() -> (res: Self)
        ensures
            res.is_default(),
    {
        SchedulerConfig {
            endpoint: "http://127.0.0.1:50051".to_string(),
            worker_id: String::new(),
            cache_dir: "outputs/distributed_cache".to_string(),
            device: "auto".to_string(),
            sessions: 0,
            max_inflight_reports: 2,
        }
    }
}

/// How games are played.
#[derive(Debug, Clone)]
pub struct SelfPlayConfig {
    /// Self-play threads; 0 stands for the number of processor cores.
    pub threads: usize,
    /// Simulations per decision.
    pub mcts_sims: usize,
    /// Candidate actions of the Gumbel top-k choice.
    pub max_considered_actions: usize,
    pub scenario: String,
    pub c_scale: F32Bits,
    pub gumbel_scale: F32Bits,
    pub health_enabled: bool,
    pub health_weight: F32Bits,
    pub health_confidence_exp: F32Bits,
    /// Whether to record a snapshot of every position.
    pub collect_positions: bool,
    /// Whether the number of simulations is randomised per decision.
    pub playout_cap_random_enabled: bool,
    /// Simulations of a fast decision; 0 stands for a quarter of `mcts_sims`.
    pub fast_mcts_sims: usize,
    pub full_search_prob: F32Bits,
    /// Whether a game keeps one search tree throughout.
    pub tree_reuse: bool,
    /// Variants that are played in lock step.
    pub batched_variants: Vec<String>,
}

/// The bit pattern of `0.25`.
pub const F32_QUARTER: F32Bits = 0x3e80_0000;

impl Default for SelfPlayConfig {
    fn default() -> (res: Self)
        ensures
            res.is_default(),
    {
        SelfPlayConfig {
            threads: 0,
            mcts_sims: 64,
            max_considered_actions: 16,
            scenario: "standard".to_string(),
            c_scale: F32_ONE,
            gumbel_scale: F32_ONE,
            health_enabled: false,
            health_weight: 0,
            health_confidence_exp: 0,
            collect_positions: false,
            playout_cap_random_enabled: false,
            fast_mcts_sims: 0,
            full_search_prob: F32_QUARTER,
            tree_reuse: false,
            batched_variants: Vec::new(),
        }
    }
}

impl SelfPlayConfig {
    /// Whether every setting has its default.
    pub open spec fn is_default(self) -> bool {
        &&& self.threads == 0
        &&& self.mcts_sims == 64
        &&& self.max_considered_actions == 16
        &&& self.scenario@ == "standard"@
        &&& self.c_scale == F32_ONE
        &&& self.gumbel_scale == F32_ONE
        &&& !self.health_enabled
        &&& self.health_weight == 0
        &&& self.health_confidence_exp == 0
        &&& !self.collect_positions
        &&& !self.playout_cap_random_enabled
        &&& self.fast_mcts_sims == 0
        &&& self.full_search_prob == F32_QUARTER
        &&& !self.tree_reuse
        &&& self.batched_variants@ == Seq::<String>::empty()
    }

    /// Simulations of a fast decision.
    pub open spec fn spec_fast_sims(self) -> usize {
        if self.fast_mcts_sims == 0 {
            self.mcts_sims / 4
        } else {
            self.fast_mcts_sims
        }
    }

    /// Simulations of a fast decision.
    pub fn fast_sims(&self) -> (res: usize)
        ensures
            res == self.spec_fast_sims(),
    {
        if self.fast_mcts_sims == 0 {
            self.mcts_sims / 4
        } else {
            self.fast_mcts_sims
        }
    }

    /// Whether `variant` is listed as one to play in lock step.
    pub open spec fn lists(self, variant: Seq<char>) -> bool {
        exists|i: int|
            0 <= i < self.batched_variants@.len() && #[trigger] self.batched_variants@[i]@ == variant
    }

    /// Whether `variant` is listed as one to play in lock step.
    pub fn batched_for(&self, variant: &str) -> (res: bool)
        ensures
            res == self.lists(variant@),
    {
        let n: usize = self.batched_variants.len();
        let mut i: usize = 0;
        while i < n
            invariant
                i <= n,
                n == self.batched_variants@.len(),
                forall|k: int| 0 <= k < i ==> #[trigger] self.batched_variants@[k]@ != variant@,
            decreases n - i,
        {
            if same_text(self.batched_variants[i].as_str(), variant) {
                return true;
            }
            i += 1;
        }
        false
    }
}

/// The whole configuration of a collector.
#[derive(Debug, Clone)]
pub struct CollectorConfig {
    pub scheduler: SchedulerConfig,
    /// Self-play settings; what the scheduler sends along with a task overrides some of them.
    pub selfplay: SelfPlayConfig,
}

impl Default for CollectorConfig {
    fn default() -> (res: Self)
        ensures
            res.is_default(),
    {
        CollectorConfig { scheduler: SchedulerConfig::default(), selfplay: SelfPlayConfig::default() }
    }
}

/// What the command line says. `None` leaves the value of the file or the default.
#[derive(Debug, Clone)]
pub struct CliOverrides {
    /// Configuration file to read.
    pub config: Option<String>,
    /// File to write the effective configuration to.
    pub config_dump: Option<String>,
    pub scheduler_endpoint: Option<String>,
    pub worker_id: Option<String>,
    pub cache_dir: Option<String>,
    pub device: Option<String>,
    pub sessions: Option<usize>,
    pub mcts_sims: Option<usize>,
    pub max_considered_actions: Option<usize>,
    pub threads: Option<usize>,
}

/// Why a configuration is refused.
#[derive(Clone, Copy, Debug, PartialEq, Eq, Structural)]
pub enum ConfigError {
    /// `scheduler.max_inflight_reports` is zero.
    NoInflightReports,
    /// `selfplay.mcts_sims` is zero.
    NoSimulations,
    /// `selfplay.max_considered_actions` is zero.
    NoConsideredActions,
    /// Randomised simulations need fewer simulations for a fast decision than for a full one.
    FastNotBelowFull { fast: usize, full: usize },
}

/// The text of the command line if it gives one, else `base`.
pub open spec fn text_or(given: Option<String>, base: Seq<char>) -> Seq<char> {
    match given {
        Some(text) => text@,
        None => base,
    }
}

/// The number of the command line if it gives one, else `base`.
pub open spec fn number_or(given: Option<usize>, base: usize) -> usize {
    match given {
        Some(n) => n,
        None => base,
    }
}

/// The name of a worker that was given none.
pub open spec fn default_worker_id(pid: u32) -> Seq<char> {
    "worker-"@ + decimal(pid as int)
}

/// What is wrong with these settings, if anything.
pub open spec fn range_fault(
    inflight: usize,
    sims: usize,
    considered: usize,
    randomised: bool,
    fast: usize,
) -> Option<ConfigError> {
    if inflight == 0 {
        Some(ConfigError::NoInflightReports)
    } else if sims == 0 {
        Some(ConfigError::NoSimulations)
    } else if considered == 0 {
        Some(ConfigError::NoConsideredActions)
    } else if randomised && fast >= sims {
        Some(ConfigError::FastNotBelowFull { fast, full: sims })
    } else {
        None
    }
}

impl SchedulerConfig {
    /// Whether `self` is `base` with the command line `cli` on top, and a name for the worker.
    pub open spec fn layers(self, base: SchedulerConfig, cli: CliOverrides, pid: u32) -> bool {
        let name = text_or(cli.worker_id, base.worker_id@);
        &&& self.endpoint@ == text_or(cli.scheduler_endpoint, base.endpoint@)
        &&& self.worker_id@ == if name.len() == 0 {
            default_worker_id(pid)
        } else {
            name
        }
        &&& self.cache_dir@ == text_or(cli.cache_dir, base.cache_dir@)
        &&& self.device@ == text_or(cli.device, base.device@)
        &&& self.sessions == number_or(cli.sessions, base.sessions)
        &&& self.max_inflight_reports == base.max_inflight_reports
    }

    fn layer(base: SchedulerConfig, cli: &CliOverrides, pid: u32) -> (res: SchedulerConfig)
        ensures
            res.layers(base, *cli, pid),
    {
        let mut cfg = base;
        if let Some(v) = &cli.scheduler_endpoint {
            cfg.endpoint = v.clone();
        }
        if let Some(v) = &cli.worker_id {
            cfg.worker_id = v.clone();
        }
        if let Some(v) = &cli.cache_dir {
            cfg.cache_dir = v.clone();
        }
        if let Some(v) = &cli.device {
            cfg.device = v.clone();
        }
        if let Some(v) = &cli.sessions {
            cfg.sessions = *v;
        }
        if cfg.worker_id.as_str().is_empty() {
            let mut name = "worker-".to_string();
            push_decimal(&mut name, pid as u64);
            cfg.worker_id = name;
        }
        cfg
    }
}

impl SelfPlayConfig {
    /// Simulations of a fast decision once the command line `cli` is on top.
    pub open spec fn layered_fast(self, cli: CliOverrides) -> usize {
        if cli.mcts_sims is Some {
            0
        } else {
            self.fast_mcts_sims
        }
    }

    /// Whether `self` is `base` with the command line `cli` on top. A number of simulations from
    /// the command line also resets the number of a fast decision.
    pub open spec fn layers(self, base: SelfPlayConfig, cli: CliOverrides) -> bool {
        &&& self.threads == number_or(cli.threads, base.threads)
        &&& self.mcts_sims == number_or(cli.mcts_sims, base.mcts_sims)
        &&& self.max_considered_actions == number_or(
            cli.max_considered_actions,
            base.max_considered_actions,
        )
        &&& self.fast_mcts_sims == base.layered_fast(cli)
        &&& self.scenario@ == base.scenario@
        &&& self.c_scale == base.c_scale
        &&& self.gumbel_scale == base.gumbel_scale
        &&& self.health_enabled == base.health_enabled
        &&& self.health_weight == base.health_weight
        &&& self.health_confidence_exp == base.health_confidence_exp
        &&& self.collect_positions == base.collect_positions
        &&& self.playout_cap_random_enabled == base.playout_cap_random_enabled
        &&& self.full_search_prob == base.full_search_prob
        &&& self.tree_reuse == base.tree_reuse
        &&& self.batched_variants@ == base.batched_variants@
    }

    fn layer(base: SelfPlayConfig, cli: &CliOverrides) -> (res: SelfPlayConfig)
        ensures
            res.layers(base, *cli),
    {
        let mut cfg = base;
        if let Some(v) = &cli.mcts_sims {
            cfg.mcts_sims = *v;
            cfg.fast_mcts_sims = 0;
        }
        if let Some(v) = &cli.max_considered_actions {
            cfg.max_considered_actions = *v;
        }
        if let Some(v) = &cli.threads {
            cfg.threads = *v;
        }
        cfg
    }
}

impl CollectorConfig {
    /// Whether every setting has its default.
    pub open spec fn is_default(self) -> bool {
        self.scheduler.is_default() && self.selfplay.is_default()
    }

    /// What is wrong with the configuration, if anything.
    pub open spec fn fault(self) -> Option<ConfigError> {
        range_fault(
            self.scheduler.max_inflight_reports,
            self.selfplay.mcts_sims,
            self.selfplay.max_considered_actions,
            self.selfplay.playout_cap_random_enabled,
            self.selfplay.fast_mcts_sims,
        )
    }

    /// What is wrong with the configuration once the command line `cli` is on top.
    pub open spec fn layered_fault(self, cli: CliOverrides) -> Option<ConfigError> {
        range_fault(
            self.scheduler.max_inflight_reports,
            number_or(cli.mcts_sims, self.selfplay.mcts_sims),
            number_or(cli.max_considered_actions, self.selfplay.max_considered_actions),
            self.selfplay.playout_cap_random_enabled,
            self.selfplay.layered_fast(cli),
        )
    }

    /// Whether `self` is `base` with the command line `cli` on top, and a name for the worker.
    pub open spec fn layers(self, base: CollectorConfig, cli: CliOverrides, pid: u32) -> bool {
        &&& self.scheduler.layers(base.scheduler, cli, pid)
        &&& self.selfplay.layers(base.selfplay, cli)
    }

    /// Whether `base` is what the command line goes on top of: the file, or the defaults.
    pub open spec fn is_base(base: CollectorConfig, file: Option<CollectorConfig>) -> bool {
        match file {
            Some(f) => base == f,
            None => base.is_default(),
        }
    }

    /// Checks the ranges of the settings.
    pub fn validate(&self) -> (res: Result<(), ConfigError>)
        ensures
            res == match self.fault() {
                Some(e) => Err::<(), ConfigError>(e),
                None => Ok(()),
            },
    {
        if self.scheduler.max_inflight_reports == 0 {
            return Err(ConfigError::NoInflightReports);
        }
        let sp = &self.selfplay;
        if sp.mcts_sims == 0 {
            return Err(ConfigError::NoSimulations);
        }
        if sp.max_considered_actions == 0 {
            return Err(ConfigError::NoConsideredActions);
        }
        if sp.playout_cap_random_enabled && sp.fast_mcts_sims >= sp.mcts_sims {
            return Err(
                ConfigError::FastNotBelowFull { fast: sp.fast_mcts_sims, full: sp.mcts_sims },
            );
        }
        Ok(())
    }

    /// The effective configuration: the settings of the file, or the defaults where there is none,
    /// with the command line on top; refused where a setting is out of range.
    pub fn load(
        cli: &CliOverrides,
        file: Option<CollectorConfig>,
        pid: u32,
    ) -> (res: Result<CollectorConfig, ConfigError>)
        ensures
            forall|base: CollectorConfig| #[trigger]
                CollectorConfig::is_base(base, file) ==> match base.layered_fault(*cli) {
                    Some(e) => res == Err::<CollectorConfig, ConfigError>(e),
                    None => res is Ok && res->Ok_0.layers(base, *cli, pid),
                },
            res matches Ok(cfg) ==> cfg.fault() is None,
            res matches Ok(cfg) ==> {
                &&& cli.scheduler_endpoint matches Some(v) ==> cfg.scheduler.endpoint@ == v@
                &&& cli.worker_id matches Some(v) ==> v@.len() > 0 ==> cfg.scheduler.worker_id@
                    == v@
                &&& cli.cache_dir matches Some(v) ==> cfg.scheduler.cache_dir@ == v@
                &&& cli.device matches Some(v) ==> cfg.scheduler.device@ == v@
                &&& cli.sessions matches Some(v) ==> cfg.scheduler.sessions == v
                &&& cli.mcts_sims matches Some(v) ==> cfg.selfplay.mcts_sims == v
                &&& cli.max_considered_actions matches Some(v)
                    ==> cfg.selfplay.max_considered_actions == v
                &&& cli.threads matches Some(v) ==> cfg.selfplay.threads == v
            },
    {
        let base = match file {
            Some(f) => f,
            None => CollectorConfig::default(),
        };
        let cfg = CollectorConfig {
            scheduler: SchedulerConfig::layer(base.scheduler, cli, pid),
            selfplay: SelfPlayConfig::layer(base.selfplay, cli),
        };
        match cfg.validate() {
            Ok(()) => Ok(cfg),
            Err(e) => Err(e),
        }
    }
}

/// A configuration that was loaded once, written to a file and read back without a command line is
/// accepted, and no setting changes.
pub proof fn law_reload_is_stable(loaded: CollectorConfig, cli: CliOverrides, pid: u32)
    requires
        loaded.fault() is None,
        loaded.scheduler.worker_id@.len() > 0,
        cli.scheduler_endpoint is None,
        cli.worker_id is None,
        cli.cache_dir is None,
        cli.device is None,
        cli.sessions is None,
        cli.mcts_sims is None,
        cli.max_considered_actions is None,
        cli.threads is None,
    ensures
        loaded.layered_fault(cli) is None,
        loaded.layers(loaded, cli, pid),
{
}

/// A loaded configuration names its worker.
pub proof fn law_worker_is_named(
    base: CollectorConfig,
    cli: CliOverrides,
    pid: u32,
    cfg: CollectorConfig,
)
    requires
        cfg.layers(base, cli, pid),
    ensures
        cfg.scheduler.worker_id@.len() > 0,
{
    law_decimal_reads_back(pid as int);
}

/// A positive number of simulations from the command line never collides with the number of a fast
/// decision: the latter is derived anew.
pub proof fn law_sims_override_never_collides(base: CollectorConfig, cli: CliOverrides, sims: usize)
    requires
        cli.mcts_sims == Some(sims),
        sims > 0,
    ensures
        !(base.layered_fault(cli) matches Some(ConfigError::FastNotBelowFull { fast, full })),
{
}

/// Every override that the command line gives is in the effective configuration.
pub proof fn law_command_line_wins(
    base: CollectorConfig,
    cli: CliOverrides,
    pid: u32,
    cfg: CollectorConfig,
)
    requires
        cfg.layers(base, cli, pid),
    ensures
        cli.scheduler_endpoint matches Some(v) ==> cfg.scheduler.endpoint@ == v@,
        cli.worker_id matches Some(v) ==> v@.len() > 0 ==> cfg.scheduler.worker_id@ == v@,
        cli.cache_dir matches Some(v) ==> cfg.scheduler.cache_dir@ == v@,
        cli.device matches Some(v) ==> cfg.scheduler.device@ == v@,
        cli.sessions matches Some(v) ==> cfg.scheduler.sessions == v,
        cli.mcts_sims matches Some(v) ==> cfg.selfplay.mcts_sims == v
            && cfg.selfplay.fast_mcts_sims == 0,
        cli.max_considered_actions matches Some(v) ==> cfg.selfplay.max_considered_actions == v,
        cli.threads matches Some(v) ==> cfg.selfplay.threads == v,
{
}

/// What the command line leaves open is as the file, or the defaults, have it; what the command line
/// cannot say always is.
pub proof fn law_base_shows_through(
    base: CollectorConfig,
    cli: CliOverrides,
    pid: u32,
    cfg: CollectorConfig,
)
    requires
        cfg.layers(base, cli, pid),
    ensures
        cli.scheduler_endpoint is None ==> cfg.scheduler.endpoint@ == base.scheduler.endpoint@,
        cli.worker_id is None && base.scheduler.worker_id@.len() > 0 ==> cfg.scheduler.worker_id@
            == base.scheduler.worker_id@,
        cli.cache_dir is None ==> cfg.scheduler.cache_dir@ == base.scheduler.cache_dir@,
        cli.device is None ==> cfg.scheduler.device@ == base.scheduler.device@,
        cli.sessions is None ==> cfg.scheduler.sessions == base.scheduler.sessions,
        cfg.scheduler.max_inflight_reports == base.scheduler.max_inflight_reports,
        cli.mcts_sims is None ==> cfg.selfplay.mcts_sims == base.selfplay.mcts_sims
            && cfg.selfplay.fast_mcts_sims == base.selfplay.fast_mcts_sims,
        cli.max_considered_actions is None ==> cfg.selfplay.max_considered_actions
            == base.selfplay.max_considered_actions,
        cli.threads is None ==> cfg.selfplay.threads == base.selfplay.threads,
        cfg.selfplay.scenario@ == base.selfplay.scenario@,
        cfg.selfplay.c_scale == base.selfplay.c_scale,
        cfg.selfplay.gumbel_scale == base.selfplay.gumbel_scale,
        cfg.selfplay.health_enabled == base.selfplay.health_enabled,
        cfg.selfplay.health_weight == base.selfplay.health_weight,
        cfg.selfplay.health_confidence_exp == base.selfplay.health_confidence_exp,
        cfg.selfplay.collect_positions == base.selfplay.collect_positions,
        cfg.selfplay.playout_cap_random_enabled == base.selfplay.playout_cap_random_enabled,
        cfg.selfplay.full_search_prob == base.selfplay.full_search_prob,
        cfg.selfplay.tree_reuse == base.selfplay.tree_reuse,
        cfg.selfplay.batched_variants@ == base.selfplay.batched_variants@,
{
}

/// A worker that nobody named is called after its process: the digits behind `worker-` read as the
/// number of the process, so two processes never share a name.
pub proof fn law_unnamed_workers_are_told_apart(
    base: CollectorConfig,
    cli: CliOverrides,
    pid: u32,
    cfg: CollectorConfig,
)
    requires
        cfg.layers(base, cli, pid),
        base.scheduler.worker_id@.len() == 0,
        cli.worker_id matches Some(v) ==> v@.len() == 0,
    ensures
        ({
            let name = cfg.scheduler.worker_id@;
            &&& name.len() > 7
            &&& name.take(7) == "worker-"@
            &&& from_decimal(name.skip(7)) == pid
        }),
{
    reveal_strlit("worker-");
    law_decimal_reads_back(pid as int);
    let name = cfg.scheduler.worker_id@;
    assert(name =~= "worker-"@ + decimal(pid as int));
    assert(name.take(7) =~= "worker-"@);
    assert(name.skip(7) =~= decimal(pid as int));
}

/// Exactly the configurations are refused that allow no report, no simulation or no candidate, or
/// that draw lots between searches of which the fast one is not cheaper; the first of these is the
/// reason that is given.
pub proof fn law_refused_configurations(base: CollectorConfig, cli: CliOverrides)
    ensures
        ({
            let inflight = base.scheduler.max_inflight_reports;
            let sims = if let Some(n) = cli.mcts_sims {
                n
            } else {
                base.selfplay.mcts_sims
            };
            let considered = if let Some(n) = cli.max_considered_actions {
                n
            } else {
                base.selfplay.max_considered_actions
            };
            let fast = if cli.mcts_sims is Some {
                0
            } else {
                base.selfplay.fast_mcts_sims
            };
            let dear = base.selfplay.playout_cap_random_enabled && fast >= sims;
            let fault = base.layered_fault(cli);
            &&& fault is None <==> inflight > 0 && sims > 0 && considered > 0 && !dear
            &&& fault == Some(ConfigError::NoInflightReports) <==> inflight == 0
            &&& fault == Some(ConfigError::NoSimulations) <==> inflight > 0 && sims == 0
            &&& fault == Some(ConfigError::NoConsideredActions) <==> inflight > 0 && sims > 0
                && considered == 0
            &&& fault is Some && fault->Some_0 is FastNotBelowFull ==> fault->Some_0
                == (ConfigError::FastNotBelowFull { fast, full: sims })
        }),
{
}

/// A configuration is checked as it will be used: what is wrong once the command line is on top is
/// what is wrong with the effective configuration.
pub proof fn law_effective_configuration_is_checked(
    base: CollectorConfig,
    cli: CliOverrides,
    pid: u32,
    cfg: CollectorConfig,
)
    requires
        cfg.layers(base, cli, pid),
    ensures
        cfg.fault() == base.layered_fault(cli),
        cfg.fault() is None <==> {
            &&& cfg.scheduler.max_inflight_reports > 0
            &&& cfg.selfplay.mcts_sims > 0
            &&& cfg.selfplay.max_considered_actions > 0
            &&& cfg.selfplay.playout_cap_random_enabled ==> cfg.selfplay.fast_mcts_sims
                < cfg.selfplay.mcts_sims
        },
{
}

/// Without a file and a command line the settings are these.
pub proof fn law_defaults(cfg: CollectorConfig)
    requires
        cfg.is_default(),
    ensures
        cfg.scheduler.endpoint@ == "http://127.0.0.1:50051"@,
        cfg.scheduler.worker_id@.len() == 0,
        cfg.scheduler.cache_dir@ == "outputs/distributed_cache"@,
        cfg.scheduler.device@ == "auto"@,
        cfg.scheduler.sessions == 0,
        cfg.scheduler.max_inflight_reports == 2,
        cfg.selfplay.threads == 0,
        cfg.selfplay.mcts_sims == 64,
        cfg.selfplay.max_considered_actions == 16,
        cfg.selfplay.scenario@ == "standard"@,
        cfg.selfplay.c_scale == 0x3f80_0000,
        cfg.selfplay.gumbel_scale == 0x3f80_0000,
        !cfg.selfplay.health_enabled,
        cfg.selfplay.health_weight == 0,
        cfg.selfplay.health_confidence_exp == 0,
        !cfg.selfplay.collect_positions,
        !cfg.selfplay.playout_cap_random_enabled,
        cfg.selfplay.fast_mcts_sims == 0,
        cfg.selfplay.full_search_prob == 0x3e80_0000,
        !cfg.selfplay.tree_reuse,
        cfg.selfplay.batched_variants@.len() == 0,
        cfg.fault() is None,
{
}

/// A fast search does what the settings say, or where they say nothing, a quarter of a full one,
/// rounded down.
pub proof fn law_fast_search_is_a_quarter(config: SelfPlayConfig)
    ensures
        config.fast_mcts_sims > 0 ==> config.spec_fast_sims() == config.fast_mcts_sims,
        config.fast_mcts_sims == 0 ==> 4 * config.spec_fast_sims() <= config.mcts_sims < 4 * (
        config.spec_fast_sims() + 1),
{
}

/// The command line goes on top of the file where there is one, else of the defaults.
pub proof fn law_file_is_what_the_command_line_goes_on(base: CollectorConfig, file: CollectorConfig)
    ensures
        CollectorConfig::is_base(base, Some(file)) <==> base == file,
        CollectorConfig::is_base(base, None) <==> base.is_default(),
{
}

/// A variant is played in batches exactly where its name, letter for letter, is among the names of
/// the configuration, whatever the place: another name in the list changes nothing for it.
pub proof fn law_listed_variants_are_batched(a: SelfPlayConfig, b: SelfPlayConfig, name: String)
    requires
        b.batched_variants@ == a.batched_variants@.push(name),
    ensures
        forall|v: Seq<char>|
            #[trigger] a.lists(v) <==> a.batched_variants@.map_values(|s: String| s@).contains(v),
        b.lists(name@),
        forall|v: Seq<char>| v != name@ ==> (#[trigger] b.lists(v) <==> a.lists(v)),
        a.batched_variants@.len() == 0 ==> forall|v: Seq<char>| !#[trigger] a.lists(v),
{
    let names = a.batched_variants@.map_values(|s: String| s@);
    let n = a.batched_variants@.len() as int;
    assert forall|v: Seq<char>| #[trigger] a.lists(v) <==> names.contains(v) by {
        if a.lists(v) {
            let i = choose|i: int|
                0 <= i < a.batched_variants@.len() && #[trigger] a.batched_variants@[i]@ == v;
            assert(names[i] == v);
        }
        if names.contains(v) {
            let i = choose|i: int| 0 <= i < names.len() && names[i] == v;
            assert(a.batched_variants@[i]@ == v);
        }
    }
    assert(b.batched_variants@[n]@ == name@);
    assert forall|v: Seq<char>| v != name@ implies (#[trigger] b.lists(v) <==> a.lists(v)) by {
        if a.lists(v) {
            let i = choose|i: int|
                0 <= i < a.batched_variants@.len() && #[trigger] a.batched_variants@[i]@ == v;
            assert(b.batched_variants@[i]@ == v);
        }
        if b.lists(v) {
            let i = choose|i: int|
                0 <= i < b.batched_variants@.len() && #[trigger] b.batched_variants@[i]@ == v;
            assert(a.batched_variants@[i]@ == v);
        }
    }
}

} // verus!
