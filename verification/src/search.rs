//! What a search is told, and what it says about a position.

use vstd::prelude::*;

use crate::config::SelfPlayConfig;
use crate::episode::{F32Bits, Player, ResNetObservation};

verus! {

/// What a search is told.
#[derive(Clone, Copy, Debug, PartialEq, Eq, Structural)]
pub struct GumbelConfig {
    pub num_simulations: usize,
    pub max_considered_actions: usize,
    pub c_scale: F32Bits,
    pub gumbel_scale: F32Bits,
    pub health_enabled: bool,
    pub health_weight: F32Bits,
    pub health_confidence_exp: F32Bits,
}

/// The search that a configuration asks for.
pub fn gumbel_config(config: &SelfPlayConfig) -> (res: GumbelConfig)
    ensures
        res == (GumbelConfig {
            num_simulations: config.mcts_sims,
            max_considered_actions: config.max_considered_actions,
            c_scale: config.c_scale,
            gumbel_scale: config.gumbel_scale,
            health_enabled: config.health_enabled,
            health_weight: config.health_weight,
            health_confidence_exp: config.health_confidence_exp,
        }),
        res.num_simulations == config.mcts_sims,
        res.max_considered_actions == config.max_considered_actions,
        res.c_scale == config.c_scale,
        res.gumbel_scale == config.gumbel_scale,
        res.health_enabled == config.health_enabled,
        res.health_weight == config.health_weight,
        res.health_confidence_exp == config.health_confidence_exp,
{
    GumbelConfig {
        num_simulations: config.mcts_sims,
        max_considered_actions: config.max_considered_actions,
        c_scale: config.c_scale,
        gumbel_scale: config.gumbel_scale,
        health_enabled: config.health_enabled,
        health_weight: config.health_weight,
        health_confidence_exp: config.health_confidence_exp,
    }
}

/// How much one search may do.
#[derive(Clone, Copy, Debug, PartialEq, Eq, Structural)]
pub struct SearchBudget {
    pub simulations: usize,
    /// Whether that is all that the configuration allows.
    pub is_full_search: bool,
}

/// How much a search may do where lots are drawn, `full_drawn` saying how they fell.
pub open spec fn budget_of(config: SelfPlayConfig, full_drawn: bool) -> SearchBudget {
    if config.playout_cap_random_enabled && !full_drawn {
        SearchBudget { simulations: config.spec_fast_sims(), is_full_search: false }
    } else {
        SearchBudget { simulations: config.mcts_sims, is_full_search: true }
    }
}

/// A search that counts as a full one does all that the configuration allows; where lots are not
/// drawn, how they would have fallen makes no difference and every search is full; where they are,
/// a search is full exactly where they fell so, and a fast one does what a fast one may.
pub proof fn law_lots_decide_only_where_they_are_drawn(config: SelfPlayConfig, full_drawn: bool)
    ensures
        budget_of(config, full_drawn).is_full_search ==> budget_of(config, full_drawn).simulations
            == config.mcts_sims,
        !budget_of(config, full_drawn).is_full_search ==> budget_of(config, full_drawn).simulations
            == config.spec_fast_sims(),
        !config.playout_cap_random_enabled ==> budget_of(config, full_drawn).is_full_search,
        config.playout_cap_random_enabled ==> (budget_of(config, full_drawn).is_full_search
            <==> full_drawn),
{
}

/// How much a search may do where lots are drawn, `full_drawn` saying how they fell: without the
/// randomised cap every search is a full one.
pub fn search_budget(config: &SelfPlayConfig, full_drawn: bool) -> (res: SearchBudget)
    ensures
        res == budget_of(*config, full_drawn),
        res == (if config.playout_cap_random_enabled && !full_drawn {
            SearchBudget { simulations: config.spec_fast_sims(), is_full_search: false }
        } else {
            SearchBudget { simulations: config.mcts_sims, is_full_search: true }
        }),
{
    if config.playout_cap_random_enabled && !full_drawn {
        SearchBudget { simulations: config.fast_sims(), is_full_search: false }
    } else {
        SearchBudget { simulations: config.mcts_sims, is_full_search: true }
    }
}

/// What a search said about one position.
#[derive(Debug, Clone)]
pub struct SearchStep {
    pub obs: ResNetObservation,
    /// The improved policy.
    pub policy: Vec<F32Bits>,
    pub mcts_value: F32Bits,
    pub completed_q: F32Bits,
    pub root_visits: u32,
    /// The side to move.
    pub player: Player,
    pub mask: Vec<i32>,
    /// The action that was chosen.
    pub action: usize,
    pub is_full_search: bool,
}

} // verus!
