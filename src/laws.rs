use vstd::prelude::*;
use crate::config::Config;
use crate::flock::{
    AgentState, within_radius, separation_sum, neighbor_count, separation, alignment, cohesion,
    neighbors, next_state, next_velocity, step_states, run, weighted,
};
use crate::vector::{norm_sq, dist_sq, diff, neg, sum, zero, limit, lemma_limit_bounded};

verus! {

/// After a step every velocity is at most `max_speed` long.
pub proof fn lemma_speed_capped(s: Seq<AgentState>, i: int, cfg: Config)
    requires
        cfg.valid(),
        0 <= i < s.len(),
    ensures
        norm_sq(next_state(s, i, cfg).1) <= cfg.max_speed * cfg.max_speed,
        norm_sq(step_states(s, cfg)[i].1) <= cfg.max_speed * cfg.max_speed,
{
    let v = sum(
        sum(
            sum(s[i].1, weighted(separation(s, i, cfg), cfg, cfg.separation_weight as int)),
            weighted(alignment(s, i, cfg), cfg, cfg.alignment_weight as int),
        ),
        weighted(cohesion(s, i, cfg), cfg, cfg.cohesion_weight as int),
    );
    lemma_limit_bounded(v, cfg.max_speed as int);
}

proof fn lemma_no_neighbors_count(s: Seq<AgentState>, i: int, r: int, k: nat)
    requires
        k <= s.len(),
        forall|j: int| 0 <= j < s.len() ==> !within_radius(s, i, j, r),
    ensures
        neighbor_count(s, i, r, k) == 0,
    decreases k,
{
    if k > 0 {
        lemma_no_neighbors_count(s, i, r, (k - 1) as nat);
    }
}

/// An agent with no other agent within the neighbour radius gets no alignment
/// and no cohesion.
pub proof fn lemma_isolated_agent(s: Seq<AgentState>, i: int, cfg: Config)
    requires
        0 <= i < s.len(),
        forall|j: int| 0 <= j < s.len() ==> !within_radius(s, i, j, cfg.neighbor_radius as int),
    ensures
        neighbors(s, i, cfg) == 0,
        alignment(s, i, cfg) == zero(),
        cohesion(s, i, cfg) == zero(),
{
    lemma_no_neighbors_count(s, i, cfg.neighbor_radius as int, s.len());
}

/// Stepping is a function of the population and the configuration alone:
/// equal starting populations under one configuration follow equal
/// trajectories.
pub proof fn lemma_run_deterministic(a: Seq<AgentState>, b: Seq<AgentState>, cfg: Config, steps: nat)
    requires
        a == b,
    ensures
        run(a, cfg, steps) == run(b, cfg, steps),
        steps > 0 ==> run(a, cfg, steps) == step_states(run(b, cfg, (steps - 1) as nat), cfg),
{
}

/// Closeness is symmetric, and the separation term that `j` exerts on `i` is
/// the negation of the one that `i` exerts on `j`.
pub proof fn lemma_separation_pair_antisymmetric(s: Seq<AgentState>, i: int, j: int, r: int)
    requires
        0 <= i < s.len(),
        0 <= j < s.len(),
    ensures
        within_radius(s, i, j, r) == within_radius(s, j, i, r),
        diff(s[i].0, s[j].0) == neg(diff(s[j].0, s[i].0)),
{
    let (a, b) = (s[i].0, s[j].0);
    assert(dist_sq(a, b) == dist_sq(b, a)) by (nonlinear_arith);
}

/// In a population of two, the separation on the first agent is the negation
/// of the separation on the second.
pub proof fn lemma_separation_antisymmetric(s: Seq<AgentState>, cfg: Config)
    requires
        s.len() == 2,
    ensures
        separation(s, 0, cfg) == neg(separation(s, 1, cfg)),
{
    let r = cfg.separation_radius as int;
    lemma_separation_pair_antisymmetric(s, 0, 1, r);
    reveal_with_fuel(separation_sum, 3);
    assert(!within_radius(s, 0, 0, r) && !within_radius(s, 1, 1, r));
}

/// A lone agent gets no steering at all: its velocity is only clamped to
/// `max_speed`, and it moves by that velocity.
pub proof fn lemma_single_agent(s: Seq<AgentState>, cfg: Config)
    requires
        cfg.valid(),
        s.len() == 1,
    ensures
        separation(s, 0, cfg) == zero(),
        alignment(s, 0, cfg) == zero(),
        cohesion(s, 0, cfg) == zero(),
        next_velocity(s, 0, cfg) == limit(s[0].1, cfg.max_speed as int),
        next_state(s, 0, cfg) == (sum(s[0].0, limit(s[0].1, cfg.max_speed as int)), limit(s[0].1, cfg.max_speed as int)),
{
    lemma_isolated_agent(s, 0, cfg);
    reveal_with_fuel(separation_sum, 2);
    assert(!within_radius(s, 0, 0, cfg.separation_radius as int));
    let mf = cfg.max_force as int;
    assert(mf * mf >= 0) by (nonlinear_arith);
    assert(limit(zero(), mf) == zero());
    assert(weighted(zero(), cfg, cfg.separation_weight as int) == zero());
    assert(weighted(zero(), cfg, cfg.alignment_weight as int) == zero());
    assert(weighted(zero(), cfg, cfg.cohesion_weight as int) == zero());
    assert(sum(sum(sum(s[0].1, zero()), zero()), zero()) == s[0].1);
}

} // verus!
