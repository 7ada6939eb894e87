use vstd::prelude::*;
use crate::config::{Config, WEIGHT_SCALE, RADIUS_LIMIT, WEIGHT_LIMIT};
use crate::vector::{
    Vec2, norm_sq, dist_sq, sum, diff, zero, within, div_trunc, scale, with_magnitude, limit,
    set_magnitude, limit_magnitude, div_trunc_exec, lemma_div_trunc_shrinks,
};

verus! {

/// Largest magnitude of a position component in a flock.
pub const POSITION_LIMIT: i64 = 0x1000_0000_0000_0000;

/// Largest magnitude of a velocity component in a flock.
pub const VELOCITY_LIMIT: i64 = 0x100_0000_0000;

/// Largest population a flock may hold.
pub const MAX_AGENTS: usize = 0x1_0000;

/// Bound on every neighbourhood sum: `MAX_AGENTS` terms of at most `2^40`.
pub const SUM_LIMIT: i64 = 0x100_0000_0000_0000;

/// One simulated agent.
#[derive(Clone, Copy, Debug, PartialEq, Eq, Structural)]
pub struct Agent {
    pub position: Vec2,
    pub velocity: Vec2,
}

/// Mathematical model of an agent: its position and its velocity.
pub type AgentState = ((int, int), (int, int));

impl View for Agent {
    type V = AgentState;

    open spec fn view(&self) -> AgentState {
        (self.position@, self.velocity@)
    }
}

impl Agent {
    pub fn new(position: Vec2, velocity: Vec2) -> (r: Agent)
        ensures
            r.position == position,
            r.velocity == velocity,
    {
        Agent { position, velocity }
    }
}

pub open spec fn states_of(agents: Seq<Agent>) -> Seq<AgentState> {
    agents.map_values(|a: Agent| a@)
}

pub open spec fn agent_in_range(a: AgentState) -> bool {
    within(a.0, POSITION_LIMIT as int) && within(a.1, VELOCITY_LIMIT as int)
}

/// A population that a flock can hold: not too many agents, none too far
/// out or too fast for the arithmetic of a step.
pub open spec fn population_in_range(s: Seq<AgentState>) -> bool {
    &&& s.len() <= MAX_AGENTS
    &&& forall|j: int| 0 <= j < s.len() ==> agent_in_range(#[trigger] s[j])
}

/// Agent `j` is another agent strictly closer to agent `i` than `r`.
pub open spec fn within_radius(s: Seq<AgentState>, i: int, j: int, r: int) -> bool {
    j != i && dist_sq(s[i].0, s[j].0) < r * r
}

/// Sum of `position[i] - position[j]` over the first `k` agents `j` within `r` of `i`.
pub open spec fn separation_sum(s: Seq<AgentState>, i: int, r: int, k: nat) -> (int, int)
    decreases k,
{
    if k == 0 {
        zero()
    } else {
        let prev = separation_sum(s, i, r, (k - 1) as nat);
        if within_radius(s, i, k - 1, r) {
            sum(prev, diff(s[i].0, s[k - 1].0))
        } else {
            prev
        }
    }
}

/// Number of the first `k` agents within `r` of agent `i`.
pub open spec fn neighbor_count(s: Seq<AgentState>, i: int, r: int, k: nat) -> int
    decreases k,
{
    if k == 0 {
        0
    } else {
        neighbor_count(s, i, r, (k - 1) as nat) + if within_radius(s, i, k - 1, r) {
            1int
        } else {
            0int
        }
    }
}

/// Sum of the velocities of the first `k` agents within `r` of agent `i`.
pub open spec fn velocity_sum(s: Seq<AgentState>, i: int, r: int, k: nat) -> (int, int)
    decreases k,
{
    if k == 0 {
        zero()
    } else {
        let prev = velocity_sum(s, i, r, (k - 1) as nat);
        if within_radius(s, i, k - 1, r) {
            sum(prev, s[k - 1].1)
        } else {
            prev
        }
    }
}

/// Sum of `position[j] - position[i]` over the first `k` agents `j` within `r` of `i`.
pub open spec fn offset_sum(s: Seq<AgentState>, i: int, r: int, k: nat) -> (int, int)
    decreases k,
{
    if k == 0 {
        zero()
    } else {
        let prev = offset_sum(s, i, r, (k - 1) as nat);
        if within_radius(s, i, k - 1, r) {
            sum(prev, diff(s[k - 1].0, s[i].0))
        } else {
            prev
        }
    }
}

/// Number of agents within the neighbour radius of agent `i`.
pub open spec fn neighbors(s: Seq<AgentState>, i: int, cfg: Config) -> int {
    neighbor_count(s, i, cfg.neighbor_radius as int, s.len())
}

/// Separation: the sum of `position[i] - position[j]` over the agents within
/// the separation radius.
pub open spec fn separation(s: Seq<AgentState>, i: int, cfg: Config) -> (int, int) {
    separation_sum(s, i, cfg.separation_radius as int, s.len())
}

/// Alignment: the neighbours' mean velocity set to length `max_speed`, minus
/// the agent's own velocity; zero without neighbours. The mean and the sum of
/// the neighbours' velocities point the same way, so the sum is rescaled.
pub open spec fn alignment(s: Seq<AgentState>, i: int, cfg: Config) -> (int, int) {
    if neighbors(s, i, cfg) > 0 {
        diff(
            with_magnitude(
                velocity_sum(s, i, cfg.neighbor_radius as int, s.len()),
                cfg.max_speed as int,
            ),
            s[i].1,
        )
    } else {
        zero()
    }
}

/// Cohesion: from the agent toward the centroid of its neighbours, that is the
/// mean of `position[j] - position[i]` over them; zero without neighbours.
pub open spec fn cohesion(s: Seq<AgentState>, i: int, cfg: Config) -> (int, int) {
    let n = neighbors(s, i, cfg);
    if n > 0 {
        let o = offset_sum(s, i, cfg.neighbor_radius as int, s.len());
        (div_trunc(o.0, n), div_trunc(o.1, n))
    } else {
        zero()
    }
}

/// A steering contribution clamped to `max_force`, then weighted (thousandths).
pub open spec fn weighted(f: (int, int), cfg: Config, weight: int) -> (int, int) {
    scale(limit(f, cfg.max_force as int), weight, WEIGHT_SCALE as int)
}

/// The velocity of agent `i` after one step: its velocity plus the weighted
/// contributions, clamped to `max_speed`.
pub open spec fn next_velocity(s: Seq<AgentState>, i: int, cfg: Config) -> (int, int) {
    let v = sum(
        sum(
            sum(s[i].1, weighted(separation(s, i, cfg), cfg, cfg.separation_weight as int)),
            weighted(alignment(s, i, cfg), cfg, cfg.alignment_weight as int),
        ),
        weighted(cohesion(s, i, cfg), cfg, cfg.cohesion_weight as int),
    );
    limit(v, cfg.max_speed as int)
}

/// Agent `i` after one step: it moves by its new velocity.
pub open spec fn next_state(s: Seq<AgentState>, i: int, cfg: Config) -> AgentState {
    (sum(s[i].0, next_velocity(s, i, cfg)), next_velocity(s, i, cfg))
}

/// The whole population after one step, every agent computed from the same
/// snapshot.
pub open spec fn step_states(s: Seq<AgentState>, cfg: Config) -> Seq<AgentState> {
    Seq::new(s.len(), |i: int| next_state(s, i, cfg))
}

/// The population after `steps` steps.
pub open spec fn run(s: Seq<AgentState>, cfg: Config, steps: nat) -> Seq<AgentState>
    decreases steps,
{
    if steps == 0 {
        s
    } else {
        step_states(run(s, cfg, (steps - 1) as nat), cfg)
    }
}

/// Every agent can move by `max_speed` without leaving the position range.
pub open spec fn has_room(s: Seq<AgentState>, cfg: Config) -> bool {
    forall|j: int|
        0 <= j < s.len() ==> within(#[trigger] s[j].0, POSITION_LIMIT - cfg.max_speed)
}

/// The three steering contributions acting on one agent, before clamping.
#[derive(Clone, Copy, Debug, PartialEq, Eq, Structural)]
pub struct Steering {
    pub separation: Vec2,
    pub alignment: Vec2,
    pub cohesion: Vec2,
}

proof fn lemma_close_within(d: (int, int), r: int)
    requires
        r >= 0,
        norm_sq(d) < r * r,
    ensures
        within(d, r),
{
    let (x, y) = d;
    assert(-r <= x <= r && -r <= y <= r) by (nonlinear_arith)
        requires
            x * x + y * y < r * r,
            r >= 0,
    ;
}

proof fn lemma_sum_bound(j: int, r: int)
    requires
        0 <= j <= MAX_AGENTS,
        0 <= r <= RADIUS_LIMIT,
    ensures
        0 <= j * r <= SUM_LIMIT,
        (j + 1) * r == j * r + r,
{
    assert(0 <= j * r <= 0x100_0000_0000_0000) by (nonlinear_arith)
        requires
            0 <= j <= 0x1_0000,
            0 <= r <= 0x100_0000_0000,
    ;
    assert((j + 1) * r == j * r + r) by (nonlinear_arith);
}

/// Squared distance between two agents' positions, as the exact integer.
fn distance_sq(p: Vec2, q: Vec2) -> (r: i128)
    requires
        within(p@, POSITION_LIMIT as int),
        within(q@, POSITION_LIMIT as int),
    ensures
        r == dist_sq(p@, q@),
{
    let dx = (p.x - q.x) as i128;
    let dy = (p.y - q.y) as i128;
    assert(dx * dx <= 0x400_0000_0000_0000_0000_0000_0000_0000 && dy * dy <= 0x400_0000_0000_0000_0000_0000_0000_0000
        && dx * dx >= 0 && dy * dy >= 0) by (nonlinear_arith)
        requires
            -0x2000_0000_0000_0000 <= dx <= 0x2000_0000_0000_0000,
            -0x2000_0000_0000_0000 <= dy <= 0x2000_0000_0000_0000,
    ;
    dx * dx + dy * dy
}

/// The raw neighbourhood sums of agent `i`: separation, velocity sum, offset
/// sum and neighbour count.
fn scan(agents: &Vec<Agent>, i: usize, cfg: &Config) -> (r: (Vec2, Vec2, Vec2, i64))
    requires
        cfg.valid(),
        population_in_range(states_of(agents@)),
        i < agents.len(),
    ensures
        ({
            let s = states_of(agents@);
            &&& r.0@ == separation_sum(s, i as int, cfg.separation_radius as int, s.len())
            &&& r.1@ == velocity_sum(s, i as int, cfg.neighbor_radius as int, s.len())
            &&& r.2@ == offset_sum(s, i as int, cfg.neighbor_radius as int, s.len())
            &&& r.3 as int == neighbor_count(s, i as int, cfg.neighbor_radius as int, s.len())
            &&& within(r.0@, SUM_LIMIT as int)
            &&& within(r.1@, SUM_LIMIT as int)
            &&& within(r.2@, SUM_LIMIT as int)
            &&& 0 <= r.3 <= agents.len()
        }),
{
    let ghost s = states_of(agents@);
    let sr = cfg.separation_radius as i128;
    let nr = cfg.neighbor_radius as i128;
    assert(sr * sr <= 0x1_0000_0000_0000_0000_0000 && nr * nr <= 0x1_0000_0000_0000_0000_0000) by (nonlinear_arith)
        requires
            0 <= sr <= 0x100_0000_0000,
            0 <= nr <= 0x100_0000_0000,
    ;
    let sr2 = sr * sr;
    let nr2 = nr * nr;
    let me = agents[i];
    let mut sep = Vec2 { x: 0, y: 0 };
    let mut vel = Vec2 { x: 0, y: 0 };
    let mut off = Vec2 { x: 0, y: 0 };
    let mut count: i64 = 0;
    let mut j: usize = 0;
    assert(s[i as int] == me@);
    while j < agents.len()
        invariant
            s == states_of(agents@),
            cfg.valid(),
            population_in_range(s),
            i < agents.len(),
            me@ == s[i as int],
            sr2 == sr * sr,
            nr2 == nr * nr,
            sr == cfg.separation_radius,
            nr == cfg.neighbor_radius,
            j <= agents.len(),
            sep@ == separation_sum(s, i as int, sr as int, j as nat),
            vel@ == velocity_sum(s, i as int, nr as int, j as nat),
            off@ == offset_sum(s, i as int, nr as int, j as nat),
            count as int == neighbor_count(s, i as int, nr as int, j as nat),
            within(sep@, j * sr),
            within(vel@, j * VELOCITY_LIMIT),
            within(off@, j * nr),
            0 <= count <= j,
        decreases agents.len() - j,
    {
        let other = agents[j];
        proof {
            assert(s[j as int] == other@);
            assert(agent_in_range(s[i as int]));
            assert(agent_in_range(s[j as int]));
            lemma_sum_bound(j as int, sr as int);
            lemma_sum_bound(j as int, nr as int);
            lemma_sum_bound(j as int, VELOCITY_LIMIT as int);
            lemma_sum_bound(j + 1, sr as int);
            lemma_sum_bound(j + 1, nr as int);
            lemma_sum_bound(j + 1, VELOCITY_LIMIT as int);
        }
        let d2 = distance_sq(me.position, other.position);
        if j != i && d2 < sr2 {
            proof {
                lemma_close_within(diff(me.position@, other.position@), sr as int);
            }
            sep = Vec2 {
                x: sep.x + (me.position.x - other.position.x),
                y: sep.y + (me.position.y - other.position.y),
            };
        }
        if j != i && d2 < nr2 {
            proof {
                lemma_close_within(diff(me.position@, other.position@), nr as int);
            }
            vel = Vec2 { x: vel.x + other.velocity.x, y: vel.y + other.velocity.y };
            off = Vec2 {
                x: off.x + (other.position.x - me.position.x),
                y: off.y + (other.position.y - me.position.y),
            };
            count = count + 1;
        }
        j = j + 1;
    }
    proof {
        lemma_sum_bound(j as int, sr as int);
        lemma_sum_bound(j as int, nr as int);
        lemma_sum_bound(j as int, VELOCITY_LIMIT as int);
    }
    (sep, vel, off, count)
}


/// The separation, alignment and cohesion contributions acting on agent `i`
/// of `agents`, before they are clamped and weighted.
pub fn steering(agents: &Vec<Agent>, i: usize, cfg: &Config) -> (r: Steering)
    requires
        cfg.valid(),
        population_in_range(states_of(agents@)),
        i < agents.len(),
    ensures
        r.separation@ == separation(states_of(agents@), i as int, *cfg),
        r.alignment@ == alignment(states_of(agents@), i as int, *cfg),
        r.cohesion@ == cohesion(states_of(agents@), i as int, *cfg),
        within(r.separation@, SUM_LIMIT as int),
        within(r.alignment@, SUM_LIMIT as int),
        within(r.cohesion@, SUM_LIMIT as int),
{
    let ghost s = states_of(agents@);
    let (sep, vel, off, count) = scan(agents, i, cfg);
    let me = agents[i];
    proof {
        assert(s[i as int] == me@);
        assert(agent_in_range(s[i as int]));
    }
    if count > 0 {
        let target = set_magnitude(vel, cfg.max_speed);
        let alignment = Vec2 { x: target.x - me.velocity.x, y: target.y - me.velocity.y };
        proof {
            lemma_div_trunc_shrinks(off.x as int, count as int, SUM_LIMIT as int);
            lemma_div_trunc_shrinks(off.y as int, count as int, SUM_LIMIT as int);
        }
        let cx = div_trunc_exec(off.x as i128, count as i128) as i64;
        let cy = div_trunc_exec(off.y as i128, count as i128) as i64;
        Steering { separation: sep, alignment, cohesion: Vec2 { x: cx, y: cy } }
    } else {
        let z = Vec2 { x: 0, y: 0 };
        Steering { separation: sep, alignment: z, cohesion: z }
    }
}

/// Clamps a contribution to `max_force` and applies a weight in thousandths.
fn apply_weight(f: Vec2, cfg: &Config, weight: i64) -> (r: Vec2)
    requires
        cfg.valid(),
        within(f@, SUM_LIMIT as int),
        0 <= weight <= WEIGHT_LIMIT,
    ensures
        r@ == weighted(f@, *cfg, weight as int),
        within(r@, 0x4_0000_0000_0000),
{
    let c = limit_magnitude(f, cfg.max_force);
    let w = weight as i128;
    proof {
        let cx = c.x as int;
        let cy = c.y as int;
        assert(-0x4_0000_0000_0000 <= cx * w <= 0x4_0000_0000_0000
            && -0x4_0000_0000_0000 <= cy * w <= 0x4_0000_0000_0000) by (nonlinear_arith)
            requires
                -0x4000_0000 <= cx <= 0x4000_0000,
                -0x4000_0000 <= cy <= 0x4000_0000,
                0 <= w <= 0x10_0000,
        ;
        lemma_div_trunc_shrinks(cx * w, WEIGHT_SCALE as int, 0x4_0000_0000_0000);
        lemma_div_trunc_shrinks(cy * w, WEIGHT_SCALE as int, 0x4_0000_0000_0000);
    }
    let x = div_trunc_exec(c.x as i128 * w, WEIGHT_SCALE as i128) as i64;
    let y = div_trunc_exec(c.y as i128 * w, WEIGHT_SCALE as i128) as i64;
    Vec2 { x, y }
}

/// Agent `i` of `agents` after one step, computed from `agents` as they stand.
pub fn next_agent(agents: &Vec<Agent>, i: usize, cfg: &Config) -> (r: Agent)
    requires
        cfg.valid(),
        population_in_range(states_of(agents@)),
        i < agents.len(),
        within(agents@[i as int].position@, POSITION_LIMIT - cfg.max_speed),
    ensures
        r@ == next_state(states_of(agents@), i as int, *cfg),
        norm_sq(r.velocity@) <= cfg.max_speed * cfg.max_speed,
        within(r.velocity@, cfg.max_speed as int),
        within(r.position@, POSITION_LIMIT as int),
{
    let ghost s = states_of(agents@);
    let me = agents[i];
    proof {
        assert(s[i as int] == me@);
        assert(agent_in_range(s[i as int]));
    }
    let st = steering(agents, i, cfg);
    let ws = apply_weight(st.separation, cfg, cfg.separation_weight);
    let wa = apply_weight(st.alignment, cfg, cfg.alignment_weight);
    let wc = apply_weight(st.cohesion, cfg, cfg.cohesion_weight);
    let v = Vec2 {
        x: me.velocity.x + ws.x + wa.x + wc.x,
        y: me.velocity.y + ws.y + wa.y + wc.y,
    };
    let nv = limit_magnitude(v, cfg.max_speed);
    Agent { position: Vec2 { x: me.position.x + nv.x, y: me.position.y + nv.y }, velocity: nv }
}


/// A fixed population of agents together with the tuning of its rules.
pub struct Flock {
    agents: Vec<Agent>,
    config: Config,
}

impl View for Flock {
    type V = Seq<AgentState>;

    closed spec fn view(&self) -> Seq<AgentState> {
        states_of(self.agents@)
    }
}

impl Flock {
    pub closed spec fn config_spec(&self) -> Config {
        self.config
    }

    /// The configuration is valid and the population within range.
    pub open spec fn valid(&self) -> bool {
        self.config_spec().valid() && population_in_range(self@)
    }

    /// A flock of the given agents, or `None` when the configuration is not
    /// valid or the population is out of range.
    pub fn from_agents(agents: Vec<Agent>, config: Config) -> (r: Option<Flock>)
        ensures
            r is Some <==> (config.valid() && population_in_range(states_of(agents@))),
            r matches Some(f) ==> f@ == states_of(agents@) && f.config_spec() == config && f.valid(),
    {
        if !config.is_valid() || agents.len() > MAX_AGENTS {
            return None;
        }
        let mut j: usize = 0;
        while j < agents.len()
            invariant
                j <= agents.len(),
                forall|k: int| 0 <= k < j ==> agent_in_range(#[trigger] states_of(agents@)[k]),
            decreases agents.len() - j,
        {
            let a = agents[j];
            if !(-POSITION_LIMIT <= a.position.x && a.position.x <= POSITION_LIMIT
                && -POSITION_LIMIT <= a.position.y && a.position.y <= POSITION_LIMIT
                && -VELOCITY_LIMIT <= a.velocity.x && a.velocity.x <= VELOCITY_LIMIT
                && -VELOCITY_LIMIT <= a.velocity.y && a.velocity.y <= VELOCITY_LIMIT) {
                proof {
                    assert(!agent_in_range(states_of(agents@)[j as int]));
                }
                return None;
            }
            j = j + 1;
        }
        Some(Flock { agents, config })
    }

    /// The current agents.
    pub fn agents(&self) -> (r: &Vec<Agent>)
        ensures
            states_of(r@) == self@,
    {
        &self.agents
    }

    pub fn config(&self) -> (r: Config)
        ensures
            r == self.config_spec(),
    {
        self.config
    }

    pub fn len(&self) -> (r: usize)
        ensures
            r == self@.len(),
    {
        self.agents.len()
    }

    /// Whether every agent can still move by `max_speed` without leaving the
    /// position range, which `step` requires.
    pub fn can_step(&self) -> (r: bool)
        requires
            self.valid(),
        ensures
            r == has_room(self@, self.config_spec()),
    {
        let room = POSITION_LIMIT - self.config.max_speed;
        let mut j: usize = 0;
        while j < self.agents.len()
            invariant
                self.valid(),
                room == POSITION_LIMIT - self.config.max_speed,
                j <= self.agents.len(),
                forall|k: int| 0 <= k < j ==> within(#[trigger] self@[k].0, room as int),
            decreases self.agents.len() - j,
        {
            let p = self.agents[j].position;
            if !(-room <= p.x && p.x <= room && -room <= p.y && p.y <= room) {
                proof {
                    assert(!within(self@[j as int].0, room as int));
                }
                return false;
            }
            j = j + 1;
        }
        true
    }

    /// Advances every agent by one frame, all computed from the same snapshot.
    pub fn step(&mut self)
        requires
            old(self).valid(),
            has_room(old(self)@, old(self).config_spec()),
        ensures
            final(self).valid(),
            final(self).config_spec() == old(self).config_spec(),
            final(self)@ == step_states(old(self)@, old(self).config_spec()),
            forall|j: int| 0 <= j < final(self)@.len() ==>
                norm_sq(#[trigger] final(self)@[j].1)
                    <= old(self).config_spec().max_speed * old(self).config_spec().max_speed,
    {
        let ghost s = self@;
        let n = self.agents.len();
        let mut next: Vec<Agent> = Vec::with_capacity(n);
        let mut i: usize = 0;
        while i < n
            invariant
                s == self@,
                self.valid(),
                has_room(s, self.config),
                n == self.agents.len(),
                i <= n,
                next@.len() == i,
                forall|k: int| 0 <= k < i ==> (#[trigger] next@[k])@ == next_state(s, k, self.config),
                forall|k: int| 0 <= k < i ==> norm_sq((#[trigger] next@[k]).velocity@)
                    <= self.config.max_speed * self.config.max_speed,
                forall|k: int| 0 <= k < i ==> within((#[trigger] next@[k]).velocity@, self.config.max_speed as int),
                forall|k: int| 0 <= k < i ==> within((#[trigger] next@[k]).position@, POSITION_LIMIT as int),
            decreases n - i,
        {
            proof {
                assert(s[i as int].0 == self.agents@[i as int].position@);
            }
            let a = next_agent(&self.agents, i, &self.config);
            next.push(a);
            i = i + 1;
        }
        self.agents = next;
        proof {
            assert(self@ =~= step_states(s, self.config));
        }
    }
}

} // verus!
