use vstd::prelude::*;
use vstd::arithmetic::div_mod::{lemma_fundamental_div_mod, lemma_mod_pos_bound};
use crate::config::Config;
use crate::flock::{Agent, AgentState, Flock, MAX_AGENTS, agent_in_range, population_in_range, states_of};
use crate::vector::{Vec2, within};

verus! {

/// Maps a 32-bit draw `d` onto `0 .. n`, uniformly when the draw is.
pub open spec fn uniform(d: int, n: int) -> int {
    d * n / 0x1_0000_0000
}

/// Where a freshly spawned agent may be: inside `[0, width) x [0, height)`
/// (at 0 along an empty side) and moving at most `speed` along each axis.
pub open spec fn spawn_range(a: AgentState, width: int, height: int, speed: int) -> bool {
    &&& 0 <= a.0.0 && (a.0.0 < width || a.0.0 == 0)
    &&& 0 <= a.0.1 && (a.0.1 < height || a.0.1 == 0)
    &&& within(a.1, speed)
}

proof fn lemma_uniform_range(d: int, n: int)
    requires
        0 <= d < 0x1_0000_0000,
        n >= 0,
    ensures
        0 <= uniform(d, n),
        uniform(d, n) < n || uniform(d, n) == 0,
{
    let a = d * n;
    let b: int = 0x1_0000_0000;
    assert(0 <= a && (n == 0 || a < b * n)) by (nonlinear_arith)
        requires
            0 <= d < 0x1_0000_0000,
            n >= 0,
            a == d * n,
            b == 0x1_0000_0000,
    ;
    lemma_fundamental_div_mod(a, b);
    lemma_mod_pos_bound(a, b);
    let q = a / b;
    assert(0 <= q && (n == 0 ==> q == 0) && (n > 0 ==> q < n)) by (nonlinear_arith)
        requires
            a == b * q + a % b,
            0 <= a % b < b,
            0 <= a,
            n == 0 ==> a == 0,
            n > 0 ==> a < b * n,
            b > 0,
    ;
}

fn uniform_exec(d: u32, n: u64) -> (r: u64)
    requires
        n <= 0x2_0000_0001,
    ensures
        r as int == uniform(d as int, n as int),
        r < n || r == 0,
{
    proof {
        lemma_uniform_range(d as int, n as int);
        assert(d * n <= 0xFFFF_FFFF * 0x2_0000_0001) by (nonlinear_arith)
            requires
                d <= 0xFFFF_FFFF,
                n <= 0x2_0000_0001,
        ;
    }
    ((d as u128 * n as u128) / 0x1_0000_0000u128) as u64
}

/// The agent that four 32-bit draws give: the first two place it in
/// `[0, width) x [0, height)`, the last two pick each velocity component in
/// `[-speed, speed]`.
pub fn agent_from_draws(draws: (u32, u32, u32, u32), width: u32, height: u32, speed: u32) -> (r: Agent)
    ensures
        r.position@ == (uniform(draws.0 as int, width as int), uniform(draws.1 as int, height as int)),
        r.velocity@ == (
            uniform(draws.2 as int, 2 * speed + 1) - speed,
            uniform(draws.3 as int, 2 * speed + 1) - speed,
        ),
        spawn_range(r@, width as int, height as int, speed as int),
{
    let span = 2 * (speed as u64) + 1;
    let x = uniform_exec(draws.0, width as u64);
    let y = uniform_exec(draws.1, height as u64);
    let vx = uniform_exec(draws.2, span);
    let vy = uniform_exec(draws.3, span);
    Agent {
        position: Vec2 { x: x as i64, y: y as i64 },
        velocity: Vec2 { x: vx as i64 - speed as i64, y: vy as i64 - speed as i64 },
    }
}

/// Relies on rand::random::<u32>: a draw from the thread-local generator.
#[verifier::external_body]
fn random_draw() -> (r: u32) {
    rand::random::<u32>()
}

impl Flock {
    /// A flock of `count` agents with random positions in
    /// `[0, width) x [0, height)` and random velocities in `[-speed, speed]`
    /// per axis; `None` when the configuration is not valid or `count` exceeds
    /// `MAX_AGENTS`.
    pub fn random(count: usize, width: u32, height: u32, speed: u32, config: Config) -> (r: Option<Flock>)
        ensures
            r is Some <==> (config.valid() && count <= MAX_AGENTS),
            r matches Some(f) ==> {
                &&& f@.len() == count
                &&& f.config_spec() == config
                &&& f.valid()
                &&& forall|j: int| 0 <= j < count ==>
                    spawn_range(#[trigger] f@[j], width as int, height as int, speed as int)
            },
    {
        if !config.is_valid() || count > MAX_AGENTS {
            return None;
        }
        let mut agents: Vec<Agent> = Vec::with_capacity(count);
        let mut j: usize = 0;
        while j < count
            invariant
                j <= count <= MAX_AGENTS,
                agents@.len() == j,
                forall|k: int| 0 <= k < j ==>
                    spawn_range((#[trigger] agents@[k])@, width as int, height as int, speed as int),
            decreases count - j,
        {
            let draws = (random_draw(), random_draw(), random_draw(), random_draw());
            let a = agent_from_draws(draws, width, height, speed);
            agents.push(a);
            j = j + 1;
        }
        proof {
            let s = states_of(agents@);
            assert forall|k: int| 0 <= k < s.len() implies agent_in_range(#[trigger] s[k]) by {
                assert(s[k] == agents@[k]@);
                assert(spawn_range(s[k], width as int, height as int, speed as int));
            }
            assert(population_in_range(s));
        }
        let ghost s = states_of(agents@);
        let ghost items = agents@;
        let r = Flock::from_agents(agents, config);
        proof {
            assert forall|k: int| 0 <= k < count implies
                spawn_range(#[trigger] s[k], width as int, height as int, speed as int) by {
                assert(s[k] == items[k]@);
            }
        }
        r
    }
}

} // verus!
