//! The configuration of one iteration, derived from its seed.

use rand::rngs::StdRng;
use vstd::prelude::*;

use crate::options::FuzzConfig;
use crate::options::FuzzConfigView;
use crate::rng;
use crate::rng::draw_range64;
use crate::rng::draw_ratio;
use crate::rng::seed_rng;

verus! {

/// Config derived deterministically from a seed. `P` is the type of
/// probabilities: floating-point numbers, which the caller draws.
#[derive(Debug, Clone)]
pub struct DerivedConfig<P> {
    pub num_initial_nodes: u64,
    pub max_potential_nodes: u64,
    pub fail_rate: P,
    pub heartbeat_interval: u64,
    pub election_timeout_min: u64,
    pub election_timeout_max: u64,
    pub enable_chaos: bool,
    pub restart_chance: P,
    pub chaos_interval: u64,
    pub membership_interval: u64,
}

/// The part of the configuration that is drawn before the failure rate, and the
/// state of the generator after it.
pub open spec fn first_draws<P>(config: DerivedConfig<P>, seed: u64, after: Seq<u32>) -> bool {
    let (heartbeat, s1) = rng::range64_draw(rng::seeded_state(seed), 0, 99);
    let (factor, s2) = rng::range64_draw(s1, 2, 3);
    let (nodes, s3) = rng::range64_draw(s2, 0, 2);
    &&& config.heartbeat_interval == 50 + heartbeat
    &&& config.election_timeout_min == config.heartbeat_interval * factor
    &&& config.num_initial_nodes == 3 + nodes
    &&& after == s3
}

/// The part that is drawn between the failure rate and the chance of a restart.
pub open spec fn middle_draws<P>(config: DerivedConfig<P>, before: Seq<u32>, after: Seq<u32>) -> bool {
    let (spread, s1) = rng::range64_draw(before, 100, 499);
    let (chaos, s2) = rng::ratio_draw(s1, 4, 5);
    &&& config.election_timeout_max == config.election_timeout_min + spread
    &&& config.enable_chaos == chaos
    &&& after == s2
}

/// The part that is drawn after the chance of a restart.
pub open spec fn last_draws<P>(config: DerivedConfig<P>, before: Seq<u32>) -> bool {
    let (chaos, s1) = rng::range64_draw(before, 2000, 4999);
    let (membership, s2) = rng::range64_draw(s1, 10000, 24999);
    &&& config.chaos_interval == chaos
    &&& config.membership_interval == membership
}

/// Whether what a draw gives, and the state in which it leaves the generator, are what
/// `f` says for the state in which it finds it.
pub open spec fn draws_by<P, F: FnOnce(StdRng) -> (P, StdRng)>(
    draw: F,
    f: spec_fn(Seq<u32>) -> (P, Seq<u32>),
) -> bool {
    forall|r: StdRng, p: P, after: StdRng| #[trigger]
        draw.ensures((r,), (p, after)) ==> (p, rng::rng_state(after)) == f(rng::rng_state(r))
}

/// The configuration for a seed, when the two probabilities are drawn by `fail_rate_draw`
/// and `restart_draw`.
pub open spec fn derived_from<P>(
    seed: u64,
    fail_rate_draw: spec_fn(Seq<u32>) -> (P, Seq<u32>),
    restart_draw: spec_fn(Seq<u32>) -> (P, Seq<u32>),
) -> DerivedConfig<P> {
    let (heartbeat, s1) = rng::range64_draw(rng::seeded_state(seed), 0, 99);
    let (factor, s2) = rng::range64_draw(s1, 2, 3);
    let (nodes, s3) = rng::range64_draw(s2, 0, 2);
    let (fail_rate, s4) = fail_rate_draw(s3);
    let (spread, s5) = rng::range64_draw(s4, 100, 499);
    let (enable_chaos, s6) = rng::ratio_draw(s5, 4, 5);
    let (restart_chance, s7) = restart_draw(s6);
    let (chaos_interval, s8) = rng::range64_draw(s7, 2000, 4999);
    let (membership_interval, s9) = rng::range64_draw(s8, 10000, 24999);
    let heartbeat_interval = (50 + heartbeat) as u64;
    let election_timeout_min = (heartbeat_interval * factor) as u64;
    DerivedConfig {
        num_initial_nodes: (3 + nodes) as u64,
        max_potential_nodes: 10,
        fail_rate,
        heartbeat_interval,
        election_timeout_min,
        election_timeout_max: (election_timeout_min + spread) as u64,
        enable_chaos,
        restart_chance,
        chaos_interval,
        membership_interval,
    }
}

impl<P> DerivedConfig<P> {
    /// The ranges that every derived value lies in.
    pub open spec fn in_range(self) -> bool {
        &&& 3 <= self.num_initial_nodes <= 5
        &&& self.max_potential_nodes == 10
        &&& 50 <= self.heartbeat_interval < 150
        &&& self.election_timeout_min == 2 * self.heartbeat_interval || self.election_timeout_min == 3
            * self.heartbeat_interval
        &&& self.election_timeout_min + 100 <= self.election_timeout_max < self.election_timeout_min + 500
        &&& 2000 <= self.chaos_interval < 5000
        &&& 10000 <= self.membership_interval < 25000
    }

    /// The configuration for a seed. The values are drawn in a fixed order from one
    /// generator; the two probabilities are drawn by the caller in their turn. Where
    /// these are drawn by the same rule, equal seeds give equal configurations.
    pub fn from_seed<F: FnOnce(StdRng) -> (P, StdRng), G: FnOnce(StdRng) -> (P, StdRng)>(
        seed: u64,
        draw_fail_rate: F,
        draw_restart_chance: G,
    ) -> (config: Self)
        requires
            forall|r: StdRng| #[trigger] draw_fail_rate.requires((r,)),
            forall|r: StdRng| #[trigger] draw_restart_chance.requires((r,)),
        ensures
            config.in_range(),
            exists|r1: StdRng, r2: StdRng, r3: StdRng, r4: StdRng| #[trigger]
                draw_fail_rate.ensures((r1,), (config.fail_rate, r2)) && #[trigger] draw_restart_chance.ensures(
                    (r3,),
                    (config.restart_chance, r4),
                ) && first_draws(config, seed, rng::rng_state(r1)) && middle_draws(
                    config,
                    rng::rng_state(r2),
                    rng::rng_state(r3),
                ) && last_draws(config, rng::rng_state(r4)),
            forall|f: spec_fn(Seq<u32>) -> (P, Seq<u32>), g: spec_fn(Seq<u32>) -> (P, Seq<u32>)| #[trigger]
                draws_by(draw_fail_rate, f) && #[trigger] draws_by(draw_restart_chance, g) ==> config == derived_from(
                    seed,
                    f,
                    g,
                ),
    {
        let mut r1 = seed_rng(seed);
        let heartbeat_interval: u64 = 50 + draw_range64(&mut r1, 0, 99);
        let factor: u64 = draw_range64(&mut r1, 2, 3);
        assert(heartbeat_interval * factor == 2 * heartbeat_interval || heartbeat_interval * factor == 3
            * heartbeat_interval) by (nonlinear_arith)
            requires
                factor == 2 || factor == 3,
        ;
        let election_timeout_min: u64 = heartbeat_interval * factor;
        let num_initial_nodes: u64 = 3 + draw_range64(&mut r1, 0, 2);
        let ghost g1 = r1;
        let (fail_rate, mut r2) = draw_fail_rate(r1);
        let ghost g2 = r2;
        let election_timeout_max: u64 = election_timeout_min + draw_range64(&mut r2, 100, 499);
        let enable_chaos = draw_ratio(&mut r2, 4, 5);
        let ghost g3 = r2;
        let (restart_chance, mut r4) = draw_restart_chance(r2);
        let ghost g4 = r4;
        let chaos_interval: u64 = draw_range64(&mut r4, 2000, 4999);
        let membership_interval: u64 = draw_range64(&mut r4, 10000, 24999);
        let config = DerivedConfig {
            num_initial_nodes,
            max_potential_nodes: 10,
            fail_rate,
            heartbeat_interval,
            election_timeout_min,
            election_timeout_max,
            enable_chaos,
            restart_chance,
            chaos_interval,
            membership_interval,
        };
        assert(draw_fail_rate.ensures((g1,), (config.fail_rate, g2)));
        assert(draw_restart_chance.ensures((g3,), (config.restart_chance, g4)));
        config
    }

    /// The configuration with what the command line sets in place of what the seed
    /// gave. All nodes of a larger cluster can be used.
    pub open spec fn overridden(self, options: FuzzConfigView, fail_rate: Option<P>) -> Self {
        DerivedConfig {
            num_initial_nodes: match options.nodes {
                Some(nodes) => nodes,
                None => self.num_initial_nodes,
            },
            max_potential_nodes: match options.nodes {
                Some(nodes) => if nodes > self.max_potential_nodes {
                    nodes
                } else {
                    self.max_potential_nodes
                },
                None => self.max_potential_nodes,
            },
            fail_rate: match fail_rate {
                Some(rate) => rate,
                None => self.fail_rate,
            },
            enable_chaos: self.enable_chaos && !options.no_chaos,
            ..self
        }
    }

    /// The configuration with what the command line sets in place of what the seed
    /// gave. All nodes of a larger cluster can be used.
    pub fn with_options(self, options: &FuzzConfig, fail_rate: Option<P>) -> (config: Self)
        ensures
            config == self.overridden(options@, fail_rate),
    {
        let mut config = self;
        if let Some(nodes) = options.nodes {
            config.num_initial_nodes = nodes;
            if nodes > config.max_potential_nodes {
                config.max_potential_nodes = nodes;
            }
        }
        if let Some(rate) = fail_rate {
            config.fail_rate = rate;
        }
        if options.no_chaos {
            config.enable_chaos = false;
        }
        config
    }
}

// ---------------------------------------------------------------------------
// Laws
// ---------------------------------------------------------------------------

/// A configuration is determined by its seed and the two draws of probabilities:
/// two configurations from one seed are the same, when the draws gave the same
/// probabilities and left the generator in the same states.
pub proof fn config_is_determined_by_seed<P>(
    a: DerivedConfig<P>,
    b: DerivedConfig<P>,
    seed: u64,
    after_fail_rate: Seq<u32>,
    before_restart_a: Seq<u32>,
    before_restart_b: Seq<u32>,
    after_restart: Seq<u32>,
    before_fail_a: Seq<u32>,
    before_fail_b: Seq<u32>,
)
    requires
        a.in_range() && b.in_range(),
        first_draws(a, seed, before_fail_a),
        first_draws(b, seed, before_fail_b),
        middle_draws(a, after_fail_rate, before_restart_a),
        middle_draws(b, after_fail_rate, before_restart_b),
        last_draws(a, after_restart),
        last_draws(b, after_restart),
        a.fail_rate == b.fail_rate,
        a.restart_chance == b.restart_chance,
    ensures
        a == b,
        before_fail_a == before_fail_b,
        before_restart_a == before_restart_b,
{
}

/// The ranges of the probabilities are those of their draws: what holds of everything
/// that a draw can give holds of what it gave for the configuration.
pub proof fn probabilities_keep_to_their_draws<P>(
    seed: u64,
    fail_rate_draw: spec_fn(Seq<u32>) -> (P, Seq<u32>),
    restart_draw: spec_fn(Seq<u32>) -> (P, Seq<u32>),
    fail_rate_range: spec_fn(P) -> bool,
    restart_range: spec_fn(P) -> bool,
)
    requires
        forall|state: Seq<u32>| fail_rate_range((#[trigger] fail_rate_draw(state)).0),
        forall|state: Seq<u32>| restart_range((#[trigger] restart_draw(state)).0),
    ensures
        fail_rate_range(derived_from(seed, fail_rate_draw, restart_draw).fail_rate),
        restart_range(derived_from(seed, fail_rate_draw, restart_draw).restart_chance),
{
}

/// A node hears a heartbeat before its election timeout can pass.
pub proof fn timeouts_ascend<P>(config: DerivedConfig<P>)
    requires
        config.in_range(),
    ensures
        config.heartbeat_interval < config.election_timeout_min < config.election_timeout_max,
{
}

/// The values of a configuration are drawn from the generator of its seed one after the
/// other, each from its range and from the state that the draw before it has left.
pub proof fn values_are_drawn_in_order<P>(
    seed: u64,
    fail_rate_draw: spec_fn(Seq<u32>) -> (P, Seq<u32>),
    restart_draw: spec_fn(Seq<u32>) -> (P, Seq<u32>),
    s: Seq<Seq<u32>>,
)
    requires
        s.len() == 9,
        s[0] == rng::seeded_state(seed),
        s[1] == rng::range64_draw(s[0], 0, 99).1,
        s[2] == rng::range64_draw(s[1], 2, 3).1,
        s[3] == rng::range64_draw(s[2], 0, 2).1,
        s[4] == fail_rate_draw(s[3]).1,
        s[5] == rng::range64_draw(s[4], 100, 499).1,
        s[6] == rng::ratio_draw(s[5], 4, 5).1,
        s[7] == restart_draw(s[6]).1,
        s[8] == rng::range64_draw(s[7], 2000, 4999).1,
        rng::range64_draw(s[0], 0, 99).0 <= 99,
        2 <= rng::range64_draw(s[1], 2, 3).0 <= 3,
        rng::range64_draw(s[2], 0, 2).0 <= 2,
        rng::range64_draw(s[4], 100, 499).0 <= 499,
    ensures
        ({
            let config = derived_from(seed, fail_rate_draw, restart_draw);
            &&& config.heartbeat_interval == 50 + rng::range64_draw(s[0], 0, 99).0
            &&& config.election_timeout_min == config.heartbeat_interval * rng::range64_draw(s[1], 2, 3).0
            &&& config.num_initial_nodes == 3 + rng::range64_draw(s[2], 0, 2).0
            &&& config.max_potential_nodes == 10
            &&& config.fail_rate == fail_rate_draw(s[3]).0
            &&& config.election_timeout_max == config.election_timeout_min + rng::range64_draw(s[4], 100, 499).0
            &&& config.enable_chaos == rng::ratio_draw(s[5], 4, 5).0
            &&& config.restart_chance == restart_draw(s[6]).0
            &&& config.chaos_interval == rng::range64_draw(s[7], 2000, 4999).0
            &&& config.membership_interval == rng::range64_draw(s[8], 10000, 24999).0
        }),
{
    let heartbeat = 50 + rng::range64_draw(s[0], 0, 99).0;
    let factor = rng::range64_draw(s[1], 2, 3).0;
    assert(heartbeat * factor == 2 * heartbeat || heartbeat * factor == 3 * heartbeat) by (nonlinear_arith)
        requires
            factor == 2 || factor == 3,
    ;
}

/// The ranges of what a seed gives.
pub proof fn ranges_of_derived_values<P>(config: DerivedConfig<P>)
    ensures
        config.in_range() <==> {
            &&& config.num_initial_nodes == 3 || config.num_initial_nodes == 4 || config.num_initial_nodes == 5
            &&& config.max_potential_nodes == 10
            &&& 49 < config.heartbeat_interval < 150
            &&& config.election_timeout_min == 2 * config.heartbeat_interval || config.election_timeout_min == 3
                * config.heartbeat_interval
            &&& 99 < config.election_timeout_max - config.election_timeout_min < 500
            &&& 1999 < config.chaos_interval < 5000
            &&& 9999 < config.membership_interval < 25000
        },
{
}

/// What is set on the command line goes before what the seed gave, and nothing else changes:
/// the size of the cluster, for which there are nodes enough, the failure rate, and that
/// there is no chaos.
pub proof fn settings_go_before_the_seed<P>(config: DerivedConfig<P>, options: FuzzConfigView, fail_rate: Option<P>)
    ensures
        ({
            let after = config.overridden(options, fail_rate);
            &&& options.nodes matches Some(nodes) ==> after.num_initial_nodes == nodes && after.max_potential_nodes
                >= nodes
            &&& options.nodes is None ==> after.num_initial_nodes == config.num_initial_nodes
            &&& after.max_potential_nodes == config.max_potential_nodes || (options.nodes
                == Some(after.max_potential_nodes) && after.max_potential_nodes > config.max_potential_nodes)
            &&& fail_rate matches Some(rate) ==> after.fail_rate == rate
            &&& fail_rate is None ==> after.fail_rate == config.fail_rate
            &&& options.no_chaos ==> !after.enable_chaos
            &&& !options.no_chaos ==> after.enable_chaos == config.enable_chaos
            &&& after.heartbeat_interval == config.heartbeat_interval
            &&& after.election_timeout_min == config.election_timeout_min
            &&& after.election_timeout_max == config.election_timeout_max
            &&& after.restart_chance == config.restart_chance
            &&& after.chaos_interval == config.chaos_interval
            &&& after.membership_interval == config.membership_interval
        }),
{
}

} // verus!
