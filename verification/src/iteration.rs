//! One iteration of the fuzzer: the simulation is stepped tick by tick, and every
//! tick ends with a check of the cluster's invariants.
//!
//! The simulation itself runs elsewhere. An [`Iteration`] says before each tick
//! what happens to the cluster, and after it what was found.

use rand::rngs::StdRng;
use vstd::prelude::*;
use vstd::string::*;

use crate::campaign;
use crate::campaign::FuzzResult;
use crate::cluster::FullNodeSnapshot;
use crate::derived;
use crate::derived::DerivedConfig;
use crate::invariants;
use crate::invariants::check_state_invariants;
use crate::invariants::ViolationView;
use crate::options;
use crate::options::FuzzConfigView;
use crate::options::ParseView;
use crate::ordered;
use crate::ordered::IdSet;
use crate::rng;
use crate::rng::draw_range64;
use crate::rng::draw_ratio;
use crate::rng::seed_rng;
use crate::strmap;
use crate::text;
use crate::text::append_decimal;
use crate::text::contains_text;
use crate::typ::NodeId;
use crate::typ::RaftMetrics;
use crate::typ::ServerState;

verus! {

// ---------------------------------------------------------------------------
// The state of an iteration
// ---------------------------------------------------------------------------

/// The state of an iteration between ticks.
pub struct Iteration {
    pub max_steps: u64,
    pub max_potential_nodes: u64,
    pub membership_interval: u64,
    pub chaos_interval: u64,
    pub steps: u64,
    pub invariant_checks: u64,
    pub violations: Vec<String>,
    /// Decides on crashes.
    pub chaos_rng: StdRng,
    /// Decides on membership changes.
    pub member_rng: StdRng,
    pub active_voters: IdSet,
    pub next_node_id: u64,
}

/// The state of an iteration with the states of the generators, text and a
/// mathematical set in place of their representations.
pub struct IterationView {
    pub max_steps: u64,
    pub max_potential_nodes: u64,
    pub membership_interval: u64,
    pub chaos_interval: u64,
    pub steps: u64,
    pub invariant_checks: u64,
    pub violations: Seq<Seq<char>>,
    pub chaos_rng: Seq<u32>,
    pub member_rng: Seq<u32>,
    pub voters: Set<NodeId>,
    pub next_node_id: u64,
}

impl View for Iteration {
    type V = IterationView;

    open spec fn view(&self) -> IterationView {
        IterationView {
            max_steps: self.max_steps,
            max_potential_nodes: self.max_potential_nodes,
            membership_interval: self.membership_interval,
            chaos_interval: self.chaos_interval,
            steps: self.steps,
            invariant_checks: self.invariant_checks,
            violations: strmap::text_views(self.violations@),
            chaos_rng: rng::rng_state(self.chaos_rng),
            member_rng: rng::rng_state(self.member_rng),
            voters: self.active_voters@,
            next_node_id: self.next_node_id,
        }
    }
}

/// A seed moved by an offset, modulo 2^64.
pub open spec fn offset_seed(seed: u64, offset: u64) -> u64 {
    ((seed + offset) % 0x1_0000_0000_0000_0000) as u64
}

/// The nodes from 1 to `count`.
pub open spec fn first_nodes(count: u64) -> Set<NodeId> {
    Set::new(|id: NodeId| 1 <= id <= count)
}

/// The state before the first tick.
pub open spec fn first_state<P>(iteration_seed: u64, derived: DerivedConfig<P>, max_steps: u64) -> IterationView {
    IterationView {
        max_steps,
        max_potential_nodes: derived.max_potential_nodes,
        membership_interval: derived.membership_interval,
        chaos_interval: derived.chaos_interval,
        steps: 0,
        invariant_checks: 0,
        violations: Seq::empty(),
        chaos_rng: rng::seeded_state(offset_seed(iteration_seed, 3000)),
        member_rng: rng::seeded_state(offset_seed(iteration_seed, 5000)),
        voters: first_nodes(derived.num_initial_nodes),
        next_node_id: (derived.num_initial_nodes + 1) as u64,
    }
}

/// What is done to the membership of the cluster.
#[derive(Debug, Clone, Copy, PartialEq, Eq, Structural)]
pub enum MembershipChange {
    Keep,
    Add(NodeId),
    Remove(NodeId),
}

impl IterationView {
    /// What the configuration has to keep to: the intervals are not zero and there
    /// is a number beyond that of the last node.
    pub open spec fn valid(self) -> bool {
        &&& self.membership_interval > 0
        &&& self.chaos_interval > 0
        &&& self.max_potential_nodes < u64::MAX
    }

    /// Whether the membership may change in this tick.
    pub open spec fn membership_due(self) -> bool {
        self.steps > 0 && self.steps % self.membership_interval == 0
    }

    /// Whether a node may crash in this tick.
    pub open spec fn restart_due(self) -> bool {
        self.steps > 0 && self.steps % self.chaos_interval == 0
    }

    /// Whether chance decides if a node is added: only for clusters of three to six.
    pub open spec fn addition_is_drawn(self) -> bool {
        3 <= self.voters.len() < 7
    }

    /// Whether a node is to be added, in place of one being removed.
    pub open spec fn adds(self) -> bool {
        self.voters.len() < 3 || (self.voters.len() < 7 && rng::ratio_draw(self.member_rng, 7, 10).0)
    }

    /// What happens to the membership in this tick. A node is added while there is
    /// one left; the voter with the lowest number is removed while more than three
    /// remain.
    pub open spec fn membership_change(self) -> MembershipChange {
        if !self.membership_due() {
            MembershipChange::Keep
        } else if self.adds() {
            if self.next_node_id <= self.max_potential_nodes {
                MembershipChange::Add(self.next_node_id)
            } else {
                MembershipChange::Keep
            }
        } else if self.voters.len() > 3 {
            MembershipChange::Remove(ordered::ascending(self.voters)[0])
        } else {
            MembershipChange::Keep
        }
    }

    /// The state after the change of the membership in this tick.
    pub open spec fn with_membership_changed(self) -> IterationView {
        let drawn = IterationView {
            member_rng: if self.membership_due() && self.addition_is_drawn() {
                rng::ratio_draw(self.member_rng, 7, 10).1
            } else {
                self.member_rng
            },
            ..self
        };
        match self.membership_change() {
            MembershipChange::Keep => drawn,
            MembershipChange::Add(id) => IterationView {
                voters: self.voters.insert(id),
                next_node_id: (id + 1) as u64,
                ..drawn
            },
            MembershipChange::Remove(id) => IterationView { voters: self.voters.remove(id), ..drawn },
        }
    }

    /// The voter that crashes, for a state of the generator, and the state of the
    /// generator after it was drawn.
    pub open spec fn victim(self, chaos_rng: Seq<u32>) -> (Option<NodeId>, Seq<u32>) {
        if self.voters.len() == 0 {
            (None, chaos_rng)
        } else {
            let (at, after) = rng::range64_draw(chaos_rng, 0, (self.voters.len() - 1) as u64);
            (Some(ordered::ascending(self.voters)[at as int]), after)
        }
    }
}

/// What happens before a tick.
#[derive(Debug, Clone, Copy, PartialEq, Eq, Structural)]
pub enum TickStart {
    /// The iteration was interrupted and ends.
    Interrupted,
    /// The iteration has made all its steps and ends.
    MaxSteps,
    /// The tick is made, after a change of the membership and a crash.
    Go { membership: MembershipChange, restart: Option<NodeId> },
}

impl IterationView {
    /// Whether a coin is flipped for a crash in this tick.
    pub open spec fn coin_is_flipped(self, running: bool) -> bool {
        running && self.steps < self.max_steps && self.restart_due()
    }

    /// The state in which a tick begins, and what happens before it. Where a coin is
    /// flipped for a crash, `hit` says how it fell, and `flipped` is the state of the
    /// generator after it.
    pub open spec fn begun(self, running: bool, hit: bool, flipped: Seq<u32>) -> (IterationView, TickStart) {
        if !running {
            (self, TickStart::Interrupted)
        } else if self.steps >= self.max_steps {
            (self, TickStart::MaxSteps)
        } else {
            let changed = self.with_membership_changed();
            let membership = self.membership_change();
            if !self.restart_due() {
                (changed, TickStart::Go { membership, restart: None })
            } else if hit {
                let (restart, last) = changed.victim(flipped);
                (IterationView { chaos_rng: last, ..changed }, TickStart::Go { membership, restart })
            } else {
                (IterationView { chaos_rng: flipped, ..changed }, TickStart::Go { membership, restart: None })
            }
        }
    }
}

impl Iteration {
    /// The state before the first tick.
    pub fn new<P>(iteration_seed: u64, derived: &DerivedConfig<P>, max_steps: u64) -> (iteration: Self)
        requires
            derived.num_initial_nodes < u64::MAX,
        ensures
            iteration@ == first_state(iteration_seed, *derived, max_steps),
            iteration@.paced(),
            derived.in_range() ==> iteration@.valid() && iteration@.sound(),
    {
        let mut active_voters = IdSet::new();
        let mut id: u64 = 0;
        while id < derived.num_initial_nodes
            invariant
                id <= derived.num_initial_nodes,
                active_voters@ =~= first_nodes(id),
            decreases derived.num_initial_nodes - id,
        {
            id = id + 1;
            active_voters.insert(id);
        }
        let iteration = Iteration {
            max_steps,
            max_potential_nodes: derived.max_potential_nodes,
            membership_interval: derived.membership_interval,
            chaos_interval: derived.chaos_interval,
            steps: 0,
            invariant_checks: 0,
            violations: Vec::new(),
            chaos_rng: seed_rng(iteration_seed.wrapping_add(3000)),
            member_rng: seed_rng(iteration_seed.wrapping_add(5000)),
            active_voters,
            next_node_id: derived.num_initial_nodes + 1,
        };
        proof {
            assert(iteration@.violations =~= Seq::empty());
            lemma_first_nodes(derived.num_initial_nodes);
        }
        iteration
    }

    /// Changes the membership, if it is time to.
    pub fn change_membership(&mut self) -> (change: MembershipChange)
        requires
            old(self)@.valid(),
        ensures
            change == old(self)@.membership_change(),
            final(self)@ == old(self)@.with_membership_changed(),
    {
        if self.steps == 0 || self.steps % self.membership_interval != 0 {
            return MembershipChange::Keep;
        }
        let count: usize = self.active_voters.len();
        let add = count < 3 || (count < 7 && draw_ratio(&mut self.member_rng, 7, 10));
        if add {
            if self.next_node_id <= self.max_potential_nodes {
                let id: NodeId = self.next_node_id;
                self.active_voters.insert(id);
                self.next_node_id = self.next_node_id + 1;
                return MembershipChange::Add(id);
            }
        } else if count > 3 {
            let victim: NodeId = self.active_voters.to_vec()[0];
            self.active_voters.remove(victim);
            return MembershipChange::Remove(victim);
        }
        MembershipChange::Keep
    }

    /// Draws the voter that crashes.
    pub fn draw_victim(&mut self) -> (victim: Option<NodeId>)
        ensures
            victim is None <==> old(self)@.voters.len() == 0,
            victim matches Some(id) ==> old(self)@.voters.contains(id),
            (victim, final(self)@.chaos_rng) == old(self)@.victim(old(self)@.chaos_rng),
            final(self)@ == (IterationView { chaos_rng: final(self)@.chaos_rng, ..old(self)@ }),
    {
        let voters = self.active_voters.to_vec();
        if voters.len() == 0 {
            return None;
        }
        let at: u64 = draw_range64(&mut self.chaos_rng, 0, voters.len() as u64 - 1);
        assert(voters@.contains(voters@[at as int]));
        Some(voters[at as usize])
    }

    /// Begins a tick: ends the iteration if it was interrupted or has made all its
    /// steps, else changes the membership and lets a voter crash if it is time to.
    /// The chance of a crash is a floating-point number, so the caller flips the
    /// coin, with the generator of this iteration.
    pub fn begin_tick<C: FnOnce(StdRng) -> (bool, StdRng)>(self, running: bool, flip: C) -> (begun: (Self, TickStart))
        requires
            self@.valid(),
            forall|r: StdRng| #[trigger] flip.requires((r,)),
        ensures
            self@.paced() ==> begun.0@.paced(),
            self@.sound() ==> begun.0@.sound(),
            begun.1 is Go ==> begun.0@.steps < begun.0@.max_steps,
            begun.1 matches TickStart::Go { restart: Some(id), .. } ==> begun.0@.voters.contains(id),
            !self@.coin_is_flipped(running) ==> (begun.0@, begun.1) == self@.begun(running, false, self@.chaos_rng),
            self@.coin_is_flipped(running) ==> exists|r: StdRng, hit: bool, after: StdRng| #[trigger]
                flip.ensures((r,), (hit, after)) && rng::rng_state(r) == self@.chaos_rng && (begun.0@, begun.1)
                    == self@.begun(running, hit, rng::rng_state(after)),
            forall|coin: spec_fn(Seq<u32>) -> (bool, Seq<u32>)| #[trigger]
                derived::draws_by(flip, coin) ==> (begun.0@, begun.1) == self@.begun(
                    running,
                    coin(self@.chaos_rng).0,
                    coin(self@.chaos_rng).1,
                ),
    {
        if !running {
            return (self, TickStart::Interrupted);
        }
        if self.steps >= self.max_steps {
            return (self, TickStart::MaxSteps);
        }
        proof {
            if self@.sound() {
                membership_change_is_sound(self@);
            }
        }
        let mut iteration = self;
        let membership = iteration.change_membership();
        let mut restart: Option<NodeId> = None;
        if iteration.steps > 0 && iteration.steps % iteration.chaos_interval == 0 {
            let ghost before = iteration.chaos_rng;
            let (hit, after) = flip(iteration.chaos_rng);
            assert(flip.ensures((before,), (hit, after)));
            iteration.chaos_rng = after;
            if hit {
                restart = iteration.draw_victim();
            }
        }
        (iteration, TickStart::Go { membership, restart })
    }
}

// ---------------------------------------------------------------------------
// Steps of the simulation
// ---------------------------------------------------------------------------

/// What follows a step of the simulation.
#[derive(Debug, Clone, Copy, PartialEq, Eq, Structural)]
pub enum StepNext {
    /// Another step.
    Again,
    /// The end of the tick.
    TickDone,
    /// The end of the iteration: the simulation has run for its whole duration.
    DurationReached,
    /// The end of the iteration: the simulation has failed.
    Failed,
}

/// Whether an error of the simulation only says that its time is over.
pub open spec fn is_duration_error(message: Seq<char>) -> bool {
    text::occurs(message, "duration"@) || text::occurs(message, "without completing"@)
}

/// What follows a step of the simulation.
pub open spec fn next_after_step(step: Result<bool, String>) -> StepNext {
    match step {
        Ok(more_tasks) => if more_tasks {
            StepNext::Again
        } else {
            StepNext::TickDone
        },
        Err(message) => if is_duration_error(message@) {
            StepNext::DurationReached
        } else {
            StepNext::Failed
        },
    }
}

/// What follows a step of the simulation that says whether there is more to do,
/// or why it has stopped.
pub fn after_step(step: &Result<bool, String>) -> (next: StepNext)
    ensures
        next == next_after_step(*step),
        next == match *step {
            Ok(true) => StepNext::Again,
            Ok(false) => StepNext::TickDone,
            Err(message) => if is_duration_error(message@) {
                StepNext::DurationReached
            } else {
                StepNext::Failed
            },
        },
{
    match step {
        Ok(more_tasks) => if *more_tasks {
            StepNext::Again
        } else {
            StepNext::TickDone
        },
        Err(message) => {
            let message: &str = message.as_str();
            if contains_text(message, "duration") || contains_text(message, "without completing") {
                StepNext::DurationReached
            } else {
                StepNext::Failed
            }
        },
    }
}

// ---------------------------------------------------------------------------
// The end of a tick
// ---------------------------------------------------------------------------

/// How a violation is reported: with the step after which it was found.
pub open spec fn step_report(step: u64, violation: ViolationView) -> Seq<char> {
    "Step "@ + text::decimal(step as nat) + ": "@ + invariants::violation_record(violation)
}

/// How violations are reported.
pub open spec fn step_reports(step: u64, violations: Seq<ViolationView>) -> Seq<Seq<char>> {
    violations.map_values(|v: ViolationView| step_report(step, v))
}

/// The nodes that say that they lead.
pub open spec fn leaders(metrics: Seq<(NodeId, RaftMetrics)>) -> Seq<NodeId>
    decreases metrics.len(),
{
    if metrics.len() == 0 {
        Seq::empty()
    } else if metrics.last().1.state == ServerState::Leader {
        leaders(metrics.drop_last()).push(metrics.last().0)
    } else {
        leaders(metrics.drop_last())
    }
}

/// The highest term that a node has voted in; zero if there is no node.
pub open spec fn max_term(metrics: Seq<(NodeId, RaftMetrics)>) -> u64
    decreases metrics.len(),
{
    if metrics.len() == 0 {
        0
    } else {
        let before = max_term(metrics.drop_last());
        let term = metrics.last().1.vote.term;
        if term > before {
            term
        } else {
            before
        }
    }
}

/// What is printed of an iteration from time to time.
#[derive(Debug, Clone)]
pub struct Progress {
    pub step: u64,
    pub leaders: Vec<NodeId>,
    pub max_term: u64,
    pub voters: Vec<NodeId>,
    pub checks: u64,
}

/// How many steps lie between two progress reports.
pub const PROGRESS_INTERVAL: u64 = 5000;

/// What follows a tick.
#[derive(Debug, Clone)]
pub enum TickEnd {
    /// Invariants were violated; the iteration ends.
    Violated,
    /// The next tick.
    Next,
    /// A progress report, then the next tick.
    Report(Progress),
}

/// The kinds of what follows a tick.
pub enum TickEndKind {
    Violated,
    Next,
    Report,
}

/// What follows a tick that was the `step`-th and has found these violations.
pub open spec fn tick_end_kind(step: u64, found: Seq<ViolationView>) -> TickEndKind {
    if found.len() > 0 {
        TickEndKind::Violated
    } else if step % PROGRESS_INTERVAL == 0 {
        TickEndKind::Report
    } else {
        TickEndKind::Next
    }
}

impl Iteration {
    /// Ends a tick: counts it and checks the invariants on what the nodes are found
    /// to be in.
    pub fn end_tick(
        &mut self,
        snapshots: &[(NodeId, FullNodeSnapshot)],
        metrics: &Vec<(NodeId, RaftMetrics)>,
    ) -> (end: TickEnd)
        requires
            old(self)@.steps < u64::MAX,
            old(self)@.invariant_checks < u64::MAX,
        ensures
            ({
                let step = (old(self)@.steps + 1) as u64;
                let found = invariants::state_violations(snapshots@);
                &&& final(self)@ == old(self)@.with_tick_ended(found)
                &&& old(self)@.paced() && old(self)@.steps < old(self)@.max_steps ==> final(self)@.paced()
                &&& old(self)@.sound() ==> final(self)@.sound()
                &&& match tick_end_kind(step, found) {
                    TickEndKind::Violated => end is Violated,
                    TickEndKind::Report => end is Report,
                    TickEndKind::Next => end is Next,
                }
                &&& end is Violated <==> found.len() > 0
                &&& end is Report <==> found.len() == 0 && step % PROGRESS_INTERVAL == 0
                &&& end matches TickEnd::Report(progress) ==> {
                    &&& progress.step == step
                    &&& progress.leaders@ == leaders(metrics@)
                    &&& progress.max_term == max_term(metrics@)
                    &&& progress.voters@ == ordered::ascending(old(self)@.voters)
                    &&& progress.checks == old(self)@.invariant_checks + 1
                }
            }),
    {
        self.steps = self.steps + 1;
        self.invariant_checks = self.invariant_checks + 1;
        let ghost before = self.violations@;
        let result = check_state_invariants(snapshots);
        let ghost found = invariants::state_violations(snapshots@);
        let mut i: usize = 0;
        while i < result.violations.len()
            invariant
                i <= result.violations@.len(),
                found == invariants::violation_views(result.violations@),
                self.max_steps == old(self).max_steps,
                self.max_potential_nodes == old(self).max_potential_nodes,
                self.membership_interval == old(self).membership_interval,
                self.chaos_interval == old(self).chaos_interval,
                self.steps == old(self).steps + 1,
                self.invariant_checks == old(self).invariant_checks + 1,
                self.chaos_rng == old(self).chaos_rng,
                self.member_rng == old(self).member_rng,
                self.active_voters == old(self).active_voters,
                self.next_node_id == old(self).next_node_id,
                strmap::text_views(self.violations@) == strmap::text_views(before) + step_reports(
                    self.steps,
                    found.take(i as int),
                ),
            decreases result.violations.len() - i,
        {
            let ghost reported = self.violations@;
            let mut report = String::from_str("Step ");
            append_decimal(&mut report, self.steps);
            report.append(": ");
            report.append(result.violations[i].to_record().as_str());
            let ghost message = report@;
            self.violations.push(report);
            proof {
                assert(found[i as int] == result.violations@[i as int]@);
                assert(message =~= step_report(self.steps, found[i as int]));
                assert(strmap::text_views(self.violations@) =~= strmap::text_views(reported).push(message));
                assert(step_reports(self.steps, found.take(i + 1)) =~= step_reports(self.steps, found.take(i as int)).push(
                    message,
                ));
            }
            i = i + 1;
        }
        assert(found.take(i as int) =~= found);
        if !result.passed {
            return TickEnd::Violated;
        }
        if self.steps % PROGRESS_INTERVAL == 0 {
            TickEnd::Report(self.progress(metrics))
        } else {
            TickEnd::Next
        }
    }

    /// What there is to report.
    fn progress(&self, metrics: &Vec<(NodeId, RaftMetrics)>) -> (progress: Progress)
        ensures
            progress.step == self.steps,
            progress.leaders@ == leaders(metrics@),
            progress.max_term == max_term(metrics@),
            progress.voters@ == ordered::ascending(self.active_voters@),
            progress.checks == self.invariant_checks,
    {
        let mut found: Vec<NodeId> = Vec::new();
        let mut highest: u64 = 0;
        let mut i: usize = 0;
        while i < metrics.len()
            invariant
                i <= metrics@.len(),
                found@ == leaders(metrics@.take(i as int)),
                highest == max_term(metrics@.take(i as int)),
            decreases metrics.len() - i,
        {
            assert(metrics@.take(i + 1).drop_last() =~= metrics@.take(i as int));
            if metrics[i].1.state == ServerState::Leader {
                found.push(metrics[i].0);
            }
            if metrics[i].1.vote.term > highest {
                highest = metrics[i].1.vote.term;
            }
            i = i + 1;
        }
        assert(metrics@.take(i as int) =~= metrics@);
        Progress {
            step: self.steps,
            leaders: found,
            max_term: highest,
            voters: self.active_voters.to_vec(),
            checks: self.invariant_checks,
        }
    }

    /// What came of the iteration.
    pub fn into_result(self) -> (result: FuzzResult)
        ensures
            result.steps_completed == self@.steps,
            result.invariant_checks == self@.invariant_checks,
            result.violations == self.violations,
    {
        FuzzResult {
            steps_completed: self.steps,
            invariant_checks: self.invariant_checks,
            violations: self.violations,
        }
    }
}

// ---------------------------------------------------------------------------
// Laws
// ---------------------------------------------------------------------------

impl IterationView {
    /// What holds between ticks, whatever the configuration is: the invariants were
    /// checked after every step, and no more steps were made than the limit allows.
    pub open spec fn paced(self) -> bool {
        self.invariant_checks == self.steps && self.steps <= self.max_steps
    }

    /// What holds between ticks for a configuration that a seed gave: three to seven
    /// nodes vote, all of them below the number of the next node, which is at most one
    /// beyond the last node.
    pub open spec fn sound(self) -> bool {
        &&& self.voters.finite()
        &&& 3 <= self.voters.len() <= 7
        &&& forall|id: NodeId| #[trigger] self.voters.contains(id) ==> 1 <= id < self.next_node_id
        &&& 1 <= self.next_node_id <= self.max_potential_nodes + 1
    }

    /// The state once a tick has ended with these violations.
    pub open spec fn with_tick_ended(self, found: Seq<ViolationView>) -> IterationView {
        let step = (self.steps + 1) as u64;
        IterationView {
            steps: step,
            invariant_checks: (self.invariant_checks + 1) as u64,
            violations: self.violations + step_reports(step, found),
            ..self
        }
    }
}

/// The first nodes are as many as their count says.
proof fn lemma_first_nodes(count: u64)
    ensures
        first_nodes(count).finite(),
        first_nodes(count).len() == count,
    decreases count,
{
    if count == 0 {
        assert(first_nodes(0) =~= Set::<NodeId>::empty());
    } else {
        let rest = (count - 1) as u64;
        lemma_first_nodes(rest);
        assert(first_nodes(count) =~= first_nodes(rest).insert(count));
    }
}

/// A change of the membership keeps the state sound. It adds a node that never
/// voted, or removes one that votes, or does nothing.
pub proof fn membership_change_is_sound(before: IterationView)
    requires
        before.valid(),
        before.sound(),
    ensures
        before.with_membership_changed().sound(),
        match before.membership_change() {
            MembershipChange::Keep => before.with_membership_changed().voters == before.voters,
            MembershipChange::Add(id) => !before.voters.contains(id) && 1 <= id <= before.max_potential_nodes,
            MembershipChange::Remove(id) => before.voters.contains(id),
        },
{
    ordered::lemma_ascending(before.voters);
    let listed = ordered::ascending(before.voters);
    assert(listed.contains(listed[0]));
}

/// The end of a tick keeps the state sound and the count of the checks, and every
/// violation that it finds is on the record.
pub proof fn tick_end_is_sound(before: IterationView, found: Seq<ViolationView>)
    requires
        before.steps < before.max_steps,
    ensures
        before.sound() ==> before.with_tick_ended(found).sound(),
        before.paced() ==> before.with_tick_ended(found).paced(),
        before.with_tick_ended(found).violations.len() == before.violations.len() + found.len(),
        before.violations.len() == 0 ==> (before.with_tick_ended(found).violations.len() > 0 <==> found.len() > 0),
{
}

/// A tick of an iteration: the state before it, the state in which it begins, what
/// happens before it, and the state after it.
pub struct Tick {
    pub before: IterationView,
    pub begun: IterationView,
    pub start: TickStart,
    pub after: IterationView,
}

/// What happened before each of some ticks.
pub open spec fn starts(ticks: Seq<Tick>) -> Seq<TickStart> {
    ticks.map_values(|tick: Tick| tick.start)
}

/// The state after some ticks.
pub open spec fn state_after(first: IterationView, ticks: Seq<Tick>) -> IterationView {
    if ticks.len() == 0 {
        first
    } else {
        ticks.last().after
    }
}

/// Whether an iteration that starts in the state `first` makes these ticks without
/// being interrupted. `coin` says how the coin falls for a state of the generator, and
/// in which state the generator is then. `cluster` says in what the nodes are found
/// after what was done to them so far. A tick follows only while nothing was violated.
pub open spec fn makes(
    first: IterationView,
    ticks: Seq<Tick>,
    coin: spec_fn(Seq<u32>) -> (bool, Seq<u32>),
    cluster: spec_fn(Seq<TickStart>) -> Seq<(NodeId, FullNodeSnapshot)>,
) -> bool
    decreases ticks.len(),
{
    ticks.len() > 0 ==> {
        let tick = ticks.last();
        let (hit, flipped) = coin(tick.before.chaos_rng);
        &&& makes(first, ticks.drop_last(), coin, cluster)
        &&& tick.before == state_after(first, ticks.drop_last())
        &&& tick.before.violations.len() == 0
        &&& (tick.begun, tick.start) == tick.before.begun(true, hit, flipped)
        &&& tick.start is Go
        &&& tick.after == tick.begun.with_tick_ended(invariants::state_violations(cluster(starts(ticks))))
    }
}

proof fn lemma_makes_the_same_ticks(
    first: IterationView,
    a: Seq<Tick>,
    b: Seq<Tick>,
    coin: spec_fn(Seq<u32>) -> (bool, Seq<u32>),
    cluster: spec_fn(Seq<TickStart>) -> Seq<(NodeId, FullNodeSnapshot)>,
)
    requires
        makes(first, a, coin, cluster),
        makes(first, b, coin, cluster),
        a.len() == b.len(),
    ensures
        a == b,
    decreases a.len(),
{
    if a.len() > 0 {
        let rest = a.drop_last();
        lemma_makes_the_same_ticks(first, rest, b.drop_last(), coin, cluster);
        let x = a.last();
        let y = b.last();
        assert(x.before == y.before && x.begun == y.begun && x.start == y.start);
        assert(starts(a) =~= starts(rest).push(x.start));
        assert(starts(b) =~= starts(rest).push(y.start));
        assert(x == y);
        assert(a =~= rest.push(x));
        assert(b =~= rest.push(y));
    } else {
        assert(a =~= b);
    }
}

proof fn lemma_makes_prefix(
    first: IterationView,
    ticks: Seq<Tick>,
    count: int,
    coin: spec_fn(Seq<u32>) -> (bool, Seq<u32>),
    cluster: spec_fn(Seq<TickStart>) -> Seq<(NodeId, FullNodeSnapshot)>,
)
    requires
        makes(first, ticks, coin, cluster),
        0 <= count <= ticks.len(),
    ensures
        makes(first, ticks.take(count), coin, cluster),
    decreases ticks.len(),
{
    if count == ticks.len() {
        assert(ticks.take(count) =~= ticks);
    } else {
        lemma_makes_prefix(first, ticks.drop_last(), count, coin, cluster);
        assert(ticks.drop_last().take(count) =~= ticks.take(count));
    }
}

/// Whether an iteration that is not interrupted ends in a state: invariants were
/// violated, or all steps were made.
pub open spec fn ended(state: IterationView) -> bool {
    state.violations.len() > 0 || state.steps >= state.max_steps
}

/// Iterations are deterministic: two iterations with the same seed, configuration and
/// limit decide the same before every tick and find the same after it, as long as coins
/// fall the same for the same states of a generator, and clusters to which the same was
/// done are found in the same. So the one with fewer ticks has made the first ticks of
/// the other, and once it has ended both have made as many ticks, with the same result.
pub proof fn iterations_decide_alike<P>(
    iteration_seed: u64,
    derived: DerivedConfig<P>,
    max_steps: u64,
    a: Seq<Tick>,
    b: Seq<Tick>,
    coin: spec_fn(Seq<u32>) -> (bool, Seq<u32>),
    cluster: spec_fn(Seq<TickStart>) -> Seq<(NodeId, FullNodeSnapshot)>,
)
    requires
        makes(first_state(iteration_seed, derived, max_steps), a, coin, cluster),
        makes(first_state(iteration_seed, derived, max_steps), b, coin, cluster),
        a.len() <= b.len(),
    ensures
        a == b.take(a.len() as int),
        starts(a) == starts(b).take(a.len() as int),
        ended(state_after(first_state(iteration_seed, derived, max_steps), a)) ==> a.len() == b.len(),
        a.len() == b.len() ==> state_after(first_state(iteration_seed, derived, max_steps), a) == state_after(
            first_state(iteration_seed, derived, max_steps),
            b,
        ),
{
    let first = first_state(iteration_seed, derived, max_steps);
    lemma_makes_prefix(first, b, a.len() as int, coin, cluster);
    lemma_makes_the_same_ticks(first, a, b.take(a.len() as int), coin, cluster);
    assert(starts(a) =~= starts(b).take(a.len() as int));
    if a.len() == b.len() {
        assert(b.take(a.len() as int) =~= b);
    } else {
        let more: int = a.len() + 1int;
        let longer = b.take(more);
        lemma_makes_prefix(first, b, more, coin, cluster);
        assert(longer.drop_last() =~= a);
        assert(longer.last().before == state_after(first, a));
    }
}

/// Reproduce mode repeats an iteration: the iteration that the command of a report
/// starts, for an iteration of a run under `config`, decides the same before every tick
/// and gives the same result. Both draw the probabilities and flip coins by the same
/// rules, and read the failure rate that was set from the same text.
pub proof fn reproduction_repeats_the_iteration<P>(
    seed: u64,
    config: FuzzConfigView,
    crash_file: Option<Seq<char>>,
    fail_rate_draw: spec_fn(Seq<u32>) -> (P, Seq<u32>),
    restart_draw: spec_fn(Seq<u32>) -> (P, Seq<u32>),
    fail_rate: Option<P>,
    a: Seq<Tick>,
    b: Seq<Tick>,
    coin: spec_fn(Seq<u32>) -> (bool, Seq<u32>),
    cluster: spec_fn(Seq<TickStart>) -> Seq<(NodeId, FullNodeSnapshot)>,
)
    requires
        ({
            let again = campaign::reproduction(seed, config, crash_file);
            let drawn = derived::derived_from(seed, fail_rate_draw, restart_draw);
            let first = first_state(seed, drawn.overridden(config, fail_rate), config.max_steps);
            let first_again = first_state(seed, drawn.overridden(again, fail_rate), again.max_steps);
            &&& makes(first, a, coin, cluster)
            &&& makes(first_again, b, coin, cluster)
            &&& ended(state_after(first, a))
            &&& ended(state_after(first_again, b))
        }),
    ensures
        options::parsed(
            options::default_config(),
            campaign::reproduce_args(
                seed,
                config.max_steps,
                crash_file,
                config.nodes,
                config.fail_rate,
                config.no_chaos,
            ),
        ) == ParseView::Run(campaign::reproduction(seed, config, crash_file)),
        a == b,
{
    let drawn = derived::derived_from(seed, fail_rate_draw, restart_draw);
    let derived = drawn.overridden(config, fail_rate);
    campaign::reproduce_args_reproduce(seed, config, crash_file);
    if a.len() <= b.len() {
        iterations_decide_alike(seed, derived, config.max_steps, a, b, coin, cluster);
        assert(b.take(a.len() as int) =~= b);
    } else {
        iterations_decide_alike(seed, derived, config.max_steps, b, a, coin, cluster);
        assert(a.take(b.len() as int) =~= a);
    }
}

/// Every iteration, whatever its configuration is, makes at most `max_steps` steps, one
/// for each tick, and checks the invariants after each of them.
pub proof fn iterations_keep_to_their_limit<P>(
    iteration_seed: u64,
    derived: DerivedConfig<P>,
    max_steps: u64,
    ticks: Seq<Tick>,
    coin: spec_fn(Seq<u32>) -> (bool, Seq<u32>),
    cluster: spec_fn(Seq<TickStart>) -> Seq<(NodeId, FullNodeSnapshot)>,
)
    requires
        makes(first_state(iteration_seed, derived, max_steps), ticks, coin, cluster),
    ensures
        ({
            let last = state_after(first_state(iteration_seed, derived, max_steps), ticks);
            &&& last.paced()
            &&& last.max_steps == max_steps
            &&& last.steps == ticks.len()
            &&& last.steps == last.invariant_checks <= max_steps
        }),
    decreases ticks.len(),
{
    if ticks.len() > 0 {
        iterations_keep_to_their_limit(iteration_seed, derived, max_steps, ticks.drop_last(), coin, cluster);
    }
}

// ---------------------------------------------------------------------------
// What an iteration does, in terms of its numbers
// ---------------------------------------------------------------------------

/// The first voter in ascending order has the lowest number.
proof fn lemma_lowest_voter(voters: Set<NodeId>)
    requires
        voters.finite(),
        voters.len() > 0,
    ensures
        voters.contains(ordered::ascending(voters)[0]),
        forall|id: NodeId| #[trigger] voters.contains(id) ==> ordered::ascending(voters)[0] <= id,
{
    ordered::lemma_ascending(voters);
    let listed = ordered::ascending(voters);
    let some = voters.choose();
    assert(voters.contains(some));
    assert(listed.contains(some));
    assert(listed.contains(listed[0]));
    assert forall|id: NodeId| #[trigger] voters.contains(id) implies listed[0] <= id by {
        assert(listed.contains(id));
        let at = choose|at: int| 0 <= at < listed.len() && listed[at] == id;
        assert(listed[0] <= listed[at]);
    }
}

/// The membership changes at every multiple of its interval: with fewer than three voters
/// the next node is added, with seven or more the voter with the lowest number is removed,
/// and between them chance decides, but no voter is removed of three. Nothing is added once
/// all nodes were used.
pub proof fn membership_changes_at_every_interval(state: IterationView, k: int)
    requires
        state.voters.finite(),
        state.membership_interval > 0,
        k >= 1,
        state.steps == k * state.membership_interval,
    ensures
        ({
            let adds = state.voters.len() < 3 || (state.voters.len() < 7 && rng::ratio_draw(state.member_rng, 7, 10).0);
            &&& adds && state.next_node_id <= state.max_potential_nodes ==> state.membership_change()
                == MembershipChange::Add(state.next_node_id)
            &&& adds && state.next_node_id > state.max_potential_nodes ==> state.membership_change()
                == MembershipChange::Keep
            &&& !adds && state.voters.len() <= 3 ==> state.membership_change() == MembershipChange::Keep
            &&& !adds && state.voters.len() > 3 ==> (state.membership_change() matches MembershipChange::Remove(id)
                && state.voters.contains(id) && forall|other: NodeId| #[trigger]
                state.voters.contains(other) ==> id <= other)
        }),
        state.voters.len() >= 4 && state.next_node_id <= state.max_potential_nodes ==> state.membership_change()
            != MembershipChange::Keep,
        state.voters.len() >= 7 ==> state.membership_change() is Remove,
        state.voters.len() < 3 && state.next_node_id <= state.max_potential_nodes ==> state.membership_change() is Add,
{
    vstd::arithmetic::div_mod::lemma_mod_multiples_basic(k, state.membership_interval as int);
    assert(k * state.membership_interval >= state.membership_interval) by (nonlinear_arith)
        requires
            k >= 1,
            state.membership_interval > 0,
    ;
    assert(state.steps as int % state.membership_interval as int == 0);
    if state.voters.len() > 3 {
        lemma_lowest_voter(state.voters);
    }
}

/// The membership stays as it is before the first step, and at every step that is no
/// multiple of its interval.
pub proof fn membership_stays_between_intervals(state: IterationView)
    requires
        state.steps == 0 || state.steps % state.membership_interval != 0,
    ensures
        state.membership_change() == MembershipChange::Keep,
        state.with_membership_changed() == state,
{
}

/// A change of the membership adds the node or removes the voter, and touches nothing else
/// but the generator that decided on it, which moves on only where it was asked.
pub proof fn membership_change_takes_effect(state: IterationView)
    ensures
        ({
            let after = state.with_membership_changed();
            &&& match state.membership_change() {
                MembershipChange::Keep => after.voters == state.voters && after.next_node_id == state.next_node_id,
                MembershipChange::Add(id) => id == state.next_node_id && after.voters == state.voters.insert(id) && (id
                    < u64::MAX ==> after.next_node_id == id + 1),
                MembershipChange::Remove(id) => after.voters == state.voters.remove(id) && after.next_node_id
                    == state.next_node_id,
            }
            &&& after.max_steps == state.max_steps
            &&& after.max_potential_nodes == state.max_potential_nodes
            &&& after.membership_interval == state.membership_interval
            &&& after.chaos_interval == state.chaos_interval
            &&& after.steps == state.steps
            &&& after.invariant_checks == state.invariant_checks
            &&& after.violations == state.violations
            &&& after.chaos_rng == state.chaos_rng
            &&& after.member_rng == if state.steps > 0 && state.steps % state.membership_interval == 0 && 3
                <= state.voters.len() < 7 {
                rng::ratio_draw(state.member_rng, 7, 10).1
            } else {
                state.member_rng
            }
        }),
{
}

/// A cluster of three to seven voters stays one, however often its membership changes.
pub proof fn voters_stay_between_three_and_seven(state: IterationView)
    requires
        state.voters.finite(),
        3 <= state.voters.len() <= 7,
        state.membership_interval > 0,
        forall|id: NodeId| #[trigger] state.voters.contains(id) ==> id < state.next_node_id,
    ensures
        3 <= state.with_membership_changed().voters.len() <= 7,
{
    if state.voters.len() > 3 {
        lemma_lowest_voter(state.voters);
    }
}

/// An iteration that was interrupted, or has made all its steps, ends before the tick with
/// its state as it is; any other goes on.
pub proof fn ticks_begin_until_the_limit(state: IterationView, running: bool, hit: bool, flipped: Seq<u32>)
    ensures
        !running ==> state.begun(running, hit, flipped) == (state, TickStart::Interrupted),
        running && state.steps >= state.max_steps ==> state.begun(running, hit, flipped) == (state, TickStart::MaxSteps),
        running && state.steps < state.max_steps ==> (state.begun(running, hit, flipped).1 matches TickStart::Go {
            membership,
            ..
        } && membership == state.membership_change()),
{
}

/// A voter crashes at every multiple of the chaos interval at which the coin says so: the
/// one that was drawn from the voters after the change of the membership, in ascending
/// order. At no other step does a voter crash, and the generator stays as it is.
pub proof fn voters_crash_at_every_interval(state: IterationView, hit: bool, flipped: Seq<u32>, k: int)
    requires
        state.steps < state.max_steps,
        state.chaos_interval > 0,
        k >= 1,
        state.steps == k * state.chaos_interval,
    ensures
        state.coin_is_flipped(true),
        ({
            let (begun, start) = state.begun(true, hit, flipped);
            let voters = state.with_membership_changed().voters;
            &&& start is Go
            &&& !hit ==> start->restart is None && begun.chaos_rng == flipped
            &&& hit && voters.len() == 0 ==> start->restart is None && begun.chaos_rng == flipped
            &&& hit && voters.len() > 0 ==> {
                let (at, after) = rng::range64_draw(flipped, 0, (voters.len() - 1) as u64);
                &&& start->restart == Some(ordered::ascending(voters)[at as int])
                &&& begun.chaos_rng == after
            }
            &&& begun == (IterationView { chaos_rng: begun.chaos_rng, ..state.with_membership_changed() })
        }),
{
    vstd::arithmetic::div_mod::lemma_mod_multiples_basic(k, state.chaos_interval as int);
    assert(k * state.chaos_interval >= state.chaos_interval) by (nonlinear_arith)
        requires
            k >= 1,
            state.chaos_interval > 0,
    ;
    assert(state.steps as int % state.chaos_interval as int == 0);
}

/// Before the first step, and at every step that is no multiple of the chaos interval, no
/// voter crashes and no coin is flipped.
pub proof fn no_voter_crashes_between_intervals(state: IterationView, hit: bool, flipped: Seq<u32>)
    requires
        state.steps < state.max_steps,
        state.steps == 0 || state.steps % state.chaos_interval != 0,
    ensures
        !state.coin_is_flipped(true),
        state.begun(true, hit, flipped) == (
            state.with_membership_changed(),
            TickStart::Go { membership: state.membership_change(), restart: None },
        ),
{
}

/// The end of a tick counts one step and one check, keeps what was reported before, and
/// reports each violation with the number of the step; it changes nothing else.
pub proof fn ticks_are_counted(state: IterationView, found: Seq<ViolationView>)
    requires
        state.steps < u64::MAX,
        state.invariant_checks < u64::MAX,
    ensures
        ({
            let after = state.with_tick_ended(found);
            &&& after.steps == state.steps + 1
            &&& after.invariant_checks == state.invariant_checks + 1
            &&& after.violations.len() == state.violations.len() + found.len()
            &&& forall|i: int| 0 <= i < state.violations.len() ==> #[trigger] after.violations[i] == state.violations[i]
            &&& forall|i: int|
                0 <= i < found.len() ==> #[trigger] after.violations[state.violations.len() + i] == "Step "@
                    + text::decimal((state.steps + 1) as nat) + ": "@ + invariants::violation_record(found[i])
            &&& after == (IterationView {
                steps: after.steps,
                invariant_checks: after.invariant_checks,
                violations: after.violations,
                ..state
            })
        }),
{
}

/// An iteration starts with the nodes from 1 on as voters and the next number as that of the
/// next node, with nothing done, and with generators of its own for crashes and for the
/// membership.
pub proof fn iterations_start_with_the_first_nodes<P>(
    iteration_seed: u64,
    derived: DerivedConfig<P>,
    max_steps: u64,
    id: NodeId,
)
    requires
        derived.num_initial_nodes < u64::MAX,
    ensures
        ({
            let first = first_state(iteration_seed, derived, max_steps);
            &&& first.voters.contains(id) <==> 1 <= id <= derived.num_initial_nodes
            &&& first.voters.len() == derived.num_initial_nodes
            &&& first.next_node_id == derived.num_initial_nodes + 1
            &&& first.steps == 0
            &&& first.invariant_checks == 0
            &&& first.violations.len() == 0
            &&& first.max_steps == max_steps
            &&& first.max_potential_nodes == derived.max_potential_nodes
            &&& first.membership_interval == derived.membership_interval
            &&& first.chaos_interval == derived.chaos_interval
            &&& exists|crash_seed: u64, member_seed: u64|
                #![trigger rng::seeded_state(crash_seed), rng::seeded_state(member_seed)]
                {
                    &&& first.chaos_rng == rng::seeded_state(crash_seed)
                    &&& first.member_rng == rng::seeded_state(member_seed)
                    &&& crash_seed == iteration_seed + 3000 || crash_seed == iteration_seed + 3000 - 0x1_0000_0000_0000_0000
                    &&& member_seed == iteration_seed + 5000 || member_seed == iteration_seed + 5000
                        - 0x1_0000_0000_0000_0000
                }
        }),
{
    lemma_first_nodes(derived.num_initial_nodes);
    let first = first_state(iteration_seed, derived, max_steps);
    let crash_seed = offset_seed(iteration_seed, 3000);
    let member_seed = offset_seed(iteration_seed, 5000);
    assert(first.chaos_rng == rng::seeded_state(crash_seed));
    assert(first.member_rng == rng::seeded_state(member_seed));
}

/// A seed that is moved by an offset wraps around at 2^64.
pub proof fn offset_seeds_wrap(seed: u64, offset: u64)
    ensures
        seed + offset <= u64::MAX ==> offset_seed(seed, offset) == seed + offset,
        seed + offset > u64::MAX ==> offset_seed(seed, offset) == seed + offset - 0x1_0000_0000_0000_0000,
{
}

/// An error of the simulation ends the iteration without failing it exactly if its text
/// holds one of the two phrases somewhere.
pub proof fn duration_errors_are_told_by_their_text(message: Seq<char>)
    ensures
        is_duration_error(message) <==> exists|from: int, to: int|
            0 <= from <= to <= message.len() && (#[trigger] message.subrange(from, to) == "duration"@
                || message.subrange(from, to) == "without completing"@),
{
    let a = "duration"@;
    let b = "without completing"@;
    if text::occurs(message, a) {
        let at = choose|at: int| text::occurs_at(message, a, at);
        assert(message.subrange(at, at + a.len()) =~= a);
    }
    if text::occurs(message, b) {
        let at = choose|at: int| text::occurs_at(message, b, at);
        assert(message.subrange(at, at + b.len()) =~= b);
    }
    if exists|from: int, to: int|
        0 <= from <= to <= message.len() && (#[trigger] message.subrange(from, to) == a || message.subrange(from, to)
            == b) {
        let (from, to) = choose|from: int, to: int|
            0 <= from <= to <= message.len() && (#[trigger] message.subrange(from, to) == a || message.subrange(
                from,
                to,
            ) == b);
        if message.subrange(from, to) == a {
            assert(text::occurs_at(message, a, from));
        } else {
            assert(text::occurs_at(message, b, from));
        }
    }
}

/// The nodes that say that they lead are listed, all of them and no others, in the order in
/// which they report.
pub proof fn leaders_are_those_that_lead(metrics: Seq<(NodeId, RaftMetrics)>)
    ensures
        leaders(metrics) == metrics.filter(|m: (NodeId, RaftMetrics)| m.1.state == ServerState::Leader).map_values(
            |m: (NodeId, RaftMetrics)| m.0,
        ),
    decreases metrics.len(),
{
    let f = |m: (NodeId, RaftMetrics)| m.1.state == ServerState::Leader;
    let g = |m: (NodeId, RaftMetrics)| m.0;
    reveal(Seq::filter);
    if metrics.len() > 0 {
        let rest = metrics.drop_last();
        leaders_are_those_that_lead(rest);
        assert(rest.filter(f).push(metrics.last()).map_values(g) =~= rest.filter(f).map_values(g).push(
            metrics.last().0,
        ));
    }
    assert(leaders(metrics) =~= metrics.filter(f).map_values(g));
}

/// The highest term is the highest of those that the nodes report, and zero without nodes.
pub proof fn max_term_is_the_highest(metrics: Seq<(NodeId, RaftMetrics)>)
    ensures
        forall|i: int| 0 <= i < metrics.len() ==> (#[trigger] metrics[i]).1.vote.term <= max_term(metrics),
        metrics.len() == 0 ==> max_term(metrics) == 0,
        max_term(metrics) > 0 ==> exists|i: int|
            0 <= i < metrics.len() && (#[trigger] metrics[i]).1.vote.term == max_term(metrics),
    decreases metrics.len(),
{
    if metrics.len() > 0 {
        let rest = metrics.drop_last();
        max_term_is_the_highest(rest);
        assert forall|i: int| 0 <= i < metrics.len() implies (#[trigger] metrics[i]).1.vote.term <= max_term(metrics) by {
            if i < rest.len() {
                assert(rest[i] == metrics[i]);
            }
        }
        if max_term(metrics) > 0 {
            if metrics.last().1.vote.term == max_term(metrics) {
                assert(metrics[metrics.len() - 1].1.vote.term == max_term(metrics));
            } else {
                let i = choose|i: int| 0 <= i < rest.len() && (#[trigger] rest[i]).1.vote.term == max_term(rest);
                assert(metrics[i].1.vote.term == max_term(metrics));
            }
        }
    }
}

/// A tick is stepped until there is nothing more to do in it. The simulation ends the
/// iteration only with an error, and fails it unless the error says that its time is over.
pub proof fn ticks_are_stepped_to_their_end(message: String)
    ensures
        next_after_step(Ok(true)) == StepNext::Again,
        next_after_step(Ok(false)) == StepNext::TickDone,
        next_after_step(Err(message)) == StepNext::DurationReached || next_after_step(Err(message)) == StepNext::Failed,
        next_after_step(Err(message)) == StepNext::DurationReached <==> exists|from: int, to: int|
            0 <= from <= to <= message@.len() && (#[trigger] message@.subrange(from, to) == "duration"@
                || message@.subrange(from, to) == "without completing"@),
{
    duration_errors_are_told_by_their_text(message@);
}

/// A tick ends the iteration exactly if it has found a violation; else its progress is
/// reported after every five thousandth step.
pub proof fn ticks_end_with_violations_or_reports(step: u64, found: Seq<ViolationView>, k: int)
    ensures
        found.len() > 0 ==> tick_end_kind(step, found) == TickEndKind::Violated,
        found.len() == 0 && step == 5000 * k ==> tick_end_kind(step, found) == TickEndKind::Report,
        found.len() == 0 && 5000 * k < step < 5000 * (k + 1) ==> tick_end_kind(step, found) == TickEndKind::Next,
{
}

} // verus!
