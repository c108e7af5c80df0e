//! The simulation engine: owns the agents, advances them one tick at a
//! time, and publishes a snapshot after every tick that went well.

use vstd::prelude::*;
use crate::agent::{all_valid, Agent, Params};
use crate::fixed::LIMIT;
use crate::flock::{steer, steering};
use crate::grid::{all_placed, candidates, lemma_candidates_exact, points_of, SpatialIndex};
use crate::motion::{integrate, lemma_moved_agent, moved};
use crate::snapshot::{ascending, ids_of, Frame, Snapshot, SnapshotStore};
use crate::vec3::Vec3;

verus! {

/// Where the engine stands in its life.
#[derive(Clone, Copy, Debug, PartialEq, Eq, Structural)]
pub enum EngineState {
    /// Created, not yet started.
    Idle,
    /// Ticking.
    Running,
    /// Shut down, for good.
    Stopped,
}

/// How one call for a tick ended.
#[derive(Clone, Copy, Debug, PartialEq, Eq, Structural)]
pub enum TickOutcome {
    /// Every agent advanced; a new snapshot was made.
    Published,
    /// A numerical anomaly struck; the tick counted, the snapshot stayed.
    Corrupted,
    /// The engine is not running; nothing happened.
    NotRunning,
    /// The tick counter cannot go on; the engine stopped.
    ClockExhausted,
}

/// What the tick loop does between one tick and the next.
#[derive(Clone, Copy, Debug, PartialEq, Eq, Structural)]
pub enum Pace {
    /// The tick ended in time: rest for what is left of the interval.
    Rest { remaining: u64 },
    /// The tick overran the interval: note the miss and go on at once.
    /// Nothing is made up for later and no agent is skipped.
    DeadlineMissed { overrun: u64 },
}

/// Decides how the tick loop goes on after a tick that took `spent` of an
/// interval of length `interval`, both in the same unit.
pub fn pace(interval: u64, spent: u64) -> (p: Pace)
    ensures
        spent <= interval ==> p == (Pace::Rest { remaining: (interval - spent) as u64 }),
        spent > interval ==> p == (Pace::DeadlineMissed { overrun: (spent - interval) as u64 }),
{
    if spent <= interval {
        Pace::Rest { remaining: interval - spent }
    } else {
        Pace::DeadlineMissed { overrun: spent - interval }
    }
}

/// Startup parameters of the engine.
#[derive(Clone, Copy, Debug, PartialEq, Eq, Structural)]
pub struct EngineConfig {
    /// Number of agents.
    pub population: i64,
    /// Length of one tick.
    pub tick_interval: i64,
    /// Edge length of a cell of the spatial index.
    pub cell_size: i64,
}

impl EngineConfig {
    pub open spec fn valid(self) -> bool {
        &&& 1 <= self.population
        &&& 1 <= self.tick_interval <= LIMIT
        &&& 1 <= self.cell_size <= LIMIT
    }
}

/// The initial state of one agent.
#[derive(Clone, Copy, Debug, PartialEq, Eq, Structural)]
pub struct Seed {
    pub position: Vec3,
    pub velocity: Vec3,
    pub params: Params,
}

impl Seed {
    pub open spec fn valid(self) -> bool {
        self.position@.finite() && self.velocity@.finite() && self.params.valid()
    }
}

/// Why the engine could not be created.
#[derive(Clone, Copy, Debug, PartialEq, Eq, Structural)]
pub enum StartupError {
    /// The population is zero or negative.
    InvalidPopulation,
    /// The tick interval is not a positive finite value.
    InvalidTickInterval,
    /// The cell size is not a positive finite value.
    InvalidCellSize,
    /// The number of seeds differs from the population.
    SeedCountMismatch,
    /// A seed has a position, velocity or parameter out of range.
    InvalidSeed,
}

/// The first fault of a startup request, if it has one.
pub open spec fn startup_fault(config: EngineConfig, seeds: Seq<Seed>) -> Option<StartupError> {
    if config.population < 1 {
        Some(StartupError::InvalidPopulation)
    } else if !(1 <= config.tick_interval <= LIMIT) {
        Some(StartupError::InvalidTickInterval)
    } else if !(1 <= config.cell_size <= LIMIT) {
        Some(StartupError::InvalidCellSize)
    } else if seeds.len() != config.population {
        Some(StartupError::SeedCountMismatch)
    } else if exists|i: int| 0 <= i < seeds.len() && !(#[trigger] seeds[i]).valid() {
        Some(StartupError::InvalidSeed)
    } else {
        None
    }
}

/// The agents that `seeds` give rise to: the seed at index `i` becomes the
/// agent of identity `i`.
pub open spec fn seeded(seeds: Seq<Seed>) -> Seq<Agent> {
    Seq::new(
        seeds.len(),
        |i: int|
            Agent {
                id: i as u64,
                position: seeds[i].position,
                velocity: seeds[i].velocity,
                params: seeds[i].params,
            },
    )
}

/// The agents that the spatial index yields around agent `i`, as agent `i`
/// perceives them; agent `i` itself is among them.
pub open spec fn flock_around(agents: Seq<Agent>, cs: int, i: int) -> Seq<Agent> {
    candidates(
        points_of(agents),
        cs,
        agents[i].position@,
        agents[i].params.perception_radius as int,
    ).map_values(|j: usize| agents[j as int])
}

/// Agent `i` one tick later, all agents being read as they stand now.
pub open spec fn advanced(agents: Seq<Agent>, cs: int, dt: int, i: int) -> Option<Agent> {
    match steering(agents[i], flock_around(agents, cs, i)) {
        Some(acc) => moved(agents[i], acc, dt),
        None => None,
    }
}

/// No agent meets a numerical anomaly during the tick.
pub open spec fn all_advance(agents: Seq<Agent>, cs: int, dt: int) -> bool {
    forall|i: int| 0 <= i < agents.len() ==> (#[trigger] advanced(agents, cs, dt, i)).is_some()
}

/// All agents one tick later.
pub open spec fn next_agents(agents: Seq<Agent>, cs: int, dt: int) -> Seq<Agent> {
    Seq::new(agents.len(), |i: int| advanced(agents, cs, dt, i).unwrap())
}

/// The mathematical content of an engine.
pub struct EngineView {
    pub state: EngineState,
    /// Number of ticks counted so far.
    pub clock: u64,
    pub config: EngineConfig,
    /// The last snapshot made.
    pub frame: Frame,
}

impl EngineView {
    /// The engine holds a full population of valid agents whose identities
    /// are their ranks, and its snapshot is not ahead of its clock.
    pub open spec fn wf(self) -> bool {
        &&& self.config.valid()
        &&& self.frame.agents.len() == self.config.population
        &&& all_valid(self.frame.agents)
        &&& forall|i: int|
            0 <= i < self.frame.agents.len() ==> (#[trigger] self.frame.agents[i]).id == i
        &&& self.frame.tick <= self.clock
        &&& self.state == EngineState::Idle ==> self.clock == 0
    }

    /// How the next call for a tick ends.
    pub open spec fn outcome(self) -> TickOutcome {
        if self.state != EngineState::Running {
            TickOutcome::NotRunning
        } else if self.clock == u64::MAX {
            TickOutcome::ClockExhausted
        } else if all_advance(
            self.frame.agents,
            self.config.cell_size as int,
            self.config.tick_interval as int,
        ) {
            TickOutcome::Published
        } else {
            TickOutcome::Corrupted
        }
    }

    /// The engine after the next call for a tick.
    pub open spec fn stepped(self) -> EngineView {
        match self.outcome() {
            TickOutcome::NotRunning => self,
            TickOutcome::ClockExhausted => EngineView { state: EngineState::Stopped, ..self },
            TickOutcome::Corrupted => EngineView { clock: (self.clock + 1) as u64, ..self },
            TickOutcome::Published => EngineView {
                clock: (self.clock + 1) as u64,
                frame: Frame {
                    tick: (self.clock + 1) as u64,
                    agents: next_agents(
                        self.frame.agents,
                        self.config.cell_size as int,
                        self.config.tick_interval as int,
                    ),
                },
                ..self
            },
        }
    }

    /// The engine after `n` calls for a tick.
    pub open spec fn after(self, n: nat) -> EngineView
        decreases n,
    {
        if n == 0 {
            self
        } else {
            self.after((n - 1) as nat).stepped()
        }
    }
}

/// An agent that advanced is valid and keeps its identity and parameters.
pub proof fn lemma_advanced_agent(agents: Seq<Agent>, cs: int, dt: int, i: int)
    requires
        advanced(agents, cs, dt, i).is_some(),
    ensures
        advanced(agents, cs, dt, i).unwrap().valid(),
        advanced(agents, cs, dt, i).unwrap().id == agents[i].id,
        advanced(agents, cs, dt, i).unwrap().params == agents[i].params,
{
    let acc = steering(agents[i], flock_around(agents, cs, i)).unwrap();
    lemma_moved_agent(agents[i], acc, dt);
}

/// A tick keeps the population: after it the snapshot holds the same number
/// of agents, with the same identities in the same order, all valid.
pub proof fn lemma_step_keeps_population(e: EngineView)
    requires
        e.wf(),
    ensures
        e.stepped().wf(),
        e.stepped().frame.agents.len() == e.frame.agents.len(),
        ids_of(e.stepped().frame.agents) == ids_of(e.frame.agents),
        ascending(e.stepped().frame.agents),
        e.stepped().config == e.config,
{
    let cs = e.config.cell_size as int;
    let dt = e.config.tick_interval as int;
    if e.outcome() == TickOutcome::Published {
        let next = next_agents(e.frame.agents, cs, dt);
        assert forall|i: int| 0 <= i < next.len() implies (#[trigger] next[i]).valid() && next[i].id
            == i by {
            assert(advanced(e.frame.agents, cs, dt, i).is_some());
            lemma_advanced_agent(e.frame.agents, cs, dt, i);
        }
        assert(ids_of(next) =~= ids_of(e.frame.agents));
    }
}

/// A tick never rewinds: neither the clock nor the tick of the snapshot
/// decreases, and the snapshot's tick changes only to the new clock value.
pub proof fn lemma_step_never_rewinds(e: EngineView)
    requires
        e.wf(),
    ensures
        e.stepped().clock >= e.clock,
        e.stepped().frame.tick >= e.frame.tick,
        e.stepped().frame.tick == e.frame.tick || e.stepped().frame.tick == e.stepped().clock,
{
}

/// Over any number of ticks the engine stays well formed and keeps its
/// population.
pub proof fn lemma_run_keeps_population(e: EngineView, n: nat)
    requires
        e.wf(),
    ensures
        e.after(n).wf(),
        e.after(n).config == e.config,
        e.after(n).frame.agents.len() == e.frame.agents.len(),
        ids_of(e.after(n).frame.agents) == ids_of(e.frame.agents),
    decreases n,
{
    if n > 0 {
        lemma_run_keeps_population(e, (n - 1) as nat);
        lemma_step_keeps_population(e.after((n - 1) as nat));
    }
}

/// The tick of the snapshot never decreases along a run: what is seen
/// after `later` ticks is at least what was seen after `earlier` ticks.
pub proof fn lemma_run_never_rewinds(e: EngineView, earlier: nat, later: nat)
    requires
        e.wf(),
        earlier <= later,
    ensures
        e.after(earlier).frame.tick <= e.after(later).frame.tick,
        e.after(earlier).clock <= e.after(later).clock,
    decreases later,
{
    if earlier < later {
        lemma_run_never_rewinds(e, earlier, (later - 1) as nat);
        lemma_run_keeps_population(e, (later - 1) as nat);
        lemma_step_never_rewinds(e.after((later - 1) as nat));
    }
}

/// Collects the agents that the index yields around agent `i`.
fn gather(agents: &Vec<Agent>, index: &SpatialIndex, i: usize) -> (flock: Vec<Agent>)
    requires
        i < agents@.len(),
        index.points() == points_of(agents@),
    ensures
        flock@ == flock_around(agents@, index.cell_size(), i as int),
{
    let a = agents[i];
    let n = agents.len();
    let found = index.candidates(a.position, a.params.perception_radius);
    proof {
        assert forall|k: int| 0 <= k < found@.len() implies (#[trigger] found@[k]) < n by {
            lemma_candidates_exact(
                points_of(agents@),
                index.cell_size(),
                a.position@,
                a.params.perception_radius as int,
                found@[k],
            );
            assert(found@.contains(found@[k]));
        }
    }
    let mut flock: Vec<Agent> = Vec::new();
    let mut k: usize = 0;
    while k < found.len()
        invariant
            k <= found@.len(),
            n == agents@.len(),
            flock@.len() == k,
            forall|t: int| 0 <= t < found@.len() ==> (#[trigger] found@[t]) < n,
            forall|t: int| 0 <= t < k ==> #[trigger] flock@[t] == agents@[found@[t] as int],
        decreases found@.len() - k,
    {
        flock.push(agents[found[k]]);
        k += 1;
    }
    proof {
        assert(flock@ =~= flock_around(agents@, index.cell_size(), i as int));
    }
    flock
}

/// Advances every agent by one tick, each reading all agents as they stand
/// before the tick. `None` as soon as one agent meets a numerical anomaly.
fn advance_all(agents: &Vec<Agent>, cell_size: i64, dt: i64) -> (r: Option<Vec<Agent>>)
    requires
        all_valid(agents@),
        1 <= cell_size <= LIMIT,
    ensures
        r.is_some() <==> all_advance(agents@, cell_size as int, dt as int),
        r matches Some(next) ==> next@ == next_agents(agents@, cell_size as int, dt as int),
{
    proof {
        assert forall|i: int| 0 <= i < agents@.len() implies (#[trigger] points_of(
            agents@,
        )[i]).position@.finite() by {
            assert(agents@[i].valid());
        }
    }
    let index = SpatialIndex::build(agents, cell_size).unwrap();
    let n = agents.len();
    let mut next: Vec<Agent> = Vec::new();
    let mut i: usize = 0;
    while i < n
        invariant
            i <= n,
            n == agents@.len(),
            index.points() == points_of(agents@),
            index.cell_size() == cell_size,
            next@.len() == i,
            forall|t: int|
                0 <= t < i ==> #[trigger] advanced(agents@, cell_size as int, dt as int, t)
                    == Some(next@[t]),
        decreases n - i,
    {
        let flock = gather(agents, &index, i);
        let acc = match steer(&agents[i], &flock) {
            None => {
                proof {
                    assert(advanced(agents@, cell_size as int, dt as int, i as int).is_none());
                }
                return None;
            },
            Some(acc) => acc,
        };
        let moved = match integrate(&agents[i], acc, dt) {
            None => {
                proof {
                    assert(advanced(agents@, cell_size as int, dt as int, i as int).is_none());
                }
                return None;
            },
            Some(b) => b,
        };
        next.push(moved);
        i += 1;
    }
    proof {
        assert(next@ =~= next_agents(agents@, cell_size as int, dt as int));
    }
    Some(next)
}

/// The simulation engine.
#[derive(Debug)]
pub struct SimulationEngine {
    state: EngineState,
    clock: u64,
    config: EngineConfig,
    snapshot: Snapshot,
}

impl View for SimulationEngine {
    type V = EngineView;

    closed spec fn view(&self) -> EngineView {
        EngineView {
            state: self.state,
            clock: self.clock,
            config: self.config,
            frame: self.snapshot@,
        }
    }
}

impl SimulationEngine {
    #[verifier::type_invariant]
    spec fn inv(&self) -> bool {
        self@.wf()
    }

    /// Creates an idle engine whose agents are made from `seeds`, the seed
    /// at index `i` becoming the agent of identity `i`. Fails with the
    /// first fault of the request; nothing is created then.
    pub fn new(config: EngineConfig, seeds: &Vec<Seed>) -> (r: Result<SimulationEngine, StartupError>)
        ensures
            match r {
                Ok(engine) => {
                    &&& startup_fault(config, seeds@).is_none()
                    &&& engine@ == (EngineView {
                        state: EngineState::Idle,
                        clock: 0,
                        config,
                        frame: Frame { tick: 0, agents: seeded(seeds@) },
                    })
                    &&& engine@.wf()
                },
                Err(fault) => startup_fault(config, seeds@) == Some(fault),
            },
    {
        if config.population < 1 {
            return Err(StartupError::InvalidPopulation);
        }
        if config.tick_interval < 1 || config.tick_interval > LIMIT {
            return Err(StartupError::InvalidTickInterval);
        }
        if config.cell_size < 1 || config.cell_size > LIMIT {
            return Err(StartupError::InvalidCellSize);
        }
        let n = seeds.len();
        if n as u64 > i64::MAX as u64 || n as i64 != config.population {
            return Err(StartupError::SeedCountMismatch);
        }
        let mut agents: Vec<Agent> = Vec::new();
        let mut i: usize = 0;
        while i < n
            invariant
                i <= n,
                n == seeds@.len(),
                n == config.population,
                config.valid(),
                agents@.len() == i,
                forall|t: int| 0 <= t < i ==> (#[trigger] seeds@[t]).valid(),
                forall|t: int| 0 <= t < i ==> #[trigger] agents@[t] == seeded(seeds@)[t],
            decreases n - i,
        {
            let seed = seeds[i];
            if !seed.position.is_finite() || !seed.velocity.is_finite() || !seed.params.is_valid() {
                proof {
                    assert(!seeds@[i as int].valid());
                }
                return Err(StartupError::InvalidSeed);
            }
            agents.push(
                Agent {
                    id: i as u64,
                    position: seed.position,
                    velocity: seed.velocity,
                    params: seed.params,
                },
            );
            i += 1;
        }
        proof {
            assert(agents@ =~= seeded(seeds@));
        }
        let snapshot = Snapshot::assemble(0, agents);
        Ok(SimulationEngine { state: EngineState::Idle, clock: 0, config, snapshot })
    }

    /// Where the engine stands in its life.
    pub fn state(&self) -> (s: EngineState)
        ensures
            s == self@.state,
    {
        self.state
    }

    /// The number of ticks counted so far.
    pub fn clock(&self) -> (t: u64)
        ensures
            t == self@.clock,
    {
        self.clock
    }

    /// The length of one tick.
    pub fn tick_interval(&self) -> (dt: i64)
        ensures
            dt == self@.config.tick_interval,
            1 <= dt <= LIMIT,
    {
        proof {
            use_type_invariant(self);
        }
        self.config.tick_interval
    }

    /// The edge length of a cell of the spatial index.
    pub fn cell_size(&self) -> (cs: i64)
        ensures
            cs == self@.config.cell_size,
            1 <= cs <= LIMIT,
    {
        proof {
            use_type_invariant(self);
        }
        self.config.cell_size
    }

    /// The number of agents.
    pub fn population(&self) -> (n: usize)
        ensures
            n == self@.frame.agents.len(),
            n >= 1,
    {
        proof {
            use_type_invariant(self);
        }
        self.snapshot.len()
    }

    /// The last snapshot made.
    pub fn snapshot(&self) -> (s: &Snapshot)
        ensures
            s@ == self@.frame,
            self@.wf(),
    {
        proof {
            use_type_invariant(self);
        }
        &self.snapshot
    }

    /// Starts an idle engine and publishes its initial snapshot, that of
    /// tick zero, to `store`. An engine that is not idle is left alone.
    pub fn start(&mut self, store: &mut SnapshotStore) -> (started: bool)
        ensures
            started == (old(self)@.state == EngineState::Idle),
            started ==> final(self)@ == (EngineView { state: EngineState::Running, ..old(self)@ })
                && final(store)@ == Some(old(self)@.frame) && old(self)@.frame.tick == 0,
            !started ==> final(self)@ == old(self)@ && final(store)@ == old(store)@,
            final(self)@.wf(),
    {
        proof {
            use_type_invariant(&*self);
        }
        match self.state {
            EngineState::Idle => {
                self.state = EngineState::Running;
                store.publish(self.snapshot.duplicate());
                true
            },
            _ => false,
        }
    }

    /// Shuts the engine down. No tick is in flight between two calls, so
    /// no snapshot is left half made.
    pub fn stop(&mut self)
        ensures
            final(self)@ == (EngineView { state: EngineState::Stopped, ..old(self)@ }),
            final(self)@.wf(),
    {
        proof {
            use_type_invariant(&*self);
        }
        self.state = EngineState::Stopped;
    }

    /// Performs one tick without publishing: rebuilds the spatial index
    /// from the last snapshot, steers and integrates every agent, and
    /// replaces the snapshot if no agent met a numerical anomaly.
    pub fn advance(&mut self) -> (outcome: TickOutcome)
        ensures
            outcome == old(self)@.outcome(),
            final(self)@ == old(self)@.stepped(),
            final(self)@.wf(),
            ids_of(final(self)@.frame.agents) == ids_of(old(self)@.frame.agents),
            final(self)@.frame.tick >= old(self)@.frame.tick,
    {
        proof {
            use_type_invariant(&*self);
            lemma_step_keeps_population(self@);
            lemma_step_never_rewinds(self@);
        }
        match self.state {
            EngineState::Running => {},
            _ => { return TickOutcome::NotRunning; },
        }
        if self.clock == u64::MAX {
            self.state = EngineState::Stopped;
            return TickOutcome::ClockExhausted;
        }
        let next = advance_all(
            self.snapshot.agents(),
            self.config.cell_size,
            self.config.tick_interval,
        );
        self.clock = self.clock + 1;
        match next {
            None => TickOutcome::Corrupted,
            Some(agents) => {
                proof {
                    assert forall|i: int, j: int| 0 <= i < j < agents@.len() implies agents@[i].id
                        < agents@[j].id by {
                        assert(agents@[i].id == i);
                        assert(agents@[j].id == j);
                    }
                }
                self.snapshot = Snapshot::assemble(self.clock, agents);
                TickOutcome::Published
            },
        }
    }

    /// Performs one tick and, if it went well, publishes the new snapshot
    /// to `store`. After a corrupted tick the store keeps what it held.
    pub fn tick(&mut self, store: &mut SnapshotStore) -> (outcome: TickOutcome)
        ensures
            outcome == old(self)@.outcome(),
            final(self)@ == old(self)@.stepped(),
            final(self)@.wf(),
            ids_of(final(self)@.frame.agents) == ids_of(old(self)@.frame.agents),
            outcome == TickOutcome::Published ==> final(store)@ == Some(final(self)@.frame),
            outcome != TickOutcome::Published ==> final(store)@ == old(store)@,
            old(store)@ == Some(old(self)@.frame) ==> final(store)@ == Some(final(self)@.frame)
                && final(store)@.unwrap().tick >= old(store)@.unwrap().tick,
    {
        let outcome = self.advance();
        match outcome {
            TickOutcome::Published => {
                store.publish(self.snapshot.duplicate());
            },
            _ => {},
        }
        outcome
    }
}

} // verus!
