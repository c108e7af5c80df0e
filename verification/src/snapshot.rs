//! Snapshots of the world at one tick, and the store that holds the most
//! recently published one.

use vstd::prelude::*;
use crate::agent::Agent;

verus! {

/// The agents are ordered by strictly ascending identity.
pub open spec fn ascending(agents: Seq<Agent>) -> bool {
    forall|i: int, j: int| 0 <= i < j < agents.len() ==> agents[i].id < agents[j].id
}

/// The identities of `agents`, in order.
pub open spec fn ids_of(agents: Seq<Agent>) -> Seq<u64> {
    Seq::new(agents.len(), |i: int| agents[i].id)
}

/// The mathematical content of a snapshot.
pub struct Frame {
    pub tick: u64,
    pub agents: Seq<Agent>,
}

/// The state of every agent at one tick. A snapshot is never changed once
/// made; its agents are ordered by strictly ascending identity.
#[derive(Debug)]
pub struct Snapshot {
    tick: u64,
    agents: Vec<Agent>,
}

impl View for Snapshot {
    type V = Frame;

    closed spec fn view(&self) -> Frame {
        Frame { tick: self.tick, agents: self.agents@ }
    }
}

impl Snapshot {
    #[verifier::type_invariant]
    spec fn inv(&self) -> bool {
        ascending(self.agents@)
    }

    /// Makes the snapshot of `agents` at `tick`; `None` unless the agents
    /// are ordered by strictly ascending identity.
    pub fn new(tick: u64, agents: Vec<Agent>) -> (r: Option<Snapshot>)
        ensures
            r.is_some() <==> ascending(agents@),
            r matches Some(s) ==> s@ == (Frame { tick, agents: agents@ }),
    {
        let n = agents.len();
        let mut i: usize = 1;
        while i < n
            invariant
                1 <= i,
                n == agents@.len(),
                forall|k: int| 0 <= k && k + 1 < i && k + 1 < n ==> (#[trigger] agents@[k]).id
                    < agents@[k + 1].id,
            decreases n - i,
        {
            if agents[i - 1].id >= agents[i].id {
                return None;
            }
            i += 1;
        }
        proof {
            lemma_chain_ascends(agents@);
        }
        Some(Snapshot { tick, agents })
    }

    /// Makes the snapshot of `agents`, known to be in order, at `tick`.
    pub(crate) fn assemble(tick: u64, agents: Vec<Agent>) -> (s: Snapshot)
        requires
            ascending(agents@),
        ensures
            s@ == (Frame { tick, agents: agents@ }),
    {
        Snapshot { tick, agents }
    }

    /// The tick at which the snapshot was taken.
    pub fn tick(&self) -> (t: u64)
        ensures
            t == self@.tick,
    {
        self.tick
    }

    /// The number of agents.
    pub fn len(&self) -> (n: usize)
        ensures
            n == self@.agents.len(),
    {
        self.agents.len()
    }

    /// The agents, ordered by strictly ascending identity.
    pub fn agents(&self) -> (r: &Vec<Agent>)
        ensures
            r@ == self@.agents,
            ascending(r@),
    {
        proof {
            use_type_invariant(self);
        }
        &self.agents
    }

    /// An independent copy of the snapshot.
    pub fn duplicate(&self) -> (s: Snapshot)
        ensures
            s@ == self@,
    {
        proof {
            use_type_invariant(self);
        }
        let n = self.agents.len();
        let mut agents: Vec<Agent> = Vec::new();
        let mut i: usize = 0;
        while i < n
            invariant
                i <= n,
                n == self.agents@.len(),
                agents@ == self.agents@.take(i as int),
            decreases n - i,
        {
            agents.push(self.agents[i]);
            proof {
                assert(agents@ =~= self.agents@.take(i + 1));
            }
            i += 1;
        }
        proof {
            assert(agents@ =~= self.agents@);
        }
        Snapshot { tick: self.tick, agents }
    }
}

/// Agents each of lower identity than the next are in ascending order.
pub proof fn lemma_chain_ascends(agents: Seq<Agent>)
    requires
        forall|k: int| 0 <= k && k + 1 < agents.len() ==> (#[trigger] agents[k]).id < agents[k
            + 1].id,
    ensures
        ascending(agents),
{
    assert forall|i: int, j: int| 0 <= i < j < agents.len() implies agents[i].id
        < agents[j].id by {
        lemma_chain_reaches(agents, i, j);
    }
}

proof fn lemma_chain_reaches(agents: Seq<Agent>, i: int, j: int)
    requires
        forall|k: int| 0 <= k && k + 1 < agents.len() ==> (#[trigger] agents[k]).id < agents[k
            + 1].id,
        0 <= i < j < agents.len(),
    ensures
        agents[i].id < agents[j].id,
    decreases j - i,
{
    if j > i + 1 {
        lemma_chain_reaches(agents, i, j - 1);
    }
    assert(agents[j - 1].id < agents[j - 1 + 1].id);
}

/// Agents in ascending order carry pairwise distinct identities.
pub proof fn lemma_ascending_distinct(agents: Seq<Agent>, i: int, j: int)
    requires
        ascending(agents),
        0 <= i < agents.len(),
        0 <= j < agents.len(),
        i != j,
    ensures
        agents[i].id != agents[j].id,
{
    if i < j {
        assert(agents[i].id < agents[j].id);
    } else {
        assert(agents[j].id < agents[i].id);
    }
}

/// Holds the most recently published snapshot. Publishing replaces the held
/// snapshot as a whole; a reader sees one complete snapshot or none.
#[derive(Debug)]
pub struct SnapshotStore {
    held: Option<Snapshot>,
}

impl View for SnapshotStore {
    type V = Option<Frame>;

    closed spec fn view(&self) -> Option<Frame> {
        match self.held {
            Some(s) => Some(s@),
            None => None,
        }
    }
}

impl SnapshotStore {
    /// A store into which nothing has been published yet.
    pub fn new() -> (store: SnapshotStore)
        ensures
            store@.is_none(),
    {
        SnapshotStore { held: None }
    }

    /// Replaces the held snapshot by `snapshot`.
    pub fn publish(&mut self, snapshot: Snapshot)
        ensures
            final(self)@ == Some(snapshot@),
    {
        self.held = Some(snapshot);
    }

    /// The held snapshot; `None` while nothing has been published.
    pub fn current(&self) -> (r: Option<&Snapshot>)
        ensures
            r.is_some() <==> self@.is_some(),
            r matches Some(s) ==> self@ == Some(s@),
    {
        self.held.as_ref()
    }
}

} // verus!
