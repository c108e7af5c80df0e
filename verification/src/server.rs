//! The query service: answers requests for the current state of the
//! agents from the most recently published snapshot.

use vstd::prelude::*;
use crate::agent::Agent;
use crate::snapshot::{Frame, Snapshot, SnapshotStore};
use crate::vec3::Vec3;

verus! {

/// Filter kind of a request that asks for agents by identity.
pub const FILTER_ID_RANGE: u32 = 1;

/// Filter kind of a request that asks for agents by position.
pub const FILTER_REGION: u32 = 2;

/// A filter as it arrives: a kind, and the bounds that the kind reads.
#[derive(Clone, Copy, Debug, PartialEq, Eq, Structural)]
pub struct RawFilter {
    /// [`FILTER_ID_RANGE`] or [`FILTER_REGION`]; any other is not recognized.
    pub kind: u32,
    /// Lowest identity asked for, read by an identity filter.
    pub first_id: u64,
    /// Highest identity asked for, read by an identity filter.
    pub last_id: u64,
    /// Lowest corner of the region asked for, read by a region filter.
    pub low: Vec3,
    /// Highest corner of the region asked for, read by a region filter.
    pub high: Vec3,
}

/// A request for the state of the agents. Without a filter it asks for all.
#[derive(Clone, Copy, Debug, PartialEq, Eq, Structural)]
pub struct BoidRequest {
    pub filter: Option<RawFilter>,
}

/// A filter that was recognized and found well formed.
#[derive(Clone, Copy, Debug, PartialEq, Eq, Structural)]
pub enum Filter {
    /// Every agent.
    All,
    /// The agents whose identity lies between `first` and `last`, both included.
    IdRange { first: u64, last: u64 },
    /// The agents whose position lies in the box from `low` to `high`, both included.
    Region { low: Vec3, high: Vec3 },
}

/// Why a request was not answered.
#[derive(Clone, Copy, Debug, PartialEq, Eq, Structural)]
pub enum Fault {
    /// The kind of the filter is not known.
    UnrecognizedFilter,
    /// The bounds of the filter are the wrong way round.
    MalformedFilter,
    /// No snapshot has been published yet.
    NotStarted,
}

/// The kind of failure reported to a caller.
#[derive(Clone, Copy, Debug, PartialEq, Eq, Structural)]
pub enum StatusKind {
    /// The request is at fault; sending it again will not help.
    InvalidRequest,
    /// The engine is not running yet; the caller may try again later.
    Unavailable,
    /// The server is at fault.
    Internal,
}

/// A failure as reported to a caller: a kind and a message for people.
#[derive(Debug, PartialEq, Eq)]
pub struct Status {
    pub kind: StatusKind,
    pub message: String,
}

/// The state of one agent as reported to a caller.
#[derive(Clone, Copy, Debug, PartialEq, Eq, Structural)]
pub struct Boid {
    pub id: u64,
    pub position: Vec3,
    pub velocity: Vec3,
}

/// The answer to a request: the agents asked for, by ascending identity.
#[derive(Debug, PartialEq, Eq)]
pub struct BoidVec {
    pub boids: Vec<Boid>,
}

impl Fault {
    /// The kind under which the fault is reported.
    pub open spec fn kind(self) -> StatusKind {
        match self {
            Fault::UnrecognizedFilter => StatusKind::InvalidRequest,
            Fault::MalformedFilter => StatusKind::InvalidRequest,
            Fault::NotStarted => StatusKind::Unavailable,
        }
    }

    /// The message with which the fault is reported.
    pub open spec fn message(self) -> Seq<char> {
        match self {
            Fault::UnrecognizedFilter => "unrecognized filter kind"@,
            Fault::MalformedFilter => "filter bounds out of order"@,
            Fault::NotStarted => "simulation has not started"@,
        }
    }

    /// The status that reports the fault.
    pub fn status(self) -> (s: Status)
        ensures
            s.kind == self.kind(),
            s.message@ == self.message(),
    {
        match self {
            Fault::UnrecognizedFilter => Status {
                kind: StatusKind::InvalidRequest,
                message: "unrecognized filter kind".to_owned(),
            },
            Fault::MalformedFilter => Status {
                kind: StatusKind::InvalidRequest,
                message: "filter bounds out of order".to_owned(),
            },
            Fault::NotStarted => Status {
                kind: StatusKind::Unavailable,
                message: "simulation has not started".to_owned(),
            },
        }
    }
}

/// The filter that a request holds, or the fault in it.
pub open spec fn parsed(request: BoidRequest) -> Result<Filter, Fault> {
    match request.filter {
        None => Ok(Filter::All),
        Some(raw) => if raw.kind == FILTER_ID_RANGE {
            if raw.first_id <= raw.last_id {
                Ok(Filter::IdRange { first: raw.first_id, last: raw.last_id })
            } else {
                Err(Fault::MalformedFilter)
            }
        } else if raw.kind == FILTER_REGION {
            if raw.low.x <= raw.high.x && raw.low.y <= raw.high.y && raw.low.z <= raw.high.z {
                Ok(Filter::Region { low: raw.low, high: raw.high })
            } else {
                Err(Fault::MalformedFilter)
            }
        } else {
            Err(Fault::UnrecognizedFilter)
        },
    }
}

/// Reads the filter of a request.
pub fn parse_filter(request: &BoidRequest) -> (r: Result<Filter, Fault>)
    ensures
        r == parsed(*request),
{
    match request.filter {
        None => Ok(Filter::All),
        Some(raw) => {
            if raw.kind == FILTER_ID_RANGE {
                if raw.first_id <= raw.last_id {
                    Ok(Filter::IdRange { first: raw.first_id, last: raw.last_id })
                } else {
                    Err(Fault::MalformedFilter)
                }
            } else if raw.kind == FILTER_REGION {
                if raw.low.x <= raw.high.x && raw.low.y <= raw.high.y && raw.low.z <= raw.high.z {
                    Ok(Filter::Region { low: raw.low, high: raw.high })
                } else {
                    Err(Fault::MalformedFilter)
                }
            } else {
                Err(Fault::UnrecognizedFilter)
            }
        },
    }
}

impl Filter {
    /// Whether the filter lets agent `a` through.
    pub open spec fn passes(self, a: Agent) -> bool {
        match self {
            Filter::All => true,
            Filter::IdRange { first, last } => first <= a.id <= last,
            Filter::Region { low, high } => {
                &&& low.x <= a.position.x <= high.x
                &&& low.y <= a.position.y <= high.y
                &&& low.z <= a.position.z <= high.z
            },
        }
    }

    /// Decides whether the filter lets `agent` through.
    pub fn admits(&self, agent: &Agent) -> (b: bool)
        ensures
            b == self.passes(*agent),
    {
        match self {
            Filter::All => true,
            Filter::IdRange { first, last } => *first <= agent.id && agent.id <= *last,
            Filter::Region { low, high } => {
                low.x <= agent.position.x && agent.position.x <= high.x && low.y
                    <= agent.position.y && agent.position.y <= high.y && low.z
                    <= agent.position.z && agent.position.z <= high.z
            },
        }
    }
}

/// What is reported of agent `a`.
pub open spec fn report_of(a: Agent) -> Boid {
    Boid { id: a.id, position: a.position, velocity: a.velocity }
}

/// The reports of the agents that pass `filter`, in the order of `agents`.
pub open spec fn selected(agents: Seq<Agent>, filter: Filter) -> Seq<Boid>
    decreases agents.len(),
{
    if agents.len() == 0 {
        Seq::empty()
    } else if filter.passes(agents.last()) {
        selected(agents.drop_last(), filter).push(report_of(agents.last()))
    } else {
        selected(agents.drop_last(), filter)
    }
}

/// The answer owed to `request` when `held` is what the store holds: the
/// fault of the request if it has one; else a fault if nothing is
/// published; else the selected reports.
pub open spec fn answer(held: Option<Frame>, request: BoidRequest) -> Result<Seq<Boid>, Fault> {
    match parsed(request) {
        Err(fault) => Err(fault),
        Ok(filter) => match held {
            None => Err(Fault::NotStarted),
            Some(frame) => Ok(selected(frame.agents, filter)),
        },
    }
}

/// Without a filter every agent is reported, in order.
pub proof fn lemma_selected_all(agents: Seq<Agent>)
    ensures
        selected(agents, Filter::All) == Seq::new(agents.len(), |i: int| report_of(agents[i])),
    decreases agents.len(),
{
    if agents.len() > 0 {
        lemma_selected_all(agents.drop_last());
        assert(selected(agents, Filter::All) =~= Seq::new(
            agents.len(),
            |i: int| report_of(agents[i]),
        ));
    }
}

/// A filter that no agent passes selects nothing; this is an answer, not a
/// fault.
pub proof fn lemma_selected_none(agents: Seq<Agent>, filter: Filter)
    requires
        forall|i: int| 0 <= i < agents.len() ==> !filter.passes(#[trigger] agents[i]),
    ensures
        selected(agents, filter) == Seq::<Boid>::empty(),
    decreases agents.len(),
{
    if agents.len() > 0 {
        assert(!filter.passes(agents[agents.len() - 1]));
        assert forall|i: int| 0 <= i < agents.drop_last().len() implies !filter.passes(
            #[trigger] agents.drop_last()[i],
        ) by {
            assert(agents.drop_last()[i] == agents[i]);
        }
        lemma_selected_none(agents.drop_last(), filter);
    }
}

/// Every report selected is that of an agent that passes the filter, and
/// every such agent is reported.
pub proof fn lemma_selected_exact(agents: Seq<Agent>, filter: Filter, b: Boid)
    ensures
        selected(agents, filter).contains(b) <==> exists|i: int|
            0 <= i < agents.len() && filter.passes(#[trigger] agents[i]) && report_of(agents[i])
                == b,
    decreases agents.len(),
{
    if agents.len() > 0 {
        let rest = agents.drop_last();
        let last = agents.last();
        lemma_selected_exact(rest, filter, b);
        let out = selected(agents, filter);
        let before = selected(rest, filter);
        if out.contains(b) {
            let k = choose|k: int| 0 <= k < out.len() && out[k] == b;
            if filter.passes(last) && k == out.len() - 1 {
                assert(filter.passes(agents[agents.len() - 1]) && report_of(
                    agents[agents.len() - 1],
                ) == b);
            } else {
                assert(before[k] == b);
                let i = choose|i: int|
                    0 <= i < rest.len() && filter.passes(#[trigger] rest[i]) && report_of(rest[i])
                        == b;
                assert(agents[i] == rest[i]);
            }
        }
        if exists|i: int|
            0 <= i < agents.len() && filter.passes(#[trigger] agents[i]) && report_of(agents[i])
                == b {
            let i = choose|i: int|
                0 <= i < agents.len() && filter.passes(#[trigger] agents[i]) && report_of(
                    agents[i],
                ) == b;
            if i == agents.len() - 1 {
                assert(out[out.len() - 1] == b);
            } else {
                assert(rest[i] == agents[i]);
                assert(before.contains(b));
                let k = choose|k: int| 0 <= k < before.len() && before[k] == b;
                assert(out[k] == b);
            }
        }
    }
}

/// Collects the reports of the agents of `snapshot` that pass `filter`.
pub fn select(snapshot: &Snapshot, filter: &Filter) -> (boids: Vec<Boid>)
    ensures
        boids@ == selected(snapshot@.agents, *filter),
{
    let agents = snapshot.agents();
    let mut boids: Vec<Boid> = Vec::new();
    let mut i: usize = 0;
    while i < agents.len()
        invariant
            i <= agents@.len(),
            boids@ == selected(agents@.take(i as int), *filter),
        decreases agents@.len() - i,
    {
        proof {
            assert(agents@.take(i + 1).drop_last() =~= agents@.take(i as int));
        }
        let a = agents[i];
        if filter.admits(&a) {
            boids.push(Boid { id: a.id, position: a.position, velocity: a.velocity });
        }
        i += 1;
    }
    proof {
        assert(agents@.take(i as int) =~= agents@);
    }
    boids
}

/// The query service. It reads from its store, into which the engine
/// publishes.
#[derive(Debug)]
pub struct BoidServer {
    pub store: SnapshotStore,
}

impl View for BoidServer {
    type V = Option<Frame>;

    open spec fn view(&self) -> Option<Frame> {
        self.store@
    }
}

impl BoidServer {
    /// A server to which nothing has been published yet.
    pub fn new() -> (server: BoidServer)
        ensures
            server@.is_none(),
    {
        BoidServer { store: SnapshotStore::new() }
    }

    /// Answers `request` from the snapshot that the store holds. The answer
    /// is complete or it is a failure, never a part of the agents asked for.
    pub fn get_boid(&self, request: &BoidRequest) -> (r: Result<BoidVec, Status>)
        ensures
            match r {
                Ok(found) => answer(self@, *request) == Ok::<Seq<Boid>, Fault>(found.boids@),
                Err(status) => answer(self@, *request) matches Err(fault) && status.kind
                    == fault.kind() && status.message@ == fault.message(),
            },
            request.filter.is_none() ==> (r matches Ok(found) ==> self@ matches Some(frame)
                && found.boids@ == Seq::new(frame.agents.len(), |i: int| report_of(frame.agents[i]))),
    {
        let filter = match parse_filter(request) {
            Err(fault) => { return Err(fault.status()); },
            Ok(filter) => filter,
        };
        match self.store.current() {
            None => Err(Fault::NotStarted.status()),
            Some(snapshot) => {
                proof {
                    lemma_selected_all(snapshot@.agents);
                }
                Ok(BoidVec { boids: select(snapshot, &filter) })
            },
        }
    }
}

impl Default for BoidServer {
    fn default() -> (server: BoidServer)
        ensures
            server@.is_none(),
    {
        BoidServer::new()
    }
}

} // verus!
