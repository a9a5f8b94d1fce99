//! Rules of the advisory coordination between agents: who may claim an
//! entity, when an agent counts as stale, and which entities several agents
//! touch at once. The rules work on plain values; keeping the shared state
//! is left to the caller.

use vstd::prelude::*;
use crate::conflict::opt_string_view;
use crate::text::{lemma_view_all_push, view_all};

verus! {

/// The answer to an attempt to claim an entity.
#[derive(Debug, Clone, PartialEq, Eq)]
pub enum ClaimResult {
    /// The entity was free and is now claimed.
    Claimed,
    /// The entity was already claimed by the asking agent.
    AlreadyOwnedBySelf,
    /// The entity is claimed by another agent.
    AlreadyClaimed { by: String },
}

/// The mathematical content of a [`ClaimResult`].
pub enum ClaimView {
    Claimed,
    AlreadyOwnedBySelf,
    AlreadyClaimed { by: Seq<char> },
}

impl View for ClaimResult {
    type V = ClaimView;

    open spec fn view(&self) -> ClaimView {
        match self {
            ClaimResult::Claimed => ClaimView::Claimed,
            ClaimResult::AlreadyOwnedBySelf => ClaimView::AlreadyOwnedBySelf,
            ClaimResult::AlreadyClaimed { by } => ClaimView::AlreadyClaimed { by: by@ },
        }
    }
}

/// What is recorded of an entity.
#[derive(Debug, Clone)]
pub struct EntityStatus {
    pub entity_id: String,
    pub name: String,
    pub entity_type: String,
    pub file_path: String,
    pub content_hash: String,
    pub claimed_by: Option<String>,
    pub claimed_at: Option<u64>,
    pub last_modified_by: Option<String>,
    pub last_modified_at: Option<u64>,
    pub version: u64,
}

/// What is recorded of an agent.
#[derive(Debug, Clone)]
pub struct AgentStatus {
    pub agent_id: String,
    pub name: String,
    pub status: String,
    pub branch: String,
    /// Milliseconds since the epoch at which the agent was last heard of.
    pub last_seen: u64,
    /// The identities of the entities the agent says it works on.
    pub working_on: Vec<String>,
}

/// An entity that more than one agent touches.
#[derive(Debug, Clone)]
pub struct PotentialConflict {
    pub entity_id: String,
    pub entity_name: String,
    pub file_path: String,
    pub agents: Vec<String>,
}

/// The mathematical content of an [`EntityStatus`].
pub struct EntityStatusView {
    pub entity_id: Seq<char>,
    pub name: Seq<char>,
    pub entity_type: Seq<char>,
    pub file_path: Seq<char>,
    pub content_hash: Seq<char>,
    pub claimed_by: Option<Seq<char>>,
    pub claimed_at: Option<u64>,
    pub last_modified_by: Option<Seq<char>>,
    pub last_modified_at: Option<u64>,
    pub version: u64,
}

/// The mathematical content of an [`AgentStatus`].
pub struct AgentStatusView {
    pub agent_id: Seq<char>,
    pub name: Seq<char>,
    pub status: Seq<char>,
    pub branch: Seq<char>,
    pub last_seen: u64,
    pub working_on: Seq<Seq<char>>,
}

/// The mathematical content of a [`PotentialConflict`].
pub struct PotentialConflictView {
    pub entity_id: Seq<char>,
    pub entity_name: Seq<char>,
    pub file_path: Seq<char>,
    pub agents: Seq<Seq<char>>,
}

impl View for EntityStatus {
    type V = EntityStatusView;

    open spec fn view(&self) -> EntityStatusView {
        EntityStatusView {
            entity_id: self.entity_id@,
            name: self.name@,
            entity_type: self.entity_type@,
            file_path: self.file_path@,
            content_hash: self.content_hash@,
            claimed_by: opt_string_view(self.claimed_by),
            claimed_at: self.claimed_at,
            last_modified_by: opt_string_view(self.last_modified_by),
            last_modified_at: self.last_modified_at,
            version: self.version,
        }
    }
}

impl View for AgentStatus {
    type V = AgentStatusView;

    open spec fn view(&self) -> AgentStatusView {
        AgentStatusView {
            agent_id: self.agent_id@,
            name: self.name@,
            status: self.status@,
            branch: self.branch@,
            last_seen: self.last_seen,
            working_on: view_all(self.working_on@),
        }
    }
}

impl View for PotentialConflict {
    type V = PotentialConflictView;

    open spec fn view(&self) -> PotentialConflictView {
        PotentialConflictView {
            entity_id: self.entity_id@,
            entity_name: self.entity_name@,
            file_path: self.file_path@,
            agents: view_all(self.agents@),
        }
    }
}

/// The answer to `agent` asking for an entity whose claimant is `current`.
pub open spec fn claim_answer(current: Option<Seq<char>>, agent: Seq<char>) -> ClaimView {
    match current {
        Some(owner) => if owner == agent {
            ClaimView::AlreadyOwnedBySelf
        } else {
            ClaimView::AlreadyClaimed { by: owner }
        },
        None => ClaimView::Claimed,
    }
}

/// Decides an attempt of `agent_id` to claim an entity whose claimant is
/// `current`. The claim is to be recorded exactly when the answer is
/// `Claimed`.
pub fn decide_claim(current: &Option<String>, agent_id: &String) -> (r: ClaimResult)
    ensures
        r@ == claim_answer(opt_string_view(*current), agent_id@),
{
    match current {
        Some(owner) => {
            if *owner == *agent_id {
                ClaimResult::AlreadyOwnedBySelf
            } else {
                ClaimResult::AlreadyClaimed { by: owner.clone() }
            }
        },
        None => ClaimResult::Claimed,
    }
}

/// Whether `agent_id` may release an entity whose claimant is `current`:
/// only the claimant may.
pub fn may_release(current: &Option<String>, agent_id: &String) -> (r: bool)
    ensures
        r == (opt_string_view(*current) == Some(agent_id@)),
{
    match current {
        Some(owner) => *owner == *agent_id,
        None => false,
    }
}

/// Whether an agent last seen at `last_seen` is stale at `now`: more than
/// `timeout_ms` milliseconds have passed.
pub fn is_stale(now: u64, last_seen: u64, timeout_ms: u64) -> (r: bool)
    requires
        last_seen <= now,
    ensures
        r == (now - last_seen > timeout_ms),
{
    now - last_seen > timeout_ms
}

/// The agents among the first `n` that are stale at `now`, in order.
pub open spec fn stale_among(agents: Seq<AgentStatusView>, n: nat, now: u64, timeout_ms: u64) -> Seq<
    Seq<char>,
>
    decreases n,
{
    if n == 0 {
        Seq::empty()
    } else {
        let rest = stale_among(agents, (n - 1) as nat, now, timeout_ms);
        if now - agents[n - 1].last_seen > timeout_ms {
            rest.push(agents[n - 1].agent_id)
        } else {
            rest
        }
    }
}

/// The identities of the agents that are stale at `now`.
pub fn stale_agents(agents: &Vec<AgentStatus>, now: u64, timeout_ms: u64) -> (r: Vec<String>)
    requires
        forall|i: int| 0 <= i < agents.len() ==> (#[trigger] agents[i]).last_seen <= now,
    ensures
        view_all(r@) == stale_among(view_all(agents@), agents.len() as nat, now, timeout_ms),
{
    let mut out: Vec<String> = Vec::new();
    let mut i: usize = 0;
    assert(view_all(out@) =~= Seq::<Seq<char>>::empty());
    while i < agents.len()
        invariant
            i <= agents.len(),
            forall|k: int| 0 <= k < agents.len() ==> (#[trigger] agents[k]).last_seen <= now,
            view_all(out@) == stale_among(view_all(agents@), i as nat, now, timeout_ms),
        decreases agents.len() - i,
    {
        assert(view_all(agents@)[i as int] == agents[i as int]@);
        if is_stale(now, agents[i].last_seen, timeout_ms) {
            let id = agents[i].agent_id.clone();
            proof {
                lemma_view_all_push(out@, id);
            }
            out.push(id);
        }
        i += 1;
    }
    out
}

/// The agent `agent`, once for each time `id` is among the first `n`
/// entries of `working_on`.
pub open spec fn mentions(working_on: Seq<Seq<char>>, n: nat, id: Seq<char>, agent: Seq<char>) -> Seq<
    Seq<char>,
>
    decreases n,
{
    if n == 0 {
        Seq::empty()
    } else {
        let rest = mentions(working_on, (n - 1) as nat, id, agent);
        if working_on[n - 1] == id {
            rest.push(agent)
        } else {
            rest
        }
    }
}

/// The agents among the first `n` that say they work on `id`, in order; an
/// agent that is marked stale does not count.
pub open spec fn workers(agents: Seq<AgentStatusView>, n: nat, id: Seq<char>) -> Seq<Seq<char>>
    decreases n,
{
    if n == 0 {
        Seq::empty()
    } else {
        let rest = workers(agents, (n - 1) as nat, id);
        let a = agents[n - 1];
        if a.status == "stale"@ {
            rest
        } else {
            rest + mentions(a.working_on, a.working_on.len(), id, a.agent_id)
        }
    }
}

/// The agents that touch an entity: those that say they work on it, and
/// its claimant where it is not among them.
pub open spec fn touching(agents: Seq<AgentStatusView>, e: EntityStatusView) -> Seq<Seq<char>> {
    let w = workers(agents, agents.len(), e.entity_id);
    match e.claimed_by {
        Some(c) => if w.contains(c) {
            w
        } else {
            w.push(c)
        },
        None => w,
    }
}

/// The potential conflicts among the first `n` entities: one for each
/// entity that more than one agent touches.
pub open spec fn conflicts_among(
    agents: Seq<AgentStatusView>,
    entities: Seq<EntityStatusView>,
    n: nat,
) -> Seq<PotentialConflictView>
    decreases n,
{
    if n == 0 {
        Seq::empty()
    } else {
        let rest = conflicts_among(agents, entities, (n - 1) as nat);
        let e = entities[n - 1];
        let t = touching(agents, e);
        if t.len() > 1 {
            rest.push(
                PotentialConflictView {
                    entity_id: e.entity_id,
                    entity_name: e.name,
                    file_path: e.file_path,
                    agents: t,
                },
            )
        } else {
            rest
        }
    }
}

fn name_in(names: &Vec<String>, name: &String) -> (r: bool)
    ensures
        r == view_all(names@).contains(name@),
{
    let mut i: usize = 0;
    while i < names.len()
        invariant
            i <= names.len(),
            forall|k: int| 0 <= k < i ==> view_all(names@)[k] != name@,
        decreases names.len() - i,
    {
        if names[i] == *name {
            assert(view_all(names@)[i as int] == name@);
            return true;
        }
        i += 1;
    }
    false
}

/// The agents that touch the entity `entity`.
pub fn touching_agents(agents: &Vec<AgentStatus>, entity: &EntityStatus) -> (r: Vec<String>)
    ensures
        view_all(r@) == touching(view_all(agents@), entity@),
{
    let ghost av = view_all(agents@);
    let ghost id = entity.entity_id@;
    let stale = "stale".to_owned();
    let mut out: Vec<String> = Vec::new();
    let mut i: usize = 0;
    assert(view_all(out@) =~= Seq::<Seq<char>>::empty());
    while i < agents.len()
        invariant
            i <= agents.len(),
            av == view_all(agents@),
            id == entity.entity_id@,
            stale@ == "stale"@,
            view_all(out@) == workers(av, i as nat, id),
        decreases agents.len() - i,
    {
        let a = &agents[i];
        assert(av[i as int] == a@);
        if !(a.status == stale) {
            let ghost before = view_all(out@);
            let ghost w = view_all(a.working_on@);
            let mut j: usize = 0;
            assert(view_all(out@) =~= before + mentions(w, 0, id, a.agent_id@));
            while j < a.working_on.len()
                invariant
                    j <= a.working_on.len(),
                    w == view_all(a.working_on@),
                    id == entity.entity_id@,
                    view_all(out@) == before + mentions(w, j as nat, id, a.agent_id@),
                decreases a.working_on.len() - j,
            {
                assert(w[j as int] == a.working_on@[j as int]@);
                if a.working_on[j] == entity.entity_id {
                    let who = a.agent_id.clone();
                    proof {
                        lemma_view_all_push(out@, who);
                        assert(before + mentions(w, j as nat, id, a.agent_id@).push(who@) =~= (before
                            + mentions(w, j as nat, id, a.agent_id@)).push(who@));
                    }
                    out.push(who);
                }
                j += 1;
            }
        }
        i += 1;
    }
    match &entity.claimed_by {
        Some(c) => {
            if !name_in(&out, c) {
                let who = c.clone();
                proof {
                    lemma_view_all_push(out@, who);
                }
                out.push(who);
            }
        },
        None => {},
    }
    out
}

/// Finds the entities that more than one agent touches: agents that say
/// they work on the entity, and the agent that has claimed it.
pub fn find_potential_conflicts(agents: &Vec<AgentStatus>, entities: &Vec<EntityStatus>) -> (r: Vec<
    PotentialConflict,
>)
    ensures
        view_all(r@) == conflicts_among(
            view_all(agents@),
            view_all(entities@),
            entities.len() as nat,
        ),
{
    let ghost av = view_all(agents@);
    let ghost ev = view_all(entities@);
    let mut out: Vec<PotentialConflict> = Vec::new();
    let mut i: usize = 0;
    assert(view_all(out@) =~= Seq::<PotentialConflictView>::empty());
    while i < entities.len()
        invariant
            i <= entities.len(),
            av == view_all(agents@),
            ev == view_all(entities@),
            view_all(out@) == conflicts_among(av, ev, i as nat),
        decreases entities.len() - i,
    {
        let e = &entities[i];
        assert(ev[i as int] == e@);
        let t = touching_agents(agents, e);
        if t.len() > 1 {
            let c = PotentialConflict {
                entity_id: e.entity_id.clone(),
                entity_name: e.name.clone(),
                file_path: e.file_path.clone(),
                agents: t,
            };
            proof {
                lemma_view_all_push(out@, c);
            }
            out.push(c);
        }
        i += 1;
    }
    out
}

} // verus!
