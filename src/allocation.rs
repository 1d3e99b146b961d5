//! Greedy allocation of agents to ranked mission objectives, the action each
//! agent takes under an allocation, and the replanning trigger.
use crate::ranking::{is_index_permutation, is_stable_descending, rank_by_urgency};
use vstd::prelude::*;

verus! {

/// Kind of a mission objective.
#[derive(Debug, Clone, Copy, PartialEq, Eq, Structural)]
pub enum ObjectiveType {
    Survey,
    WaterDelivery,
    SoilAmendment,
    WildlifeMonitoring,
    FireSuppressionPrep,
}

/// Action handed back to an agent once objectives have been allocated.
#[derive(Debug, Clone, Copy, PartialEq, Eq, Structural)]
pub enum SwarmAction {
    Survey,
    Deliver,
    Amend,
    Monitor,
    Retreat,
    Explore,
}

/// One agent assigned to one objective; `objective` is the objective's index
/// in the caller's objective list.
#[derive(Debug, Clone, Copy, PartialEq, Eq, Structural)]
pub struct Assignment {
    pub agent_id: u64,
    pub objective: usize,
}

/// Agents needed by the first `j` objectives of the ranking `order`.
pub open spec fn demand_before(required: Seq<u32>, order: Seq<usize>, j: int) -> int
    decreases j,
{
    if j <= 0 {
        0
    } else {
        demand_before(required, order, j - 1) + required[order[j - 1] as int] as int
    }
}

/// Agents needed by all objectives of the ranking.
pub open spec fn total_demand(required: Seq<u32>, order: Seq<usize>) -> int {
    demand_before(required, order, order.len() as int)
}

/// `order` ranks objectives that exist in `required`.
pub open spec fn valid_ranking(required: Seq<u32>, order: Seq<usize>) -> bool {
    forall|j: int| 0 <= j < order.len() ==> order[j] < required.len()
}

/// The greedy allocation: walking the ranking, the agents are consumed in
/// their enumeration order and each objective takes its required count
/// before the next one is served. The `t`-th agent goes to the `j`-th ranked
/// objective exactly when `t` falls in that objective's share of the demand;
/// agents beyond the total demand stay unassigned.
pub open spec fn is_greedy_allocation(
    agent_ids: Seq<u64>,
    required: Seq<u32>,
    order: Seq<usize>,
    r: Seq<Assignment>,
) -> bool {
    &&& r.len() == if agent_ids.len() < total_demand(required, order) {
        agent_ids.len() as int
    } else {
        total_demand(required, order)
    }
    &&& forall|t: int|
            #![trigger r[t]]
        0 <= t < r.len() ==> {
            &&& r[t].agent_id == agent_ids[t]
            &&& exists|j: int|
                0 <= j < order.len() && r[t].objective == order[j] && demand_before(required, order, j)
                    <= t < demand_before(required, order, j + 1)
        }
}

proof fn lemma_demand_monotone(required: Seq<u32>, order: Seq<usize>, a: int, b: int)
    requires
        0 <= a <= b <= order.len(),
        valid_ranking(required, order),
    ensures
        0 <= demand_before(required, order, a) <= demand_before(required, order, b),
    decreases b - a,
{
    if a < b {
        lemma_demand_monotone(required, order, a, b - 1);
    } else {
        lemma_demand_nonneg(required, order, a);
    }
}

proof fn lemma_demand_nonneg(required: Seq<u32>, order: Seq<usize>, a: int)
    requires
        0 <= a <= order.len(),
    ensures
        0 <= demand_before(required, order, a),
    decreases a,
{
    if a > 0 {
        lemma_demand_nonneg(required, order, a - 1);
    }
}

/// Number of assignments in `r` that go to objective `o`.
pub open spec fn assigned_count(r: Seq<Assignment>, o: usize) -> nat
    decreases r.len(),
{
    if r.len() == 0 {
        0
    } else {
        assigned_count(r.drop_last(), o) + if r.last().objective == o { 1nat } else { 0nat }
    }
}

proof fn lemma_count_within_window(r: Seq<Assignment>, o: usize, lo: int, hi: int, n: int)
    requires
        0 <= lo <= hi,
        0 <= n <= r.len(),
        forall|t: int| #![trigger r[t]] 0 <= t < r.len() && r[t].objective == o ==> lo <= t < hi,
    ensures
        assigned_count(r.take(n), o) <= if n < hi {
            if n > lo { n - lo } else { 0 }
        } else {
            hi - lo
        },
    decreases n,
{
    if n > 0 {
        lemma_count_within_window(r, o, lo, hi, n - 1);
        assert(r.take(n).drop_last() == r.take(n - 1));
        assert(r.take(n).last() == r[n - 1]);
    }
}

/// A greedy allocation over a ranking that lists every objective once never
/// gives an objective more agents than it requires, and, when the agent ids
/// are distinct, never assigns one agent twice.
pub proof fn lemma_allocation_respects_demand(
    agent_ids: Seq<u64>,
    required: Seq<u32>,
    order: Seq<usize>,
    r: Seq<Assignment>,
)
    requires
        is_index_permutation(order, required.len()),
        is_greedy_allocation(agent_ids, required, order, r),
    ensures
        forall|o: usize| o < required.len() ==> #[trigger] assigned_count(r, o) <= required[o as int],
        (forall|a: int, b: int| 0 <= a < b < agent_ids.len() ==> agent_ids[a] != agent_ids[b]) ==> forall|
            a: int,
            b: int,
        |
            #![trigger r[a], r[b]]
            0 <= a < b < r.len() ==> r[a].agent_id != r[b].agent_id,
{
    assert forall|o: usize| o < required.len() implies #[trigger] assigned_count(r, o) <= required[o as int] by {
        assert(r.take(r.len() as int) == r);
        if exists|j: int| 0 <= j < order.len() && order[j] == o {
            let j0 = choose|j: int| 0 <= j < order.len() && order[j] == o;
            lemma_demand_monotone(required, order, j0, j0 + 1);
            assert forall|t: int| #![trigger r[t]] 0 <= t < r.len() && r[t].objective == o implies demand_before(
                required,
                order,
                j0,
            ) <= t < demand_before(required, order, j0 + 1) by {
                let jj = choose|jj: int|
                    0 <= jj < order.len() && r[t].objective == order[jj] && demand_before(required, order, jj)
                        <= t < demand_before(required, order, jj + 1);
                assert(jj == j0);
            }
            lemma_count_within_window(
                r,
                o,
                demand_before(required, order, j0),
                demand_before(required, order, j0 + 1),
                r.len() as int,
            );
        } else {
            assert forall|t: int| #![trigger r[t]] 0 <= t < r.len() && r[t].objective == o implies 0 <= t < 0 by {
                let jj = choose|jj: int|
                    0 <= jj < order.len() && r[t].objective == order[jj] && demand_before(required, order, jj)
                        <= t < demand_before(required, order, jj + 1);
            }
            lemma_count_within_window(r, o, 0, 0, r.len() as int);
        }
    }
}

/// Assigns agents to objectives greedily along the ranking `order` (most
/// urgent first). `agent_ids` is the collective's agent enumeration order and
/// `required[i]` the number of agents objective `i` needs.
pub fn allocate_agents(agent_ids: &Vec<u64>, required: &Vec<u32>, order: &Vec<usize>) -> (r: Vec<Assignment>)
    requires
        valid_ranking(required@, order@),
    ensures
        is_greedy_allocation(agent_ids@, required@, order@, r@),
{
    let mut r: Vec<Assignment> = Vec::new();
    let mut j: usize = 0;
    while j < order.len()
        invariant
            j <= order.len(),
            valid_ranking(required@, order@),
            r@.len() == if agent_ids@.len() < demand_before(required@, order@, j as int) {
                agent_ids@.len() as int
            } else {
                demand_before(required@, order@, j as int)
            },
            forall|t: int|
#![trigger r@[t]]
                0 <= t < r@.len() ==> {
                    &&& r@[t].agent_id == agent_ids@[t]
                    &&& exists|jj: int|
                        0 <= jj < j && r@[t].objective == order@[jj] && demand_before(required@, order@, jj)
                            <= t < demand_before(required@, order@, jj + 1)
                },
        decreases order.len() - j,
    {
        let objective = order[j];
        let needed = required[objective];
        proof {
            lemma_demand_nonneg(required@, order@, j as int);
        }
        let ghost start = r@.len();
        let mut c: u32 = 0;
        while c < needed && r.len() < agent_ids.len()
            invariant
                j < order.len(),
                objective == order@[j as int],
                valid_ranking(required@, order@),
                needed == required@[objective as int],
                c <= needed,
                start <= r@.len() <= agent_ids@.len(),
                0 <= demand_before(required@, order@, j as int),
                start == if agent_ids@.len() < demand_before(required@, order@, j as int) {
                    agent_ids@.len() as int
                } else {
                    demand_before(required@, order@, j as int)
                },
                start < agent_ids@.len() ==> r@.len() == demand_before(required@, order@, j as int) + c,
                start >= agent_ids@.len() ==> r@.len() == start,
                forall|t: int|
#![trigger r@[t]]
                    0 <= t < r@.len() ==> {
                        &&& r@[t].agent_id == agent_ids@[t]
                        &&& exists|jj: int|
                            0 <= jj <= j && r@[t].objective == order@[jj] && demand_before(
                                required@,
                                order@,
                                jj,
                            ) <= t < demand_before(required@, order@, jj + 1)
                    },
            decreases needed - c,
        {
            let ghost t = r@.len() as int;
            r.push(Assignment { agent_id: agent_ids[r.len()], objective });
            proof {
                assert(r@[t].agent_id == agent_ids@[t]);
                assert(demand_before(required@, order@, j as int) <= t < demand_before(required@, order@, j as int + 1));
            }
            c = c + 1;
        }
        assert forall|t: int| #![trigger r@[t]] 0 <= t < r@.len() implies {
            &&& r@[t].agent_id == agent_ids@[t]
            &&& exists|jj: int|
                0 <= jj < j + 1 && r@[t].objective == order@[jj] && demand_before(required@, order@, jj)
                    <= t < demand_before(required@, order@, jj + 1)
        } by {
            assert(r@[t].agent_id == agent_ids@[t]);
        }
        j = j + 1;
    }
    assert forall|t: int| #![trigger r@[t]] 0 <= t < r@.len() implies {
        &&& r@[t].agent_id == agent_ids@[t]
        &&& exists|jj: int|
            0 <= jj < order@.len() && r@[t].objective == order@[jj] && demand_before(required@, order@, jj)
                <= t < demand_before(required@, order@, jj + 1)
    } by {
        assert(r@[t].agent_id == agent_ids@[t]);
    }
    r
}

/// Malformed planning input, reported to the caller.
#[derive(Debug, Clone, Copy, PartialEq, Eq, Structural)]
pub enum PlanningError {
    /// The objective at this index requires no agents at all.
    ZeroRequiredCount { objective: usize },
}

impl PlanningError {
    /// A readable description of the error.
    pub fn message(&self) -> (r: String) {
        match self {
            PlanningError::ZeroRequiredCount { .. } => String::from_str("objective requires zero agents"),
        }
    }
}

/// Every objective requires at least one agent.
pub open spec fn requirements_valid(required: Seq<u32>) -> bool {
    forall|i: int| 0 <= i < required.len() ==> #[trigger] required[i] > 0
}

/// The error owed for `required`: the first objective that requires no agents.
pub open spec fn is_first_zero(required: Seq<u32>, objective: usize) -> bool {
    &&& objective < required.len()
    &&& required[objective as int] == 0
    &&& forall|i: int| 0 <= i < objective ==> #[trigger] required[i] > 0
}

/// Rejects a requirement list in which some objective requires no agents,
/// naming the first such objective.
pub fn check_requirements(required: &Vec<u32>) -> (r: Result<(), PlanningError>)
    ensures
        r is Ok <==> requirements_valid(required@),
        r matches Err(PlanningError::ZeroRequiredCount { objective }) ==> is_first_zero(required@, objective),
{
    let mut i: usize = 0;
    while i < required.len()
        invariant
            i <= required@.len(),
            forall|k: int| 0 <= k < i ==> #[trigger] required@[k] > 0,
        decreases required@.len() - i,
    {
        if required[i] == 0 {
            return Err(PlanningError::ZeroRequiredCount { objective: i });
        }
        i = i + 1;
    }
    Ok(())
}

/// Validates the objectives, ranks them by descending urgency (`keys[i]` is
/// the urgency key of objective `i`) and allocates `agent_ids` greedily along
/// that ranking.
pub fn plan_allocation(agent_ids: &Vec<u64>, keys: &Vec<u64>, required: &Vec<u32>) -> (r: Result<
    Vec<Assignment>,
    PlanningError,
>)
    requires
        keys@.len() == required@.len(),
    ensures
        r is Ok <==> requirements_valid(required@),
        r matches Err(PlanningError::ZeroRequiredCount { objective }) ==> is_first_zero(required@, objective),
        r matches Ok(a) ==> exists|order: Seq<usize>|
            is_index_permutation(order, required@.len()) && is_stable_descending(keys@, order)
                && is_greedy_allocation(agent_ids@, required@, order, a@),
{
    match check_requirements(required) {
        Err(e) => Err(e),
        Ok(()) => {
            let order = rank_by_urgency(keys);
            let a = allocate_agents(agent_ids, required, &order);
            assert(is_index_permutation(order@, required@.len()) && is_stable_descending(keys@, order@)
                && is_greedy_allocation(agent_ids@, required@, order@, a@));
            Ok(a)
        },
    }
}

/// The action an objective of kind `t` asks of its agents.
pub open spec fn action_for(t: ObjectiveType) -> SwarmAction {
    match t {
        ObjectiveType::Survey => SwarmAction::Survey,
        ObjectiveType::WaterDelivery => SwarmAction::Deliver,
        ObjectiveType::SoilAmendment => SwarmAction::Amend,
        ObjectiveType::WildlifeMonitoring => SwarmAction::Monitor,
        ObjectiveType::FireSuppressionPrep => SwarmAction::Retreat,
    }
}

/// Maps an objective kind to the action its agents carry out.
pub fn action_for_objective(t: ObjectiveType) -> (r: SwarmAction)
    ensures
        r == action_for(t),
{
    match t {
        ObjectiveType::Survey => SwarmAction::Survey,
        ObjectiveType::WaterDelivery => SwarmAction::Deliver,
        ObjectiveType::SoilAmendment => SwarmAction::Amend,
        ObjectiveType::WildlifeMonitoring => SwarmAction::Monitor,
        ObjectiveType::FireSuppressionPrep => SwarmAction::Retreat,
    }
}

/// The objective of the first assignment of `agent_id` in `r`, if any.
pub open spec fn objective_of(r: Seq<Assignment>, agent_id: u64) -> Option<usize>
    decreases r.len(),
{
    if r.len() == 0 {
        None
    } else if r[0].agent_id == agent_id {
        Some(r[0].objective)
    } else {
        objective_of(r.drop_first(), agent_id)
    }
}

/// The action of `agent_id` under allocation `r`, where `kinds[i]` is the kind
/// of objective `i`: agents without an objective explore.
pub open spec fn next_action(r: Seq<Assignment>, kinds: Seq<ObjectiveType>, agent_id: u64) -> SwarmAction {
    match objective_of(r, agent_id) {
        Some(o) => action_for(kinds[o as int]),
        None => SwarmAction::Explore,
    }
}

/// Every assignment of `r` points at an objective of `kinds`.
pub open spec fn assignments_in_range(r: Seq<Assignment>, n: nat) -> bool {
    forall|t: int| 0 <= t < r.len() ==> #[trigger] r[t].objective < n
}

proof fn lemma_objective_of_in_range(r: Seq<Assignment>, n: nat, agent_id: u64)
    requires
        assignments_in_range(r, n),
    ensures
        objective_of(r, agent_id) matches Some(o) ==> o < n,
    decreases r.len(),
{
    if r.len() > 0 {
        assert(r[0].objective < n);
        let rest = r.drop_first();
        assert forall|t: int| 0 <= t < rest.len() implies #[trigger] rest[t].objective < n by {
            assert(rest[t] == r[t + 1]);
        }
        lemma_objective_of_in_range(rest, n, agent_id);
    }
}

/// The action for `agent_id` under the allocation `r`: the action of the
/// objective it was assigned to, or exploring when it has none.
pub fn next_action_for_agent(agent_id: u64, r: &Vec<Assignment>, kinds: &Vec<ObjectiveType>) -> (a: SwarmAction)
    requires
        assignments_in_range(r@, kinds@.len()),
    ensures
        a == next_action(r@, kinds@, agent_id),
{
    let mut i: usize = 0;
    assert(r@.skip(0) == r@);
    while i < r.len()
        invariant
            i <= r@.len(),
            assignments_in_range(r@, kinds@.len()),
            objective_of(r@, agent_id) == objective_of(r@.skip(i as int), agent_id),
        decreases r@.len() - i,
    {
        let ghost rest = r@.skip(i as int);
        assert(rest[0] == r@[i as int]);
        if r[i].agent_id == agent_id {
            proof {
                lemma_objective_of_in_range(r@, kinds@.len(), agent_id);
            }
            return action_for_objective(kinds[r[i].objective]);
        }
        assert(rest.drop_first() == r@.skip(i as int + 1));
        i = i + 1;
    }
    assert(r@.skip(i as int).len() == 0);
    SwarmAction::Explore
}

/// Whether the mission must be replanned: when the collective has lost
/// cohesion, when its average arousal is low, or when any agent reports a
/// threat (`threats[i]` is the threat count of agent `i`).
pub fn replan_needed(low_cohesion: bool, low_arousal: bool, threats: &Vec<u32>) -> (r: bool)
    ensures
        r == (low_cohesion || low_arousal || exists|i: int| 0 <= i < threats@.len() && #[trigger] threats@[i] > 0),
{
    if low_cohesion || low_arousal {
        return true;
    }
    let mut i: usize = 0;
    while i < threats.len()
        invariant
            i <= threats@.len(),
            forall|k: int| 0 <= k < i ==> #[trigger] threats@[k] == 0,
        decreases threats@.len() - i,
    {
        if threats[i] > 0 {
            return true;
        }
        i = i + 1;
    }
    false
}

} // verus!
