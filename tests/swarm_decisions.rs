use neuroswarm::allocation::{
    action_for_objective, allocate_agents, check_requirements, next_action_for_agent, plan_allocation, replan_needed,
    Assignment, ObjectiveType, PlanningError, SwarmAction,
};
use neuroswarm::consensus::{consensus_majority, decide_from_counts, tally_bands, BandCounts, ConsensusDecision, PriorityBand};
use neuroswarm::ranking::rank_by_urgency;

fn urgency_key(u: f64) -> u64 {
    if u == 0.0 {
        0
    } else {
        u.to_bits()
    }
}

#[test]
fn test_consensus() {
    // Two fresh agents sit at the default task priority 0.3: neither above
    // 0.7 nor below 0.3, so both lean towards exploring.
    let bands = vec![PriorityBand::Explore, PriorityBand::Explore];
    let decision = consensus_majority(&bands);
    assert_ne!(decision, ConsensusDecision::Wait);
    assert_eq!(decision, ConsensusDecision::Explore);
}

#[test]
fn consensus_of_empty_collective_is_explore() {
    assert_eq!(consensus_majority(&vec![]), ConsensusDecision::Explore);
}

#[test]
fn consensus_majority_wins() {
    let bands = vec![
        PriorityBand::Retreat,
        PriorityBand::Concentrate,
        PriorityBand::Retreat,
        PriorityBand::Explore,
    ];
    assert_eq!(consensus_majority(&bands), ConsensusDecision::Retreat);
    let bands = vec![PriorityBand::Concentrate, PriorityBand::Concentrate, PriorityBand::Explore];
    assert_eq!(consensus_majority(&bands), ConsensusDecision::Concentrate);
}

#[test]
fn consensus_ties_follow_fixed_order() {
    let bands = vec![PriorityBand::Retreat, PriorityBand::Explore];
    assert_eq!(consensus_majority(&bands), ConsensusDecision::Explore);
    let bands = vec![PriorityBand::Retreat, PriorityBand::Concentrate];
    assert_eq!(consensus_majority(&bands), ConsensusDecision::Concentrate);
    let counts = BandCounts { explore: 1, concentrate: 3, retreat: 3 };
    assert_eq!(decide_from_counts(&counts), ConsensusDecision::Concentrate);
}

#[test]
fn consensus_is_reproducible_across_orders() {
    let a = vec![
        PriorityBand::Concentrate,
        PriorityBand::Retreat,
        PriorityBand::Concentrate,
        PriorityBand::Explore,
        PriorityBand::Retreat,
    ];
    let mut b = a.clone();
    b.reverse();
    assert_eq!(tally_bands(&a), tally_bands(&b));
    assert_eq!(consensus_majority(&a), consensus_majority(&b));
    assert_eq!(consensus_majority(&a), consensus_majority(&a));
    assert_eq!(tally_bands(&a), BandCounts { explore: 1, concentrate: 2, retreat: 2 });
}

#[test]
fn test_objective_prioritization() {
    // Objective 1 (urgency 0.3) and objective 2 (urgency 0.9).
    let ids = [1u32, 2u32];
    let keys = vec![urgency_key(0.3), urgency_key(0.9)];
    let ranked = rank_by_urgency(&keys);
    assert_eq!(ids[ranked[0]], 2);
}

#[test]
fn ranking_is_stable_for_equal_urgency() {
    let keys = vec![urgency_key(0.5), urgency_key(0.9), urgency_key(0.5), urgency_key(0.0), urgency_key(0.9)];
    assert_eq!(rank_by_urgency(&keys), vec![1, 4, 0, 2, 3]);
    assert_eq!(rank_by_urgency(&vec![]), Vec::<usize>::new());
}

#[test]
fn allocation_fills_objectives_in_rank_order() {
    let agents = vec![10u64, 11, 12, 13, 14];
    let required = vec![2u32, 2];
    let order = vec![1usize, 0];
    let r = allocate_agents(&agents, &required, &order);
    assert_eq!(
        r,
        vec![
            Assignment { agent_id: 10, objective: 1 },
            Assignment { agent_id: 11, objective: 1 },
            Assignment { agent_id: 12, objective: 0 },
            Assignment { agent_id: 13, objective: 0 },
        ]
    );
}

#[test]
fn allocation_leaves_objectives_short_when_agents_run_out() {
    let agents = vec![1u64, 2, 3];
    let required = vec![10u32, 5];
    let order = vec![0usize, 1];
    let r = allocate_agents(&agents, &required, &order);
    assert_eq!(r.len(), 3);
    assert!(r.iter().all(|a| a.objective == 0));
    assert_eq!(allocate_agents(&vec![], &required, &order), vec![]);
}

#[test]
fn allocation_never_exceeds_required_or_repeats_agents() {
    let agents: Vec<u64> = (100..120).collect();
    let required = vec![3u32, 0, 4, 1];
    let keys = vec![urgency_key(0.2), urgency_key(0.8), urgency_key(0.5), urgency_key(0.8)];
    let order = rank_by_urgency(&keys);
    assert_eq!(order, vec![1, 3, 2, 0]);
    let r = allocate_agents(&agents, &required, &order);
    assert_eq!(r.len(), 8);
    for (o, &need) in required.iter().enumerate() {
        assert_eq!(r.iter().filter(|a| a.objective == o).count(), need as usize);
    }
    let mut ids: Vec<u64> = r.iter().map(|a| a.agent_id).collect();
    ids.dedup();
    assert_eq!(ids.len(), 8);
}

#[test]
fn next_action_follows_the_assigned_objective() {
    let kinds = vec![ObjectiveType::WaterDelivery, ObjectiveType::FireSuppressionPrep];
    let r = vec![Assignment { agent_id: 7, objective: 1 }, Assignment { agent_id: 8, objective: 0 }];
    assert_eq!(next_action_for_agent(7, &r, &kinds), SwarmAction::Retreat);
    assert_eq!(next_action_for_agent(8, &r, &kinds), SwarmAction::Deliver);
    assert_eq!(next_action_for_agent(9, &r, &kinds), SwarmAction::Explore);
}

#[test]
fn objective_kinds_map_to_actions() {
    assert_eq!(action_for_objective(ObjectiveType::Survey), SwarmAction::Survey);
    assert_eq!(action_for_objective(ObjectiveType::WaterDelivery), SwarmAction::Deliver);
    assert_eq!(action_for_objective(ObjectiveType::SoilAmendment), SwarmAction::Amend);
    assert_eq!(action_for_objective(ObjectiveType::WildlifeMonitoring), SwarmAction::Monitor);
    assert_eq!(action_for_objective(ObjectiveType::FireSuppressionPrep), SwarmAction::Retreat);
}

#[test]
fn replanning_triggers() {
    assert!(!replan_needed(false, false, &vec![0, 0, 0]));
    assert!(replan_needed(true, false, &vec![0]));
    assert!(replan_needed(false, true, &vec![]));
    assert!(replan_needed(false, false, &vec![0, 2, 0]));
    assert!(!replan_needed(false, false, &vec![]));
}

#[test]
fn zero_required_count_is_rejected() {
    assert_eq!(check_requirements(&vec![2, 1, 3]), Ok(()));
    assert_eq!(check_requirements(&vec![]), Ok(()));
    assert_eq!(
        check_requirements(&vec![2, 0, 3, 0]),
        Err(PlanningError::ZeroRequiredCount { objective: 1 })
    );
    let agents = vec![1u64, 2, 3];
    let keys = vec![urgency_key(0.4), urgency_key(0.6)];
    assert_eq!(
        plan_allocation(&agents, &keys, &vec![0, 2]),
        Err(PlanningError::ZeroRequiredCount { objective: 0 })
    );
    assert!(!PlanningError::ZeroRequiredCount { objective: 0 }.message().is_empty());
}

#[test]
fn plan_allocation_ranks_then_fills() {
    let agents = vec![21u64, 22, 23, 24];
    let keys = vec![urgency_key(0.3), urgency_key(0.9)];
    let r = plan_allocation(&agents, &keys, &vec![2, 1]).unwrap();
    assert_eq!(
        r,
        vec![
            Assignment { agent_id: 21, objective: 1 },
            Assignment { agent_id: 22, objective: 0 },
            Assignment { agent_id: 23, objective: 0 },
        ]
    );
}

#[test]
fn most_urgent_objective_heads_the_ranking() {
    let keys = vec![urgency_key(0.1), urgency_key(0.45), urgency_key(0.95), urgency_key(0.7)];
    let order = rank_by_urgency(&keys);
    assert_eq!(order[0], 2);
    assert!(keys.iter().all(|&k| keys[order[0]] >= k));
}
