//! Discrete descriptors of a swarm agent.
use vstd::prelude::*;

verus! {

/// Capability class of a swarm agent: aerial drones and ground-level nanobots.
#[derive(Debug, Clone, Copy, PartialEq, Eq, Structural)]
pub enum SwarmAgentType {
    Drone,
    Nanobot,
}

/// Behavioural state of an agent.
#[derive(Debug, Clone, Copy, PartialEq, Eq, Structural)]
pub enum AgentState {
    Idle,
    Exploring,
    ExecutingTask,
    Returning,
    Communicating,
    Error,
}

/// Action an agent picks from its own decision state, before any mission
/// allocation.
#[derive(Debug, Clone, Copy, PartialEq, Eq, Structural)]
pub enum AgentAction {
    ExecuteTask,
    Explore,
    Monitor,
    ReturnHome,
    Idle,
}

/// The state an agent moving toward a target enters: still far away it
/// explores, once within reach it executes its task.
pub fn state_after_move(within_reach: bool) -> (r: AgentState)
    ensures
        r == (if within_reach { AgentState::ExecutingTask } else { AgentState::Exploring }),
{
    if within_reach {
        AgentState::ExecutingTask
    } else {
        AgentState::Exploring
    }
}

} // verus!
