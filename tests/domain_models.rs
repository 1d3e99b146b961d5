use neuroswarm::agent::{state_after_move, AgentState};
use neuroswarm::geo::{CoordinateTransformer, ProjectionType};
use neuroswarm::models::{DroneType, NanoBotTask};

#[test]
fn test_transformer_creation() {
    let transformer = CoordinateTransformer::new(ProjectionType::WGS84, ProjectionType::UTM);
    assert_eq!(transformer.source_proj(), ProjectionType::WGS84);
    assert_eq!(transformer.target_proj(), ProjectionType::UTM);
    assert_eq!(transformer.utm_zone(), 11);
}

#[test]
fn drone_flight_times() {
    assert_eq!(DroneType::Quadcopter.max_flight_time_minutes(), 45);
    assert_eq!(DroneType::FixedWing.max_flight_time_minutes(), 90);
    assert_eq!(DroneType::HybridVTOL.max_flight_time_minutes(), 120);
}

#[test]
fn nanobot_task_durations() {
    assert_eq!(NanoBotTask::SoilAnalysis.duration_seconds(), 60);
    assert_eq!(NanoBotTask::NutrientDispense.duration_seconds(), 180);
    assert_eq!(NanoBotTask::CompactionBreak.duration_seconds(), 300);
    assert_eq!(NanoBotTask::MoistureRetention.duration_seconds(), 120);
    assert_eq!(NanoBotTask::PhAdjustment.duration_seconds(), 240);
}

#[test]
fn moving_agent_state() {
    assert_eq!(state_after_move(false), AgentState::Exploring);
    assert_eq!(state_after_move(true), AgentState::ExecutingTask);
}
