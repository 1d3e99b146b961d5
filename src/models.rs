//! Domain enumerations shared with the swarm's collaborators: hardware,
//! ecology and energy.
use vstd::prelude::*;

verus! {

/// Drone platform type.
#[derive(Debug, Clone, Copy, PartialEq, Eq, Structural)]
pub enum DroneType {
    Quadcopter,
    FixedWing,
    HybridVTOL,
}

/// Maximum flight time of a platform, in minutes.
pub open spec fn flight_minutes(t: DroneType) -> u32 {
    match t {
        DroneType::Quadcopter => 45,
        DroneType::FixedWing => 90,
        DroneType::HybridVTOL => 120,
    }
}

impl DroneType {
    /// Maximum flight time in minutes.
    pub fn max_flight_time_minutes(&self) -> (r: u32)
        ensures
            r == flight_minutes(*self),
    {
        match self {
            DroneType::Quadcopter => 45,
            DroneType::FixedWing => 90,
            DroneType::HybridVTOL => 120,
        }
    }
}

/// Operational status of a drone.
#[derive(Debug, Clone, Copy, PartialEq, Eq, Structural)]
pub enum DroneStatus {
    Idle,
    Flying,
    OnMission,
    Charging,
    Maintenance,
    Error,
}

/// Task a soil nanobot can run.
#[derive(Debug, Clone, Copy, PartialEq, Eq, Structural)]
pub enum NanoBotTask {
    SoilAnalysis,
    NutrientDispense,
    CompactionBreak,
    MoistureRetention,
    PhAdjustment,
}

/// Time a nanobot task takes, in seconds.
pub open spec fn task_seconds(t: NanoBotTask) -> u32 {
    match t {
        NanoBotTask::SoilAnalysis => 60,
        NanoBotTask::NutrientDispense => 180,
        NanoBotTask::CompactionBreak => 300,
        NanoBotTask::MoistureRetention => 120,
        NanoBotTask::PhAdjustment => 240,
    }
}

impl NanoBotTask {
    /// Time to complete the task, in seconds.
    pub fn duration_seconds(&self) -> (r: u32)
        ensures
            r == task_seconds(*self),
    {
        match self {
            NanoBotTask::SoilAnalysis => 60,
            NanoBotTask::NutrientDispense => 180,
            NanoBotTask::CompactionBreak => 300,
            NanoBotTask::MoistureRetention => 120,
            NanoBotTask::PhAdjustment => 240,
        }
    }
}

/// Environmental sensor type.
#[derive(Debug, Clone, Copy, PartialEq, Eq, Structural)]
pub enum SensorType {
    SoilMoisture,
    SoilPH,
    Temperature,
    Radiation,
    CO2,
    WaterFlow,
}

/// Actuator type for water or nutrient delivery.
#[derive(Debug, Clone, Copy, PartialEq, Eq, Structural)]
pub enum ActuatorType {
    WaterDispenser,
    NutrientInjector,
    PestReclaimer,
}

/// Native tree species.
#[derive(Debug, Clone, Copy, PartialEq, Eq, Structural)]
pub enum TreeSpecies {
    Paloverde,
    Mesquite,
    Acacia,
    Saguaro,
    IronWood,
    Creosote,
}

/// Wildlife species inhabiting recovered zones.
#[derive(Debug, Clone, Copy, PartialEq, Eq, Structural)]
pub enum WildlifeSpecies {
    Javelina,
    Roadrunner,
    Gila,
    CoyoteKid,
    Rattlesnake,
    Hawk,
    Lizard,
}

/// Vegetation canopy cover class.
#[derive(Debug, Clone, Copy, PartialEq, Eq, Structural)]
pub enum VegetationClass {
    Bare,
    Sparse,
    Moderate,
    Dense,
}

/// Ecological recovery stage, from bare ground to full recovery.
#[derive(Debug, Clone, Copy, PartialEq, Eq, Structural)]
pub enum RecoveryStage {
    Bare,
    Establishing,
    Developing,
    Maturing,
    Recovered,
}

/// Energy source of a device.
#[derive(Debug, Clone, Copy, PartialEq, Eq, Structural)]
pub enum EnergySource {
    Battery,
    Solar,
    RadioFrequency,
    Wind,
    Kinetic,
}

/// Kind of an energy expenditure log entry.
#[derive(Debug, Clone, Copy, PartialEq, Eq, Structural)]
pub enum EnergyEventType {
    Mission,
    Idle,
    Charging,
    Thermal,
    Communication,
    Processing,
}

} // verus!
