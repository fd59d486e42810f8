pub mod agent;
pub mod simulation;
pub mod training;
