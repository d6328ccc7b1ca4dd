//! Core logic of a tower-building simulation: floors, elevators, people,
//! a minute-by-minute simulation step, and the economy around them.

pub mod economy;
pub mod events;
pub mod floor_type;
pub mod flow;
pub mod laws;
pub mod progress;
pub mod report;
pub mod riders;
pub mod rng;
pub mod simulation;
pub mod state;
pub mod text;
pub mod tick;
pub mod tower;
pub mod web;
