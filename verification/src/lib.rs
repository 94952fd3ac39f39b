//! A small metro traffic simulation: stations, lines with time tables,
//! trains that run between stations, passengers that wait for and ride
//! trains, and a scheduler that hands out timed events in time order.
//!
//! Every function here carries a contract.  Verus checks all of them but
//! `draw::draw_in_range`, which calls the `rand` crate and whose contract is
//! trusted.

pub mod custom_types;
pub mod decimal;
pub mod cypher;
pub mod schedule;
pub mod sim_engine;
pub mod draw;
pub mod train;
pub mod human;
pub mod human_manager;
pub mod train_manager;
