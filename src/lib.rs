//! Turn-based task scheduling for agents on a tile grid: path search, per-agent
//! task queues, a shared registry of claimable jobs and the turn clock.

pub mod position;
pub mod world;
pub mod work_id;
pub mod task;
pub mod path;
pub mod work;
pub mod turn;
pub mod worker;
pub mod resource;
pub mod orders;
pub mod dice;
pub mod turn_system;
pub mod stats;
pub mod pawn;
