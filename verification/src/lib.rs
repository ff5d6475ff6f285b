//! Core rules of a turn-based grand strategy simulation: map geometry, fog of war,
//! coast shaping, turn sequencing, production and action queues, and the
//! bookkeeping that the AI planners read.

pub mod position;
pub mod civ;
pub mod terrain;
pub mod world_map;
pub mod fog_of_war;
pub mod coast;
pub mod turns;
pub mod active_turn;
pub mod action_queue;
pub mod planner;
pub mod htn;
pub mod serialization;
pub mod chunking;
pub mod keyed;
pub mod events;
pub mod rng;
pub mod data_loader;
pub mod movement;
pub mod city;
pub mod production;
pub mod diplomacy;
pub mod coordinator;
pub mod territory;
pub mod tile_contents;
pub mod pathfinding;
pub mod founding;
pub mod tile_sprites;
