pub mod component;
pub mod console;
pub mod entity;
pub mod error;
pub mod game;
pub mod game_object;
pub mod map_gen;
pub mod meta;
pub mod pathfinding;
pub mod profiler;
pub mod rng;
pub mod system;
pub mod table;
pub mod world;
