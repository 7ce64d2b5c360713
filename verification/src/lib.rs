//! Simulation core of a path-drawing game: the player carves river tiles on a
//! grid between start and end tiles, a flow field is solved from every end,
//! and spirits follow it downstream under per-tile occupancy limits.

pub mod autotile;
pub mod editor;
pub mod flood;
pub mod game;
pub mod grid;
pub mod level;
pub mod menu;
pub mod pathfinding;
pub mod random;
pub mod route;
pub mod spirits;
pub mod steering;
pub mod text;
pub mod tile;
pub mod tilemap;
