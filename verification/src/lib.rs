pub mod ant;
pub mod colony;
pub mod errors;
pub mod graph;
pub mod input;
pub mod params;
mod rng;
pub mod sampling;
pub mod solver;
pub mod time_table;
pub mod violations;
