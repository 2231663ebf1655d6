//! An agent-based epidemic simulation on a bounded plane.
//!
//! Agents move in straight lines, bounce off the walls of the domain, and
//! pass through the states healthy, infected, recovered and dead. A spatial
//! grid of unit cells buckets the agents; infection spreads inside a cell.
//! All geometry is fixed point: a cell is `UNITS_PER_CELL` units wide, and
//! probabilities are given in parts per million.
pub mod agent;
pub mod engine;
pub mod grid;
pub mod laws;
mod random;
pub mod rates;

pub use agent::{Agent, Health, MAX_SPEED, UNITS_PER_CELL};
pub use engine::{Config, ConfigError, Engine, Snapshot, CONTACT_TIME_MS, PPM};
pub use grid::{SpatialGrid, MAX_DOMAIN};
pub use rates::frame_probability;
