//! A capacity-constrained production-flow simulation engine.
//!
//! Items ("products") are generated according to production plans, routed
//! across a fixed grid of resources ("modules") along shortest corridor
//! paths, held for simulated production durations, and re-routed when their
//! target resource is occupied. A scenario controller perturbs the grid and
//! the active plans over virtual time; a virtual clock decouples simulated
//! time from wall-clock time.
//!
//! All durations are virtual milliseconds; continuous item positions are
//! tracked in thousandths of a grid cell, so the whole engine works on plain
//! integers and every operation carries a verified contract.

pub mod board;
pub mod constants;
pub mod ligth_point;
pub mod module;
pub mod pathfind;
pub mod product;
pub mod scenario;
pub mod time_manager;
