//! Multi-monitor physical calibration.
//!
//! Given the monitors of a desktop, the library orders them into a tree of
//! calibration pairs rooted at the primary monitor (`plan`), drives a
//! two-step interaction per pair (`calibration`, with the interaction's own
//! state machine in `overlay`), turns each pair's answers into a chained
//! scale and an alignment (`solver`), reconstructs the physical layout by
//! propagating pixel density over the pairs (`layout`) and formats it for a
//! layout tool (`export`). `monitor`, `edid` and `discovery` hold the
//! monitor records and the pure parts of reading their physical data.
//!
//! Quantities are integers: scales in millionths, densities in thousandths
//! of a pixel per inch, diagonals in thousandths of an inch, layout
//! positions and sizes in millionths of an inch.

pub mod calibration;
pub mod discovery;
pub mod edid;
pub mod export;
pub mod layout;
pub mod monitor;
pub mod overlay;
pub mod plan;
pub mod solver;
