//! Decision logic of a thermal fan controller for a laptop: parsing of the
//! platform's text attributes, discovery of the right sensor and control
//! entries, and the edge-triggered two-state control loop.

pub mod control;
pub mod decimal;
pub mod discovery;
pub mod state;
pub mod temperature;
pub mod text;
