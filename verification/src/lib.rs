//! Verified core of a terminal system monitor: the data model, the colour
//! themes, the process list and its interaction state, the user-interface
//! state machine, and the parsers and formatters that turn raw system data
//! into what the panels display.

pub mod action;
pub mod app_state;
pub mod binary32;
pub mod chart;
pub mod disks;
pub mod gauge;
pub mod gpu;
pub mod history;
pub mod intel;
pub mod keys;
pub mod network;
pub mod order;
pub mod process;
pub mod procfs;
pub mod sampling;
pub mod settings;
pub mod snapshot;
pub mod status_bar;
pub mod theme;
pub mod text;
pub mod utils;
