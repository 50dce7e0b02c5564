//! Plain data types shared by the collector, the panels and the application state.

use vstd::prelude::*;

verus! {

/// The colour schemes a user can select.
#[derive(Clone, Copy, Debug, PartialEq, Eq, Structural)]
pub enum ColorScheme {
    Default,
    Dark,
    Light,
    Monochrome,
    Nord,
    SolarizedDark,
    SolarizedLight,
    Gruvbox,
    Rtop,
}

/// The orders in which the process list can be shown.
#[derive(Clone, Copy, Debug, PartialEq, Eq, Structural)]
pub enum ProcessSortBy {
    CpuUsage,
    Memory,
    Pid,
    Name,
}

/// The kinds of chart the monitor knows about.
#[derive(Clone, Copy, Debug, PartialEq, Eq, Structural)]
pub enum ChartType {
    CpuUsage,
    MemoryUsage,
    NetworkUsage,
    DiskUsage,
}

/// One process as the process panel sees it.
#[derive(Clone, Debug)]
pub struct ProcessInfo {
    pub pid: u32,
    pub name: String,
    /// Resident memory in bytes.
    pub memory: u64,
    /// CPU use in percent, a single-precision number held as its bit
    /// pattern (see `binary32`).
    pub cpu_usage_bits: u32,
    /// Bytes written to disk.
    pub disk_usage: u64,
    pub parent_pid: Option<u32>,
    pub cmd: Vec<String>,
    pub exe: Option<String>,
    pub root: Option<String>,
    pub cwd: Option<String>,
    pub status: String,
}

/// One network interface with its byte counters and rates.
#[derive(Clone, Debug)]
pub struct NetworkInfo {
    pub name: String,
    pub total_received: u64,
    pub total_transmitted: u64,
    pub received_per_sec: u64,
    pub transmitted_per_sec: u64,
}

/// One mounted volume.
#[derive(Clone, Debug)]
pub struct DiskInfo {
    pub name: String,
    pub total_space: u64,
    pub available_space: u64,
}

} // verus!
