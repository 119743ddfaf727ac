//! Verified core of a terminal system monitor: the text, layout and
//! classification rules behind each panel, separated from the terminal and
//! from the operating-system probes that feed them.

pub mod text;
pub mod style;
pub mod cpu;
pub mod storage;
pub mod network;
pub mod temperature;
pub mod processes;
pub mod gpu;
pub mod memory;
pub mod control;
