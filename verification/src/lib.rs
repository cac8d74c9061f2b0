//! deepscan: the engine of a disk-forensics tool, with its rules proved.

pub mod anomaly;
pub mod baseline;
pub mod baselines;
pub mod catalog;
pub mod cli;
pub mod double;
pub mod engine;
pub mod expand;
pub mod files;
pub mod laws;
pub mod order;
pub mod path;
pub mod render;
pub mod report;
pub mod scan;
pub mod signatures;
pub mod space;
pub mod text;
pub mod tui;
pub mod uninstall;
