//! Fan control for passively cooled GPUs: the decisions of the daemon, free of
//! I/O, each with a contract that Verus proves.

pub mod units;

pub mod text;

pub mod paths;

pub mod idmap;

pub mod curve;

pub mod config;

pub mod rules;

pub mod document;

pub mod schema;

pub mod group;

pub mod watchdog;

pub mod power;

pub mod fan;

pub mod chip;

pub mod nvml;

pub mod logger;
