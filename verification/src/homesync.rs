//! The first shape of the configuration: one remote and a list of packages.

pub mod config;
