//! What the operations of the library are for, stated of all their inputs.

pub mod ansi;
pub mod cfgs;
pub mod config;
pub mod device;
pub mod host;
pub mod lock;
pub mod manifest;
pub mod number;
pub mod path;
pub mod registration;
pub mod rewrite;
pub mod runner_source;
pub mod simulator;
pub mod target;
pub mod text;
