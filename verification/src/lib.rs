//! Logic of running Rust code on Apple devices and simulators.

pub mod ansi;
pub mod app_bundle;
pub mod args;
pub mod bytes;
pub mod cargo;
pub mod cfgs;
pub mod config;
pub mod device;
pub mod host;
pub mod laws;
pub mod lock;
pub mod manifest;
pub mod number;
pub mod ordered;
pub mod path;
pub mod quote;
pub mod registration;
pub mod rewrite;
pub mod runner_source;
pub mod screen;
pub mod session;
pub mod simulator;
pub mod target;
pub mod text;
