//! Decision logic of the smix command line: how flows are sharded over
//! devices and nodes, what `smix init` registers, what `smix doctor`
//! tells someone to run next, how a capsule picks its mode, and the
//! argv the CLI hands to `xcodebuild`, `ssh`, `rsync` and `simctl`.
//!
//! Everything here is a function from plain values to plain values. The
//! I/O around it (spawning, sockets, the filesystem) lives in `app/`.

#![allow(unused_imports)]

pub mod parallel;
pub mod text;
pub mod json;
pub mod federation;
pub mod init;
pub mod readiness;
pub mod capsule;
pub mod runner;
pub mod cli;
pub mod lease;
pub mod device;
pub mod act;
pub mod authoring;
pub mod annotate;
pub mod supervise;
pub mod a11y;
pub mod health;
pub mod migrate;
pub mod listing;
pub mod down;
pub mod diagnostics;
pub mod runner_list;
pub mod departures;
pub mod runner_android;
