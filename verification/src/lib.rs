//! A small container runtime's control plane, verified.
//!
//! The crate holds the decisions of the runtime: how a Dockerfile is read, how image references
//! and registry answers are interpreted, how build artifacts are keyed and pruned, where a
//! user-supplied path may lead inside a sandbox, and what every HTTP endpoint answers. Disks,
//! sockets and processes belong to the program around it.
pub mod build;
pub mod error;
pub mod metadata;
pub mod number;
pub mod order;
pub mod os;
pub mod outside;
pub mod overlay;
pub mod path;
pub mod sandbox;
pub mod server;
pub mod snapshot;
pub mod table;
pub mod text;
