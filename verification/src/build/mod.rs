//! Building images: Dockerfiles, base images and the artifact cache.
pub mod cache;
pub mod parser;
pub mod pull;
pub mod registry;
pub mod steps;
