//! The logic behind the HTTP interface.
pub mod api;
pub mod daytona;
pub mod exec;
pub mod files;
pub mod images;
pub mod lifecycle;
pub mod links;
pub mod moving;
pub mod paths;
pub mod web;
