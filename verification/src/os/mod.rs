//! What depends on the operating system.
pub mod linux;
pub mod macos;
