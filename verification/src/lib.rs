//! Graceful process lifecycle for programs that can't be containerized.

pub mod app;
pub mod container;
pub mod error;
pub mod identity;
pub mod ladder;
pub mod node;
pub mod platforms;
pub mod probe;
pub mod text;
