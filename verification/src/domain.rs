//! The domain model: repository references, configuration and local state.
pub mod config;
pub mod repository;
pub mod state;
