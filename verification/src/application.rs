//! Application operations over the ports.
pub mod configuration;
pub mod declarations;
pub mod inventory;
pub mod membership;
pub mod ports;
pub mod registry;
pub mod warehouse;
