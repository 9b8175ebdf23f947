//! Discovery of Storm topology workers as targets of Prometheus file-based
//! service discovery.

pub mod error;
pub mod file_sd;
pub mod publisher;
pub mod storm_client;
pub mod text;
