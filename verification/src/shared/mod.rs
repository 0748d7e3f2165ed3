pub mod config;
pub mod error;
pub mod types;
