pub mod config;
pub mod file_discovery;
pub mod parser;
pub mod stats;
pub mod text;

pub use config::{CliArgs, Config, ConfigLoader, StatsMode};
