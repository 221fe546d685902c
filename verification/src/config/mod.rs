//! Configuration: the settings read from TOML files and the command line.
pub mod cli;
pub mod includes;
pub mod loader;
pub mod models;

pub use cli::CliArgs;
pub use loader::ConfigLoader;
pub use models::{
    default_detection_lines, default_encoding_detection_size, default_extensions, default_format,
    default_log_level, default_true, Config, ConfigError, IncludesConfig, InputConfig,
    LoggingConfig, OutputConfig, ParserConfig, ParserFeatures, StatsMode,
};

use vstd::prelude::*;

verus! {

/// Where the configuration is read from when none is named.
pub const DEFAULT_CONFIG_PATH: &'static str = "config/default.toml";

} // verus!
