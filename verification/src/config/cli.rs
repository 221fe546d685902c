//! Command-line settings.
use crate::config::models::StatsMode;
use crate::text::{chars_of, equals_str, opt_text, texts};
use vstd::prelude::*;

verus! {

/// Settings given on the command line.
#[derive(Debug, Clone)]
pub struct CliArgs {
    /// Files to process; they replace every file source of the configuration.
    pub files: Vec<String>,
    /// Directory to search for files.
    pub directory: Option<String>,
    /// Glob pattern of files to process.
    pub glob: Option<String>,
    /// File extensions to look for in a directory.
    pub extensions: Vec<String>,
    /// Search subdirectories.
    pub recursive: Option<bool>,
    /// Configuration files.
    pub config_files: Vec<String>,
    /// `aggregated`, `per-file` or `both`.
    pub stats_mode: Option<String>,
    /// Per-file statistics (short form).
    pub per_file_stats: bool,
    pub buffer_size: Option<usize>,
    pub max_line_length: Option<usize>,
    pub progress_bar: bool,
    /// Cut long lines instead of failing.
    pub line_limit_truncate: bool,
    pub verbose: bool,
    /// `table`, `json` or `csv`.
    pub output_format: Option<String>,
}

/// `CliArgs` with texts as character sequences.
pub struct CliView {
    pub files: Seq<Seq<char>>,
    pub directory: Option<Seq<char>>,
    pub glob: Option<Seq<char>>,
    pub extensions: Seq<Seq<char>>,
    pub recursive: Option<bool>,
    pub config_files: Seq<Seq<char>>,
    pub stats_mode: Option<Seq<char>>,
    pub per_file_stats: bool,
    pub buffer_size: Option<usize>,
    pub max_line_length: Option<usize>,
    pub progress_bar: bool,
    pub line_limit_truncate: bool,
    pub verbose: bool,
    pub output_format: Option<Seq<char>>,
}

impl View for CliArgs {
    type V = CliView;

    open spec fn view(&self) -> CliView {
        CliView {
            files: texts(self.files@),
            directory: opt_text(self.directory),
            glob: opt_text(self.glob),
            extensions: texts(self.extensions@),
            recursive: self.recursive,
            config_files: texts(self.config_files@),
            stats_mode: opt_text(self.stats_mode),
            per_file_stats: self.per_file_stats,
            buffer_size: self.buffer_size,
            max_line_length: self.max_line_length,
            progress_bar: self.progress_bar,
            line_limit_truncate: self.line_limit_truncate,
            verbose: self.verbose,
            output_format: opt_text(self.output_format),
        }
    }
}

/// The statistics mode that the arguments ask for: `--per-file-stats` wins;
/// else `per-file`/`per_file` and `both` are read, and anything else, or no
/// mode, means aggregated.
pub open spec fn requested_stats_mode(a: CliView) -> StatsMode {
    if a.per_file_stats {
        StatsMode::PerFile
    } else {
        match a.stats_mode {
            Some(m) => if m == "per-file"@ || m == "per_file"@ {
                StatsMode::PerFile
            } else if m == "both"@ {
                StatsMode::Both
            } else {
                StatsMode::Aggregated
            },
            None => StatsMode::Aggregated,
        }
    }
}

/// The arguments name files, a directory or a glob pattern.
pub open spec fn names_file_source(a: CliView) -> bool {
    a.files.len() != 0 || a.directory is Some || a.glob is Some
}

impl CliArgs {
    /// The statistics mode asked for; see `requested_stats_mode`.
    pub fn get_stats_mode(&self) -> (r: StatsMode)
        ensures
            r == requested_stats_mode(self@),
    {
        if self.per_file_stats {
            StatsMode::PerFile
        } else {
            match &self.stats_mode {
                Some(mode) => {
                    let m = chars_of(mode.as_str());
                    if equals_str(&m, "per-file") || equals_str(&m, "per_file") {
                        StatsMode::PerFile
                    } else if equals_str(&m, "both") {
                        StatsMode::Both
                    } else {
                        StatsMode::Aggregated
                    }
                },
                None => StatsMode::Aggregated,
            }
        }
    }

    /// The command line names a source of files.
    pub fn has_file_source(&self) -> (r: bool)
        ensures
            r == names_file_source(self@),
    {
        self.files.len() != 0 || self.directory.is_some() || self.glob.is_some()
    }
}

} // verus!
