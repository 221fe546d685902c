//! The configuration's settings, their defaults, and how the command line
//! overrides them.
use crate::config::cli::{requested_stats_mode, CliArgs, CliView};
use crate::text::{copy_opt_text, copy_texts, opt_text, texts};
use vstd::prelude::*;

verus! {

#[verifier::external_type_specification]
#[verifier::external_body]
pub struct ExPathBuf(std::path::PathBuf);

#[verifier::external_type_specification]
#[verifier::external_body]
pub struct ExIoError(std::io::Error);

#[verifier::external_type_specification]
#[verifier::external_body]
pub struct ExTomlDeError(toml::de::Error);

/// The whole configuration.
#[derive(Debug, Clone)]
pub struct Config {
    pub includes: IncludesConfig,
    /// Where the files to process come from.
    pub input: InputConfig,
    pub parser: ParserConfig,
    pub output: OutputConfig,
    pub logging: LoggingConfig,
}

/// Other configuration files to read.
#[derive(Debug, Clone)]
pub struct IncludesConfig {
    pub files: Vec<String>,
}

/// Where the files to process come from.
#[derive(Debug, Clone)]
pub struct InputConfig {
    /// One file.
    pub file: Option<String>,
    /// A list of files.
    pub files: Vec<String>,
    /// A directory to search.
    pub directory: Option<String>,
    /// A glob pattern (such as `data/*.1c`).
    pub glob: Option<String>,
    /// Extensions looked for in a directory.
    pub extensions: Vec<String>,
    /// Search subdirectories too.
    pub recursive: bool,
}

/// Settings of the parser.
#[derive(Debug, Clone, Copy)]
pub struct ParserConfig {
    /// Read buffer size, in bytes.
    pub buffer_size: usize,
    /// Longest line, in bytes.
    pub max_line_length: usize,
    /// Bytes looked at to detect the encoding.
    pub encoding_detection_size: usize,
    /// Lines looked at to detect the encoding.
    pub detection_lines: usize,
    pub features: ParserFeatures,
}

/// Optional parser behaviour.
#[derive(Debug, Clone, Copy)]
pub struct ParserFeatures {
    /// Show a progress bar.
    pub progress_bar: bool,
    /// A line over the limit is an error (else it is cut).
    pub line_limit_error: bool,
    /// Check control sums.
    pub validate_checksums: bool,
}

/// Settings of the output.
#[derive(Debug, Clone)]
pub struct OutputConfig {
    pub format: String,
    pub verbose: bool,
    pub file: Option<std::path::PathBuf>,
    pub stats_mode: StatsMode,
}

/// Which statistics are shown.
#[derive(Debug, Clone, Copy, PartialEq, Eq, Structural)]
pub enum StatsMode {
    /// Totals over all files only (the default).
    Aggregated,
    /// Each file's own only.
    PerFile,
    /// Both.
    Both,
}

/// Settings of logging.
#[derive(Debug, Clone)]
pub struct LoggingConfig {
    /// `debug`, `info`, `warn` or `error`.
    pub level: String,
    pub file: Option<std::path::PathBuf>,
}

/// What can go wrong while reading the configuration.
#[derive(Debug)]
pub enum ConfigError {
    IoError(String, std::io::Error),
    ParseError(String, toml::de::Error),
    DeserializationError(toml::de::Error),
    ValidationError(String),
    IncludeError(String),
    InvalidStructure(String),
}

/// `InputConfig` with texts as character sequences.
pub struct InputView {
    pub file: Option<Seq<char>>,
    pub files: Seq<Seq<char>>,
    pub directory: Option<Seq<char>>,
    pub glob: Option<Seq<char>>,
    pub extensions: Seq<Seq<char>>,
    pub recursive: bool,
}

impl View for InputConfig {
    type V = InputView;

    open spec fn view(&self) -> InputView {
        InputView {
            file: opt_text(self.file),
            files: texts(self.files@),
            directory: opt_text(self.directory),
            glob: opt_text(self.glob),
            extensions: texts(self.extensions@),
            recursive: self.recursive,
        }
    }
}

/// `OutputConfig` with texts as character sequences.
pub struct OutputView {
    pub format: Seq<char>,
    pub verbose: bool,
    pub file: Option<std::path::PathBuf>,
    pub stats_mode: StatsMode,
}

impl View for OutputConfig {
    type V = OutputView;

    open spec fn view(&self) -> OutputView {
        OutputView {
            format: self.format@,
            verbose: self.verbose,
            file: self.file,
            stats_mode: self.stats_mode,
        }
    }
}

/// `LoggingConfig` with texts as character sequences.
pub struct LoggingView {
    pub level: Seq<char>,
    pub file: Option<std::path::PathBuf>,
}

impl View for LoggingConfig {
    type V = LoggingView;

    open spec fn view(&self) -> LoggingView {
        LoggingView { level: self.level@, file: self.file }
    }
}

/// `Config` with texts as character sequences.
pub struct ConfigView {
    pub includes: Seq<Seq<char>>,
    pub input: InputView,
    pub parser: ParserConfig,
    pub output: OutputView,
    pub logging: LoggingView,
}

impl View for Config {
    type V = ConfigView;

    open spec fn view(&self) -> ConfigView {
        ConfigView {
            includes: texts(self.includes.files@),
            input: self.input@,
            parser: self.parser,
            output: self.output@,
            logging: self.logging@,
        }
    }
}

/// Extensions looked for when the configuration names none: `.txt`, `.1c`.
pub fn default_extensions() -> (r: Vec<String>)
    ensures
        texts(r@) == seq![".txt"@, ".1c"@],
{
    let mut r: Vec<String> = Vec::new();
    r.push(".txt".to_owned());
    r.push(".1c".to_owned());
    assert(texts(r@) =~= seq![".txt"@, ".1c"@]);
    r
}

/// The default of the flags that are on unless turned off.
pub fn default_true() -> (r: bool)
    ensures
        r,
{
    true
}

/// Bytes looked at to detect the encoding, by default.
pub fn default_encoding_detection_size() -> (r: usize)
    ensures
        r == 1024,
{
    1024
}

/// Lines looked at to detect the encoding, by default.
pub fn default_detection_lines() -> (r: usize)
    ensures
        r == 20,
{
    20
}

/// Output format when the configuration names none.
pub fn default_format() -> (r: String)
    ensures
        r@ == "table"@,
{
    "table".to_owned()
}

/// Log level when the configuration names none.
pub fn default_log_level() -> (r: String)
    ensures
        r@ == "info"@,
{
    "info".to_owned()
}

impl Default for IncludesConfig {
    fn default() -> (r: Self)
        ensures
            texts(r.files@) == Seq::<Seq<char>>::empty(),
    {
        let r = IncludesConfig { files: Vec::new() };
        assert(texts(r.files@) =~= Seq::<Seq<char>>::empty());
        r
    }
}

/// Input settings with no source set and the default extensions `.txt`, `.1c`.
pub open spec fn default_input() -> InputView {
    InputView {
        file: None,
        files: Seq::empty(),
        directory: None,
        glob: None,
        extensions: seq![".txt"@, ".1c"@],
        recursive: false,
    }
}

impl Default for InputConfig {
    fn default() -> (r: Self)
        ensures
            r@ == default_input(),
    {
        let r = InputConfig {
            file: None,
            files: Vec::new(),
            directory: None,
            glob: None,
            extensions: default_extensions(),
            recursive: false,
        };
        assert(texts(r.files@) =~= Seq::<Seq<char>>::empty());
        r
    }
}

impl Default for ParserFeatures {
    fn default() -> (r: Self)
        ensures
            !r.progress_bar,
            !r.line_limit_error,
            !r.validate_checksums,
    {
        ParserFeatures { progress_bar: false, line_limit_error: false, validate_checksums: false }
    }
}

impl Default for StatsMode {
    fn default() -> (r: Self)
        ensures
            r == StatsMode::Aggregated,
    {
        StatsMode::Aggregated
    }
}

impl Default for OutputConfig {
    fn default() -> (r: Self)
        ensures
            r@ == (OutputView { format: Seq::empty(), verbose: false, file: None, stats_mode: StatsMode::Aggregated }),
    {
        OutputConfig { format: String::new(), verbose: false, file: None, stats_mode: StatsMode::Aggregated }
    }
}

impl Default for LoggingConfig {
    fn default() -> (r: Self)
        ensures
            r@ == (LoggingView { level: Seq::empty(), file: None }),
    {
        LoggingConfig { level: String::new(), file: None }
    }
}

impl StatsMode {
    /// Each file's statistics are shown.
    pub fn show_per_file(&self) -> (r: bool)
        ensures
            r == (*self == StatsMode::PerFile || *self == StatsMode::Both),
    {
        match self {
            StatsMode::PerFile | StatsMode::Both => true,
            StatsMode::Aggregated => false,
        }
    }

    /// The totals over all files are shown.
    pub fn show_aggregated(&self) -> (r: bool)
        ensures
            r == (*self == StatsMode::Aggregated || *self == StatsMode::Both),
    {
        match self {
            StatsMode::Aggregated | StatsMode::Both => true,
            StatsMode::PerFile => false,
        }
    }
}

/// Every statistics mode shows something: each file's figures, the totals, or
/// both.
pub proof fn lemma_stats_mode_shows_something(m: StatsMode)
    ensures
        (m == StatsMode::PerFile || m == StatsMode::Both) || (m == StatsMode::Aggregated || m
            == StatsMode::Both),
{
}

/// The parser settings of `Config::default_config`.
pub open spec fn default_parser_config() -> ParserConfig {
    ParserConfig {
        buffer_size: 65536,
        max_line_length: 1048576,
        encoding_detection_size: 1024,
        detection_lines: 20,
        features: ParserFeatures { progress_bar: false, line_limit_error: false, validate_checksums: false },
    }
}

/// The file sources after the command line: files from the command line
/// replace every other file source; a directory replaces the single file and
/// the glob pattern; a glob pattern replaces the single file and the
/// directory (applied in that order). Extensions and recursion replace their
/// settings when given.
pub open spec fn input_with_cli(i0: InputView, a: CliView) -> InputView {
    let i1 = if a.files.len() != 0 {
        InputView { files: a.files, file: None, directory: None, glob: None, ..i0 }
    } else {
        i0
    };
    let i2 = if a.directory is Some {
        InputView { directory: a.directory, file: None, glob: None, ..i1 }
    } else {
        i1
    };
    let i3 = if a.glob is Some {
        InputView { glob: a.glob, file: None, directory: None, ..i2 }
    } else {
        i2
    };
    let i4 = if a.extensions.len() != 0 {
        InputView { extensions: a.extensions, ..i3 }
    } else {
        i3
    };
    match a.recursive {
        Some(r) => InputView { recursive: r, ..i4 },
        None => i4,
    }
}

/// The parser settings after the command line: sizes replace theirs when
/// given, `--progress` turns the progress bar on, `--line-limit-truncate`
/// turns the line-limit error off.
pub open spec fn parser_with_cli(p0: ParserConfig, a: CliView) -> ParserConfig {
    let p1 = match a.buffer_size {
        Some(b) => ParserConfig { buffer_size: b, ..p0 },
        None => p0,
    };
    let p2 = match a.max_line_length {
        Some(m) => ParserConfig { max_line_length: m, ..p1 },
        None => p1,
    };
    let p3 = if a.progress_bar {
        ParserConfig { features: ParserFeatures { progress_bar: true, ..p2.features }, ..p2 }
    } else {
        p2
    };
    if a.line_limit_truncate {
        ParserConfig { features: ParserFeatures { line_limit_error: false, ..p3.features }, ..p3 }
    } else {
        p3
    }
}

/// The output settings after the command line: the statistics mode becomes
/// the one the command line asks for (see `requested_stats_mode`);
/// `--verbose` and the format replace theirs when given.
pub open spec fn output_with_cli(o0: OutputView, a: CliView) -> OutputView {
    let o1 = OutputView { stats_mode: requested_stats_mode(a), ..o0 };
    let o2 = if a.verbose {
        OutputView { verbose: true, ..o1 }
    } else {
        o1
    };
    match a.output_format {
        Some(f) => OutputView { format: f, ..o2 },
        None => o2,
    }
}

/// The configuration after the command line is applied on top of it.
pub open spec fn with_cli_args(c: ConfigView, a: CliView) -> ConfigView {
    ConfigView {
        input: input_with_cli(c.input, a),
        parser: parser_with_cli(c.parser, a),
        output: output_with_cli(c.output, a),
        ..c
    }
}

fn apply_cli_to_input(input: &mut InputConfig, args: &CliArgs)
    ensures
        final(input)@ == input_with_cli(old(input)@, args@),
{
    if args.files.len() != 0 {
        input.files = copy_texts(&args.files);
        input.file = None;
        input.directory = None;
        input.glob = None;
    }
    if args.directory.is_some() {
        input.directory = copy_opt_text(&args.directory);
        input.file = None;
        input.glob = None;
    }
    if args.glob.is_some() {
        input.glob = copy_opt_text(&args.glob);
        input.file = None;
        input.directory = None;
    }
    if args.extensions.len() != 0 {
        input.extensions = copy_texts(&args.extensions);
    }
    if let Some(r) = args.recursive {
        input.recursive = r;
    }
}

fn apply_cli_to_parser(parser: &mut ParserConfig, args: &CliArgs)
    ensures
        *final(parser) == parser_with_cli(*old(parser), args@),
{
    if let Some(buffer_size) = args.buffer_size {
        parser.buffer_size = buffer_size;
    }
    if let Some(max_line_length) = args.max_line_length {
        parser.max_line_length = max_line_length;
    }
    if args.progress_bar {
        parser.features.progress_bar = true;
    }
    if args.line_limit_truncate {
        parser.features.line_limit_error = false;
    }
}

fn apply_cli_to_output(output: &mut OutputConfig, args: &CliArgs)
    ensures
        final(output)@ == output_with_cli(old(output)@, args@),
{
    output.stats_mode = args.get_stats_mode();
    if args.verbose {
        output.verbose = true;
    }
    if let Some(format) = &args.output_format {
        output.format = format.clone();
    }
}

/// The complaint about parser settings out of range, if any.
pub open spec fn parser_config_problem(p: ParserConfig) -> Option<Seq<char>> {
    if p.buffer_size < 1024 {
        Some("buffer_size должен быть >= 1024"@)
    } else if p.buffer_size > 104857600 {
        Some("buffer_size должен быть <= 100 MB"@)
    } else if p.max_line_length < 1024 {
        Some("max_line_length должен быть >= 1024"@)
    } else {
        None
    }
}

/// Some source of files is set.
pub open spec fn has_input_source(i: InputView) -> bool {
    i.file is Some || i.files.len() != 0 || i.directory is Some || i.glob is Some
}

/// The complaint when no source of files is set.
pub open spec fn missing_source_message() -> Seq<char> {
    "Не указан источник файлов: file, files, directory или glob"@
}

impl Config {
    /// Built-in settings: 64 KiB buffer, 1 MiB lines, everything else at its
    /// plain default.
    pub fn default_config() -> (c: Self)
        ensures
            c@.includes == Seq::<Seq<char>>::empty(),
            c@.input == default_input(),
            c@.parser == default_parser_config(),
            c@.output == (OutputView { format: Seq::empty(), verbose: false, file: None, stats_mode: StatsMode::Aggregated }),
            c@.logging == (LoggingView { level: Seq::empty(), file: None }),
    {
        Config {
            includes: IncludesConfig::default(),
            input: InputConfig::default(),
            parser: ParserConfig {
                buffer_size: 65536,
                max_line_length: 1048576,
                encoding_detection_size: 1024,
                detection_lines: 20,
                features: ParserFeatures::default(),
            },
            output: OutputConfig::default(),
            logging: LoggingConfig::default(),
        }
    }

    /// Applies the command line on top of the configuration; see `with_cli_args`.
    pub fn apply_cli_args(&mut self, args: &CliArgs)
        ensures
            final(self)@ == with_cli_args(old(self)@, args@),
    {
        apply_cli_to_input(&mut self.input, args);
        apply_cli_to_parser(&mut self.parser, args);
        apply_cli_to_output(&mut self.output, args);
    }

    /// Checks the parser settings; see `parser_config_problem`.
    pub fn validate(&self) -> (r: Result<(), ConfigError>)
        ensures
            match parser_config_problem(self.parser) {
                None => r is Ok,
                Some(m) => r matches Err(ConfigError::ValidationError(s)) && s@ == m,
            },
    {
        if self.parser.buffer_size < 1024 {
            return Err(ConfigError::ValidationError("buffer_size должен быть >= 1024".to_owned()));
        }
        if self.parser.buffer_size > 104857600 {
            return Err(ConfigError::ValidationError("buffer_size должен быть <= 100 MB".to_owned()));
        }
        if self.parser.max_line_length < 1024 {
            return Err(ConfigError::ValidationError("max_line_length должен быть >= 1024".to_owned()));
        }
        Ok(())
    }

    /// Checks that some source of files is set.
    pub fn validate_file_source(&self) -> (r: Result<(), ConfigError>)
        ensures
            has_input_source(self@.input) ==> r is Ok,
            !has_input_source(self@.input) ==> (r matches Err(ConfigError::ValidationError(s)) && s@ == missing_source_message()),
    {
        if self.input.file.is_none() && self.input.files.len() == 0 && self.input.directory.is_none()
            && self.input.glob.is_none() {
            return Err(ConfigError::ValidationError("Не указан источник файлов: file, files, directory или glob".to_owned()));
        }
        Ok(())
    }
}

/// The built-in configuration passes `validate`.
pub proof fn lemma_default_config_valid()
    ensures
        parser_config_problem(default_parser_config()) is None,
{
}

/// A file source on the command line survives `apply_cli_args`: the result has
/// a source of files, no single configured file, and at most one of a
/// directory and a glob pattern.
pub proof fn lemma_cli_file_source_kept(c: ConfigView, a: CliView)
    requires
        crate::config::cli::names_file_source(a),
    ensures
        has_input_source(with_cli_args(c, a).input),
        with_cli_args(c, a).input.file is None,
        !(with_cli_args(c, a).input.directory is Some && with_cli_args(c, a).input.glob is Some),
{
}

/// The command line sets nothing but the statistics mode: no file source,
/// extension, recursion, size, flag or format.
pub open spec fn cli_sets_nothing(a: CliView) -> bool {
    &&& a.files.len() == 0
    &&& a.directory is None
    &&& a.glob is None
    &&& a.extensions.len() == 0
    &&& a.recursive is None
    &&& a.buffer_size is None
    &&& a.max_line_length is None
    &&& !a.progress_bar
    &&& !a.line_limit_truncate
    &&& !a.verbose
    &&& a.output_format is None
}

/// A command line that sets nothing but the statistics mode changes nothing
/// else in the configuration.
pub proof fn lemma_cli_without_settings_keeps_config(c: ConfigView, a: CliView)
    requires
        cli_sets_nothing(a),
    ensures
        with_cli_args(c, a) == (ConfigView {
            output: OutputView { stats_mode: requested_stats_mode(a), ..c.output },
            ..c
        }),
{
}

/// Applying the same command line twice is applying it once.
pub proof fn lemma_apply_cli_idempotent(c: ConfigView, a: CliView)
    ensures
        with_cli_args(with_cli_args(c, a), a) == with_cli_args(c, a),
{
}

/// What each command-line option does to the configuration, field by field:
/// a list of files replaces the files and clears the single file, the
/// directory and the glob; a directory replaces the directory and clears the
/// single file and the glob; a glob replaces the glob and clears the single
/// file and the directory (applied in that order); extensions, recursion,
/// sizes and the output format replace their settings when given;
/// `--progress` and `--verbose` turn their switch on; `--line-limit-truncate`
/// turns the line-limit error off; the statistics mode is per file with
/// `--per-file-stats` or a `per-file`/`per_file` mode, both with `both`, and
/// aggregated otherwise. Everything else is kept.
pub proof fn lemma_cli_options_override(c: ConfigView, a: CliView)
    ensures
        with_cli_args(c, a).input.files == (if a.files.len() != 0 { a.files } else { c.input.files }),
        with_cli_args(c, a).input.file == (if a.files.len() != 0 || a.directory is Some || a.glob is Some {
            None
        } else {
            c.input.file
        }),
        with_cli_args(c, a).input.directory == (if a.glob is Some {
            None
        } else if a.directory is Some {
            a.directory
        } else if a.files.len() != 0 {
            None
        } else {
            c.input.directory
        }),
        with_cli_args(c, a).input.glob == (if a.glob is Some {
            a.glob
        } else if a.files.len() != 0 || a.directory is Some {
            None
        } else {
            c.input.glob
        }),
        a.extensions.len() != 0 ==> with_cli_args(c, a).input.extensions == a.extensions,
        a.extensions.len() == 0 ==> with_cli_args(c, a).input.extensions == c.input.extensions,
        with_cli_args(c, a).input.recursive == (match a.recursive {
            Some(r) => r,
            None => c.input.recursive,
        }),
        with_cli_args(c, a).parser.buffer_size == (match a.buffer_size {
            Some(b) => b,
            None => c.parser.buffer_size,
        }),
        with_cli_args(c, a).parser.max_line_length == (match a.max_line_length {
            Some(m) => m,
            None => c.parser.max_line_length,
        }),
        with_cli_args(c, a).parser.encoding_detection_size == c.parser.encoding_detection_size,
        with_cli_args(c, a).parser.detection_lines == c.parser.detection_lines,
        with_cli_args(c, a).parser.features.progress_bar == (a.progress_bar || c.parser.features.progress_bar),
        with_cli_args(c, a).parser.features.line_limit_error == (!a.line_limit_truncate
            && c.parser.features.line_limit_error),
        with_cli_args(c, a).parser.features.validate_checksums == c.parser.features.validate_checksums,
        with_cli_args(c, a).output.verbose == (a.verbose || c.output.verbose),
        with_cli_args(c, a).output.format == (match a.output_format {
            Some(f) => f,
            None => c.output.format,
        }),
        with_cli_args(c, a).output.file == c.output.file,
        a.per_file_stats ==> with_cli_args(c, a).output.stats_mode == StatsMode::PerFile,
        !a.per_file_stats && (a.stats_mode == Some("per-file"@) || a.stats_mode == Some("per_file"@))
            ==> with_cli_args(c, a).output.stats_mode == StatsMode::PerFile,
        !a.per_file_stats && a.stats_mode == Some("both"@) ==> with_cli_args(c, a).output.stats_mode
            == StatsMode::Both,
        !a.per_file_stats && a.stats_mode != Some("per-file"@) && a.stats_mode != Some("per_file"@)
            && a.stats_mode != Some("both"@) ==> with_cli_args(c, a).output.stats_mode == StatsMode::Aggregated,
        with_cli_args(c, a).includes == c.includes,
        with_cli_args(c, a).logging == c.logging,
{
    reveal_strlit("per-file");
    reveal_strlit("per_file");
    reveal_strlit("both");
    assert("both"@.len() != "per-file"@.len());
    assert("both"@.len() != "per_file"@.len());
}

/// The parser settings are accepted exactly when the buffer holds between
/// 1 KiB and 100 MiB and the line limit is at least 1 KiB; a buffer that is
/// too small is reported first, then one that is too large, then the line
/// limit.
pub proof fn lemma_validation_bounds(p: ParserConfig)
    ensures
        parser_config_problem(p) is None <==> (1024 <= p.buffer_size <= 104857600 && p.max_line_length >= 1024),
        p.buffer_size < 1024 ==> parser_config_problem(p) == Some("buffer_size должен быть >= 1024"@),
        p.buffer_size > 104857600 ==> parser_config_problem(p) == Some("buffer_size должен быть <= 100 MB"@),
        1024 <= p.buffer_size <= 104857600 && p.max_line_length < 1024 ==> parser_config_problem(p) == Some(
            "max_line_length должен быть >= 1024"@,
        ),
{
}

} // verus!
