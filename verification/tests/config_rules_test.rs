use load1c::config::includes::{merge_configs, IncludeAction, IncludeWalk};
use load1c::config::loader::{merge_maps, parse_config_text, take_includes};
use load1c::config::{
    default_detection_lines, default_encoding_detection_size, default_extensions, default_format,
    default_log_level, default_true, CliArgs, Config, ConfigError, ConfigLoader, StatsMode,
};
use load1c::file_discovery::{extension_matches, select_source, FileDiscoveryResult, FileSource};
use load1c::stats::format_number;
use std::path::PathBuf;

fn no_args() -> CliArgs {
    CliArgs {
        files: vec![],
        directory: None,
        glob: None,
        extensions: vec![],
        recursive: None,
        config_files: vec![],
        stats_mode: Some("aggregated".to_string()),
        per_file_stats: false,
        buffer_size: None,
        max_line_length: None,
        progress_bar: false,
        line_limit_truncate: false,
        verbose: false,
        output_format: None,
    }
}

#[test]
fn defaults_have_their_values() {
    assert_eq!(default_extensions(), vec![".txt".to_string(), ".1c".to_string()]);
    assert!(default_true());
    assert_eq!(default_encoding_detection_size(), 1024);
    assert_eq!(default_detection_lines(), 20);
    assert_eq!(default_format(), "table");
    assert_eq!(default_log_level(), "info");
    let c = Config::default_config();
    assert_eq!(c.parser.buffer_size, 65536);
    assert_eq!(c.parser.max_line_length, 1048576);
    assert!(!c.parser.features.line_limit_error);
    assert_eq!(c.output.stats_mode, StatsMode::Aggregated);
    assert_eq!(c.input.extensions, vec![".txt".to_string(), ".1c".to_string()]);
    assert!(!c.input.recursive);
    assert!(c.validate().is_ok());
}

#[test]
fn validation_messages() {
    let mut c = Config::default_config();
    c.parser.buffer_size = 1000;
    match c.validate() {
        Err(ConfigError::ValidationError(m)) => assert_eq!(m, "buffer_size должен быть >= 1024"),
        other => panic!("{:?}", other),
    }
    c.parser.buffer_size = 200 * 1024 * 1024;
    match c.validate() {
        Err(ConfigError::ValidationError(m)) => assert_eq!(m, "buffer_size должен быть <= 100 MB"),
        other => panic!("{:?}", other),
    }
    c.parser.buffer_size = 4096;
    c.parser.max_line_length = 10;
    match c.validate() {
        Err(ConfigError::ValidationError(m)) => assert_eq!(m, "max_line_length должен быть >= 1024"),
        other => panic!("{:?}", other),
    }
    match c.validate_file_source() {
        Err(ConfigError::ValidationError(m)) => {
            assert_eq!(m, "Не указан источник файлов: file, files, directory или glob")
        }
        other => panic!("{:?}", other),
    }
}

#[test]
fn cli_file_source_survives_application() {
    let mut c = Config::default_config();
    c.input.file = Some("a.txt".to_string());
    let mut a = no_args();
    a.directory = Some("data".to_string());
    a.glob = Some("*.1c".to_string());
    assert!(a.has_file_source());
    c.apply_cli_args(&a);
    assert_eq!(c.input.file, None);
    assert_eq!(c.input.directory, None);
    assert_eq!(c.input.glob.as_deref(), Some("*.1c"));
    assert!(c.validate_file_source().is_ok());

    let mut c2 = Config::default_config();
    let mut b = no_args();
    b.files = vec!["x".to_string()];
    b.recursive = Some(true);
    b.buffer_size = Some(2048);
    b.line_limit_truncate = true;
    b.progress_bar = true;
    b.verbose = true;
    b.output_format = Some("json".to_string());
    c2.apply_cli_args(&b);
    assert_eq!(c2.input.files, vec!["x".to_string()]);
    assert!(c2.input.recursive);
    assert_eq!(c2.parser.buffer_size, 2048);
    assert!(c2.parser.features.progress_bar);
    assert!(!c2.parser.features.line_limit_error);
    assert!(c2.output.verbose);
    assert_eq!(c2.output.format, "json");
}

#[test]
fn empty_cli_changes_nothing_and_stats_mode_rules() {
    let mut c = Config::default_config();
    c.output.stats_mode = StatsMode::Both;
    let before = c.clone();
    c.apply_cli_args(&no_args());
    assert_eq!(c.output.stats_mode, StatsMode::Aggregated);
    assert_eq!(c.input.extensions, before.input.extensions);
    assert_eq!(c.parser.buffer_size, before.parser.buffer_size);
    let mut both = no_args();
    both.stats_mode = Some("both".to_string());
    c.output.stats_mode = StatsMode::Aggregated;
    c.apply_cli_args(&both);
    assert_eq!(c.output.stats_mode, StatsMode::Both);
    let mut a = no_args();
    a.stats_mode = None;
    c.apply_cli_args(&a);
    assert_eq!(c.output.stats_mode, StatsMode::Aggregated);
    let mut p = no_args();
    p.per_file_stats = true;
    c.apply_cli_args(&p);
    assert_eq!(c.output.stats_mode, StatsMode::PerFile);
    assert!(!no_args().has_file_source());
}

#[test]
fn stats_mode_choice() {
    let mut a = no_args();
    for (m, want) in [
        ("per-file", StatsMode::PerFile),
        ("per_file", StatsMode::PerFile),
        ("both", StatsMode::Both),
        ("aggregated", StatsMode::Aggregated),
        ("other", StatsMode::Aggregated),
    ] {
        a.stats_mode = Some(m.to_string());
        assert_eq!(a.get_stats_mode(), want);
    }
    a.per_file_stats = true;
    assert_eq!(a.get_stats_mode(), StatsMode::PerFile);
    for m in [StatsMode::Aggregated, StatsMode::PerFile, StatsMode::Both] {
        assert!(m.show_per_file() || m.show_aggregated());
    }
    assert!(StatsMode::Both.show_per_file() && StatsMode::Both.show_aggregated());
    assert!(!StatsMode::Aggregated.show_per_file());
    assert!(!StatsMode::PerFile.show_aggregated());
}

#[test]
fn numbers_are_grouped_by_three() {
    assert_eq!(format_number(0), "0");
    assert_eq!(format_number(999), "999");
    assert_eq!(format_number(1000), "1 000");
    assert_eq!(format_number(1234567), "1 234 567");
    assert_eq!(format_number(u64::MAX), "18 446 744 073 709 551 615");
}

#[test]
fn discovery_summary_and_source_priority() {
    let r = FileDiscoveryResult {
        files: vec![PathBuf::from("a"), PathBuf::from("b")],
        errors: vec![(PathBuf::from("c"), "x".to_string())],
    };
    assert_eq!(r.summary(), "Найдено файлов: 2 | Ошибок: 1");
    let mut c = Config::default_config().input;
    c.glob = Some("*.txt".to_string());
    c.directory = Some("d".to_string());
    assert!(matches!(select_source(&c), FileSource::Glob(g) if g == "*.txt"));
    c.file = Some("f".to_string());
    assert!(matches!(select_source(&c), FileSource::File(f) if f == "f"));
    c.files = vec!["g".to_string()];
    assert!(matches!(select_source(&c), FileSource::Files(v) if v == vec!["g".to_string()]));
    let mut d = Config::default_config().input;
    assert!(matches!(select_source(&d), FileSource::Nothing));
    d.directory = Some("dir".to_string());
    d.recursive = true;
    assert!(matches!(select_source(&d), FileSource::Directory { path, recursive: true, .. } if path == "dir"));
}

#[test]
fn extensions_match_with_or_without_dot() {
    let exts = vec![".TXT".to_string(), "1c".to_string()];
    assert!(extension_matches("txt", &exts));
    assert!(extension_matches("TxT", &exts));
    assert!(extension_matches("1C", &exts));
    assert!(!extension_matches("csv", &exts));
    assert!(!extension_matches("txt", &[]));
}

#[test]
fn includes_are_taken_out_and_tables_merged() {
    let base = parse_config_text("a.toml", "[includes]\nfiles = [\"x.toml\", 3, \"y.toml\"]\n[parser]\nbuffer_size = 1\nmax_line_length = 2\n[output]\nformat = \"table\"\n").unwrap();
    let (table, files) = take_includes(base).unwrap();
    assert_eq!(files, vec!["x.toml".to_string(), "y.toml".to_string()]);
    assert!(!table.contains_key("includes"));
    let over = parse_config_text("x.toml", "[parser]\nbuffer_size = 9\n[output]\nverbose = true\nformat = \"json\"\n").unwrap();
    let (over_table, none) = take_includes(over).unwrap();
    assert!(none.is_empty());
    let merged = merge_maps(table, over_table);
    let parser = merged["parser"].as_table().unwrap();
    assert_eq!(parser["buffer_size"].as_integer(), Some(9));
    assert_eq!(parser["max_line_length"].as_integer(), Some(2));
    let output = merged["output"].as_table().unwrap();
    assert_eq!(output["format"].as_str(), Some("json"));
    assert_eq!(output["verbose"].as_bool(), Some(true));
}

#[test]
fn non_table_value_overrides_table() {
    let a = parse_config_text("a", "k = { x = 1 }\nm = 1\n").unwrap();
    let b = parse_config_text("b", "k = 5\nn = 2\n").unwrap();
    let (ta, _) = take_includes(a).unwrap();
    let (tb, _) = take_includes(b).unwrap();
    let merged = merge_maps(ta, tb);
    assert_eq!(merged["k"].as_integer(), Some(5));
    assert_eq!(merged["m"].as_integer(), Some(1));
    assert_eq!(merged["n"].as_integer(), Some(2));
}

#[test]
fn config_text_errors() {
    match parse_config_text("bad.toml", "a = = 1") {
        Err(ConfigError::ParseError(p, _)) => assert_eq!(p, "bad.toml"),
        other => panic!("{:?}", other),
    }
    match take_includes(toml::Value::Integer(1)) {
        Err(ConfigError::InvalidStructure(m)) => assert_eq!(m, "Expected table"),
        other => panic!("{:?}", other),
    }
    let loader = ConfigLoader::new(PathBuf::from("/base"));
    assert_eq!(loader.base_path, PathBuf::from("/base"));
}

#[test]
fn applying_cli_twice_is_applying_once() {
    let mut a = no_args();
    a.files = vec!["f".to_string()];
    a.glob = Some("*.txt".to_string());
    a.stats_mode = None;
    a.max_line_length = Some(5000);
    let mut once = Config::default_config();
    once.apply_cli_args(&a);
    let mut twice = once.clone();
    twice.apply_cli_args(&a);
    assert_eq!(once.input.files, twice.input.files);
    assert_eq!(once.input.glob, twice.input.glob);
    assert_eq!(once.input.directory, twice.input.directory);
    assert_eq!(once.parser.max_line_length, twice.parser.max_line_length);
    assert_eq!(once.output.stats_mode, twice.output.stats_mode);
}

#[test]
fn merging_with_empty_table_changes_nothing() {
    let (t, _) = take_includes(parse_config_text("a", "x = 1\n[s]\ny = 2\n").unwrap()).unwrap();
    let merged = merge_maps(t.clone(), toml::Table::new());
    assert_eq!(merged, t);
    let merged2 = merge_maps(toml::Table::new(), t.clone());
    assert_eq!(merged2, t);
}

#[test]
fn nested_tables_merge_at_every_depth() {
    let (base, _) = take_includes(
        parse_config_text("base", "[parser]\nbuffer_size = 1\n[parser.features]\nprogress_bar = true\n")
            .unwrap(),
    )
    .unwrap();
    let (over, _) =
        take_includes(parse_config_text("over", "[parser.features]\nline_limit_error = false\n").unwrap())
            .unwrap();
    let merged = merge_maps(base, over);
    let parser = merged["parser"].as_table().unwrap();
    assert_eq!(parser["buffer_size"].as_integer(), Some(1));
    let features = parser["features"].as_table().unwrap();
    assert_eq!(features["progress_bar"].as_bool(), Some(true));
    assert_eq!(features["line_limit_error"].as_bool(), Some(false));
    assert_eq!(features.len(), 2);
}

fn expect_read(a: IncludeAction) -> (String, usize) {
    match a {
        IncludeAction::ReadFile { name, depth } => (name, depth),
        other => panic!("expected a file request, got {:?}", other),
    }
}

fn expect_done(a: IncludeAction) -> toml::Table {
    match a {
        IncludeAction::Done(t) => t,
        other => panic!("expected the result, got {:?}", other),
    }
}

#[test]
fn file_without_includes_is_done_at_once() {
    let (_, a) = IncludeWalk::start("main.toml", "x = 1\n[includes]\nfiles = []\n").unwrap();
    let t = expect_done(a);
    assert_eq!(t["x"].as_integer(), Some(1));
    assert!(!t.contains_key("includes"));
}

#[test]
fn includes_are_walked_depth_first_and_override_their_includer() {
    let root = "x = 1\ny = 1\nz = 1\n[includes]\nfiles = [\"a.toml\", \"b.toml\"]\n";
    let (mut walk, a) = IncludeWalk::start("main.toml", root).unwrap();
    assert_eq!(expect_read(a), ("a.toml".to_string(), 1));
    let a = walk.feed("x = 2\n[includes]\nfiles = [\"c.toml\"]\n").unwrap();
    assert_eq!(expect_read(a), ("c.toml".to_string(), 2));
    let a = walk.feed("x = 3\nw = 3\n").unwrap();
    assert_eq!(expect_read(a), ("b.toml".to_string(), 1));
    let a = walk.feed("y = 4\nw = 4\n").unwrap();
    let t = expect_done(a);
    assert_eq!(t["x"].as_integer(), Some(3));
    assert_eq!(t["y"].as_integer(), Some(4));
    assert_eq!(t["z"].as_integer(), Some(1));
    assert_eq!(t["w"].as_integer(), Some(4));
    assert!(!t.contains_key("includes"));
    match walk.feed("x = 5\n") {
        Err(ConfigError::IncludeError(_)) => {}
        other => panic!("{:?}", other),
    }
}

#[test]
fn include_parse_error_names_the_included_file() {
    let (mut walk, a) =
        IncludeWalk::start("main.toml", "[includes]\nfiles = [\"bad.toml\"]\n").unwrap();
    assert_eq!(expect_read(a).0, "bad.toml");
    match walk.feed("x = = 1\n") {
        Err(ConfigError::ParseError(p, _)) => assert_eq!(p, "bad.toml"),
        other => panic!("{:?}", other),
    }
    let a = walk.feed("x = 1\n").unwrap();
    assert_eq!(expect_done(a)["x"].as_integer(), Some(1));
    match IncludeWalk::start("main.toml", "[[[") {
        Err(ConfigError::ParseError(p, _)) => assert_eq!(p, "main.toml"),
        other => panic!("{:?}", other.map(|_| ())),
    }
}

#[test]
fn later_configuration_files_override_earlier_ones() {
    let (t1, _) = take_includes(parse_config_text("a", "x = 1\ny = 1\n[parser]\nbuffer_size = 1\n").unwrap()).unwrap();
    let (t2, _) = take_includes(parse_config_text("b", "x = 2\n[parser]\nmax_line_length = 2\n").unwrap()).unwrap();
    let merged = merge_configs(vec![t1, t2]);
    assert_eq!(merged["x"].as_integer(), Some(2));
    assert_eq!(merged["y"].as_integer(), Some(1));
    let parser = merged["parser"].as_table().unwrap();
    assert_eq!(parser["buffer_size"].as_integer(), Some(1));
    assert_eq!(parser["max_line_length"].as_integer(), Some(2));
    assert!(merge_configs(vec![]).is_empty());
}
