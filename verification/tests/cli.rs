use luafmt::cli::{parse_options, ProgramOpts};
use luafmt::config::{Config, FormatOpts};

fn parse(options: &Vec<String>) -> (Config, ProgramOpts) {
    let (cfg, po, _) = parse_options(options);
    (cfg, po)
}

#[test]
fn test_parse_options() {
    let options = vec![
        "--field_separator=,".to_string(),
        "--inplace".to_string(),
        "file1.lua".to_string(),
        "./file".to_string(),
        "-r".to_string(),
        "/home/files/file.txt".to_string(),
    ];
    let cfg = Config {
        fmt: FormatOpts { field_separator: Some(",".to_string()), ..FormatOpts::default() },
        ..Config::default()
    };
    let po = ProgramOpts { inplace: true, recursive: true, ..ProgramOpts::default() };
    assert_eq!(parse(&options), (cfg, po));

    let options = vec!["-i".to_string(), "--recursive".to_string(), "--newline_format_if=1".to_string()];
    let cfg = Config { fmt: FormatOpts { newline_format_if: Some(1), ..FormatOpts::default() }, ..Config::default() };
    let po = ProgramOpts { inplace: true, recursive: true, ..ProgramOpts::default() };
    assert_eq!(parse(&options), (cfg, po));

    let options = vec!["--line_range=1:324".to_string()];
    let cfg = Config { line_range: Some((1, 324)), ..Config::default() };
    let po = ProgramOpts { ..ProgramOpts::default() };
    assert_eq!(parse(&options), (cfg, po));

    let options = vec!["-v".to_string(), "--line_range=1:324".to_string(), "-i".to_string()];
    let cfg = Config { line_range: Some((1, 324)), ..Config::default() };
    let po = ProgramOpts { verbose: true, inplace: true, ..ProgramOpts::default() };
    assert_eq!(parse(&options), (cfg, po));

    let options = vec![];
    let cfg = Config { ..Config::default() };
    let po = ProgramOpts::default();
    assert_eq!(parse(&options), (cfg, po));
}

#[test]
fn test_parse_options_warnings() {
    let options = vec!["--no_such_option=1".to_string(), "-x".to_string(), "--max_width=abc".to_string()];
    let (cfg, po, warnings) = parse_options(&options);
    assert_eq!(cfg, Config::default());
    assert_eq!(po, ProgramOpts::default());
    assert_eq!(
        warnings,
        vec![
            "Invalid option name `no_such_option`".to_string(),
            "Unrecognized option `-x`".to_string(),
            "Invalid `max_width` option value `abc`".to_string(),
        ]
    );
}

#[test]
fn test_parse_options_warnings_in_order() {
    let options: Vec<String> = vec!["--max_width=80", "--bogus=1", "-x", "--remove_comments=maybe", "-v", "--max_width=90"]
        .into_iter()
        .map(|s| s.to_string())
        .collect();
    let (cfg, program_opts, warnings) = parse_options(&options);
    assert_eq!(cfg.fmt.max_width, Some(90));
    assert_eq!(cfg.fmt.remove_comments, None);
    assert!(program_opts.verbose);
    assert!(!program_opts.inplace);
    assert_eq!(
        warnings,
        vec![
            "Invalid option name `bogus`".to_string(),
            "Unrecognized option `-x`".to_string(),
            "Invalid `remove_comments` option value `maybe`".to_string(),
        ]
    );
}
