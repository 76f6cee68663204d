use field_extract::config::{configure, plan, Plan};
use field_extract::error::ConfigError;
use field_extract::driver::Source;
use field_extract::mode::Mode;
use field_extract::options::Flags;
use field_extract::pipeline::Pipeline;
use field_extract::selection::{FieldRange, FieldSelection};

fn args(items: &[&str]) -> Vec<String> {
    items.iter().map(|s| s.to_string()).collect()
}

fn no_flags() -> Flags {
    Flags { delimiter: None, pattern: None, csv: false, tsv: false, fields: None, free: vec![] }
}

fn single(position: u64) -> FieldSelection {
    FieldSelection { ranges: vec![FieldRange { start: position, end: position }] }
}

#[test]
fn plan_of_csv_with_selection_and_files() {
    let expected = Plan {
        pipeline: Pipeline {
            mode: Mode::CSV,
            selection: Some(single(2)),
            delimiter: b",".to_vec(),
            strict: false,
        },
        sources: vec![Source::File("a.csv".to_string()), Source::File("b.csv".to_string())],
    };
    assert_eq!(configure(&args(&["--csv", "-f", "2", "a.csv", "b.csv"])), Ok(expected));
}

#[test]
fn plan_without_files_reads_standard_input() {
    let expected = Plan {
        pipeline: Pipeline {
            mode: Mode::TSV,
            selection: Some(single(1)),
            delimiter: b"\t".to_vec(),
            strict: false,
        },
        sources: vec![Source::StandardInput],
    };
    assert_eq!(configure(&args(&["--tsv", "--fields", "1"])), Ok(expected));
}

#[test]
fn plan_without_fields_keeps_every_field() {
    let expected = Plan {
        pipeline: Pipeline {
            mode: Mode::Split("::".to_string()),
            selection: None,
            delimiter: b"::".to_vec(),
            strict: false,
        },
        sources: vec![Source::File("in".to_string())],
    };
    assert_eq!(configure(&args(&["-d", "::", "in"])), Ok(expected.clone()));
    let flags = Flags {
        delimiter: Some("::".to_string()),
        free: args(&["in"]),
        ..no_flags()
    };
    assert_eq!(plan(&flags), Ok(expected));
}

#[test]
fn bad_selection_fails_before_any_source_is_opened() {
    for bad in ["", "0", "a-", "1,0", "2-1"] {
        assert_eq!(
            configure(&args(&["--csv", "-f", bad, "no-such-file"])),
            Err(ConfigError::InvalidSelection)
        );
    }
}

#[test]
fn missing_or_conflicting_mode_fails() {
    assert_eq!(configure(&args(&["-f", "1"])), Err(ConfigError::UnknownMode));
    assert_eq!(configure(&args(&[])), Err(ConfigError::UnknownMode));
    assert_eq!(configure(&args(&["--csv", "--tsv", "-f", "1"])), Err(ConfigError::UnknownMode));
}

#[test]
fn mode_is_looked_at_before_the_selection() {
    assert_eq!(configure(&args(&["-f", "0"])), Err(ConfigError::UnknownMode));
    let flags = Flags { fields: Some("".to_string()), ..no_flags() };
    assert_eq!(plan(&flags), Err(ConfigError::UnknownMode));
}

#[test]
fn unreadable_command_line_fails() {
    assert_eq!(configure(&args(&["--csv", "-z"])), Err(ConfigError::Usage));
    assert_eq!(configure(&args(&["--csv", "-f"])), Err(ConfigError::Usage));
}

#[test]
fn csv_and_tsv_without_fields_keep_every_field() {
    let csv = Plan {
        pipeline: Pipeline {
            mode: Mode::CSV,
            selection: None,
            delimiter: b",".to_vec(),
            strict: false,
        },
        sources: vec![Source::File("in.csv".to_string())],
    };
    assert_eq!(configure(&args(&["--csv", "in.csv"])), Ok(csv.clone()));
    assert_eq!(csv.pipeline.process(b"a,\"b,c\",d"), Ok(b"a,b,c,d\n".to_vec()));
    let tsv = Plan {
        pipeline: Pipeline {
            mode: Mode::TSV,
            selection: None,
            delimiter: b"\t".to_vec(),
            strict: false,
        },
        sources: vec![Source::StandardInput],
    };
    assert_eq!(configure(&args(&["--tsv"])), Ok(tsv.clone()));
    assert_eq!(tsv.pipeline.process(b"a\tb\tc"), Ok(b"a\tb\tc\n".to_vec()));
    let flags = Flags { csv: true, free: args(&["in.csv"]), ..no_flags() };
    assert_eq!(plan(&flags), Ok(csv));
}

#[test]
fn extract_without_fields_keeps_every_field() {
    let expected = Plan {
        pipeline: Pipeline {
            mode: Mode::Extract("ab".to_string()),
            selection: None,
            delimiter: b"ab".to_vec(),
            strict: false,
        },
        sources: vec![Source::StandardInput],
    };
    assert_eq!(configure(&args(&["-e", "ab"])), Ok(expected));
}
