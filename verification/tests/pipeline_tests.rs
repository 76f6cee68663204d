use field_extract::error::MalformedRecordError;
use field_extract::mode::{split, Mode};
use field_extract::pipeline::Pipeline;
use field_extract::selection::{project, FieldSelection};
use field_extract::text::copy_bytes;
use field_extract::writer::{append, format_line};

fn fields(items: &[&str]) -> Vec<Vec<u8>> {
    items.iter().map(|s| s.as_bytes().to_vec()).collect()
}

fn selection(expr: &str) -> Option<FieldSelection> {
    Some(FieldSelection::parse(expr).unwrap())
}

#[test]
fn tsv_selection_of_second_field() {
    let record = split(b"a\tb\tc", &Mode::TSV).unwrap();
    let picked = project(&record, &FieldSelection::parse("2").unwrap());
    assert_eq!(picked, fields(&["b"]));
    let pipeline = Pipeline::new(Mode::TSV, selection("2"));
    assert_eq!(pipeline.process(b"a\tb\tc"), Ok(b"b\n".to_vec()));
}

#[test]
fn format_line_joins_and_ends_the_line() {
    assert_eq!(format_line(&fields(&["a", "b", "c"]), b","), b"a,b,c\n".to_vec());
    assert_eq!(format_line(&fields(&["a", "b"]), b" | "), b"a | b\n".to_vec());
    assert_eq!(format_line(&fields(&["a", "", ""]), b","), b"a,,\n".to_vec());
    assert_eq!(format_line(&fields(&["a", "b"]), b""), b"ab\n".to_vec());
}

#[test]
fn format_line_of_one_field_has_no_delimiter() {
    assert_eq!(format_line(&fields(&["only"]), b","), b"only\n".to_vec());
    assert_eq!(format_line(&fields(&[""]), b","), b"\n".to_vec());
}

#[test]
fn format_line_of_no_field_is_an_empty_line() {
    assert_eq!(format_line(&fields(&[]), b","), b"\n".to_vec());
}

#[test]
fn append_adds_bytes_at_the_end() {
    let mut v = b"ab".to_vec();
    append(&mut v, b"cd");
    assert_eq!(v, b"abcd".to_vec());
    append(&mut v, b"");
    assert_eq!(v, b"abcd".to_vec());
}

#[test]
fn copy_bytes_copies() {
    assert_eq!(copy_bytes(b"abc"), b"abc".to_vec());
    assert_eq!(copy_bytes(b""), b"".to_vec());
}

#[test]
fn output_delimiter_follows_the_mode() {
    assert_eq!(Mode::Split("::".to_string()).output_delimiter(), b"::".to_vec());
    assert_eq!(Mode::Extract("ab".to_string()).output_delimiter(), b"ab".to_vec());
    assert_eq!(Mode::CSV.output_delimiter(), b",".to_vec());
    assert_eq!(Mode::TSV.output_delimiter(), b"\t".to_vec());
}

#[test]
fn only_csv_and_tsv_are_quoted() {
    assert!(Mode::CSV.is_quoted());
    assert!(Mode::TSV.is_quoted());
    assert!(!Mode::Split(",".to_string()).is_quoted());
    assert!(!Mode::Extract(",".to_string()).is_quoted());
}

#[test]
fn new_pipeline_takes_the_delimiter_of_its_mode() {
    let pipeline = Pipeline::new(Mode::Split("::".to_string()), selection("1"));
    assert_eq!(pipeline.mode, Mode::Split("::".to_string()));
    assert_eq!(pipeline.selection, selection("1"));
    assert_eq!(pipeline.delimiter, b"::".to_vec());
    assert!(!pipeline.strict);
}

#[test]
fn process_split_record() {
    let pipeline = Pipeline::new(Mode::Split("::".to_string()), selection("3,1"));
    assert_eq!(pipeline.process(b"a::b::c"), Ok(b"c::a\n".to_vec()));
}

#[test]
fn process_csv_record() {
    let pipeline = Pipeline::new(Mode::CSV, selection("2-3"));
    assert_eq!(pipeline.process(b"a,\"b,c\",d"), Ok(b"b,c,d\n".to_vec()));
    assert_eq!(pipeline.process(b"a,\"b\"\"c\",d"), Ok(b"b\"c,d\n".to_vec()));
}

#[test]
fn process_short_record_gives_what_is_there() {
    let pipeline = Pipeline::new(Mode::CSV, selection("1,5,2"));
    assert_eq!(pipeline.process(b"a,b"), Ok(b"a,b\n".to_vec()));
    assert_eq!(pipeline.process(b"a"), Ok(b"a\n".to_vec()));
    let far = Pipeline::new(Mode::CSV, selection("9"));
    assert_eq!(far.process(b"a,b"), Ok(b"\n".to_vec()));
}

#[test]
fn process_malformed_record_fails() {
    let pipeline = Pipeline::new(Mode::CSV, selection("1"));
    assert_eq!(pipeline.process(b"a,\"b,c"), Err(MalformedRecordError));
}

#[test]
fn process_without_selection_keeps_every_field() {
    let pipeline = Pipeline::new(Mode::Split(";".to_string()), None);
    assert_eq!(pipeline.process(b"a;b;;c"), Ok(b"a;b;;c\n".to_vec()));
    let csv = Pipeline::new(Mode::CSV, None);
    assert_eq!(csv.process(b"\"a\",b"), Ok(b"a,b\n".to_vec()));
}

#[test]
fn process_with_another_output_delimiter() {
    let mut pipeline = Pipeline::new(Mode::TSV, selection("1-2"));
    pipeline.delimiter = b", ".to_vec();
    assert_eq!(pipeline.process(b"a\tb\tc"), Ok(b"a, b\n".to_vec()));
}
