use field_extract::mode::{split, Mode};
use field_extract::split::{split_literal, starts_at};
use field_extract::writer::format_line;

fn fields(items: &[&str]) -> Vec<Vec<u8>> {
    items.iter().map(|s| s.as_bytes().to_vec()).collect()
}

fn joined(items: &[&str], delimiter: &str) -> Vec<u8> {
    let mut line = format_line(&fields(items), delimiter.as_bytes());
    assert_eq!(line.pop(), Some(b'\n'));
    line
}

#[test]
fn split_on_single_byte_delimiter() {
    assert_eq!(split_literal(b"a,b,c", b","), fields(&["a", "b", "c"]));
}

#[test]
fn split_on_multi_byte_delimiter() {
    assert_eq!(split_literal(b"a::b::c", b"::"), fields(&["a", "b", "c"]));
    assert_eq!(split_literal(b"a:b::c:", b"::"), fields(&["a:b", "c:"]));
}

#[test]
fn split_keeps_empty_fields() {
    assert_eq!(split_literal(b"a,,b", b","), fields(&["a", "", "b"]));
    assert_eq!(split_literal(b",a,", b","), fields(&["", "a", ""]));
    assert_eq!(split_literal(b",", b","), fields(&["", ""]));
}

#[test]
fn split_of_empty_record_is_one_empty_field() {
    assert_eq!(split_literal(b"", b","), fields(&[""]));
}

#[test]
fn split_without_delimiter_in_record() {
    assert_eq!(split_literal(b"abc", b","), fields(&["abc"]));
    assert_eq!(split_literal(b"ab", b"abc"), fields(&["ab"]));
}

#[test]
fn split_with_empty_delimiter_cuts_nowhere() {
    assert_eq!(split_literal(b"abc", b""), fields(&["abc"]));
    assert_eq!(split_literal(b"", b""), fields(&[""]));
}

#[test]
fn split_takes_occurrences_left_to_right_without_overlap() {
    assert_eq!(split_literal(b"aaa", b"aa"), fields(&["", "a"]));
    assert_eq!(split_literal(b"aaaa", b"aa"), fields(&["", "", ""]));
    assert_eq!(split_literal(b"xababay", b"aba"), fields(&["x", "bay"]));
}

#[test]
fn split_on_delimiter_of_several_utf8_bytes() {
    let record = "un→deux→trois".as_bytes();
    assert_eq!(
        split_literal(record, "→".as_bytes()),
        fields(&["un", "deux", "trois"])
    );
}

#[test]
fn starts_at_finds_the_delimiter_only_where_it_stands() {
    assert!(starts_at(b"a::b", 1, b"::"));
    assert!(!starts_at(b"a::b", 0, b"::"));
    assert!(!starts_at(b"a::b", 2, b"::"));
    assert!(!starts_at(b"a:", 1, b"::"));
    assert!(starts_at(b"abc", 3, b""));
}

#[test]
fn round_trip_join_then_split() {
    let items = ["alpha", "", "beta gamma", "delta"];
    for delimiter in [",", "::", "\t", " | "] {
        let text = joined(&items, delimiter);
        assert_eq!(split_literal(&text, delimiter.as_bytes()), fields(&items));
    }
}

#[test]
fn round_trip_of_a_single_field() {
    let text = joined(&["only"], ",");
    assert_eq!(text, b"only".to_vec());
    assert_eq!(split_literal(&text, b","), fields(&["only"]));
}

#[test]
fn round_trip_fails_where_a_field_holds_the_delimiter() {
    let text = joined(&["a,b", "c"], ",");
    assert_eq!(split_literal(&text, b","), fields(&["a", "b", "c"]));
}

#[test]
fn round_trip_fails_where_the_delimiter_starts_inside_a_field() {
    let text = joined(&["a", "ab"], "aa");
    assert_eq!(text, b"aaaab".to_vec());
    assert_eq!(split_literal(&text, b"aa"), fields(&["", "", "b"]));
}

#[test]
fn split_mode_cuts_at_its_delimiter() {
    let mode = Mode::Split(";".to_string());
    assert_eq!(split(b"a;b;;c", &mode), Ok(fields(&["a", "b", "", "c"])));
}

#[test]
fn extract_mode_cuts_at_its_pattern_taken_literally() {
    let mode = Mode::Extract(".*".to_string());
    assert_eq!(split(b"a.*b.c", &mode), Ok(fields(&["a", "b.c"])));
}

#[test]
fn split_mode_leaves_quotes_alone() {
    let mode = Mode::Split(",".to_string());
    assert_eq!(
        split(b"a,\"b,c\",d", &mode),
        Ok(fields(&["a", "\"b", "c\"", "d"]))
    );
}
