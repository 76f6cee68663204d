use field_extract::error::InvalidSelectionError;
use field_extract::selection::{parse_position, parse_range, project, FieldRange, FieldSelection};

fn fields(items: &[&str]) -> Vec<Vec<u8>> {
    items.iter().map(|s| s.as_bytes().to_vec()).collect()
}

fn range(start: u64, end: u64) -> FieldRange {
    FieldRange { start, end }
}

fn select(expr: &str, items: &[&str]) -> Vec<Vec<u8>> {
    let selection = FieldSelection::parse(expr).unwrap();
    project(&fields(items), &selection)
}

#[test]
fn parse_positions_and_ranges() {
    assert_eq!(
        FieldSelection::parse("1,3-5"),
        Ok(FieldSelection { ranges: vec![range(1, 1), range(3, 5)] })
    );
    assert_eq!(
        FieldSelection::parse("7"),
        Ok(FieldSelection { ranges: vec![range(7, 7)] })
    );
    assert_eq!(
        FieldSelection::parse("2-2"),
        Ok(FieldSelection { ranges: vec![range(2, 2)] })
    );
}

#[test]
fn parse_keeps_order_overlaps_and_repeats() {
    assert_eq!(
        FieldSelection::parse("3,1,3,2-4,1-2"),
        Ok(FieldSelection {
            ranges: vec![range(3, 3), range(1, 1), range(3, 3), range(2, 4), range(1, 2)]
        })
    );
}

#[test]
fn parse_accepts_leading_zeros() {
    assert_eq!(
        FieldSelection::parse("007,01-010"),
        Ok(FieldSelection { ranges: vec![range(7, 7), range(1, 10)] })
    );
}

#[test]
fn parse_accepts_the_largest_position() {
    assert_eq!(
        FieldSelection::parse("18446744073709551615"),
        Ok(FieldSelection { ranges: vec![range(u64::MAX, u64::MAX)] })
    );
    assert_eq!(
        FieldSelection::parse("18446744073709551616"),
        Err(InvalidSelectionError)
    );
    assert_eq!(
        FieldSelection::parse("99999999999999999999999999"),
        Err(InvalidSelectionError)
    );
}

#[test]
fn parse_rejects_empty_expression() {
    assert_eq!(FieldSelection::parse(""), Err(InvalidSelectionError));
}

#[test]
fn parse_rejects_zero() {
    assert_eq!(FieldSelection::parse("0"), Err(InvalidSelectionError));
    assert_eq!(FieldSelection::parse("1,0"), Err(InvalidSelectionError));
    assert_eq!(FieldSelection::parse("0-3"), Err(InvalidSelectionError));
    assert_eq!(FieldSelection::parse("000"), Err(InvalidSelectionError));
}

#[test]
fn parse_rejects_open_ranges() {
    assert_eq!(FieldSelection::parse("a-"), Err(InvalidSelectionError));
    assert_eq!(FieldSelection::parse("3-"), Err(InvalidSelectionError));
    assert_eq!(FieldSelection::parse("-3"), Err(InvalidSelectionError));
    assert_eq!(FieldSelection::parse("-"), Err(InvalidSelectionError));
}

#[test]
fn parse_rejects_descending_range() {
    assert_eq!(FieldSelection::parse("3-1"), Err(InvalidSelectionError));
}

#[test]
fn parse_rejects_what_is_no_number() {
    assert_eq!(FieldSelection::parse("a"), Err(InvalidSelectionError));
    assert_eq!(FieldSelection::parse(" 1"), Err(InvalidSelectionError));
    assert_eq!(FieldSelection::parse("1 "), Err(InvalidSelectionError));
    assert_eq!(FieldSelection::parse("+1"), Err(InvalidSelectionError));
    assert_eq!(FieldSelection::parse("1.5"), Err(InvalidSelectionError));
    assert_eq!(FieldSelection::parse("1-2-3"), Err(InvalidSelectionError));
    assert_eq!(FieldSelection::parse("1--2"), Err(InvalidSelectionError));
}

#[test]
fn parse_rejects_empty_parts() {
    assert_eq!(FieldSelection::parse(","), Err(InvalidSelectionError));
    assert_eq!(FieldSelection::parse("1,,2"), Err(InvalidSelectionError));
    assert_eq!(FieldSelection::parse("1,"), Err(InvalidSelectionError));
    assert_eq!(FieldSelection::parse(",1"), Err(InvalidSelectionError));
}

#[test]
fn parse_bytes_agrees_with_parse() {
    assert_eq!(
        FieldSelection::parse_bytes(b"2,4-6"),
        FieldSelection::parse("2,4-6")
    );
    assert_eq!(FieldSelection::parse_bytes(b""), Err(InvalidSelectionError));
}

#[test]
fn parse_position_reads_decimal_digits() {
    assert_eq!(parse_position(b"1"), Some(1));
    assert_eq!(parse_position(b"42"), Some(42));
    assert_eq!(parse_position(b"1234567890"), Some(1234567890));
    assert_eq!(parse_position(b""), None);
    assert_eq!(parse_position(b"0"), None);
    assert_eq!(parse_position(b"4x"), None);
    assert_eq!(parse_position(b"/"), None);
    assert_eq!(parse_position(b":"), None);
}

#[test]
fn parse_range_reads_one_part() {
    assert_eq!(parse_range(b"4"), Some(range(4, 4)));
    assert_eq!(parse_range(b"4-9"), Some(range(4, 9)));
    assert_eq!(parse_range(b"9-4"), None);
    assert_eq!(parse_range(b""), None);
}

#[test]
fn range_new_wants_ordered_ends() {
    assert_eq!(FieldRange::new(1, 1), Some(range(1, 1)));
    assert_eq!(FieldRange::new(2, 5), Some(range(2, 5)));
    assert_eq!(FieldRange::new(0, 5), None);
    assert_eq!(FieldRange::new(5, 2), None);
}

#[test]
fn project_preserves_requested_order() {
    let items = ["a", "b", "c", "d", "e", "f"];
    assert_eq!(select("1,3-5", &items), fields(&["a", "c", "d", "e"]));
    assert_eq!(select("3-5,1", &items), fields(&["c", "d", "e", "a"]));
    assert_eq!(select("6,5,4", &items), fields(&["f", "e", "d"]));
}

#[test]
fn project_duplicates_positions_listed_more_than_once() {
    let items = ["a", "b", "c"];
    assert_eq!(select("2,2,1", &items), fields(&["b", "b", "a"]));
    assert_eq!(select("1-2,2-3", &items), fields(&["a", "b", "b", "c"]));
    assert_eq!(select("1-3,1-3", &items), fields(&["a", "b", "c", "a", "b", "c"]));
}

#[test]
fn project_skips_positions_beyond_the_record() {
    let items = ["a", "b", "c"];
    assert_eq!(select("2,7", &items), fields(&["b"]));
    assert_eq!(select("7", &items), fields(&[]));
    assert_eq!(select("5-9", &items), fields(&[]));
    assert_eq!(select("4", &items), fields(&[]));
    assert_eq!(select("3", &items), fields(&["c"]));
}

#[test]
fn project_cuts_a_range_that_runs_beyond_the_record() {
    let items = ["a", "b", "c"];
    assert_eq!(select("2-9", &items), fields(&["b", "c"]));
    assert_eq!(select("1-18446744073709551615", &items), fields(&["a", "b", "c"]));
}

#[test]
fn project_of_empty_record_is_empty() {
    assert_eq!(select("1,2-3", &[]), fields(&[]));
}

#[test]
fn project_with_no_ranges_is_empty() {
    let selection = FieldSelection { ranges: vec![] };
    assert_eq!(project(&fields(&["a", "b"]), &selection), fields(&[]));
}

#[test]
fn project_tolerates_ranges_made_by_hand() {
    let record = fields(&["a", "b", "c"]);
    let from_zero = FieldSelection { ranges: vec![range(0, 2)] };
    assert_eq!(project(&record, &from_zero), fields(&["a", "b"]));
    let descending = FieldSelection { ranges: vec![range(3, 1)] };
    assert_eq!(project(&record, &descending), fields(&[]));
}

#[test]
fn parse_of_a_list_is_the_list_of_its_parts() {
    let first = FieldSelection::parse("3,1-2").unwrap();
    let second = FieldSelection::parse("2,2").unwrap();
    let both = FieldSelection::parse("3,1-2,2,2").unwrap();
    let mut ranges = first.ranges.clone();
    ranges.extend(second.ranges.clone());
    assert_eq!(both.ranges, ranges);
    let record = fields(&["a", "b", "c"]);
    let mut expected = project(&record, &first);
    expected.extend(project(&record, &second));
    assert_eq!(project(&record, &both), expected);
    assert_eq!(expected, fields(&["c", "a", "b", "b", "b"]));
}
