use field_extract::driver::{source_list, Action, Cause, Driver, Event, Source, Stage};
use field_extract::mode::Mode;
use field_extract::pipeline::Pipeline;
use field_extract::selection::FieldSelection;

fn csv_first_two() -> Pipeline {
    Pipeline::new(Mode::CSV, Some(FieldSelection::parse("2,1").unwrap()))
}

fn reading(source: usize, sources: usize, record: u64) -> Driver {
    Driver { stage: Stage::Reading, source, sources, record }
}

#[test]
fn no_paths_means_standard_input() {
    assert_eq!(source_list(&vec![]), vec![Source::StandardInput]);
}

#[test]
fn paths_are_files_in_their_order() {
    let paths = vec!["b.csv".to_string(), "a.csv".to_string(), "b.csv".to_string()];
    assert_eq!(
        source_list(&paths),
        vec![
            Source::File("b.csv".to_string()),
            Source::File("a.csv".to_string()),
            Source::File("b.csv".to_string()),
        ]
    );
}

#[test]
fn new_driver_is_idle_at_the_first_source() {
    assert_eq!(
        Driver::new(3),
        Driver { stage: Stage::Idle, source: 0, sources: 3, record: 0 }
    );
}

#[test]
fn run_without_sources_is_over_at_once() {
    let mut driver = Driver::new(0);
    assert_eq!(driver.stage, Stage::Done);
    assert_eq!(driver.step(&csv_first_two(), Event::Begin), Action::Finish);
}

#[test]
fn run_over_two_sources() {
    let pipeline = csv_first_two();
    let mut driver = Driver::new(2);
    assert_eq!(driver.step(&pipeline, Event::Begin), Action::Open(0));
    assert_eq!(driver.stage, Stage::Idle);
    assert_eq!(driver.step(&pipeline, Event::Opened), Action::Read);
    assert_eq!(driver.stage, Stage::Reading);
    assert_eq!(
        driver.step(&pipeline, Event::Record(b"a,b,c".to_vec())),
        Action::Write(b"b,a\n".to_vec())
    );
    assert_eq!(driver, Driver { stage: Stage::Writing, source: 0, sources: 2, record: 1 });
    assert_eq!(driver.step(&pipeline, Event::Written), Action::Read);
    assert_eq!(
        driver.step(&pipeline, Event::Record(b"\"x,y\",z".to_vec())),
        Action::Write(b"z,x,y\n".to_vec())
    );
    assert_eq!(driver.record, 2);
    assert_eq!(driver.step(&pipeline, Event::Written), Action::Read);
    assert_eq!(driver.step(&pipeline, Event::EndOfStream), Action::Close(0));
    assert_eq!(driver.stage, Stage::Draining);
    assert_eq!(driver.step(&pipeline, Event::Closed), Action::Open(1));
    assert_eq!(driver, Driver { stage: Stage::Idle, source: 1, sources: 2, record: 0 });
    assert_eq!(driver.step(&pipeline, Event::Opened), Action::Read);
    assert_eq!(driver.step(&pipeline, Event::EndOfStream), Action::Close(1));
    assert_eq!(driver.step(&pipeline, Event::Closed), Action::Finish);
    assert_eq!(driver.stage, Stage::Done);
}

#[test]
fn malformed_record_is_reported_and_skipped() {
    let pipeline = csv_first_two();
    let mut driver = reading(1, 3, 4);
    assert_eq!(
        driver.step(&pipeline, Event::Record(b"a,\"b".to_vec())),
        Action::Skip { source: 1, record: 5 }
    );
    assert_eq!(driver, reading(1, 3, 5));
    assert_eq!(
        driver.step(&pipeline, Event::Malformed),
        Action::Skip { source: 1, record: 6 }
    );
    assert_eq!(driver, reading(1, 3, 6));
    assert_eq!(
        driver.step(&pipeline, Event::Record(b"a,b".to_vec())),
        Action::Write(b"b,a\n".to_vec())
    );
    assert_eq!(driver.record, 7);
}

#[test]
fn malformed_record_ends_a_strict_run() {
    let mut pipeline = csv_first_two();
    pipeline.strict = true;
    let mut driver = reading(0, 2, 0);
    assert_eq!(
        driver.step(&pipeline, Event::Record(b"\"".to_vec())),
        Action::Abort { source: 0, record: 1, cause: Cause::Malformed }
    );
    assert_eq!(driver.stage, Stage::Done);
    let mut other = reading(1, 2, 9);
    assert_eq!(
        other.step(&pipeline, Event::Malformed),
        Action::Abort { source: 1, record: 10, cause: Cause::Malformed }
    );
    assert_eq!(other.stage, Stage::Done);
}

#[test]
fn failure_ends_the_run_at_every_stage() {
    let pipeline = csv_first_two();
    for stage in [Stage::Idle, Stage::Reading, Stage::Writing, Stage::Draining] {
        let mut driver = Driver { stage, source: 1, sources: 2, record: 3 };
        assert_eq!(
            driver.step(&pipeline, Event::Failed),
            Action::Abort { source: 1, record: 3, cause: Cause::Io }
        );
        assert_eq!(driver, Driver { stage: Stage::Done, source: 1, sources: 2, record: 3 });
    }
}

#[test]
fn unexpected_event_ends_the_run() {
    let pipeline = csv_first_two();
    let cases = [
        (Stage::Idle, Event::Written),
        (Stage::Idle, Event::Record(b"a".to_vec())),
        (Stage::Reading, Event::Opened),
        (Stage::Reading, Event::Begin),
        (Stage::Writing, Event::EndOfStream),
        (Stage::Writing, Event::Record(b"a".to_vec())),
        (Stage::Draining, Event::Written),
        (Stage::Draining, Event::Malformed),
    ];
    for (stage, event) in cases {
        let mut driver = Driver { stage, source: 0, sources: 1, record: 2 };
        assert_eq!(
            driver.step(&pipeline, event),
            Action::Abort { source: 0, record: 2, cause: Cause::Unexpected }
        );
        assert_eq!(driver.stage, Stage::Done);
    }
}

#[test]
fn nothing_happens_after_the_end() {
    let pipeline = csv_first_two();
    let events = [
        Event::Begin,
        Event::Opened,
        Event::Record(b"a,b".to_vec()),
        Event::Malformed,
        Event::EndOfStream,
        Event::Written,
        Event::Closed,
        Event::Failed,
    ];
    for event in events {
        let mut driver = Driver { stage: Stage::Done, source: 1, sources: 2, record: 7 };
        assert_eq!(driver.step(&pipeline, event), Action::Finish);
        assert_eq!(driver, Driver { stage: Stage::Done, source: 1, sources: 2, record: 7 });
    }
}

#[test]
fn record_count_stops_at_its_limit() {
    let pipeline = csv_first_two();
    let mut driver = reading(0, 1, u64::MAX);
    assert_eq!(
        driver.step(&pipeline, Event::Malformed),
        Action::Skip { source: 0, record: u64::MAX }
    );
    assert_eq!(driver.record, u64::MAX);
}

#[test]
fn last_source_closed_finishes_the_run() {
    let pipeline = csv_first_two();
    let mut driver = Driver { stage: Stage::Draining, source: 0, sources: 1, record: 5 };
    assert_eq!(driver.step(&pipeline, Event::Closed), Action::Finish);
    assert_eq!(driver, Driver { stage: Stage::Done, source: 0, sources: 1, record: 5 });
}
