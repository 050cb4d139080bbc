use vcf2parquet::batch::Batch;
use vcf2parquet::create_parquet::{create_parquet, create_schema, Column, ColumnKind};
use vcf2parquet::error::{FormatProblem, VcfError};
use vcf2parquet::parquet_writer::ParquetWriter;
use vcf2parquet::read_vcf::{Action, Driver, Event};
use vcf2parquet::text::split_fields;
use vcf2parquet::vcf::{classify, LineKind};

fn texts(values: &[&str]) -> Vec<String> {
    values.iter().map(|v| v.to_string()).collect()
}

fn line(text: &str) -> Event {
    Event::Line(text.to_string())
}

fn batch(header: &[&str], columns: &[&[&str]]) -> Batch {
    Batch { header: texts(header), columns: columns.iter().map(|c| texts(c)).collect() }
}

#[test]
fn lines_are_told_apart_by_their_beginning() {
    assert_eq!(classify("##fileformat=VCFv4.2"), LineKind::Metadata);
    assert_eq!(classify("##"), LineKind::Metadata);
    assert_eq!(classify("###"), LineKind::Metadata);
    assert_eq!(classify("#CHROM\tPOS"), LineKind::Header);
    assert_eq!(classify("#"), LineKind::Header);
    assert_eq!(classify("# #"), LineKind::Header);
    assert_eq!(classify("1\t100"), LineKind::Data);
    assert_eq!(classify(""), LineKind::Data);
    assert_eq!(classify(" ##"), LineKind::Data);
}

#[test]
fn splitting_keeps_empty_fields() {
    assert_eq!(split_fields("a\tb\tc", '\t'), texts(&["a", "b", "c"]));
    assert_eq!(split_fields("", '\t'), texts(&[""]));
    assert_eq!(split_fields("\t", '\t'), texts(&["", ""]));
    assert_eq!(split_fields("a\t\tb", '\t'), texts(&["a", "", "b"]));
    assert_eq!(split_fields("\ta\t", '\t'), texts(&["", "a", ""]));
    assert_eq!(split_fields("no tab", '\t'), texts(&["no tab"]));
    assert_eq!(split_fields("k=v=w", '='), texts(&["k", "v", "w"]));
}

#[test]
fn schema_is_text_for_every_name() {
    let header = texts(&["#CHROM", "POS", "QUAL"]);
    let first = texts(&["1", "100", "3.5"]);
    let schema = create_schema(&header, &first);
    assert_eq!(
        schema,
        vec![
            Column { name: "#CHROM".to_string(), kind: ColumnKind::Text },
            Column { name: "POS".to_string(), kind: ColumnKind::Text },
            Column { name: "QUAL".to_string(), kind: ColumnKind::Text },
        ]
    );
    assert!(create_schema(&Vec::new(), &Vec::new()).is_empty());
}

#[test]
fn destination_starts_with_schema_and_first_row() {
    let opening = create_parquet("#CHROM\tPOS".to_string(), "1\t100".to_string()).unwrap();
    assert_eq!(opening.schema.len(), 2);
    assert_eq!(opening.schema[0].name, "#CHROM");
    assert_eq!(opening.schema[1].name, "POS");
    assert_eq!(opening.first, batch(&["#CHROM", "POS"], &[&["1"], &["100"]]));
}

#[test]
fn header_of_two_and_row_of_three_is_a_mismatch() {
    let refused = VcfError::ColumnCountMismatch { row: 1, expected: 2, found: 3 };
    assert_eq!(create_parquet("X\tY".to_string(), "1\t2\t3".to_string()), Err(refused));
    match ParquetWriter::new("X\tY".to_string(), "1\t2\t3".to_string(), 10) {
        Ok(_) => panic!("a writer was made"),
        Err(e) => assert_eq!(e, refused),
    }
}

#[test]
fn writer_buffers_until_the_threshold() {
    let (mut writer, opening) = match ParquetWriter::new("#A\tB".to_string(), "1\t2".to_string(), 3) {
        Ok(made) => made,
        Err(e) => panic!("no writer: {:?}", e),
    };
    assert_eq!(opening.first, batch(&["#A", "B"], &[&["1"], &["2"]]));
    assert_eq!(writer.rows(), 1);
    assert_eq!(writer.buffered(), 0);
    assert_eq!(writer.threshold(), 3);
    assert_eq!(writer.header(), &texts(&["#A", "B"]));

    assert_eq!(writer.add_row(&"3\t4".to_string()), Ok(None));
    assert_eq!(writer.add_row(&"5\t6".to_string()), Ok(None));
    assert_eq!(writer.buffered(), 2);
    assert_eq!(
        writer.add_row(&"7\t8".to_string()),
        Ok(Some(batch(&["#A", "B"], &[&["3", "5", "7"], &["4", "6", "8"]])))
    );
    assert_eq!(writer.buffered(), 0);
    assert_eq!(writer.rows(), 4);

    assert_eq!(writer.add_row(&"9\t10".to_string()), Ok(None));
    assert_eq!(writer.finalize(), Some(batch(&["#A", "B"], &[&["9"], &["10"]])));
}

#[test]
fn writer_refuses_a_row_and_stays_as_it_was() {
    let (mut writer, _) = match ParquetWriter::new("#A\tB".to_string(), "1\t2".to_string(), 10) {
        Ok(made) => made,
        Err(e) => panic!("no writer: {:?}", e),
    };
    assert_eq!(writer.add_row(&"3\t4".to_string()), Ok(None));
    assert_eq!(
        writer.add_row(&"5".to_string()),
        Err(VcfError::ColumnCountMismatch { row: 3, expected: 2, found: 1 })
    );
    assert_eq!(
        writer.add_row(&"5\t6\t7".to_string()),
        Err(VcfError::ColumnCountMismatch { row: 3, expected: 2, found: 3 })
    );
    assert_eq!(writer.rows(), 2);
    assert_eq!(writer.buffered(), 1);
    assert_eq!(writer.write(), Some(batch(&["#A", "B"], &[&["3"], &["4"]])));
}

#[test]
fn flush_of_empty_buffers_does_nothing() {
    let (mut writer, _) = match ParquetWriter::new("#A".to_string(), "1".to_string(), 10) {
        Ok(made) => made,
        Err(e) => panic!("no writer: {:?}", e),
    };
    assert_eq!(writer.write(), None);
    assert_eq!(writer.write(), None);
    assert_eq!(writer.add_row(&"2".to_string()), Ok(None));
    assert_eq!(writer.write(), Some(batch(&["#A"], &[&["2"]])));
    assert_eq!(writer.write(), None);
    assert_eq!(writer.rows(), 2);
    assert_eq!(writer.finalize(), None);
}

#[test]
fn driver_goes_through_its_states() {
    let driver = Driver::new(2, None);
    assert!(!driver.is_finished());
    assert_eq!(driver.outcome(), None);

    let (driver, action) = driver.step(line("##a=1"));
    assert_eq!(action, Action::Forward("##a=1".to_string()));
    let (driver, action) = driver.step(line("#A\tB"));
    assert_eq!(action, Action::Continue);
    let (driver, action) = driver.step(line("1\t2"));
    match action {
        Action::Open(opening) => {
            assert_eq!(opening.first, batch(&["#A", "B"], &[&["1"], &["2"]]));
            assert_eq!(opening.schema.len(), 2);
        }
        other => panic!("not an opening: {:?}", other),
    }
    let (driver, action) = driver.step(line("3\t4"));
    assert_eq!(action, Action::Continue);
    let (driver, action) = driver.step(line("5\t6"));
    assert_eq!(action, Action::Write(batch(&["#A", "B"], &[&["3", "5"], &["4", "6"]])));
    let (driver, action) = driver.step(line("7\t8"));
    assert_eq!(action, Action::Continue);
    assert!(!driver.is_finished());
    let (driver, action) = driver.step(Event::EndOfInput);
    assert_eq!(action, Action::Close(Some(batch(&["#A", "B"], &[&["7"], &["8"]]))));
    assert!(driver.is_finished());
    assert_eq!(driver.outcome(), Some(Ok(4)));

    let (driver, action) = driver.step(line("9\t10"));
    assert_eq!(action, Action::Continue);
    assert_eq!(driver.outcome(), Some(Ok(4)));
}

#[test]
fn driver_closes_the_destination_when_a_row_is_bad() {
    let driver = Driver::new(10, None);
    let (driver, _) = driver.step(line("#A\tB"));
    let (driver, _) = driver.step(line("1\t2"));
    let (driver, _) = driver.step(line("3\t4"));
    let (driver, action) = driver.step(line("5\t6\t7"));
    assert_eq!(action, Action::Close(Some(batch(&["#A", "B"], &[&["3"], &["4"]]))));
    assert_eq!(driver.outcome(), Some(Err(VcfError::ColumnCountMismatch { row: 3, expected: 2, found: 3 })));
    let (driver, action) = driver.step(Event::EndOfInput);
    assert_eq!(action, Action::Continue);
    assert_eq!(driver.outcome(), Some(Err(VcfError::ColumnCountMismatch { row: 3, expected: 2, found: 3 })));
}

#[test]
fn driver_closes_the_destination_when_reading_fails() {
    let driver = Driver::new(10, None);
    let (driver, _) = driver.step(line("#A\tB"));
    let (driver, _) = driver.step(line("1\t2"));
    let (driver, _) = driver.step(line("3\t4"));
    let (driver, action) = driver.step(Event::ReadFailed);
    assert_eq!(action, Action::Close(Some(batch(&["#A", "B"], &[&["3"], &["4"]]))));
    assert_eq!(driver.outcome(), Some(Err(VcfError::IoFailure)));

    let (early, action) = Driver::new(10, None).step(Event::ReadFailed);
    assert_eq!(action, Action::Continue);
    assert_eq!(early.outcome(), Some(Err(VcfError::IoFailure)));
}

#[test]
fn driver_reports_a_failing_destination() {
    let driver = Driver::new(10, None);
    let (driver, _) = driver.step(line("#A\tB"));
    let (driver, _) = driver.step(line("1\t2"));
    let (driver, _) = driver.step(line("3\t4"));
    let (driver, action) = driver.step(Event::WriteFailed);
    assert_eq!(action, Action::Close(None));
    assert_eq!(driver.outcome(), Some(Err(VcfError::DestinationWriteFailure)));

    let done = Driver::new(10, None);
    let (done, _) = done.step(line("#A\tB"));
    let (done, _) = done.step(line("1\t2"));
    let (done, action) = done.step(Event::EndOfInput);
    assert_eq!(action, Action::Close(None));
    assert_eq!(done.outcome(), Some(Ok(1)));
    let (done, action) = done.step(Event::WriteFailed);
    assert_eq!(action, Action::Continue);
    assert_eq!(done.outcome(), Some(Err(VcfError::DestinationWriteFailure)));
}

#[test]
fn driver_tells_the_two_format_problems_apart() {
    let (none, _) = Driver::new(10, None).step(Event::EndOfInput);
    assert_eq!(none.outcome(), Some(Err(VcfError::InvalidInputFormat(FormatProblem::MissingHeader))));
    let (data, _) = Driver::new(10, None).step(line("1\t2"));
    assert_eq!(data.outcome(), Some(Err(VcfError::InvalidInputFormat(FormatProblem::MissingHeader))));
    let (header, _) = Driver::new(10, None).step(line("#A\tB"));
    let (header, _) = header.step(Event::EndOfInput);
    assert_eq!(header.outcome(), Some(Err(VcfError::InvalidInputFormat(FormatProblem::MissingData))));
}

#[test]
fn driver_stops_at_its_limit() {
    let driver = Driver::new(10, Some(2));
    let (driver, _) = driver.step(line("#A\tB"));
    let (driver, _) = driver.step(line("1\t2"));
    let (driver, _) = driver.step(line("3\t4"));
    assert!(!driver.is_finished());
    let (driver, action) = driver.step(line("5\t6"));
    assert_eq!(action, Action::Close(Some(batch(&["#A", "B"], &[&["3"], &["4"]]))));
    assert_eq!(driver.outcome(), Some(Ok(2)));
}

#[test]
fn head_of_an_input_gives_schema_and_first_row() {
    let lines = texts(&["##a=1", "##b=2", "#CHROM\tPOS", "1\t100", "1\t200"]);
    let opening = vcf2parquet::vcf::read_vcf(&lines).unwrap();
    assert_eq!(opening.schema.len(), 2);
    assert_eq!(opening.schema[0].name, "#CHROM");
    assert_eq!(opening.schema[1].kind, ColumnKind::Text);
    assert_eq!(opening.first, batch(&["#CHROM", "POS"], &[&["1"], &["100"]]));
}

#[test]
fn head_of_an_input_says_what_is_missing() {
    let missing_header = Err(VcfError::InvalidInputFormat(FormatProblem::MissingHeader));
    let missing_data = Err(VcfError::InvalidInputFormat(FormatProblem::MissingData));
    assert_eq!(vcf2parquet::vcf::read_vcf(&texts(&[])), missing_header);
    assert_eq!(vcf2parquet::vcf::read_vcf(&texts(&["##a=1"])), missing_header);
    assert_eq!(vcf2parquet::vcf::read_vcf(&texts(&["##a=1", "1\t2", "#A\tB"])), missing_header);
    assert_eq!(vcf2parquet::vcf::read_vcf(&texts(&["##a=1", "#A\tB"])), missing_data);
    assert_eq!(
        vcf2parquet::vcf::read_vcf(&texts(&["#A\tB", "1"])),
        Err(VcfError::ColumnCountMismatch { row: 1, expected: 2, found: 1 })
    );
}

/// What becomes of a destination that carries out the actions in order:
/// 0 before it is created, 1 while it is open, 2 once it is closed.
fn protocol(actions: &[Action]) -> u8 {
    let mut state = 0;
    for action in actions {
        state = match (action, state) {
            (Action::Continue, s) | (Action::Forward(_), s) => s,
            (Action::Open(_), 0) => 1,
            (Action::Write(_), 1) => 1,
            (Action::Close(_), 1) => 2,
            (other, s) => panic!("{:?} in state {}", other, s),
        };
    }
    state
}

fn answers(threshold: usize, limit: Option<i32>, events: Vec<Event>) -> (Driver, Vec<Action>) {
    let mut driver = Driver::new(threshold, limit);
    let mut actions = Vec::new();
    for event in events {
        let (next, action) = driver.step(event);
        driver = next;
        actions.push(action);
    }
    (driver, actions)
}

#[test]
fn destination_is_closed_once_on_every_way_to_an_end() {
    let rows = || vec![line("##m=1"), line("#A\tB"), line("1\t2"), line("3\t4"), line("5\t6")];
    for last in [Event::EndOfInput, Event::ReadFailed, Event::WriteFailed, line("bad"), line("7\t8")] {
        for limit in [None, Some(2), Some(3), Some(10)] {
            let mut events = rows();
            events.push(last.clone());
            events.push(Event::EndOfInput);
            events.push(Event::WriteFailed);
            events.push(line("9\t9"));
            let (driver, actions) = answers(2, limit, events);
            assert!(driver.is_finished());
            assert_eq!(protocol(&actions), 2);
        }
    }
    let (driver, actions) = answers(2, Some(0), vec![line("#A\tB"), line("1\t2"), Event::EndOfInput]);
    assert_eq!(driver.outcome(), Some(Ok(0)));
    assert_eq!(protocol(&actions), 0);
    let (_, actions) = answers(2, None, vec![line("1\t2"), line("#A\tB"), line("1\t2"), Event::EndOfInput]);
    assert_eq!(protocol(&actions), 0);
}
