use arrow::array::{Array, StringArray};
use arrow::datatypes::DataType;
use vcf2parquet::batch::Batch;
use vcf2parquet::error::VcfError;
use vcf2parquet::read_vcf::read_vcf;

fn texts(values: &[&str]) -> Vec<String> {
    values.iter().map(|v| v.to_string()).collect()
}

fn column(batch: &arrow::record_batch::RecordBatch, c: usize) -> Vec<String> {
    let array = batch.column(c).as_any().downcast_ref::<StringArray>().unwrap();
    assert_eq!(array.null_count(), 0);
    (0..array.len()).map(|r| array.value(r).to_string()).collect()
}

#[test]
fn record_batch_has_the_names_and_the_values() {
    let batch = Batch {
        header: texts(&["#CHROM", "POS", "ID"]),
        columns: vec![texts(&["1", "1", "X"]), texts(&["100", "200", "5"]), texts(&[".", "rs1", ""])],
    };
    let record = batch.to_record_batch().unwrap().inner;
    assert_eq!(record.num_columns(), 3);
    assert_eq!(record.num_rows(), 3);
    let schema = record.schema();
    let names: Vec<&str> = schema.fields().iter().map(|f| f.name().as_str()).collect();
    assert_eq!(names, vec!["#CHROM", "POS", "ID"]);
    for field in schema.fields() {
        assert_eq!(field.data_type(), &DataType::Utf8);
        assert!(!field.is_nullable());
    }
    assert_eq!(column(&record, 0), texts(&["1", "1", "X"]));
    assert_eq!(column(&record, 1), texts(&["100", "200", "5"]));
    assert_eq!(column(&record, 2), texts(&[".", "rs1", ""]));
}

#[test]
fn record_batch_is_refused_for_a_batch_out_of_shape() {
    let no_columns = Batch { header: Vec::new(), columns: Vec::new() };
    assert!(!no_columns.is_well_formed());
    assert!(matches!(no_columns.to_record_batch(), Err(VcfError::DestinationWriteFailure)));

    let ragged = Batch { header: texts(&["A", "B"]), columns: vec![texts(&["1", "2"]), texts(&["3"])] };
    assert!(!ragged.is_well_formed());
    assert!(matches!(ragged.to_record_batch(), Err(VcfError::DestinationWriteFailure)));

    let unnamed = Batch { header: texts(&["A"]), columns: vec![texts(&["1"]), texts(&["3"])] };
    assert!(!unnamed.is_well_formed());
    assert!(matches!(unnamed.to_record_batch(), Err(VcfError::DestinationWriteFailure)));
}

#[test]
fn batch_without_rows_is_a_record_batch_without_rows() {
    let empty = Batch { header: texts(&["A", "B"]), columns: vec![Vec::new(), Vec::new()] };
    assert!(empty.is_well_formed());
    assert!(empty.fits_offsets());
    let record = empty.to_record_batch().unwrap().inner;
    assert_eq!(record.num_columns(), 2);
    assert_eq!(record.num_rows(), 0);
}

#[test]
fn batches_of_a_conversion_read_back_as_the_rows() {
    let lines = texts(&["##a=1", "#CHROM\tPOS\tREF", "1\t100\tA", "1\t200\tC", "2\t50\tG", "X\t7\tT"]);
    let report = read_vcf(&lines, None, 2);
    assert_eq!(report.outcome, Ok(4));
    let mut rows: Vec<Vec<String>> = Vec::new();
    for batch in &report.batches {
        let record = batch.to_record_batch().unwrap().inner;
        let schema = record.schema();
        let names: Vec<&str> = schema.fields().iter().map(|f| f.name().as_str()).collect();
        assert_eq!(names.join("\t"), lines[1]);
        for r in 0..record.num_rows() {
            rows.push((0..record.num_columns()).map(|c| column(&record, c)[r].clone()).collect());
        }
    }
    let joined: Vec<String> = rows.iter().map(|row| row.join("\t")).collect();
    assert_eq!(joined, lines[2..].to_vec());
}
