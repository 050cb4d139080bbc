use serde_json::Value;
use vcf2parquet::args::Cli;
use vcf2parquet::batch::Batch;
use vcf2parquet::delay::Delay;
use vcf2parquet::error::{FormatProblem, VcfError};
use vcf2parquet::metadata::{parse_entry, parse_metadata, read_metadata};
use vcf2parquet::{convert_vcf_to_parquet, input_format, InputFormat};

fn texts(values: &[&str]) -> Vec<String> {
    values.iter().map(|v| v.to_string()).collect()
}

fn list(values: &[&str]) -> Value {
    Value::Array(values.iter().map(|v| Value::String(v.to_string())).collect())
}

#[test]
fn preamble_is_what_comes_before_the_header() {
    let lines = texts(&["##a=1", "##b=2", "#CHROM\tPOS", "##c=3", "1\t100"]);
    assert_eq!(read_metadata(&lines), texts(&["##a=1", "##b=2"]));
    assert_eq!(read_metadata(&texts(&["#CHROM", "##a=1"])), Vec::<String>::new());
    assert_eq!(read_metadata(&texts(&["##a=1"])), texts(&["##a=1"]));
    assert_eq!(read_metadata(&Vec::new()), Vec::<String>::new());
}

#[test]
fn entry_is_split_at_the_first_assign() {
    assert_eq!(parse_entry("##a=1"), Some(("a".to_string(), "1".to_string())));
    assert_eq!(
        parse_entry("##INFO=<ID=DP,Number=1>"),
        Some(("INFO".to_string(), "<ID=DP,Number=1>".to_string()))
    );
    assert_eq!(parse_entry("####a=1"), Some(("a".to_string(), "1".to_string())));
    assert_eq!(parse_entry("###a=1"), Some(("#a".to_string(), "1".to_string())));
    assert_eq!(parse_entry("a=1"), Some(("a".to_string(), "1".to_string())));
    assert_eq!(parse_entry("##=1"), Some(("".to_string(), "1".to_string())));
    assert_eq!(parse_entry("##a="), Some(("a".to_string(), "".to_string())));
    assert_eq!(parse_entry("##novalue"), None);
    assert_eq!(parse_entry("##"), None);
    assert_eq!(parse_entry(""), None);
}

#[test]
fn repeated_key_maps_to_the_list_of_its_values() {
    let object = parse_metadata(&texts(&["##a=1", "##a=2"]));
    let map = object.as_object().unwrap();
    assert_eq!(map.len(), 1);
    assert_eq!(map.get("a"), Some(&list(&["1", "2"])));
}

#[test]
fn keys_are_grouped_in_the_order_of_their_values() {
    let object = parse_metadata(&texts(&[
        "##fileformat=VCFv4.2",
        "##contig=<ID=1>",
        "##INFO=<ID=DP>",
        "##contig=<ID=2>",
        "##comment without assign",
        "##contig=<ID=1>",
    ]));
    let map = object.as_object().unwrap();
    assert_eq!(map.len(), 3);
    assert_eq!(map.get("fileformat"), Some(&list(&["VCFv4.2"])));
    assert_eq!(map.get("contig"), Some(&list(&["<ID=1>", "<ID=2>", "<ID=1>"])));
    assert_eq!(map.get("INFO"), Some(&list(&["<ID=DP>"])));
}

#[test]
fn preamble_without_entries_is_an_empty_object() {
    assert_eq!(parse_metadata(&[]), Value::Object(serde_json::Map::new()));
    assert_eq!(parse_metadata(&texts(&["##nothing", "##"])), Value::Object(serde_json::Map::new()));
}

#[test]
fn input_is_recognised_by_its_suffix() {
    assert_eq!(input_format("sample.vcf"), Some(InputFormat::Plain));
    assert_eq!(input_format("dir/sample.vcf.gz"), Some(InputFormat::Gzip));
    assert_eq!(input_format(".vcf"), Some(InputFormat::Plain));
    assert_eq!(input_format("sample.gz"), None);
    assert_eq!(input_format("sample.vcf.bz2"), None);
    assert_eq!(input_format("sample.VCF"), None);
    assert_eq!(input_format("samplevcf"), None);
    assert_eq!(input_format("vcf"), None);
    assert_eq!(input_format(""), None);
}

fn args(input: &str, chunk_size: usize) -> Cli {
    Cli { input: input.to_string(), output: "out".to_string(), chunk_size }
}

#[test]
fn conversion_gives_metadata_and_batches() {
    let lines = texts(&["##a=1", "##a=2", "#CHROM\tPOS", "1\t100", "1\t200"]);
    let converted = convert_vcf_to_parquet(&args("in.vcf", 500), &lines).unwrap();
    assert_eq!(converted.metadata.as_object().unwrap().get("a"), Some(&list(&["1", "2"])));
    assert_eq!(
        converted.batches,
        vec![
            Batch { header: texts(&["#CHROM", "POS"]), columns: vec![texts(&["1"]), texts(&["100"])] },
            Batch { header: texts(&["#CHROM", "POS"]), columns: vec![texts(&["1"]), texts(&["200"])] },
        ]
    );
}

#[test]
fn conversion_is_the_same_for_both_formats() {
    let lines = texts(&["##a=1", "#A\tB", "1\t2", "3\t4", "5\t6"]);
    let plain = convert_vcf_to_parquet(&args("in.vcf", 2), &lines).unwrap();
    let gzip = convert_vcf_to_parquet(&args("in.vcf.gz", 2), &lines).unwrap();
    assert_eq!(plain.metadata, gzip.metadata);
    assert_eq!(plain.batches, gzip.batches);
}

#[test]
fn conversion_refuses_an_unknown_suffix() {
    let lines = texts(&["#A\tB", "1\t2"]);
    match convert_vcf_to_parquet(&args("in.txt", 2), &lines) {
        Ok(_) => panic!("converted"),
        Err(e) => assert_eq!(e, VcfError::InvalidInputFormat(FormatProblem::UnrecognizedExtension)),
    }
}

#[test]
fn conversion_reports_what_the_rows_fail_with() {
    match convert_vcf_to_parquet(&args("in.vcf", 2), &texts(&["#A\tB", "1\t2", "3"])) {
        Ok(_) => panic!("converted"),
        Err(e) => assert_eq!(e, VcfError::ColumnCountMismatch { row: 2, expected: 2, found: 1 }),
    }
    match convert_vcf_to_parquet(&args("in.vcf", 2), &texts(&["##a=1", "#A\tB"])) {
        Ok(_) => panic!("converted"),
        Err(e) => assert_eq!(e, VcfError::InvalidInputFormat(FormatProblem::MissingData)),
    }
    match convert_vcf_to_parquet(&args("in.vcf.gz", 2), &texts(&["##a=1"])) {
        Ok(_) => panic!("converted"),
        Err(e) => assert_eq!(e, VcfError::InvalidInputFormat(FormatProblem::MissingHeader)),
    }
}

#[test]
fn test_delay() {
    let delay = Delay::new(50);
    assert_eq!(delay.millis(), 50);
    assert_eq!(Delay::new(0).millis(), 0);
    assert_eq!(Delay::new(u64::MAX).millis(), u64::MAX);
}
