use flate2::read::MultiGzDecoder;
use flate2::write::GzEncoder;
use flate2::Compression;
use std::io::{BufRead, BufReader, Write};
use vcf2parquet::read_vcf::read_vcf;

fn gzip(text: &str) -> Vec<u8> {
    let mut encoder = GzEncoder::new(Vec::new(), Compression::default());
    encoder.write_all(text.as_bytes()).unwrap();
    encoder.finish().unwrap()
}

fn lines_of(bytes: &[u8]) -> Vec<String> {
    BufReader::new(MultiGzDecoder::new(bytes)).lines().map(|line| line.unwrap()).collect()
}

#[test]
fn compressed_input_converts_as_the_plain_one() {
    let head = "##a=1\n##a=2\n#CHROM\tPOS\tID\n1\t100\t.\n";
    let tail = "1\t200\trs5\n2\t7\t.\nX\t9\trs9\n";
    let plain: Vec<String> = format!("{}{}", head, tail).lines().map(|line| line.to_string()).collect();

    // Two members one after the other, as block-gzipped files are made.
    let mut members = gzip(head);
    members.extend(gzip(tail));
    let decoded = lines_of(&members);
    assert_eq!(decoded, plain);

    for threshold in [1usize, 2, 1000] {
        let from_plain = read_vcf(&plain, None, threshold);
        let from_gzip = read_vcf(&decoded, None, threshold);
        assert_eq!(from_plain, from_gzip);
        assert_eq!(from_gzip.outcome, Ok(4));
    }
}
