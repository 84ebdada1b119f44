use ibu::stream::SliceSource;
use ibu::{Header, Ibu, Record};

fn build_header() -> Header {
    Header::new(16, 12)
}

fn build_record(idx: u64) -> Record {
    // Arbitrary values
    Record {
        barcode: (idx * 31),
        umi: (idx * 37),
        index: (idx * 41),
    }
}

fn build_record_set(num_records: u64) -> Vec<Record> {
    (0..num_records).map(build_record).collect()
}

#[test]
fn test_ibu() {
    let num_records = 10;
    let ibu = Ibu::new(build_header(), build_record_set(num_records));

    let mut buf = Vec::new();
    ibu.write_bytes(&mut buf).unwrap();
    let ibu2 = Ibu::from_bytes(SliceSource::new(buf)).unwrap();

    assert_eq!(ibu.header, ibu2.header);
    assert_eq!(ibu.records, ibu2.records);
}

#[test]
fn ibu_from_bytes_rejects_invalid_header() {
    let bytes = vec![0u8; 56];
    let result = Ibu::from_bytes(SliceSource::new(bytes));
    assert!(matches!(
        result,
        Err(ibu::IbuError::InvalidMagicNumber { .. })
    ));
}

#[test]
fn ibu_from_bytes_rejects_truncated_tail() {
    let ibu = Ibu::new(build_header(), build_record_set(3));
    let mut buf = Vec::new();
    ibu.write_bytes(&mut buf).unwrap();
    buf.truncate(buf.len() - 11);
    let result = Ibu::from_bytes(SliceSource::new(buf));
    assert!(matches!(result, Err(ibu::IbuError::TruncatedRecord { .. })));
}
