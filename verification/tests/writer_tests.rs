use ibu::reader::Reader;
use ibu::stream::SliceSource;
use ibu::writer::DEFAULT_BUFFER_SIZE;
use ibu::{Header, Record, Writer, RECORD_SIZE};

fn read_all(bytes: Vec<u8>) -> (Header, Vec<Record>) {
    let mut reader = Reader::new(SliceSource::new(bytes)).unwrap();
    let header = reader.header();
    let mut records = Vec::new();
    while let Some(item) = reader.next_record() {
        records.push(item.unwrap());
    }
    (header, records)
}

#[test]
fn test_writer_creation() {
    let header = Header::new(16, 12);
    let buffer = Vec::new();
    let writer = Writer::new(buffer, header).unwrap();

    assert_eq!(writer.records_written(), 0);

    // Should have written header to buffer
    let buffer = writer.into_inner();
    assert_eq!(buffer.len(), 32); // Header size
}

#[test]
fn test_writer_headless() {
    let buffer = Vec::new();
    let writer = Writer::new_headless(buffer);

    assert_eq!(writer.records_written(), 0);

    // Should not have written header
    let buffer = writer.into_inner();
    assert_eq!(buffer.len(), 0);
}

#[test]
fn test_single_record_write() {
    let header = Header::new(16, 12);
    let buffer = Vec::new();
    let mut writer = Writer::new(buffer, header).unwrap();

    let record = Record::new(0x1234, 0x5678, 42);
    writer.write_record(&record).unwrap();

    assert_eq!(writer.records_written(), 1);

    writer.finish().unwrap();
    let buffer = writer.into_inner();
    assert_eq!(buffer.len(), 32 + 24); // Header + record
}

#[test]
fn test_batch_write() {
    let header = Header::new(16, 12);
    let buffer = Vec::new();
    let mut writer = Writer::new(buffer, header).unwrap();

    let records = vec![
        Record::new(1, 2, 3),
        Record::new(4, 5, 6),
        Record::new(7, 8, 9),
    ];

    writer.write_batch(&records).unwrap();
    assert_eq!(writer.records_written(), 3);

    writer.finish().unwrap();
    let buffer = writer.into_inner();
    assert_eq!(buffer.len(), 32 + 3 * 24); // Header + 3 records
}

#[test]
fn test_iterator_write() {
    let header = Header::new(16, 12);
    let buffer = Vec::new();
    let mut writer = Writer::new(buffer, header).unwrap();

    let records: Vec<Record> = (0..100).map(|i| Record::new(i, i * 2, i * 3)).collect();
    writer.write_iter(records).unwrap();

    assert_eq!(writer.records_written(), 100);
}

#[test]
fn test_large_batch_direct_write() {
    let header = Header::new(16, 12);
    let buffer = Vec::new();
    let mut writer = Writer::new(buffer, header).unwrap();

    // Create a batch larger than the buffer to trigger direct write
    let large_batch: Vec<Record> = (0..100_000).map(|i| Record::new(i, i * 2, i * 3)).collect();

    writer.write_batch(&large_batch).unwrap();
    assert_eq!(writer.records_written(), 100_000);
}

#[test]
fn test_writer_ingest() {
    let header = Header::new(16, 12);

    // Main writer
    let main_buffer = Vec::new();
    let mut main_writer = Writer::new(main_buffer, header).unwrap();

    // Auxiliary writer (headless to avoid including header in ingest)
    let aux_buffer = Vec::new();
    let mut aux_writer = Writer::new_headless(aux_buffer);
    aux_writer.write_record(&Record::new(1, 2, 3)).unwrap();
    aux_writer.write_record(&Record::new(4, 5, 6)).unwrap();

    // Ingest
    main_writer.ingest(&mut aux_writer).unwrap();
    assert_eq!(main_writer.records_written(), 2);

    // Aux writer should be cleared
    assert!(aux_writer.into_inner().is_empty());
}

#[test]
fn test_writer_roundtrip() {
    let header = Header::new(20, 10);
    let original_records = vec![
        Record::new(0x12345, 0x67890, 100),
        Record::new(0xABCDE, 0xF0123, 200),
    ];

    // Write records
    let buffer = Vec::new();
    let mut writer = Writer::new(buffer, header).unwrap();
    writer.write_batch(&original_records).unwrap();
    writer.finish().unwrap();

    // Read them back
    let buffer = writer.into_inner();
    let (_, read_records) = read_all(buffer);
    assert_eq!(original_records, read_records);
}

#[test]
fn test_buffer_flushing() {
    let header = Header::new(16, 12);
    let records_to_fill = DEFAULT_BUFFER_SIZE / RECORD_SIZE;

    // Fill the buffer exactly to capacity: nothing is flushed yet.
    let mut writer = Writer::new(Vec::new(), header).unwrap();
    for i in 0..records_to_fill {
        writer.write_record(&Record::new(i as u64, 0, 0)).unwrap();
    }
    let buffer_len_before = writer.into_inner().len();

    // One more record forces a flush of the full buffer first.
    let mut writer = Writer::new(Vec::new(), header).unwrap();
    for i in 0..records_to_fill {
        writer.write_record(&Record::new(i as u64, 0, 0)).unwrap();
    }
    writer.write_record(&Record::new(999, 0, 0)).unwrap();
    let buffer_len_after = writer.into_inner().len();

    assert!(buffer_len_after > buffer_len_before);
}

#[test]
fn test_records_written_counter() {
    let header = Header::new(16, 12);
    let buffer = Vec::new();
    let mut writer = Writer::new(buffer, header).unwrap();

    assert_eq!(writer.records_written(), 0);

    writer.write_record(&Record::new(1, 2, 3)).unwrap();
    assert_eq!(writer.records_written(), 1);

    let batch = vec![Record::new(4, 5, 6), Record::new(7, 8, 9)];
    writer.write_batch(&batch).unwrap();
    assert_eq!(writer.records_written(), 3);

    let iter_records: Vec<Record> = (10..15).map(|i| Record::new(i, i, i)).collect();
    writer.write_iter(iter_records).unwrap();
    assert_eq!(writer.records_written(), 8);
}

#[test]
fn test_drop_behavior() {
    let header = Header::new(16, 12);
    let buffer = Vec::new();
    let mut writer = Writer::new(buffer, header).unwrap();

    writer.write_record(&Record::new(1, 2, 3)).unwrap();

    // Drop without explicit finish - should not panic
    drop(writer);
}

#[test]
fn test_empty_batch() {
    let header = Header::new(16, 12);
    let buffer = Vec::new();
    let mut writer = Writer::new(buffer, header).unwrap();

    let empty_batch: Vec<Record> = vec![];
    writer.write_batch(&empty_batch).unwrap();

    assert_eq!(writer.records_written(), 0);
}

#[test]
fn test_mixed_write_methods() {
    let header = Header::new(16, 12);
    let buffer = Vec::new();
    let mut writer = Writer::new(buffer, header).unwrap();

    // Write individually
    writer.write_record(&Record::new(1, 2, 3)).unwrap();

    // Write batch
    let batch = vec![Record::new(4, 5, 6), Record::new(7, 8, 9)];
    writer.write_batch(&batch).unwrap();

    // Write from a produced sequence
    let iter_records: Vec<Record> = (10..13).map(|i| Record::new(i, i * 2, i * 3)).collect();
    writer.write_iter(iter_records).unwrap();

    assert_eq!(writer.records_written(), 6);

    writer.finish().unwrap();
    let buffer = writer.into_inner();

    // Verify by reading back
    let (_, read_records) = read_all(buffer);

    assert_eq!(read_records.len(), 6);
    assert_eq!(read_records[0], Record::new(1, 2, 3));
    assert_eq!(read_records[1], Record::new(4, 5, 6));
    assert_eq!(read_records[5], Record::new(12, 24, 36));
}

#[test]
fn test_writer_clone() {
    let header = Header::new(16, 12);
    let buffer = Vec::new();
    let writer = Writer::new(buffer, header).unwrap();

    // Test that writer can be cloned
    let writer_clone = writer.clone();
    assert_eq!(writer.records_written(), writer_clone.records_written());
}

#[test]
fn write_collection_writes_every_record() {
    let header = Header::new(16, 12);
    let mut writer = Writer::new(Vec::new(), header).unwrap();
    let records = vec![Record::new(5, 6, 7), Record::new(8, 9, 10)];
    writer.write_collection(&records).unwrap();
    writer.finish().unwrap();
    let (_, read_records) = read_all(writer.into_inner());
    assert_eq!(read_records, records);
}

#[test]
fn ingest_stream_equals_direct_write() {
    // Writing M records directly plus K ingested from a headless writer
    // yields the same byte layout as writing all M + K records directly.
    let header = Header::new(16, 12);
    let first: Vec<Record> = (0..500).map(|i| Record::new(i, i + 1, i + 2)).collect();
    let second: Vec<Record> = (0..300).map(|i| Record::new(1000 + i, i, 2 * i)).collect();

    let mut combined_writer = Writer::new(Vec::new(), header).unwrap();
    combined_writer.write_batch(&first).unwrap();
    let mut aux = Writer::new_headless(Vec::new());
    aux.write_batch(&second).unwrap();
    combined_writer.ingest(&mut aux).unwrap();
    assert_eq!(combined_writer.records_written(), 800);
    combined_writer.finish().unwrap();
    let merged_bytes = combined_writer.into_inner();

    let mut direct_writer = Writer::new(Vec::new(), header).unwrap();
    direct_writer.write_batch(&first).unwrap();
    direct_writer.write_batch(&second).unwrap();
    direct_writer.finish().unwrap();
    let direct_bytes = direct_writer.into_inner();

    assert_eq!(merged_bytes, direct_bytes);
}
