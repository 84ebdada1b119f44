use ibu::mmap::MmapReader;
use ibu::parallel::{partition_ranges, process_range, ParallelProcessor, ParallelReader};
use ibu::{Header, IbuError, Record, Writer};
use memmap2::MmapOptions;
use std::sync::atomic::{AtomicU64, Ordering};
use std::sync::Arc;

fn view_of_records(records: &[Record]) -> MmapReader {
    let header = Header::new(16, 12);
    let mut writer = Writer::new(Vec::new(), header).unwrap();
    writer.write_batch(records).unwrap();
    writer.finish().unwrap();
    let bytes = writer.into_inner();
    let mut map = MmapOptions::new().len(bytes.len()).map_anon().unwrap();
    map.copy_from_slice(&bytes);
    MmapReader::from_map(map.make_read_only().unwrap()).unwrap()
}

#[derive(Clone, Default)]
struct TestProcessor {
    local_count: u64,
    local_sum: u64,
    global_count: Arc<AtomicU64>,
    global_sum: Arc<AtomicU64>,
    tid: Option<usize>,
}

impl ParallelProcessor for TestProcessor {
    fn process_record(&mut self, record: Record) -> ibu::Result<()> {
        self.local_count += 1;
        self.local_sum += record.barcode + record.umi + record.index;
        Ok(())
    }

    fn on_batch_complete(&mut self) -> ibu::Result<()> {
        self.global_count
            .fetch_add(self.local_count, Ordering::Relaxed);
        self.global_sum.fetch_add(self.local_sum, Ordering::Relaxed);
        self.local_count = 0;
        self.local_sum = 0;
        Ok(())
    }

    fn set_tid(&mut self, tid: usize) {
        self.tid = Some(tid);
    }

    fn get_tid(&self) -> Option<usize> {
        self.tid
    }
}

#[derive(Clone)]
struct ErrorProcessor {
    fail_on_record: u64,
    current_record: u64,
}

impl ParallelProcessor for ErrorProcessor {
    fn process_record(&mut self, record: Record) -> ibu::Result<()> {
        self.current_record += 1;
        if record.index == self.fail_on_record {
            return Err(IbuError::Process("Test error".into()));
        }
        Ok(())
    }
}

#[test]
fn test_processor_basic_functionality() {
    let processor = TestProcessor::default();
    let mut processor_clone = processor.clone();

    // Test set_tid and get_tid
    assert_eq!(processor_clone.get_tid(), None);
    processor_clone.set_tid(42);
    assert_eq!(processor_clone.get_tid(), Some(42));

    // Test processing records
    let record1 = Record::new(1, 2, 3);
    let record2 = Record::new(4, 5, 6);

    processor_clone.process_record(record1).unwrap();
    processor_clone.process_record(record2).unwrap();

    assert_eq!(processor_clone.local_count, 2);
    assert_eq!(processor_clone.local_sum, 1 + 2 + 3 + 4 + 5 + 6);

    // Test batch completion
    processor_clone.on_batch_complete().unwrap();

    assert_eq!(processor_clone.local_count, 0);
    assert_eq!(processor_clone.local_sum, 0);
    assert_eq!(processor.global_count.load(Ordering::Relaxed), 2);
    assert_eq!(processor.global_sum.load(Ordering::Relaxed), 21);
}

#[test]
fn test_processor_thread_safety() {
    let processor = TestProcessor::default();

    // Test that processor is Send + Clone
    fn is_send<T: Send>() {}
    fn is_clone<T: Clone>() {}

    is_send::<TestProcessor>();
    is_clone::<TestProcessor>();

    // Test actual cloning
    let clone1 = processor.clone();
    let clone2 = processor.clone();

    // Clones should have independent local state
    let mut clone1 = clone1;
    let mut clone2 = clone2;

    clone1.set_tid(1);
    clone2.set_tid(2);

    assert_eq!(clone1.get_tid(), Some(1));
    assert_eq!(clone2.get_tid(), Some(2));

    // But share global state
    assert!(Arc::ptr_eq(&clone1.global_count, &clone2.global_count));
    assert!(Arc::ptr_eq(&clone1.global_sum, &clone2.global_sum));
}

#[test]
fn test_error_handling() {
    let mut processor = ErrorProcessor {
        fail_on_record: 5,
        current_record: 0,
    };

    // Should succeed for records that don't match fail condition
    let record1 = Record::new(1, 2, 3);
    assert!(processor.process_record(record1).is_ok());

    let record2 = Record::new(1, 2, 4);
    assert!(processor.process_record(record2).is_ok());

    // Should fail for record with index 5
    let record3 = Record::new(1, 2, 5);
    let result = processor.process_record(record3);
    assert!(result.is_err());

    match result {
        Err(IbuError::Process(_)) => {} // Expected
        other => panic!("Expected Process error, got: {:?}", other),
    }
}

#[test]
fn test_default_implementations() {
    #[derive(Clone)]
    struct MinimalProcessor;

    impl ParallelProcessor for MinimalProcessor {
        fn process_record(&mut self, _record: Record) -> ibu::Result<()> {
            Ok(())
        }
    }

    let mut processor = MinimalProcessor;

    // Test default implementations
    assert!(processor.on_batch_complete().is_ok());
    assert_eq!(processor.get_tid(), None);

    // set_tid should not panic
    processor.set_tid(123);
    assert_eq!(processor.get_tid(), None); // Still None with default impl
}

#[test]
fn test_multiple_batch_completions() {
    let processor = TestProcessor::default();
    let mut processor_clone = processor.clone();

    // Process some records and complete batch
    processor_clone
        .process_record(Record::new(1, 0, 0))
        .unwrap();
    processor_clone.on_batch_complete().unwrap();

    // Process more records and complete another batch
    processor_clone
        .process_record(Record::new(2, 0, 0))
        .unwrap();
    processor_clone
        .process_record(Record::new(3, 0, 0))
        .unwrap();
    processor_clone.on_batch_complete().unwrap();

    // Check accumulated results
    assert_eq!(processor.global_count.load(Ordering::Relaxed), 3);
    assert_eq!(processor.global_sum.load(Ordering::Relaxed), 1 + 2 + 3);
}

#[test]
fn partition_ranges_tile_the_record_span() {
    for (len, n) in [(0usize, 1usize), (0, 4), (1, 1), (1, 8), (10, 3), (10, 1), (100, 7), (7, 7), (5, 16)] {
        let ranges = partition_ranges(len, n);
        assert_eq!(ranges.len(), n);
        assert_eq!(ranges[0].0, 0);
        assert_eq!(ranges[n - 1].1, len);
        for i in 0..n {
            assert!(ranges[i].0 <= ranges[i].1);
            assert!(ranges[i].1 <= len);
            if i + 1 < n {
                // Ranges abut, and all but the last are equally sized.
                assert_eq!(ranges[i].1, ranges[i + 1].0);
                assert_eq!(ranges[i].1 - ranges[i].0, len / n);
            } else {
                assert_eq!(ranges[i].1 - ranges[i].0, len / n + len % n);
            }
        }
    }
}

#[test]
fn process_range_visits_records_in_order() {
    #[derive(Clone, Default)]
    struct Collector {
        seen: Vec<Record>,
    }
    impl ParallelProcessor for Collector {
        fn process_record(&mut self, record: Record) -> ibu::Result<()> {
            self.seen.push(record);
            Ok(())
        }
    }

    let records: Vec<Record> = (0..50).map(|i| Record::new(i, i + 1, i + 2)).collect();
    let view = view_of_records(&records);
    let mut collector = Collector::default();
    process_range(&view, &mut collector, 10, 40).unwrap();
    assert_eq!(collector.seen, records[10..40].to_vec());
}

#[test]
fn parallel_sum_matches_sequential_sum() {
    // A commutative, associative accumulation over all records yields
    // the same total through every thread count as a sequential scan,
    // including thread counts exceeding the record count.
    for num_records in [0u64, 1, 100_000] {
        let records: Vec<Record> = (0..num_records)
            .map(|i| Record::new(i, i * 2, i * 3))
            .collect();
        let sequential: u64 = records
            .iter()
            .map(|r| r.barcode + r.umi + r.index)
            .sum();
        let view = view_of_records(&records);
        for threads in [1usize, 2, 4, 8] {
            let processor = TestProcessor::default();
            view.process_parallel(processor.clone(), threads).unwrap();
            assert_eq!(
                processor.global_count.load(Ordering::Relaxed),
                num_records,
                "count with {} threads over {} records",
                threads,
                num_records
            );
            assert_eq!(
                processor.global_sum.load(Ordering::Relaxed),
                sequential,
                "sum with {} threads over {} records",
                threads,
                num_records
            );
        }
    }
}

#[test]
fn parallel_auto_thread_count() {
    let records: Vec<Record> = (0..1000).map(|i| Record::new(i, 0, 0)).collect();
    let view = view_of_records(&records);
    let processor = TestProcessor::default();
    view.process_parallel(processor.clone(), 0).unwrap();
    assert_eq!(processor.global_count.load(Ordering::Relaxed), 1000);
}

#[test]
fn parallel_empty_file() {
    let view = view_of_records(&[]);
    let processor = TestProcessor::default();
    view.process_parallel(processor.clone(), 2).unwrap();
    assert_eq!(processor.global_count.load(Ordering::Relaxed), 0);
}

#[test]
fn parallel_processor_error_propagates() {
    let records: Vec<Record> = (0..100).map(|i| Record::new(0, 0, i)).collect();
    let view = view_of_records(&records);
    let processor = ErrorProcessor {
        fail_on_record: 57,
        current_record: 0,
    };
    let result = view.process_parallel(processor, 2);
    match result {
        Err(IbuError::Process(msg)) => assert_eq!(msg, "Test error"),
        other => panic!("Expected Process error, got: {:?}", other),
    }
}
