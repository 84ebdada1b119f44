//! A fixed-width binary container format for barcode/UMI/index triples:
//! a 32-byte header followed by contiguous 24-byte records, little-endian
//! throughout, with buffered streaming I/O, a memory-mapped random-access
//! view, and a partitioned parallel-processing protocol.

pub mod error;
pub mod header;
pub mod ibu;
pub mod mmap;
pub mod parallel;
pub mod record;
pub mod reader;
pub mod stream;
pub mod writer;

pub use error::IbuError;
pub use error::Result;
pub use header::Header;
pub use header::HEADER_SIZE;
pub use header::MAGIC;
pub use header::VERSION;
pub use ibu::Ibu;
pub use mmap::MmapReader;
pub use parallel::ParallelProcessor;
pub use parallel::ParallelReader;
pub use reader::Reader;
pub use record::Record;
pub use record::RECORD_SIZE;
pub use stream::ByteSink;
pub use stream::ByteSource;
pub use stream::SliceSource;
pub use writer::Writer;
