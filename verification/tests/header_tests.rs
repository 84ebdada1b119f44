use ibu::{Header, IbuError, HEADER_SIZE, MAGIC, VERSION};

#[test]
fn test_header_creation() {
    let header = Header::new(16, 12);

    assert_eq!(header.magic, MAGIC);
    assert_eq!(header.version, VERSION);
    assert_eq!(header.bc_len, 16);
    assert_eq!(header.umi_len, 12);
    assert_eq!(header.flags, 0);
    assert_eq!(header.reserved, [0; 8]);
}

#[test]
fn test_header_size() {
    assert_eq!(HEADER_SIZE, 32);
    assert_eq!(std::mem::size_of::<Header>(), HEADER_SIZE);
}

#[test]
fn test_sorted_flag() {
    let mut header = Header::new(16, 12);

    // Initially not sorted
    assert!(!header.sorted());
    assert_eq!(header.flags, 0);

    // Set sorted
    header.set_sorted();
    assert!(header.sorted());
    assert_eq!(header.flags, 1);

    // Setting again should not change anything
    header.set_sorted();
    assert!(header.sorted());
    assert_eq!(header.flags, 1);
}

#[test]
fn test_validation_valid_header() {
    let header = Header::new(16, 12);
    assert!(header.validate().is_ok());

    let header = Header::new(1, 1);
    assert!(header.validate().is_ok());

    let header = Header::new(32, 32);
    assert!(header.validate().is_ok());
}

#[test]
fn test_validation_invalid_magic() {
    let mut header = Header::new(16, 12);
    header.magic = 0x12345678;

    match header.validate() {
        Err(IbuError::InvalidMagicNumber { expected, actual }) => {
            assert_eq!(expected, MAGIC);
            assert_eq!(actual, 0x12345678);
        }
        other => panic!("Expected InvalidMagicNumber, got: {:?}", other),
    }
}

#[test]
fn test_validation_invalid_version() {
    let mut header = Header::new(16, 12);
    header.version = 1;

    match header.validate() {
        Err(IbuError::InvalidVersion { expected, actual }) => {
            assert_eq!(expected, VERSION);
            assert_eq!(actual, 1);
        }
        other => panic!("Expected InvalidVersion, got: {:?}", other),
    }
}

#[test]
fn test_validation_invalid_barcode_length() {
    let mut header = Header::new(16, 12);

    // Test bc_len = 0
    header.bc_len = 0;
    match header.validate() {
        Err(IbuError::InvalidBarcodeLength(len)) => assert_eq!(len, 0),
        other => panic!("Expected InvalidBarcodeLength(0), got: {:?}", other),
    }

    // Test bc_len > 32
    header.bc_len = 33;
    match header.validate() {
        Err(IbuError::InvalidBarcodeLength(len)) => assert_eq!(len, 33),
        other => panic!("Expected InvalidBarcodeLength(33), got: {:?}", other),
    }
}

#[test]
fn test_validation_invalid_umi_length() {
    let mut header = Header::new(16, 12);

    // Test umi_len = 0
    header.umi_len = 0;
    match header.validate() {
        Err(IbuError::InvalidUmiLength(len)) => assert_eq!(len, 0),
        other => panic!("Expected InvalidUmiLength(0), got: {:?}", other),
    }

    // Test umi_len > 32
    header.umi_len = 33;
    match header.validate() {
        Err(IbuError::InvalidUmiLength(len)) => assert_eq!(len, 33),
        other => panic!("Expected InvalidUmiLength(33), got: {:?}", other),
    }
}

#[test]
fn header_test_byte_conversion_roundtrip() {
    let original = Header::new(20, 10);
    let bytes = original.as_bytes();

    assert_eq!(bytes.len(), HEADER_SIZE);

    let reconstructed = Header::from_bytes(&bytes);
    assert_eq!(original, reconstructed);
}

#[test]
fn test_byte_conversion_with_sorted_flag() {
    let mut original = Header::new(16, 12);
    original.set_sorted();

    let bytes = original.as_bytes();
    let reconstructed = Header::from_bytes(&bytes);

    assert_eq!(original, reconstructed);
    assert!(reconstructed.sorted());
}

#[test]
fn test_magic_constant() {
    // Verify that MAGIC spells "IBU!" in little-endian
    let magic_bytes = MAGIC.to_le_bytes();
    assert_eq!(magic_bytes, [b'I', b'B', b'U', b'!']);
}

#[test]
fn test_version_constant() {
    assert_eq!(VERSION, 2);
}

#[test]
fn test_header_derives() {
    let header1 = Header::new(16, 12);
    let header2 = Header::new(16, 12);
    let header3 = Header::new(20, 10);

    // Test PartialEq and Eq
    assert_eq!(header1, header2);
    assert_ne!(header1, header3);

    // Test Clone and Copy
    let cloned = header1.clone();
    assert_eq!(header1, cloned);

    let copied = header1;
    assert_eq!(header1, copied);

    // Test Debug
    let debug_str = format!("{:?}", header1);
    assert!(debug_str.contains("Header"));

    // Test Hash (basic smoke test)
    let mut map = std::collections::HashMap::new();
    map.insert(header1, "value");
    assert_eq!(map.get(&header2), Some(&"value"));
}

#[test]
fn header_encoding_is_little_endian_layout() {
    let mut header = Header::new(3, 7);
    header.set_sorted();
    let bytes = header.as_bytes();
    assert_eq!(&bytes[0..4], &MAGIC.to_le_bytes());
    assert_eq!(&bytes[4..8], &VERSION.to_le_bytes());
    assert_eq!(&bytes[8..12], &3u32.to_le_bytes());
    assert_eq!(&bytes[12..16], &7u32.to_le_bytes());
    assert_eq!(&bytes[16..24], &1u64.to_le_bytes());
    assert_eq!(&bytes[24..32], &[0u8; 8]);
}

#[test]
fn header_reserved_bytes_round_trip_unchanged() {
    let template = Header::new(16, 12);
    let header = Header {
        reserved: [9, 8, 7, 6, 5, 4, 3, 2],
        flags: 0xABCD_EF01_2345_6789,
        ..template
    };
    let bytes = header.as_bytes();
    let back = Header::from_bytes(&bytes);
    assert_eq!(back.reserved, [9, 8, 7, 6, 5, 4, 3, 2]);
    assert_eq!(back.flags, 0xABCD_EF01_2345_6789);
    assert_eq!(back, header);
}
