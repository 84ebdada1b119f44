use ibu::IbuError;

#[test]
fn test_error_debug() {
    let err = IbuError::InvalidMagicNumber {
        expected: 0x21554249,
        actual: 0x12345678,
    };
    let debug = format!("{:?}", err);
    assert!(debug.contains("InvalidMagicNumber"));
}

#[test]
fn test_result_type_alias() {
    fn test_function() -> ibu::Result<i32> {
        Ok(42)
    }

    fn failing_function() -> ibu::Result<i32> {
        Err(IbuError::InvalidMapSize)
    }

    assert_eq!(test_function().unwrap(), 42);
    assert!(failing_function().is_err());
}

#[test]
fn test_error_send_sync() {
    // Ensure our error type is Send + Sync for threading
    fn is_send<T: Send>() {}
    fn is_sync<T: Sync>() {}

    is_send::<IbuError>();
    is_sync::<IbuError>();
}

#[test]
fn error_variants_carry_their_context() {
    match (IbuError::TruncatedRecord { pos: 1024 }) {
        IbuError::TruncatedRecord { pos } => assert_eq!(pos, 1024),
        other => panic!("Expected TruncatedRecord, got: {:?}", other),
    }
    match (IbuError::InvalidIndex { idx: 100, max: 50 }) {
        IbuError::InvalidIndex { idx, max } => {
            assert_eq!(idx, 100);
            assert_eq!(max, 50);
        }
        other => panic!("Expected InvalidIndex, got: {:?}", other),
    }
    match IbuError::Process("worker gave up".to_string()) {
        IbuError::Process(msg) => assert_eq!(msg, "worker gave up"),
        other => panic!("Expected Process, got: {:?}", other),
    }
}
