use jam_primitives::constants::{MAX_ACCUMULATION_SIZE, MAX_BLOCK_SIZE, MAX_CORES};
use jam_primitives::text::decimal_string;
use jam_primitives::PrimitiveError;

#[test]
fn test_primitive_error_display() {
    let err = PrimitiveError::ValidationFailed("test error".to_string());
    assert_eq!(err.to_display_string(), "Validation failed: test error");
}

#[test]
fn error_display_for_every_kind() {
    let m = || "m".to_string();
    assert_eq!(PrimitiveError::InvalidFormat.to_display_string(), "Invalid data format");
    assert_eq!(PrimitiveError::CodecError(m()).to_display_string(), "Codec error: m");
    assert_eq!(PrimitiveError::CryptoError(m()).to_display_string(), "Crypto error: m");
    assert_eq!(PrimitiveError::InvalidBlock(m()).to_display_string(), "Invalid block: m");
    assert_eq!(PrimitiveError::SizeLimit(m()).to_display_string(), "Size limit exceeded: m");
    assert_eq!(PrimitiveError::InvalidTransaction(m()).to_display_string(), "Invalid transaction: m");
    assert_eq!(PrimitiveError::InvalidHeader(m()).to_display_string(), "Invalid header: m");
}

#[test]
fn decimal_rendering() {
    assert_eq!(decimal_string(0), "0");
    assert_eq!(decimal_string(7), "7");
    assert_eq!(decimal_string(10), "10");
    assert_eq!(decimal_string(1234567), "1234567");
}

#[test]
fn protocol_constants() {
    assert_eq!(MAX_BLOCK_SIZE, 4 * 1024 * 1024);
    assert_eq!(MAX_CORES, 1023);
    assert_eq!(MAX_ACCUMULATION_SIZE, 1024 * 1024);
}
