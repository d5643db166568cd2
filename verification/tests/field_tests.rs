use ferion::{RionField, UtcStamp};

#[test]
fn test_tiny_field() {
    let field = RionField::Bool(Some(true));
    assert!(matches!(field, RionField::Bool(_)));
    assert!(!field.is_null());
}

#[test]
fn test_empty_utf8_field() {
    // The empty string takes the short tag, like every string up to 15
    // bytes.
    let field = RionField::from_str("");
    assert!(matches!(field, RionField::Short(_)));
    assert_eq!(field.as_str(), Some(String::new()));
}

#[test]
fn test_short_field() {
    let field = RionField::from_str("Hello");
    assert!(matches!(field, RionField::Short(_)));
    assert_eq!(field.as_str(), Some("Hello".to_string()));
}

#[test]
fn test_normal_field() {
    let long_string = "a".repeat(20);
    let field = RionField::from_str(long_string.as_str());
    assert!(matches!(field, RionField::Normal(_)));
    assert_eq!(field.as_str(), Some(long_string.clone()));
}

#[test]
fn test_from_i64() {
    let field = RionField::int64(42);
    assert!(matches!(field, RionField::Short(_)));
    assert_eq!(field.as_bytes(), &[42]);
}

#[test]
fn test_from_negative_i64() {
    let field = RionField::int64(-42);
    assert!(matches!(field, RionField::Short(_)));
    assert_eq!(field.as_bytes(), &[41]);
}

#[test]
fn test_from_u64() {
    let field = RionField::uint64(1000);
    assert!(matches!(field, RionField::Short(_)));
    assert_eq!(field.as_bytes(), &[3, 232]);
}

#[test]
fn test_from_bool() {
    let field_true = RionField::bool(true);
    let field_false = RionField::bool(false);
    assert!(matches!(field_true, RionField::Bool(_)));
    assert!(matches!(field_false, RionField::Bool(_)));
    assert_eq!(field_true.as_bytes(), &[] as &[u8]);
    assert_eq!(field_false.as_bytes(), &[] as &[u8]);
}

#[test]
fn test_from_f32() {
    let field = RionField::float32_from_bits(3.14f32.to_bits());
    assert!(matches!(field, RionField::Short(_)));
    assert_eq!(field.as_bytes().len(), 4);
}

#[test]
fn test_from_f64() {
    let field = RionField::float64_from_bits(3.14159265359f64.to_bits());
    assert!(matches!(field, RionField::Short(_)));
    assert_eq!(field.as_bytes().len(), 8);
}

#[test]
fn test_from_datetime() {
    let now = UtcStamp::now();
    let field = RionField::from_datetime(&now);
    assert!(matches!(field, RionField::Short(_)));
}

#[test]
fn test_encode_decode() {
    let original = RionField::from_str("Test");
    let mut encoded = Vec::new();
    original.encode(&mut encoded);
    let decoded = RionField::from_slice(&encoded).unwrap();
    assert_eq!(original, decoded);
}

#[test]
fn test_null() {
    let field = RionField::from_slice(&[0x50]).unwrap();
    assert!(field.is_null());
}
