use ferion::{bytes_to_uint, int_to_bytes, needed_bytes};

#[test]
fn test_bytes_to_int() {
    let bytes = [0x01, 0x02, 0x03, 0x04];
    assert_eq!(bytes_to_uint(&bytes).unwrap(), 0x01020304);
}

#[test]
fn test_int_to_bytes() {
    let int: u64 = 0x01020304;
    let mut encoder = Vec::new();
    int_to_bytes(int, &mut encoder);
    assert_eq!(&encoder, &[0x01, 0x02, 0x03, 0x04]);
}

#[test]
fn test_int_to_bytes_to_int() {
    let int: u64 = 0x01020304;
    let mut encoder = Vec::new();
    int_to_bytes(int, &mut encoder);
    assert_eq!(bytes_to_uint(&encoder).unwrap(), int);
}

#[test]
fn test_int_to_bytes_needed_bytes() {
    let int: u64 = 0x01020304;
    let mut encoder = Vec::new();
    int_to_bytes(int, &mut encoder);
    assert_eq!(encoder.len(), needed_bytes(int) as usize);
}
