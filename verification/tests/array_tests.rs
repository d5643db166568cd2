use ferion::{RionArray, RionField};

#[test]
fn test_empty_array() {
    let array = RionArray::new();
    assert!(array.elements.is_empty());
}

#[test]
fn test_add_element() {
    let mut array = RionArray::new();
    array.add_element(RionField::from_str("value"));
    assert_eq!(array.elements.len(), 1);
}

#[test]
fn test_encode_decode_array() {
    let mut array = RionArray::new();
    array.add_element(RionField::from_str("value1"));
    array.add_element(RionField::from_str("value2"));

    let encoded = array.encode();
    println!("{:?}", encoded);
    let decoded_array = RionArray::from_slice(&encoded).unwrap();

    assert_eq!(array, decoded_array);
}

#[test]
fn test_empty_array_encoding() {
    let array = RionArray::new();
    let encoded = array.encode();
    let decoded_array = RionArray::from_slice(&encoded).unwrap();
    assert_eq!(array, decoded_array);
}
