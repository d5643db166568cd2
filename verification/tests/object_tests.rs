use ferion::{RionField, RionObject};

#[test]
fn test_new_object() {
    let obj = RionObject::new();
    assert!(obj.fields.is_empty());
}

#[test]
fn test_add_field() {
    let mut obj = RionObject::new();
    obj.add_field("key", RionField::from_str("value"));
    assert_eq!(obj.fields.len(), 1);
    assert!(obj.contains_key("key".as_bytes()));
}

#[test]
fn test_decode_object() {
    let data = vec![
        0xC1, 0x15, 0xE3, 0x01, 0x01, 0x01, 0x22, 0xFF, 0xFF, 0xE3, 0x02, 0x02, 0x02, 0x22, 0xAB,
        0xCD, 0xE3, 0x03, 0x03, 0x03, 0x22, 0x01, 0x23,
    ];
    let obj = RionObject::from_slice(&data).unwrap();
    assert_eq!(obj.fields.len(), 3);
    assert!(obj.contains_key([1, 1, 1].as_ref()));
}

#[test]
fn test_encode_decode_object() {
    let mut obj = RionObject::new();
    obj.add_field("name", RionField::from_str("Alice"));
    obj.add_field("age", RionField::int64(30));
    obj.add_field("is_student", RionField::bool(true));

    let encoded = obj.encode();
    println!("{:?}", encoded);
    let decoded_obj = RionObject::from_slice(&encoded).unwrap();

    assert_eq!(obj, decoded_obj);
}

#[test]
fn test_empty_object() {
    let obj = RionObject::new();
    let encoded = obj.encode();
    let decoded_obj = RionObject::from_slice(&encoded).unwrap();
    assert_eq!(obj, decoded_obj);
}

#[test]
fn test_nested_object() {
    let mut inner_obj = RionObject::new();
    inner_obj.add_field("ik", RionField::from_str("iv"));

    let mut outer_obj = RionObject::new();
    outer_obj.add_field("ok", RionField::from_str("ov"));
    let inner_encoded = inner_obj.encode();
    outer_obj.add_field("n", RionField::from_slice(&inner_encoded).unwrap());

    let encoded = outer_obj.encode();
    println!("{:x?}", encoded);
    let decoded_obj = RionObject::from_slice(&encoded).unwrap();

    assert_eq!(outer_obj, decoded_obj);
}
