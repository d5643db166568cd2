use ferion::{
    Deserializer, LeadByte, NormalField, NormalRionType, RionDateTime, RionField, RionFieldType,
    ShortField, ShortRionType,
};

#[test]
fn test_lead_byte_classification() {
    let lead = LeadByte::from_byte(0x65).unwrap();
    assert_eq!(lead.field_type(), RionFieldType::Short(ShortRionType::UTF8));
    assert_eq!(lead.length(), 5);
    assert!(!lead.is_null());
    assert!(lead.is_short());
    assert!(!lead.is_normal());
    assert_eq!(lead.byte(), 0x65);
    assert_eq!(lead.as_bool(), None);

    let tiny = LeadByte::from_byte(0x12).unwrap();
    assert_eq!(tiny.as_bool(), Some(true));
    assert_eq!(tiny.length(), 0);
    assert!(!tiny.is_null());
    assert!(LeadByte::from_byte(0x10).unwrap().is_null());
    assert!(LeadByte::from_byte(0x13).is_err());

    let built = LeadByte::from_type(RionFieldType::Normal(NormalRionType::Array), 0);
    assert_eq!(built.byte(), 0xA0);
    assert!(built.is_null());
}

#[test]
fn test_field_type_predicates() {
    let key = RionFieldType::Short(ShortRionType::Key);
    assert!(key.is_key());
    assert!(!key.is_str());
    assert!(key.is_label());
    assert!(key.is_short());
    assert!(key.is_short_type(ShortRionType::Key));
    assert_eq!(key.to_byte(), 0xE);

    let obj = RionFieldType::Normal(NormalRionType::Object);
    assert!(obj.is_normal());
    assert!(obj.is_normal_type(NormalRionType::Object));
    assert!(!obj.is_tiny());
    assert!(!obj.is_extended());
    assert!(RionFieldType::from_byte(0xF7).unwrap().is_extended());
}

#[test]
fn test_short_field_parse() {
    let data = vec![0x22, 0x01, 0x02, 0x12];
    let (field, rest) = ShortField::parse(&data).unwrap();
    assert_eq!(field.field_type, ShortRionType::Int64Positive);
    assert_eq!(field.as_pos_int(), Some(0x0102));
    assert_eq!(rest, &[0x12]);

    // A tiny field is not short.
    assert!(ShortField::parse(&[0x12]).is_err());
}

#[test]
fn test_short_field_builders() {
    let f = ShortField::new(ShortRionType::UTF8, b"hi".to_vec());
    assert_eq!(f.as_str(), Some("hi".to_string()));
    assert_eq!(f.as_bytes(), b"hi");
    assert!(!f.is_null());
    assert!(ShortField::null(ShortRionType::UTF8).is_null());
    let mut out = Vec::new();
    f.extend(&mut out);
    assert_eq!(out, vec![0x62, b'h', b'i']);
}

#[test]
fn test_normal_field_parse() {
    // After the lead byte: one length byte saying 3, then the payload.
    let tail = vec![0x03, b'a', b'b', b'c', 0x12];
    let (field, rest) = NormalField::parse(&tail, 1, NormalRionType::UTF8).unwrap();
    assert_eq!(field.as_str(), Some("abc".to_string()));
    assert_eq!(rest, &[0x12]);

    // A zero length-of-length consumes nothing and yields the null field.
    let (field, rest) = NormalField::parse(&tail, 0, NormalRionType::Bytes).unwrap();
    assert!(field.is_null());
    assert_eq!(rest.len(), 5);

    // A declared length past the input is truncation.
    assert!(NormalField::parse(&[0x09, 0x01], 1, NormalRionType::Bytes).is_err());
}

#[test]
fn test_normal_field_builders() {
    let f = NormalField::new(NormalRionType::Bytes, vec![1, 2, 3]);
    assert_eq!(f.as_bytes(), &[1, 2, 3]);
    assert_eq!(f.as_str(), None);
    let mut out = Vec::new();
    f.extend(&mut out);
    assert_eq!(out, vec![0x01, 0x03, 1, 2, 3]);
    assert!(NormalField::null(NormalRionType::Object).is_null());
}

#[test]
fn test_deserializer_cursor() {
    let mut de = Deserializer::new(&[0x21, 0x0A, 0x12]);
    assert!(!de.is_empty());

    let lead = de.peek_lead().unwrap();
    assert_eq!(lead.field_type(), RionFieldType::Short(ShortRionType::Int64Positive));
    assert_eq!(lead.length(), 1);

    let lead = de.next_lead().unwrap();
    assert_eq!(lead.length(), 1);
    assert_eq!(de.next_byte(), Some(0x0A));

    let field = de.parse_field().unwrap();
    assert!(matches!(field, RionField::Bool(Some(true))));
    assert!(de.is_empty());
    assert_eq!(de.next_byte(), None);
    assert!(de.peek_lead().is_none());
}

#[test]
fn test_datetime_field_layout() {
    // Trailing zero components are trimmed; milliseconds pack in two bytes.
    let d = RionDateTime {
        year: 2024,
        month: 6,
        day: 15,
        hour: 12,
        minute: 0,
        second: 0,
        nanos: 250_000_000,
    };
    let field = d.to_field();
    assert_eq!(
        field.encode_to_vec(),
        vec![0x77, 0x07, 0xE8, 0x06, 0x0F, 0x0C, 0x00, 0xFA]
    );

    let plain = RionDateTime { year: 0, month: 0, day: 0, hour: 0, minute: 0, second: 0, nanos: 0 };
    assert_eq!(plain.to_field().encode_to_vec(), vec![0x70]);
}

#[test]
fn test_field_inspectors() {
    let field = RionField::key_str("name");
    assert!(field.is_key());
    assert!(field.is_short_type(ShortRionType::Key));
    assert_eq!(field.field_type(), RionFieldType::Short(ShortRionType::Key));
    assert_eq!(field.needed_bytes(), 5);
    assert_eq!(field.to_data().unwrap(), b"name".to_vec());

    let field = RionField::bytes(&[9, 9]);
    assert!(field.is_normal_type(NormalRionType::Bytes));
    assert_eq!(field.needed_bytes(), 4);
}
