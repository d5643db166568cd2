use std::collections::HashMap;

use ferion::{
    from_bytes, to_bytes, Deserializer, DeserializeError, NormalRionType, RionField, RionObject,
    RionDeserialize, RionSerialize, SerializeError, Serializer, SizedSerializer,
};

fn object_bytes(entries: &[(&str, &str)]) -> Vec<u8> {
    let mut serializer = Serializer::new();
    let mut sized = SizedSerializer::new();
    for (k, v) in entries {
        sized.serialize_key_str(k).unwrap();
        sized.serialize_value(v).unwrap();
    }
    sized.finish(NormalRionType::Object, &mut serializer);
    serializer.output
}

#[test]
fn test_serialize_zero() {
    let value = 0u8;
    let serialized = to_bytes(&value).unwrap();
    assert_eq!(serialized, vec![0x21, 0x00]);
}

#[test]
fn test_serialize_signed_zero() {
    let value = 0i8;
    let serialized = to_bytes(&value).unwrap();
    assert_eq!(serialized, vec![0x21, 0x00]);
}

#[test]
fn test_serialize_negative() {
    let value = -42i8;
    let serialized = to_bytes(&value).unwrap();
    assert_eq!(serialized, vec![0x31, 0x29]);
}

#[test]
fn tests_test_serialize_bool() {
    let value = true;
    let serialized = to_bytes(&value).unwrap();
    assert_eq!(serialized, vec![0x12]);
}

#[test]
fn serializer_test_serialize_bool() {
    let value = true;
    let serialized = to_bytes(&value).unwrap();
    assert_eq!(serialized, vec![0x12]);
}

#[test]
fn tests_test_serialize_object() {
    let serialized = object_bytes(&[("name", "Alice"), ("age", "30")]);
    let object = RionObject::from_slice(&serialized).unwrap();

    let mut test_object = RionObject::new();
    test_object.add_field("name", RionField::from_str("Alice"));
    test_object.add_field("age", RionField::from_str("30"));

    assert_eq!(object, test_object);
}

#[test]
fn serializer_test_serialize_object() {
    let serialized = object_bytes(&[("name", "Alice"), ("age", "30")]);
    let object = RionObject::from_slice(&serialized).unwrap();

    let mut test_object = RionObject::new();
    test_object.add_field("name", RionField::from_str("Alice"));
    test_object.add_field("age", RionField::from_str("30"));

    assert_eq!(object, test_object);
}

#[test]
fn tests_test_serialize_empty_object() {
    let result = object_bytes(&[]);
    assert_eq!(result, vec![0xC0]);
}

#[test]
fn serializer_test_serialize_empty_object() {
    let result = object_bytes(&[]);
    assert_eq!(result, vec![0xC0]);
}

#[test]
fn tests_test_serialize_owned_bytes() {
    let value = b"hello".to_vec();
    let serialized = RionField::bytes(&value).encode_to_vec();
    assert_eq!(serialized, vec![0x01, 0x05, b'h', b'e', b'l', b'l', b'o']);
}

#[test]
fn serializer_test_serialize_owned_bytes() {
    let value = b"hello".to_vec();
    let serialized = RionField::bytes(&value).encode_to_vec();
    assert_eq!(serialized, vec![0x01, 0x05, b'h', b'e', b'l', b'l', b'o']);
}

#[test]
fn tests_test_serialize_borrowed_bytes() {
    let value = b"hello".as_slice();
    let serialized = RionField::bytes(value).encode_to_vec();
    assert_eq!(serialized, vec![0x01, 0x05, b'h', b'e', b'l', b'l', b'o']);
}

#[test]
fn serializer_test_serialize_borrowed_bytes() {
    let value = b"hello".as_slice();
    let serialized = RionField::bytes(value).encode_to_vec();
    assert_eq!(serialized, vec![0x01, 0x05, b'h', b'e', b'l', b'l', b'o']);
}

#[test]
fn tests_test_serialize_array_bytes() {
    let value = [b'h', b'e', b'l', b'l', b'o'];
    let serialized = RionField::bytes(&value).encode_to_vec();
    assert_eq!(serialized, vec![0x01, 0x05, b'h', b'e', b'l', b'l', b'o']);
}

#[test]
fn serializer_test_serialize_array_bytes() {
    let value = [b'h', b'e', b'l', b'l', b'o'];
    let serialized = RionField::bytes(&value).encode_to_vec();
    assert_eq!(serialized, vec![0x01, 0x05, b'h', b'e', b'l', b'l', b'o']);
}

#[test]
fn tests_test_serialize_vec_bytes() {
    let value = vec![b'h', b'e', b'l', b'l', b'o'];
    let serialized = to_bytes(&value).unwrap();
    assert_eq!(
        serialized,
        vec![0xA1, 0x0A, 0x21, b'h', 0x21, b'e', 0x21, b'l', 0x21, b'l', 0x21, b'o']
    );
}

#[test]
fn serializer_test_serialize_vec_bytes() {
    let value = vec![b'h', b'e', b'l', b'l', b'o'];
    let serialized = to_bytes(&value).unwrap();
    assert_eq!(
        serialized,
        vec![0xA1, 0x0A, 0x21, b'h', 0x21, b'e', 0x21, b'l', 0x21, b'l', 0x21, b'o']
    );
}

struct MixedType {
    i: u8,
    s: String,
    b: bool,
}

impl RionSerialize for MixedType {
    fn serialize(&self, s: &mut Serializer) -> Result<(), SerializeError> {
        let mut sized = SizedSerializer::new();
        sized.serialize_key_str("i")?;
        sized.serialize_value(&self.i)?;
        sized.serialize_key_str("s")?;
        sized.serialize_value(&self.s)?;
        sized.serialize_key_str("b")?;
        sized.serialize_value(&self.b)?;
        sized.finish(NormalRionType::Object, s);
        Ok(())
    }
}

fn mixed_array_bytes() -> Vec<u8> {
    let obj = MixedType { i: 1, s: "abc".to_string(), b: true };
    to_bytes(&obj).unwrap()
}

#[test]
fn tests_test_serialize_mixed_array() {
    let result = mixed_array_bytes();
    assert_eq!(
        result,
        vec![
            0xC1, 0x0D, // Object start
            0xE1, b'i', 0x21, 0x01, // Integer 1
            0xE1, b's', 0x63, b'a', b'b', b'c', // String "abc"
            0xE1, b'b', 0x12, // Boolean true
        ]
    );
}

#[test]
fn serializer_test_serialize_mixed_array() {
    let result = mixed_array_bytes();
    assert_eq!(
        result,
        vec![
            0xC1, 0x0D, // Object start
            0xE1, b'i', 0x21, 0x01, // Integer 1
            0xE1, b's', 0x63, b'a', b'b', b'c', // String "abc"
            0xE1, b'b', 0x12, // Boolean true
        ]
    );
}

#[test]
fn tests_test_serialize_negative_integer() {
    let value = -42;
    let serialized = to_bytes(&value).unwrap();
    assert_eq!(serialized, vec![0x31, 0x29]);
}

#[test]
fn serializer_test_serialize_negative_integer() {
    let value = -42;
    let serialized = to_bytes(&value).unwrap();
    assert_eq!(serialized, vec![0x31, 0x29]);
}

#[derive(PartialEq, Debug)]
struct NestedObj {
    obj: HashMap<String, String>,
}

impl RionSerialize for NestedObj {
    fn serialize(&self, s: &mut Serializer) -> Result<(), SerializeError> {
        let mut sized = SizedSerializer::new();
        sized.serialize_key_str("obj")?;
        let mut inner = SizedSerializer::new();
        for (k, v) in &self.obj {
            inner.serialize_key_str(k.as_str())?;
            inner.serialize_value(v)?;
        }
        inner.finish(NormalRionType::Object, &mut sized.temp);
        sized.finish(NormalRionType::Object, s);
        Ok(())
    }
}

impl RionDeserialize for NestedObj {
    fn from_raw_byte(_b: u8) -> Option<Self> {
        None
    }

    fn deserialize(de: &mut Deserializer) -> Result<NestedObj, DeserializeError> {
        let mut sub = de.take_object_window()?;
        let mut obj = HashMap::new();
        loop {
            match sub.next_key()? {
                Some(name) => {
                    if name == "obj" {
                        let mut inner = sub.take_object_window()?;
                        while let Some(k) = inner.next_key()? {
                            let v = String::deserialize(&mut inner)?;
                            obj.insert(k, v);
                        }
                    } else {
                        return Err(DeserializeError::InvalidEnum);
                    }
                },
                None => break,
            }
        }
        Ok(NestedObj { obj })
    }
}

fn nested_objects_bytes() -> (NestedObj, Vec<u8>) {
    let mut inner = HashMap::new();
    inner.insert("key".to_string(), "value".to_string());
    let obj = NestedObj { obj: inner };
    let result = to_bytes(&obj).unwrap();
    (obj, result)
}

#[test]
fn tests_test_serialize_nested_objects() {
    let (obj, result) = nested_objects_bytes();
    assert_eq!(
        result,
        vec![
            0xC1, 0x10, // Object start
            0xE3, b'o', b'b', b'j', // Key "obj"
            0xC1, 0x0A, // Nested object start
            0xE3, b'k', b'e', b'y', // Key "key"
            0x65, b'v', b'a', b'l', b'u', b'e', // Value "value"
        ]
    );

    assert_eq!(from_bytes::<NestedObj>(&result).unwrap(), obj);
}

#[test]
fn serializer_test_serialize_nested_objects() {
    let (_, result) = nested_objects_bytes();
    assert_eq!(
        result,
        vec![
            0xC1, 0x10, // Object start
            0xE3, b'o', b'b', b'j', // Key "obj"
            0xC1, 0x0A, // Nested object start
            0xE3, b'k', b'e', b'y', // Key "key"
            0x65, b'v', b'a', b'l', b'u', b'e', // Value "value"
        ]
    );
}

#[derive(Debug, PartialEq)]
struct DeepNested {
    a: String,
    b: Option<Box<DeepNested>>,
}

impl RionSerialize for DeepNested {
    fn serialize(&self, s: &mut Serializer) -> Result<(), SerializeError> {
        let mut sized = SizedSerializer::new();
        sized.serialize_key_str("a")?;
        sized.serialize_value(&self.a)?;
        sized.serialize_key_str("b")?;
        match &self.b {
            None => sized.temp.write_null(),
            Some(inner) => (**inner).serialize(&mut sized.temp)?,
        }
        sized.finish(NormalRionType::Object, s);
        Ok(())
    }
}

impl RionDeserialize for DeepNested {
    fn from_raw_byte(_b: u8) -> Option<Self> {
        None
    }

    fn deserialize(de: &mut Deserializer) -> Result<DeepNested, DeserializeError> {
        let mut sub = de.take_object_window()?;
        let mut a = None;
        let mut b = None;
        while let Some(name) = sub.next_key()? {
            if name == "a" {
                a = Some(String::deserialize(&mut sub)?);
            } else if name == "b" {
                match sub.peek_lead() {
                    Some(lead) if lead.is_null() => {
                        sub.parse_field()?;
                        b = Some(None);
                    },
                    _ => {
                        b = Some(Some(Box::new(DeepNested::deserialize(&mut sub)?)));
                    },
                }
            } else {
                return Err(DeserializeError::InvalidEnum);
            }
        }
        match (a, b) {
            (Some(a), Some(b)) => Ok(DeepNested { a, b }),
            _ => Err(DeserializeError::EmptyInput),
        }
    }
}

fn build_deep_nested() -> DeepNested {
    let mut nest = DeepNested { a: "level 1".to_string(), b: None };
    for i in 0..250 {
        nest = DeepNested { a: format!("level {}", i + 1), b: Some(Box::new(nest)) };
    }
    nest
}

#[test]
fn tests_test_serialize_deeply_nested() {
    let nest = build_deep_nested();
    let result = to_bytes(&nest).unwrap();
    let decoded = from_bytes::<DeepNested>(&result).unwrap();
    assert_eq!(decoded, nest);
}

#[test]
fn serializer_test_serialize_deeply_nested() {
    let nest = build_deep_nested();
    let _result = to_bytes(&nest).unwrap();
}

#[derive(PartialEq, Eq, Debug)]
struct NestedObject {
    value: Option<Box<NestedObject>>,
    data: String,
}

#[test]
fn test_nested_object_serialization() {
    fn create_nested(depth: usize) -> NestedObject {
        if depth == 0 {
            NestedObject { value: None, data: "leaf".to_string() }
        } else {
            NestedObject {
                value: Some(Box::new(create_nested(depth - 1))),
                data: format!("level {}", depth),
            }
        }
    }

    for depth in 1..=100 {
        let obj = create_nested(depth);
        match to_bytes(&obj) {
            Ok(bytes) => match from_bytes::<NestedObject>(&bytes) {
                Ok(decoded) if decoded == obj => {},
                Ok(decoded) => panic!("Failed to deserialize depth {depth}: {decoded:?}"),
                Err(e) => {
                    panic!("Failed to deserialize depth {depth} with {obj:?}: {e:?} {bytes:x?}")
                },
            },
            Err(e) => panic!("Failed to serialize at depth {}: {:?}", depth, e),
        }
    }
}

impl RionSerialize for NestedObject {
    fn serialize(&self, s: &mut Serializer) -> Result<(), SerializeError> {
        let mut sized = SizedSerializer::new();
        sized.serialize_key_str("value")?;
        match &self.value {
            None => sized.temp.write_null(),
            Some(inner) => (**inner).serialize(&mut sized.temp)?,
        }
        sized.serialize_key_str("data")?;
        sized.serialize_value(&self.data)?;
        sized.finish(NormalRionType::Object, s);
        Ok(())
    }
}

impl RionDeserialize for NestedObject {
    fn from_raw_byte(_b: u8) -> Option<Self> {
        None
    }

    fn deserialize(de: &mut Deserializer) -> Result<NestedObject, DeserializeError> {
        let mut sub = de.take_object_window()?;
        let mut value = None;
        let mut data = None;
        while let Some(name) = sub.next_key()? {
            if name == "value" {
                match sub.peek_lead() {
                    Some(lead) if lead.is_null() => {
                        sub.parse_field()?;
                        value = Some(None);
                    },
                    _ => {
                        value = Some(Some(Box::new(NestedObject::deserialize(&mut sub)?)));
                    },
                }
            } else if name == "data" {
                data = Some(String::deserialize(&mut sub)?);
            } else {
                return Err(DeserializeError::InvalidEnum);
            }
        }
        match (value, data) {
            (Some(value), Some(data)) => Ok(NestedObject { value, data }),
            _ => Err(DeserializeError::EmptyInput),
        }
    }
}

#[test]
fn test_serialize_primitives() {
    let mut serializer = Serializer::new();

    // Booleans
    true.serialize(&mut serializer).unwrap();
    assert_eq!(serializer.output, vec![0x12]);
    serializer.output.clear();

    false.serialize(&mut serializer).unwrap();
    assert_eq!(serializer.output, vec![0x11]);
    serializer.output.clear();

    // Integers
    42u8.serialize(&mut serializer).unwrap();
    assert_eq!(serializer.output, vec![0x21, 42]);
    serializer.output.clear();

    1000u16.serialize(&mut serializer).unwrap();
    assert_eq!(serializer.output, vec![0x22, 0x03, 0xE8]);
    serializer.output.clear();

    (-42i8).serialize(&mut serializer).unwrap();
    assert_eq!(serializer.output, vec![0x31, 41]);
    serializer.output.clear();

    // Floats
    serializer.write_f32_bits(3.14f32.to_bits());
    assert_eq!(serializer.output, vec![0x44, 0x40, 0x48, 0xF5, 0xC3]);
    serializer.output.clear();

    serializer.write_f32_bits(0.0f32.to_bits());
    assert_eq!(serializer.output, vec![0x44, 0x00, 0x00, 0x00, 0x00]);
    serializer.output.clear();

    // Char
    'A'.serialize(&mut serializer).unwrap();
    assert_eq!(serializer.output, vec![0x61, 0x41]);
    serializer.output.clear();
}

#[test]
fn test_serialize_strings() {
    let mut serializer = Serializer::new();

    // Short string
    "Hello".serialize(&mut serializer).unwrap();
    assert_eq!(serializer.output, vec![0x65, b'H', b'e', b'l', b'l', b'o']);
    serializer.output.clear();

    // Longer string
    "This is a longer string that should use normal encoding"
        .serialize(&mut serializer)
        .unwrap();
    assert_eq!(serializer.output[0], 0x51); // Normal UTF8 type
    assert_eq!(
        &serializer.output[2..],
        b"This is a longer string that should use normal encoding"
    );
    serializer.output.clear();
}

#[test]
fn test_serialize_option() {
    let mut serializer = Serializer::new();

    // Some value
    Some(42u8).serialize(&mut serializer).unwrap();
    assert_eq!(serializer.output, vec![0x21, 42]);
    serializer.output.clear();

    // None value
    Option::<u8>::None.serialize(&mut serializer).unwrap();
    assert_eq!(serializer.output, vec![0x00]);
    serializer.output.clear();
}

struct TestStruct {
    field1: u8,
    field2: String,
}

impl RionSerialize for TestStruct {
    fn serialize(&self, s: &mut Serializer) -> Result<(), SerializeError> {
        let mut sized = SizedSerializer::new();
        sized.serialize_key_str("field1")?;
        sized.serialize_value(&self.field1)?;
        sized.serialize_key_str("field2")?;
        sized.serialize_value(&self.field2)?;
        sized.finish(NormalRionType::Object, s);
        Ok(())
    }
}

#[test]
fn test_serialize_struct() {
    let test_struct = TestStruct { field1: 42, field2: "test".to_string() };

    let output = to_bytes(&test_struct).unwrap();

    // Check that it's an object
    assert_eq!(output[0] & 0xF0, 0xC0);

    // Check for field1
    assert!(output
        .windows(9)
        .any(|window| { window == [0xE6, b'f', b'i', b'e', b'l', b'd', b'1', 0x21, 42] }));

    // Check for field2
    assert!(output.windows(12).any(|window| {
        window
            == [
                0xE6, b'f', b'i', b'e', b'l', b'd', b'2', 0x64, b't', b'e', b's', b't',
            ]
    }));
}

enum TestEnum {
    Unit,
    Tuple(u8, String),
    Struct { x: i32 },
}

impl RionSerialize for TestEnum {
    fn serialize(&self, s: &mut Serializer) -> Result<(), SerializeError> {
        match self {
            TestEnum::Unit => {
                s.write_str("Unit");
                Ok(())
            },
            TestEnum::Tuple(a, b) => {
                let mut sized = SizedSerializer::new();
                sized.serialize_key_str("Tuple")?;
                let mut arr = SizedSerializer::new();
                arr.serialize_value(a)?;
                arr.serialize_value(b)?;
                arr.finish(NormalRionType::Array, &mut sized.temp);
                sized.finish(NormalRionType::Object, s);
                Ok(())
            },
            TestEnum::Struct { x } => {
                let mut sized = SizedSerializer::new();
                sized.serialize_key_str("Struct")?;
                let mut inner = SizedSerializer::new();
                inner.serialize_key_str("x")?;
                inner.serialize_value(x)?;
                inner.finish(NormalRionType::Object, &mut sized.temp);
                sized.finish(NormalRionType::Object, s);
                Ok(())
            },
        }
    }
}

#[test]
fn test_serialize_enum() {
    // Unit variant
    let output = to_bytes(&TestEnum::Unit).unwrap();
    assert_eq!(output, vec![0x64, b'U', b'n', b'i', b't']);

    // Tuple variant
    let output = to_bytes(&TestEnum::Tuple(42, "test".to_string())).unwrap();
    assert_eq!(output[0] & 0xF0, 0xC0); // Object
    assert!(output
        .windows(7)
        .any(|window| { window == [0xE5, b'T', b'u', b'p', b'l', b'e', 0xA1] }));

    // Struct variant
    let output = to_bytes(&TestEnum::Struct { x: -10 }).unwrap();
    assert_eq!(output[0] & 0xF0, 0xC0); // Object
    assert!(output
        .windows(8)
        .any(|window| { window == [0xE6, b'S', b't', b'r', b'u', b'c', b't', 0xC1] }));
    assert!(output.windows(4).any(|window| { window == [0xE1, b'x', 0x31, 9] }));
}
