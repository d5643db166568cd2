use ferion::{
    from_bytes, to_bytes, Deserializer, DeserializeError, NormalRionType, RionField, RionObject,
    RionDeserialize, RionSerialize, SerializeError, Serializer, SizedSerializer,
};

fn deserialize_uint_case() {
    let data = vec![0x21, 0x0A]; // 10
    let value: u64 = from_bytes(&data).unwrap();
    assert_eq!(value, 10);
}

#[test]
fn tests_test_deserialize_uint() {
    deserialize_uint_case();
}

#[test]
fn deserializer_test_deserialize_uint() {
    deserialize_uint_case();
}

fn deserialize_string_case() {
    let data = vec![0xD1, 0x05, b'A', b'l', b'i', b'c', b'e'];
    let name: String = from_bytes(&data).unwrap();
    assert_eq!(name, "Alice");
}

#[test]
fn tests_test_deserialize_string() {
    deserialize_string_case();
}

#[test]
fn deserializer_test_deserialize_string() {
    deserialize_string_case();
}

fn deserialize_map_case() {
    let data = vec![
        0xC1, 0x0A, 0xE3, b'K', b'e', b'y', 0x65, b'V', b'a', b'l', b'u', b'e',
    ];
    let map = RionObject::from_slice(&data).unwrap();
    assert!(map.contains_key(b"Key"));
    assert_eq!(map.fields[0].1.as_str(), Some("Value".to_string()));
}

#[test]
fn tests_test_deserialize_map() {
    deserialize_map_case();
}

#[test]
fn deserializer_test_deserialize_map() {
    deserialize_map_case();
}

fn deserialize_integers_case() {
    let data = vec![0x21, 0x7F]; // 127 (i8 max)
    let value: u8 = from_bytes(&data).unwrap();
    assert_eq!(value, 127);

    let data = vec![0x31, 0x7F]; // -128 (i8 min)
    let value: i8 = from_bytes(&data).unwrap();
    assert_eq!(value, i8::MIN);

    let data = vec![0x22, 0x7F, 0xFF]; // 32767 (i16 max)
    let value: i16 = from_bytes(&data).unwrap();
    assert_eq!(value, 32767);

    let data = vec![0x24, 0x7F, 0xFF, 0xFF, 0xFF]; // 2147483647 (i32 max)
    let value: i32 = from_bytes(&data).unwrap();
    assert_eq!(value, 2147483647);
}

#[test]
fn tests_test_deserialize_integers() {
    deserialize_integers_case();
}

#[test]
fn deserializer_test_deserialize_integers() {
    deserialize_integers_case();
}

fn deserialize_float_case() {
    let data = vec![0x44, 0x40, 0x48, 0xF5, 0xC3]; // 3.14 (f32)
    let field = RionField::from_slice(&data).unwrap();
    let bits = match &field {
        RionField::Short(sf) => sf.as_f32_bits().unwrap(),
        _ => panic!("Expected a short float field"),
    };
    let value = f32::from_bits(bits);
    assert!((value - 3.14).abs() < f32::EPSILON);

    let data = vec![0x48, 0x40, 0x09, 0x21, 0xFB, 0x54, 0x44, 0x2D, 0x11]; // 3.14159265358979 (f64)
    let field = RionField::from_slice(&data).unwrap();
    let bits = match &field {
        RionField::Short(sf) => sf.as_f64_bits().unwrap(),
        _ => panic!("Expected a short float field"),
    };
    let value = f64::from_bits(bits);
    assert!((value - 3.14159265358979).abs() < f64::EPSILON);
}

#[test]
fn tests_test_deserialize_float() {
    deserialize_float_case();
}

#[test]
fn deserializer_test_deserialize_float() {
    deserialize_float_case();
}

fn deserialize_char_case() {
    let data = vec![0x61, b'A'];
    let value: char = from_bytes(&data).unwrap();
    assert_eq!(value, 'A');
}

#[test]
fn tests_test_deserialize_char() {
    deserialize_char_case();
}

#[test]
fn deserializer_test_deserialize_char() {
    deserialize_char_case();
}

fn deserialize_option_case() {
    let data = vec![0x00]; // null
    let value: Option<u32> = from_bytes(&data).unwrap();
    assert_eq!(value, None);

    let data = vec![0x21, 0x0A]; // Some(10)
    let value: Option<u32> = from_bytes(&data).unwrap();
    assert_eq!(value, Some(10));
}

#[test]
fn tests_test_deserialize_option() {
    deserialize_option_case();
}

#[test]
fn deserializer_test_deserialize_option() {
    deserialize_option_case();
}

struct Test {
    name: String,
    #[allow(dead_code)]
    age: u32,
}

impl RionDeserialize for Test {
    fn from_raw_byte(_b: u8) -> Option<Self> {
        None
    }

    fn deserialize(de: &mut Deserializer) -> Result<Test, DeserializeError> {
        let mut sub = de.take_object_window()?;
        let mut name = None;
        let mut age = None;
        while let Some(key) = sub.next_key()? {
            if key == "name" {
                name = Some(String::deserialize(&mut sub)?);
            } else if key == "age" {
                age = Some(u32::deserialize(&mut sub)?);
            } else {
                return Err(DeserializeError::InvalidEnum);
            }
        }
        match (name, age) {
            (Some(name), Some(age)) => Ok(Test { name, age }),
            _ => Err(DeserializeError::EmptyInput),
        }
    }
}

fn deserialize_struct_case() {
    let data = vec![
        0xC1, 0x11, // Start of object
        0xE4, b'n', b'a', b'm', b'e', 0x65, b'A', b'l', b'i', b'c', b'e', // name: "Alice"
        0xE3, b'a', b'g', b'e', 0x21, 0x1E, // age: 30
    ];
    let value: Test = from_bytes(&data).unwrap();
    assert_eq!(value.name, "Alice");
}

#[test]
fn tests_test_deserialize_struct() {
    deserialize_struct_case();
}

#[test]
fn deserializer_test_deserialize_struct() {
    deserialize_struct_case();
}

#[derive(Debug, PartialEq)]
struct Address {
    street: String,
    city: String,
}

#[derive(Debug, PartialEq)]
struct User {
    name: String,
    age: u32,
    address: Address,
}

impl RionDeserialize for Address {
    fn from_raw_byte(_b: u8) -> Option<Self> {
        None
    }

    fn deserialize(de: &mut Deserializer) -> Result<Address, DeserializeError> {
        let mut sub = de.take_object_window()?;
        let mut street = None;
        let mut city = None;
        while let Some(key) = sub.next_key()? {
            if key == "street" {
                street = Some(String::deserialize(&mut sub)?);
            } else if key == "city" {
                city = Some(String::deserialize(&mut sub)?);
            } else {
                return Err(DeserializeError::InvalidEnum);
            }
        }
        match (street, city) {
            (Some(street), Some(city)) => Ok(Address { street, city }),
            _ => Err(DeserializeError::EmptyInput),
        }
    }
}

impl RionDeserialize for User {
    fn from_raw_byte(_b: u8) -> Option<Self> {
        None
    }

    fn deserialize(de: &mut Deserializer) -> Result<User, DeserializeError> {
        let mut sub = de.take_object_window()?;
        let mut name = None;
        let mut age = None;
        let mut address = None;
        while let Some(key) = sub.next_key()? {
            if key == "name" {
                name = Some(String::deserialize(&mut sub)?);
            } else if key == "age" {
                age = Some(u32::deserialize(&mut sub)?);
            } else if key == "address" {
                address = Some(Address::deserialize(&mut sub)?);
            } else {
                return Err(DeserializeError::InvalidEnum);
            }
        }
        match (name, age, address) {
            (Some(name), Some(age), Some(address)) => Ok(User { name, age, address }),
            _ => Err(DeserializeError::EmptyInput),
        }
    }
}

fn deserialize_nested_struct_case() {
    let data = vec![
        0xC1, 0x35, // Start of object
        0xE4, b'n', b'a', b'm', b'e', 0x65, b'A', b'l', b'i', b'c', b'e', // name: "Alice"
        0xE3, b'a', b'g', b'e', 0x21, 0x1E, // age: 30
        0xE7, b'a', b'd', b'd', b'r', b'e', b's', b's', 0xC1, 0x1A, // address: { ... }
        0xE6, b's', b't', b'r', b'e', b'e', b't', 0x68, b'1', b'2', b'3', b' ', b'M', b'a', b'i',
        b'n', // street: "123 Main"
        0xE4, b'c', b'i', b't', b'y', 0x64, b'S', b'o', b'm', b'e', // city: "Some"
    ];
    let value: User = from_bytes(&data).unwrap();
    assert_eq!(value.name, "Alice");
    assert_eq!(value.age, 30);
    assert_eq!(value.address.street, "123 Main");
    assert_eq!(value.address.city, "Some");
}

#[test]
fn tests_test_deserialize_nested_struct() {
    deserialize_nested_struct_case();
}

#[test]
fn deserializer_test_deserialize_nested_struct() {
    deserialize_nested_struct_case();
}

fn deserialize_tuple_case() {
    let data = vec![0xA1, 0x04, 0x21, 0x0A, 0x61, b'A']; // (10, 'A')
    let value: (u8, char) = from_bytes(&data).unwrap();
    assert_eq!(value, (10, 'A'));
}

#[test]
fn tests_test_deserialize_tuple() {
    deserialize_tuple_case();
}

#[test]
fn deserializer_test_deserialize_tuple() {
    deserialize_tuple_case();
}

fn deserialize_bytes_case() {
    let data = vec![0x01, 0x05, 0x01, 0x02, 0x03, 0x04, 0x05];
    let value: Vec<u8> = from_bytes(&data).unwrap();
    assert_eq!(value, vec![1, 2, 3, 4, 5]);
}

#[test]
fn tests_test_deserialize_bytes() {
    deserialize_bytes_case();
}

#[test]
fn deserializer_test_deserialize_bytes() {
    deserialize_bytes_case();
}

#[test]
fn test_deserialize_null_option() {
    let data = vec![0x50];
    let result: Option<String> = from_bytes(&data).unwrap();
    assert_eq!(result, None);
}

#[test]
fn test_deserialize_some_option() {
    let data = vec![0xE5, b'A', b'l', b'i', b'c', b'e'];
    let result: Option<String> = from_bytes(&data).unwrap();
    assert_eq!(result, Some("Alice".to_string()));
}

#[test]
fn test_deserialize_wrong_option() {
    let data = vec![0xE5, b'A', b'l', b'i', b'c', b'e'];
    let result: Result<Option<i32>, _> = from_bytes(&data);
    assert!(result.is_err())
}

#[derive(Debug, PartialEq)]
struct NumbersStruct {
    u8: u8,
    u16: u16,
    u32: u32,
    u64: u64,
    i8: i8,
    i16: i16,
    i32: i32,
    i64: i64,
    f32: f32,
    f64: f64,
}

impl RionSerialize for NumbersStruct {
    fn serialize(&self, s: &mut Serializer) -> Result<(), SerializeError> {
        let mut sized = SizedSerializer::new();
        sized.serialize_key_str("u8")?;
        sized.serialize_value(&self.u8)?;
        sized.serialize_key_str("u16")?;
        sized.serialize_value(&self.u16)?;
        sized.serialize_key_str("u32")?;
        sized.serialize_value(&self.u32)?;
        sized.serialize_key_str("u64")?;
        sized.serialize_value(&self.u64)?;
        sized.serialize_key_str("i8")?;
        sized.serialize_value(&self.i8)?;
        sized.serialize_key_str("i16")?;
        sized.serialize_value(&self.i16)?;
        sized.serialize_key_str("i32")?;
        sized.serialize_value(&self.i32)?;
        sized.serialize_key_str("i64")?;
        sized.serialize_value(&self.i64)?;
        sized.serialize_key_str("f32")?;
        sized.temp.write_f32_bits(self.f32.to_bits());
        sized.serialize_key_str("f64")?;
        sized.temp.write_f64_bits(self.f64.to_bits());
        sized.finish(NormalRionType::Object, s);
        Ok(())
    }
}

fn read_f32(de: &mut Deserializer) -> Result<f32, DeserializeError> {
    match de.parse_field()? {
        RionField::Short(sf) => match sf.as_f32_bits() {
            Some(bits) => Ok(f32::from_bits(bits)),
            None => Err(DeserializeError::IntegerOutOfRange),
        },
        _ => Err(DeserializeError::IntegerOutOfRange),
    }
}

fn read_f64(de: &mut Deserializer) -> Result<f64, DeserializeError> {
    match de.parse_field()? {
        RionField::Short(sf) => match sf.as_f64_bits() {
            Some(bits) => Ok(f64::from_bits(bits)),
            None => Err(DeserializeError::IntegerOutOfRange),
        },
        _ => Err(DeserializeError::IntegerOutOfRange),
    }
}

impl RionDeserialize for NumbersStruct {
    fn from_raw_byte(_b: u8) -> Option<Self> {
        None
    }

    fn deserialize(de: &mut Deserializer) -> Result<NumbersStruct, DeserializeError> {
        let mut sub = de.take_object_window()?;
        let mut out = NumbersStruct {
            u8: 0,
            u16: 0,
            u32: 0,
            u64: 0,
            i8: 0,
            i16: 0,
            i32: 0,
            i64: 0,
            f32: 0.0,
            f64: 0.0,
        };
        while let Some(key) = sub.next_key()? {
            match key.as_str() {
                "u8" => out.u8 = u8::deserialize(&mut sub)?,
                "u16" => out.u16 = u16::deserialize(&mut sub)?,
                "u32" => out.u32 = u32::deserialize(&mut sub)?,
                "u64" => out.u64 = u64::deserialize(&mut sub)?,
                "i8" => out.i8 = i8::deserialize(&mut sub)?,
                "i16" => out.i16 = i16::deserialize(&mut sub)?,
                "i32" => out.i32 = i32::deserialize(&mut sub)?,
                "i64" => out.i64 = i64::deserialize(&mut sub)?,
                "f32" => out.f32 = read_f32(&mut sub)?,
                "f64" => out.f64 = read_f64(&mut sub)?,
                _ => return Err(DeserializeError::InvalidEnum),
            }
        }
        Ok(out)
    }
}

#[test]
fn test_numbers() {
    let original = NumbersStruct {
        u8: u8::MAX,
        u16: u16::MAX,
        u32: u32::MAX,
        u64: u64::MAX,
        i8: i8::MIN,
        i16: i16::MIN,
        i32: i32::MIN,
        i64: i64::MIN,
        f32: 1.0,
        f64: 1.0,
    };

    let serialized = to_bytes(&original).unwrap();
    let deserialized: NumbersStruct = from_bytes(&serialized).unwrap();

    assert_eq!(original, deserialized);
}

#[derive(Debug, PartialEq)]
enum EnumVariants {
    Unit,
    Tuple(u64),
    Struct { arg: u64 },
}

impl RionSerialize for EnumVariants {
    fn serialize(&self, s: &mut Serializer) -> Result<(), SerializeError> {
        match self {
            EnumVariants::Unit => {
                s.write_str("Unit");
                Ok(())
            },
            EnumVariants::Tuple(v) => s.serialize_entry("Tuple", v),
            EnumVariants::Struct { arg } => {
                let mut sized = SizedSerializer::new();
                sized.serialize_key_str("Struct")?;
                let mut inner = SizedSerializer::new();
                inner.serialize_key_str("arg")?;
                inner.serialize_value(arg)?;
                inner.finish(NormalRionType::Object, &mut sized.temp);
                sized.finish(NormalRionType::Object, s);
                Ok(())
            },
        }
    }
}

impl RionDeserialize for EnumVariants {
    fn from_raw_byte(_b: u8) -> Option<Self> {
        None
    }

    fn deserialize(de: &mut Deserializer) -> Result<EnumVariants, DeserializeError> {
        let is_label = match de.peek_lead() {
            Some(lead) => lead.field_type().is_label(),
            None => return Err(DeserializeError::EmptyInput),
        };
        if is_label {
            let label = de.read_label()?;
            return match label.as_str() {
                "Unit" => Ok(EnumVariants::Unit),
                _ => Err(DeserializeError::InvalidEnum),
            };
        }
        let mut sub = de.take_object_window()?;
        let variant = sub.read_label()?;
        let out = match variant.as_str() {
            "Tuple" => EnumVariants::Tuple(u64::deserialize(&mut sub)?),
            "Struct" => {
                let mut inner = sub.take_object_window()?;
                let mut arg = None;
                while let Some(key) = inner.next_key()? {
                    if key == "arg" {
                        arg = Some(u64::deserialize(&mut inner)?);
                    } else {
                        return Err(DeserializeError::InvalidEnum);
                    }
                }
                match arg {
                    Some(arg) => EnumVariants::Struct { arg },
                    None => return Err(DeserializeError::InvalidEnum),
                }
            },
            _ => return Err(DeserializeError::InvalidEnum),
        };
        Ok(out)
    }
}

#[test]
fn test_enums() {
    let variants = vec![
        EnumVariants::Unit,
        EnumVariants::Tuple(42),
        EnumVariants::Struct { arg: 100 },
    ];

    for variant in variants {
        let serialized = to_bytes(&variant).unwrap();
        println!("{variant:?} : {:x?}", serialized);
        let deserialized: EnumVariants = match from_bytes(&serialized) {
            Ok(v) => v,
            Err(e) => {
                panic!("{e:?}");
            },
        };
        assert_eq!(variant, deserialized);
    }
}

#[test]
fn test_option() {
    let some_value = Some(42u64);
    let none_value: Option<u64> = None;

    let serialized_some = to_bytes(&some_value).unwrap();
    let deserialized_some: Option<u64> = from_bytes(&serialized_some).unwrap();
    assert_eq!(some_value, deserialized_some);

    let serialized_none = to_bytes(&none_value).unwrap();
    let deserialized_none: Option<u64> = from_bytes(&serialized_none).unwrap();
    assert_eq!(none_value, deserialized_none);
}

#[test]
fn test_vectors() {
    let vec_u64: Vec<u64> = vec![1, 2, 3, 4];
    let vec_string = vec!["hello".to_string(), "world".to_string()];

    let serialized_u64 = to_bytes(&vec_u64).unwrap();
    let deserialized_u64: Vec<u64> = from_bytes(&serialized_u64).unwrap();
    assert_eq!(vec_u64, deserialized_u64);

    let serialized_string = to_bytes(&vec_string).unwrap();
    let deserialized_string: Vec<String> = from_bytes(&serialized_string).unwrap();
    assert_eq!(vec_string, deserialized_string);
}

#[derive(Debug, PartialEq)]
struct NestedStruct {
    field1: u32,
    field2: String,
    field3: Vec<EnumVariants>,
}

impl RionSerialize for NestedStruct {
    fn serialize(&self, s: &mut Serializer) -> Result<(), SerializeError> {
        let mut sized = SizedSerializer::new();
        sized.serialize_key_str("field1")?;
        sized.serialize_value(&self.field1)?;
        sized.serialize_key_str("field2")?;
        sized.serialize_value(&self.field2)?;
        sized.serialize_key_str("field3")?;
        sized.serialize_value(&self.field3)?;
        sized.finish(NormalRionType::Object, s);
        Ok(())
    }
}

impl RionDeserialize for NestedStruct {
    fn from_raw_byte(_b: u8) -> Option<Self> {
        None
    }

    fn deserialize(de: &mut Deserializer) -> Result<NestedStruct, DeserializeError> {
        let mut sub = de.take_object_window()?;
        let mut field1 = None;
        let mut field2 = None;
        let mut field3 = None;
        while let Some(key) = sub.next_key()? {
            match key.as_str() {
                "field1" => field1 = Some(u32::deserialize(&mut sub)?),
                "field2" => field2 = Some(String::deserialize(&mut sub)?),
                "field3" => field3 = Some(Vec::<EnumVariants>::deserialize(&mut sub)?),
                _ => return Err(DeserializeError::InvalidEnum),
            }
        }
        match (field1, field2, field3) {
            (Some(field1), Some(field2), Some(field3)) => {
                Ok(NestedStruct { field1, field2, field3 })
            },
            _ => Err(DeserializeError::EmptyInput),
        }
    }
}

#[test]
fn test_nested_structures() {
    let nested = NestedStruct {
        field1: 42,
        field2: "Hello, world!".to_string(),
        field3: vec![
            EnumVariants::Unit,
            EnumVariants::Tuple(100),
            EnumVariants::Struct { arg: 200 },
        ],
    };

    let serialized = to_bytes(&nested).unwrap();
    let deserialized: NestedStruct = from_bytes(&serialized).unwrap();

    assert_eq!(nested, deserialized);
}
