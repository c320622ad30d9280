use abi_bridge::codec::{decode, encode, stage, zeroed};
use abi_bridge::error::BridgeError;
use abi_bridge::exports::{cornucopia_type, foo_type, vector2_type, Cornucopia};
use abi_bridge::layout::layout_of;
use abi_bridge::types::{PrimitiveKind, TypeDescriptor};
use abi_bridge::value::Value;

fn encoded_alone(value: &Value, descriptor: &TypeDescriptor) -> Vec<u8> {
    let layout = layout_of(descriptor).unwrap();
    let mut buffer = zeroed(layout.size as usize);
    assert_eq!(encode(value, descriptor, &layout, &mut buffer, 0), Ok(()));
    buffer
}

fn decoded_alone(descriptor: &TypeDescriptor, bytes: &Vec<u8>) -> Value {
    let layout = layout_of(descriptor).unwrap();
    decode(descriptor, &layout, bytes, 0).unwrap()
}

fn primitive(kind: PrimitiveKind) -> TypeDescriptor {
    TypeDescriptor::primitive(kind)
}

fn foo_value(b: bool, inner: bool, x: f64, y: f64, n: u16) -> Value {
    let vector = Value::Struct(vec![Value::F64(x.to_bits()), Value::F64(y.to_bits())]);
    let baz = Value::Struct(vec![vector]);
    let bar = Value::Struct(vec![Value::Bool(inner), baz, Value::U16(n)]);
    Value::Struct(vec![Value::Bool(b), bar])
}

#[test]
fn zeroed_buffers_are_zero() {
    assert_eq!(zeroed(0), Vec::<u8>::new());
    assert_eq!(zeroed(3), vec![0, 0, 0]);
}

#[test]
fn primitives_are_encoded_in_little_endian() {
    assert_eq!(encoded_alone(&Value::Bool(true), &primitive(PrimitiveKind::Bool)), vec![1]);
    assert_eq!(encoded_alone(&Value::Bool(false), &primitive(PrimitiveKind::Bool)), vec![0]);
    assert_eq!(encoded_alone(&Value::U8(200), &primitive(PrimitiveKind::U8)), vec![200]);
    assert_eq!(encoded_alone(&Value::I16(-2), &primitive(PrimitiveKind::I16)), vec![0xfe, 0xff]);
    assert_eq!(encoded_alone(&Value::U16(0x1234), &primitive(PrimitiveKind::U16)), vec![0x34, 0x12]);
    assert_eq!(
        encoded_alone(&Value::I32(-5), &primitive(PrimitiveKind::I32)),
        vec![0xfb, 0xff, 0xff, 0xff]
    );
    assert_eq!(
        encoded_alone(&Value::U32(0x01020304), &primitive(PrimitiveKind::U32)),
        vec![4, 3, 2, 1]
    );
    assert_eq!(encoded_alone(&Value::I64(-1), &primitive(PrimitiveKind::I64)), vec![0xff; 8]);
    assert_eq!(
        encoded_alone(&Value::U64(0x0102030405060708), &primitive(PrimitiveKind::U64)),
        vec![8, 7, 6, 5, 4, 3, 2, 1]
    );
}

#[test]
fn floats_are_encoded_as_their_bit_patterns() {
    assert_eq!(
        encoded_alone(&Value::F64(2.5f64.to_bits()), &primitive(PrimitiveKind::F64)),
        vec![0, 0, 0, 0, 0, 0, 0x04, 0x40]
    );
    assert_eq!(
        encoded_alone(&Value::F32(1.0f32.to_bits()), &primitive(PrimitiveKind::F32)),
        vec![0, 0, 0x80, 0x3f]
    );
    let nan = f64::NAN.to_bits() | 7;
    let bytes = encoded_alone(&Value::F64(nan), &primitive(PrimitiveKind::F64));
    assert_eq!(decoded_alone(&primitive(PrimitiveKind::F64), &bytes), Value::F64(nan));
}

#[test]
fn a_struct_is_encoded_field_by_field_at_its_offsets() {
    let value = Cornucopia { b: true, n0: 1, n1: 2, n2: 3 }.to_value();
    assert_eq!(
        encoded_alone(&value, &cornucopia_type()),
        vec![1, 0, 1, 0, 2, 0, 0, 0, 3, 0, 0, 0, 0, 0, 0, 0]
    );
    let vector = Value::Struct(vec![Value::F64(3.0f64.to_bits()), Value::F64(4.0f64.to_bits())]);
    let mut expected = 3.0f64.to_le_bytes().to_vec();
    expected.extend_from_slice(&4.0f64.to_le_bytes());
    assert_eq!(encoded_alone(&vector, &vector2_type()), expected);
}

#[test]
fn encoding_leaves_padding_and_the_rest_of_the_buffer_untouched() {
    let descriptor = cornucopia_type();
    let layout = layout_of(&descriptor).unwrap();
    let value = Cornucopia { b: true, n0: -1, n1: 2, n2: 3 }.to_value();
    let mut buffer = vec![0xaa_u8; 24];
    assert_eq!(encode(&value, &descriptor, &layout, &mut buffer, 4), Ok(()));
    assert_eq!(
        buffer,
        vec![
            0xaa, 0xaa, 0xaa, 0xaa, 1, 0xaa, 0xff, 0xff, 2, 0xaa, 0xaa, 0xaa, 3, 0, 0, 0, 0, 0, 0,
            0, 0xaa, 0xaa, 0xaa, 0xaa
        ]
    );
}

#[test]
fn a_nested_struct_is_encoded_inside_its_parent() {
    let descriptor = foo_type();
    let bytes = encoded_alone(&foo_value(true, true, 3.0, 4.0, 0xbeef), &descriptor);
    assert_eq!(bytes.len(), 40);
    let mut expected = vec![0u8; 40];
    expected[0] = 1;
    expected[8] = 1;
    expected[16..24].copy_from_slice(&3.0f64.to_le_bytes());
    expected[24..32].copy_from_slice(&4.0f64.to_le_bytes());
    expected[32] = 0xef;
    expected[33] = 0xbe;
    assert_eq!(bytes, expected);
}

#[test]
fn decoding_gives_back_what_was_encoded() {
    let values = [
        (Value::Bool(true), primitive(PrimitiveKind::Bool)),
        (Value::U8(255), primitive(PrimitiveKind::U8)),
        (Value::I16(i16::MIN), primitive(PrimitiveKind::I16)),
        (Value::U16(u16::MAX), primitive(PrimitiveKind::U16)),
        (Value::I32(i32::MIN), primitive(PrimitiveKind::I32)),
        (Value::U32(u32::MAX), primitive(PrimitiveKind::U32)),
        (Value::I64(i64::MIN), primitive(PrimitiveKind::I64)),
        (Value::U64(u64::MAX), primitive(PrimitiveKind::U64)),
        (Value::F32((-0.0f32).to_bits()), primitive(PrimitiveKind::F32)),
        (Value::F64(f64::INFINITY.to_bits()), primitive(PrimitiveKind::F64)),
        (Cornucopia { b: false, n0: -300, n1: 7, n2: i64::MAX }.to_value(), cornucopia_type()),
        (foo_value(false, true, -1.5, 1e300, 65535), foo_type()),
    ];
    for (value, descriptor) in values.iter() {
        let layout = layout_of(descriptor).unwrap();
        let mut buffer = vec![0x5a_u8; layout.size as usize + 11];
        assert_eq!(encode(value, descriptor, &layout, &mut buffer, 3), Ok(()));
        assert_eq!(decode(descriptor, &layout, &buffer, 3).as_ref(), Ok(value));
    }
}

#[test]
fn encoding_what_was_decoded_changes_no_byte() {
    let descriptor = foo_type();
    let layout = layout_of(&descriptor).unwrap();
    let mut buffer: Vec<u8> = (0..48).map(|i| (i * 37 + 11) as u8).collect();
    buffer[4] = 1;
    buffer[12] = 0;
    let before = buffer.clone();
    let value = decode(&descriptor, &layout, &buffer, 4).unwrap();
    assert_eq!(encode(&value, &descriptor, &layout, &mut buffer, 4), Ok(()));
    assert_eq!(buffer, before);
}

#[test]
fn a_boolean_held_as_another_byte_is_true_and_is_written_back_as_1() {
    let descriptor = primitive(PrimitiveKind::Bool);
    let layout = layout_of(&descriptor).unwrap();
    let mut buffer = vec![2u8];
    let value = decode(&descriptor, &layout, &buffer, 0).unwrap();
    assert_eq!(value, Value::Bool(true));
    assert_eq!(encode(&value, &descriptor, &layout, &mut buffer, 0), Ok(()));
    assert_eq!(buffer, vec![1]);
}

#[test]
fn decoding_reads_the_fields_of_a_struct_at_their_offsets() {
    let mut bytes = vec![0u8; 16];
    bytes[0] = 1;
    bytes[1] = 0x77;
    bytes[2] = 0xfe;
    bytes[3] = 0xff;
    bytes[4] = 9;
    bytes[8] = 0xb3;
    bytes[9] = 0xff;
    for k in 10..16 {
        bytes[k] = 0xff;
    }
    let value = decoded_alone(&cornucopia_type(), &bytes);
    assert_eq!(
        Cornucopia::from_value(&value),
        Some(Cornucopia { b: true, n0: -2, n1: 9, n2: -77 })
    );
}

#[test]
fn a_layout_of_another_type_is_a_mismatch() {
    let descriptor = cornucopia_type();
    let other = layout_of(&vector2_type()).unwrap();
    let value = Cornucopia { b: true, n0: 1, n1: 2, n2: 3 }.to_value();
    let mut buffer = vec![7u8; 16];
    assert_eq!(
        encode(&value, &descriptor, &other, &mut buffer, 0),
        Err(BridgeError::LayoutMismatch)
    );
    assert_eq!(buffer, vec![7u8; 16]);
    assert_eq!(decode(&descriptor, &other, &buffer, 0), Err(BridgeError::LayoutMismatch));
    let mut shifted = layout_of(&descriptor).unwrap();
    shifted.fields[1].layout.offset = 1;
    assert_eq!(decode(&descriptor, &shifted, &buffer, 0), Err(BridgeError::LayoutMismatch));
}

#[test]
fn a_value_of_another_type_is_unsupported_and_nothing_is_written() {
    let descriptor = cornucopia_type();
    let layout = layout_of(&descriptor).unwrap();
    let mut buffer = vec![7u8; 16];
    let wrong = Value::Struct(vec![
        Value::Bool(true),
        Value::I16(1),
        Value::U8(2),
        Value::U64(3),
    ]);
    assert_eq!(
        encode(&wrong, &descriptor, &layout, &mut buffer, 0),
        Err(BridgeError::UnsupportedType)
    );
    assert_eq!(buffer, vec![7u8; 16]);
    let narrow = primitive(PrimitiveKind::U8);
    let narrow_layout = layout_of(&narrow).unwrap();
    assert_eq!(
        encode(&Value::I64(1), &narrow, &narrow_layout, &mut buffer, 0),
        Err(BridgeError::UnsupportedType)
    );
    assert_eq!(buffer, vec![7u8; 16]);
}

#[test]
fn a_value_that_does_not_fit_the_buffer_is_a_mismatch() {
    let descriptor = cornucopia_type();
    let layout = layout_of(&descriptor).unwrap();
    let value = Cornucopia { b: true, n0: 1, n1: 2, n2: 3 }.to_value();
    let mut buffer = vec![7u8; 16];
    assert_eq!(
        encode(&value, &descriptor, &layout, &mut buffer, 1),
        Err(BridgeError::LayoutMismatch)
    );
    assert_eq!(
        encode(&value, &descriptor, &layout, &mut buffer, 17),
        Err(BridgeError::LayoutMismatch)
    );
    assert_eq!(buffer, vec![7u8; 16]);
    assert_eq!(decode(&descriptor, &layout, &buffer, 1), Err(BridgeError::LayoutMismatch));
    assert_eq!(decode(&descriptor, &layout, &vec![0u8; 15], 0), Err(BridgeError::LayoutMismatch));
    assert!(decode(&descriptor, &layout, &buffer, 0).is_ok());
}

#[test]
fn an_unsupported_descriptor_is_refused_first() {
    let odd = TypeDescriptor::Primitive { kind: PrimitiveKind::I32, size: 2, align: 2 };
    let layout = layout_of(&primitive(PrimitiveKind::I32)).unwrap();
    let mut buffer = vec![0u8; 8];
    assert_eq!(
        encode(&Value::I32(1), &odd, &layout, &mut buffer, 0),
        Err(BridgeError::UnsupportedType)
    );
    assert_eq!(decode(&odd, &layout, &buffer, 0), Err(BridgeError::UnsupportedType));
}

#[test]
fn staging_encodes_into_a_zeroed_buffer_of_the_layouts_size() {
    let descriptor = cornucopia_type();
    let layout = layout_of(&descriptor).unwrap();
    let value = Cornucopia { b: false, n0: 1, n1: 2, n2: 3 }.to_value();
    assert_eq!(
        stage(&value, &descriptor, &layout),
        Ok(vec![0, 0, 1, 0, 2, 0, 0, 0, 3, 0, 0, 0, 0, 0, 0, 0])
    );
    assert_eq!(
        stage(&Value::U8(1), &descriptor, &layout),
        Err(BridgeError::UnsupportedType)
    );
}

#[test]
fn values_stand_as_numbers_in_the_width_of_their_kind() {
    assert_eq!(Value::Bool(true).to_raw(), 1);
    assert_eq!(Value::Bool(false).to_raw(), 0);
    assert_eq!(Value::U8(7).to_raw(), 7);
    assert_eq!(Value::I16(-1).to_raw(), 0xffff);
    assert_eq!(Value::I32(-5).to_raw(), 0xffff_fffb);
    assert_eq!(Value::I64(-1).to_raw(), u64::MAX);
    assert_eq!(Value::U64(9).to_raw(), 9);
    assert_eq!(Value::F64(2.5f64.to_bits()).to_raw(), 2.5f64.to_bits());
    assert_eq!(Value::F32(1.5f32.to_bits()).to_raw(), 1.5f32.to_bits() as u64);
    assert_eq!(Value::Struct(vec![]).to_raw(), 0);
}

#[test]
fn numbers_stand_for_values_by_their_low_bits() {
    assert_eq!(Value::from_raw(PrimitiveKind::Bool, 0), Value::Bool(false));
    assert_eq!(Value::from_raw(PrimitiveKind::Bool, 1), Value::Bool(true));
    assert_eq!(Value::from_raw(PrimitiveKind::Bool, 256), Value::Bool(true));
    assert_eq!(Value::from_raw(PrimitiveKind::U8, 0x1ff), Value::U8(0xff));
    assert_eq!(Value::from_raw(PrimitiveKind::I16, 0xffff), Value::I16(-1));
    assert_eq!(Value::from_raw(PrimitiveKind::U16, 0x1_0002), Value::U16(2));
    assert_eq!(Value::from_raw(PrimitiveKind::I32, 0xffff_fffb), Value::I32(-5));
    assert_eq!(Value::from_raw(PrimitiveKind::U32, u64::MAX), Value::U32(u32::MAX));
    assert_eq!(Value::from_raw(PrimitiveKind::I64, u64::MAX), Value::I64(-1));
    assert_eq!(Value::from_raw(PrimitiveKind::U64, 5), Value::U64(5));
    assert_eq!(
        Value::from_raw(PrimitiveKind::F64, 10.0f64.to_bits()),
        Value::F64(10.0f64.to_bits())
    );
    assert_eq!(
        Value::from_raw(PrimitiveKind::F32, 0.5f32.to_bits() as u64),
        Value::F32(0.5f32.to_bits())
    );
}

#[test]
fn values_conform_to_their_own_type_only() {
    assert!(Value::I64(1).conforms_to(&primitive(PrimitiveKind::I64)));
    assert!(!Value::I64(1).conforms_to(&primitive(PrimitiveKind::U64)));
    assert!(!Value::I64(1).conforms_to(&vector2_type()));
    let vector = Value::Struct(vec![Value::F64(0), Value::F64(0)]);
    assert!(vector.conforms_to(&vector2_type()));
    assert!(!vector.conforms_to(&primitive(PrimitiveKind::F64)));
    assert!(!Value::Struct(vec![Value::F64(0)]).conforms_to(&vector2_type()));
    assert!(!Value::Struct(vec![Value::F64(0), Value::F32(0)]).conforms_to(&vector2_type()));
    assert!(foo_value(true, false, 1.0, 2.0, 3).conforms_to(&foo_type()));
    assert_eq!(Value::I64(1).kind(), Some(PrimitiveKind::I64));
    assert_eq!(vector.kind(), None);
    assert_eq!(vector.clone(), vector);
}
