use schematic::types::{DataType, DecodedValue, Endianness};

#[test]
fn sizes_and_names() {
    assert_eq!(DataType::U8.size(), 1);
    assert_eq!(DataType::I8.size(), 1);
    assert_eq!(DataType::U16.size(), 2);
    assert_eq!(DataType::I16.size(), 2);
    assert_eq!(DataType::U32.size(), 4);
    assert_eq!(DataType::I32.size(), 4);
    assert_eq!(DataType::F32.size(), 4);
    assert_eq!(DataType::U64.size(), 8);
    assert_eq!(DataType::I64.size(), 8);
    assert_eq!(DataType::F64.size(), 8);
    assert_eq!(DataType::U16.name(), "u16");
    assert_eq!(DataType::F64.name(), "f64");
}

#[test]
fn catalog_order_is_stable() {
    let all = DataType::all();
    assert_eq!(
        all,
        vec![
            DataType::U8,
            DataType::U16,
            DataType::U32,
            DataType::U64,
            DataType::I8,
            DataType::I16,
            DataType::I32,
            DataType::I64,
            DataType::F32,
            DataType::F64,
        ]
    );
    for (i, dt) in all.iter().enumerate() {
        assert_eq!(dt.canonical_index(), i);
    }
}

#[test]
fn unsigned_decoding_little_and_big() {
    let data = [0x01u8, 0x02, 0x03, 0x04, 0x05, 0x06, 0x07, 0x08];
    assert_eq!(
        DataType::U16.read_value(&data, 0, Endianness::Little),
        Some(DecodedValue::Unsigned(0x0201))
    );
    assert_eq!(
        DataType::U16.read_value(&data, 0, Endianness::Big),
        Some(DecodedValue::Unsigned(0x0102))
    );
    assert_eq!(
        DataType::U32.read_value(&data, 0, Endianness::Little),
        Some(DecodedValue::Unsigned(0x04030201))
    );
    assert_eq!(
        DataType::U32.read_value(&data, 0, Endianness::Big),
        Some(DecodedValue::Unsigned(0x01020304))
    );
    assert_eq!(
        DataType::U64.read_value(&data, 0, Endianness::Little),
        Some(DecodedValue::Unsigned(0x0807060504030201))
    );
    assert_eq!(
        DataType::U64.read_value(&data, 0, Endianness::Big),
        Some(DecodedValue::Unsigned(0x0102030405060708))
    );
}

#[test]
fn one_byte_types_ignore_endianness() {
    let data = [0xFFu8, 0x00];
    assert_eq!(
        DataType::U8.read_value(&data, 0, Endianness::Little),
        DataType::U8.read_value(&data, 0, Endianness::Big)
    );
    assert_eq!(
        DataType::I8.read_value(&data, 0, Endianness::Little),
        DataType::I8.read_value(&data, 0, Endianness::Big)
    );
    assert_eq!(
        DataType::I8.read_value(&data, 0, Endianness::Little),
        Some(DecodedValue::Signed(-1))
    );
    assert_eq!(
        DataType::U8.read_value(&data, 0, Endianness::Little),
        Some(DecodedValue::Unsigned(255))
    );
}

#[test]
fn big_endian_equals_little_endian_of_reversed_bytes() {
    let data = [0x12u8, 0x34, 0x56, 0x78];
    let reversed = [0x78u8, 0x56, 0x34, 0x12];
    assert_eq!(
        DataType::U32.read_value(&data, 0, Endianness::Big),
        DataType::U32.read_value(&reversed, 0, Endianness::Little)
    );
    assert_eq!(
        DataType::I32.read_value(&data, 0, Endianness::Big),
        DataType::I32.read_value(&reversed, 0, Endianness::Little)
    );
}

#[test]
fn signed_decoding_two_complement() {
    let data = [0x00u8, 0x80];
    assert_eq!(
        DataType::I16.read_value(&data, 0, Endianness::Little),
        Some(DecodedValue::Signed(-32768))
    );
    assert_eq!(
        DataType::I16.read_value(&data, 0, Endianness::Big),
        Some(DecodedValue::Signed(128))
    );
    let data = [0xFFu8, 0xFF, 0xFF, 0xFF, 0xFF, 0xFF, 0xFF, 0xFF];
    assert_eq!(
        DataType::I64.read_value(&data, 0, Endianness::Little),
        Some(DecodedValue::Signed(-1))
    );
    let data = [0x00u8, 0x00, 0x00, 0x00, 0x00, 0x00, 0x00, 0x80];
    assert_eq!(
        DataType::I64.read_value(&data, 0, Endianness::Little),
        Some(DecodedValue::Signed(i64::MIN))
    );
    let data = [0xFEu8, 0xFF, 0xFF, 0xFF];
    assert_eq!(
        DataType::I32.read_value(&data, 0, Endianness::Little),
        Some(DecodedValue::Signed(-2))
    );
}

#[test]
fn float_decoding_carries_bit_patterns() {
    let bytes = 1.0f32.to_le_bytes();
    let decoded = DataType::F32.read_value(&bytes, 0, Endianness::Little);
    assert_eq!(decoded, Some(DecodedValue::Float32Bits(0x3F80_0000)));
    if let Some(DecodedValue::Float32Bits(bits)) = decoded {
        assert_eq!(f32::from_bits(bits), 1.0f32);
    } else {
        panic!("expected a 32-bit float bit pattern");
    }
    let bytes = (-2.5f64).to_be_bytes();
    let decoded = DataType::F64.read_value(&bytes, 0, Endianness::Big);
    if let Some(DecodedValue::Float64Bits(bits)) = decoded {
        assert_eq!(f64::from_bits(bits), -2.5f64);
    } else {
        panic!("expected a 64-bit float bit pattern");
    }
}

#[test]
fn out_of_bounds_reads_fail() {
    let data = [0x01u8, 0x02, 0x03];
    assert_eq!(DataType::U32.read_value(&data, 0, Endianness::Little), None);
    assert_eq!(DataType::U16.read_value(&data, 2, Endianness::Little), None);
    assert_eq!(DataType::U8.read_value(&data, 3, Endianness::Little), None);
    assert_eq!(DataType::U8.read_value(&data, usize::MAX, Endianness::Little), None);
    assert_eq!(DataType::U64.read_value(&[], 0, Endianness::Big), None);
    // The widest read that still fits succeeds.
    assert!(DataType::U16.read_value(&data, 1, Endianness::Little).is_some());
}

#[test]
fn integer_values_render_as_decimal_text() {
    assert_eq!(DecodedValue::Unsigned(0).to_text(), Some(String::from("0")));
    assert_eq!(DecodedValue::Unsigned(513).to_text(), Some(String::from("513")));
    assert_eq!(
        DecodedValue::Unsigned(u64::MAX).to_text(),
        Some(String::from("18446744073709551615"))
    );
    assert_eq!(DecodedValue::Signed(-1).to_text(), Some(String::from("-1")));
    assert_eq!(DecodedValue::Signed(42).to_text(), Some(String::from("42")));
    assert_eq!(
        DecodedValue::Signed(i64::MIN).to_text(),
        Some(String::from("-9223372036854775808"))
    );
    assert_eq!(DecodedValue::Float32Bits(0x3F80_0000).to_text(), None);
    assert_eq!(DecodedValue::Float64Bits(0).to_text(), None);
}
