use binary_rw::serde::{variant_index, Deserializer, Serializer};
use binary_rw::{
    BinaryError, BinaryReader, BinaryWriter, Endian, MemoryStream, SeekStream, SliceStream,
};

fn written<F: FnOnce(&mut BinaryWriter<'_, MemoryStream>) -> Result<usize, BinaryError>>(
    endian: Endian,
    f: F,
) -> Vec<u8> {
    let mut stream = MemoryStream::new();
    let mut writer = BinaryWriter::new(&mut stream, endian);
    f(&mut writer).unwrap();
    stream.into()
}

#[test]
fn scalar_then_string_layout_big_endian() {
    let mut stream = MemoryStream::new();
    let mut writer = BinaryWriter::new(&mut stream, Endian::Big);
    assert_eq!(writer.write_u32(42).unwrap(), 4);
    assert_eq!(writer.write_string("foo").unwrap(), 3);
    let bytes: Vec<u8> = stream.into();
    assert_eq!(
        bytes,
        vec![0x00, 0x00, 0x00, 0x2A, 0, 0, 0, 0, 0, 0, 0, 3, 0x66, 0x6F, 0x6F]
    );

    let mut stream = SliceStream::new(&bytes);
    let mut reader = BinaryReader::new(&mut stream, Endian::Big);
    assert_eq!(reader.read_u32().unwrap(), 42);
    assert_eq!(reader.read_string().unwrap(), "foo");
    assert_eq!(reader.tell().unwrap(), 15);
}

#[test]
fn fixed_width_layouts_follow_the_byte_order() {
    assert_eq!(written(Endian::Big, |w| w.write_u16(0x0102)), vec![1, 2]);
    assert_eq!(written(Endian::Little, |w| w.write_u16(0x0102)), vec![2, 1]);
    assert_eq!(written(Endian::Little, |w| w.write_u32(42)), vec![42, 0, 0, 0]);
    assert_eq!(written(Endian::Big, |w| w.write_i32(-2)), vec![0xFF, 0xFF, 0xFF, 0xFE]);
    assert_eq!(
        written(Endian::Little, |w| w.write_u64(0x0102030405060708)),
        vec![8, 7, 6, 5, 4, 3, 2, 1]
    );
    assert_eq!(written(Endian::Big, |w| w.write_i8(-8)), vec![0xF8]);
    assert_eq!(written(Endian::Big, |w| w.write_char('x')), vec![0, 0, 0, 0x78]);
    assert_eq!(written(Endian::Big, |w| w.write_bool(true)), vec![1]);
    assert_eq!(written(Endian::Big, |w| w.write_bool(false)), vec![0]);
    assert_eq!(
        written(Endian::Big, |w| w.write_usize(1)),
        vec![0, 0, 0, 0, 0, 0, 0, 1]
    );
    assert_eq!(
        written(Endian::Little, |w| w.write_isize(-1)),
        vec![0xFF; 8]
    );
    assert_eq!(
        written(Endian::Big, |w| w.write_bytes_with_value(3, 0xAB)),
        vec![0xAB, 0xAB, 0xAB]
    );
}

#[test]
fn primitives_round_trip_in_both_orders() {
    for endian in [Endian::Big, Endian::Little] {
        let mut stream = MemoryStream::new();
        let mut writer = BinaryWriter::new(&mut stream, endian);
        writer.write_u8(u8::MAX).unwrap();
        writer.write_i8(i8::MIN).unwrap();
        writer.write_u16(u16::MAX - 1).unwrap();
        writer.write_i16(-16).unwrap();
        writer.write_u32(0xDEADBEEF).unwrap();
        writer.write_i32(i32::MIN).unwrap();
        writer.write_u64(u64::MAX).unwrap();
        writer.write_i64(-64).unwrap();
        writer.write_usize(usize::MAX).unwrap();
        writer.write_isize(isize::MIN).unwrap();
        writer.write_bool(true).unwrap();
        writer.write_char('\u{1D11E}').unwrap();

        let mut reader = BinaryReader::new(&mut stream, endian);
        reader.seek(0).unwrap();
        assert_eq!(reader.read_u8().unwrap(), u8::MAX);
        assert_eq!(reader.read_i8().unwrap(), i8::MIN);
        assert_eq!(reader.read_u16().unwrap(), u16::MAX - 1);
        assert_eq!(reader.read_i16().unwrap(), -16);
        assert_eq!(reader.read_u32().unwrap(), 0xDEADBEEF);
        assert_eq!(reader.read_i32().unwrap(), i32::MIN);
        assert_eq!(reader.read_u64().unwrap(), u64::MAX);
        assert_eq!(reader.read_i64().unwrap(), -64);
        assert_eq!(reader.read_usize().unwrap(), usize::MAX);
        assert_eq!(reader.read_isize().unwrap(), isize::MIN);
        assert!(reader.read_bool().unwrap());
        assert_eq!(reader.read_char().unwrap(), '\u{1D11E}');
        assert!(matches!(reader.read_u8(), Err(BinaryError::ReadPastEof)));
    }
}

#[test]
fn swapping_the_byte_order_mid_stream() {
    let mut stream = MemoryStream::new();
    let mut writer = BinaryWriter::new(&mut stream, Endian::Big);
    writer.write_u16(1).unwrap();
    writer.swap_endianness();
    assert_eq!(writer.endian, Endian::Little);
    writer.write_u16(1).unwrap();
    let bytes: Vec<u8> = stream.into();
    assert_eq!(bytes, vec![0, 1, 1, 0]);

    let mut stream = SliceStream::new(&bytes);
    let mut reader = BinaryReader::new(&mut stream, Endian::Big);
    assert_eq!(reader.read_u16().unwrap(), 1);
    reader.swap_endianness();
    assert_eq!(reader.read_u16().unwrap(), 1);
}

#[test]
fn any_nonzero_byte_reads_as_true() {
    let bytes = vec![7u8, 0];
    let mut stream = SliceStream::new(&bytes);
    let mut reader = BinaryReader::new(&mut stream, Endian::Big);
    assert!(reader.read_bool().unwrap());
    assert!(!reader.read_bool().unwrap());
}

#[test]
fn varint_layouts() {
    assert_eq!(written(Endian::Big, |w| w.write_7bit_encoded_u32(0)), vec![0]);
    assert_eq!(written(Endian::Big, |w| w.write_7bit_encoded_u32(127)), vec![0x7F]);
    assert_eq!(written(Endian::Big, |w| w.write_7bit_encoded_u32(128)), vec![0x80, 0x01]);
    assert_eq!(written(Endian::Big, |w| w.write_7bit_encoded_u32(300)), vec![0xAC, 0x02]);
    assert_eq!(
        written(Endian::Big, |w| w.write_7bit_encoded_u32(u32::MAX)),
        vec![0xFF, 0xFF, 0xFF, 0xFF, 0x0F]
    );
    assert_eq!(
        written(Endian::Big, |w| w.write_7bit_encoded_i32(-1)),
        vec![0xFF, 0xFF, 0xFF, 0xFF, 0x0F]
    );
    assert_eq!(
        written(Endian::Big, |w| w.write_7bit_encoded_usize(usize::MAX)).len(),
        (usize::BITS as usize + 6) / 7
    );
}

#[test]
fn varint_length_is_one_byte_per_started_group_of_seven_bits() {
    for v in [0u32, 1, 127, 128, 16383, 16384, 2097151, 2097152, 268435455, 268435456, u32::MAX] {
        let mut stream = MemoryStream::new();
        let mut writer = BinaryWriter::new(&mut stream, Endian::Big);
        let n = writer.write_7bit_encoded_u32(v).unwrap();
        let bits = 32 - v.leading_zeros() as usize;
        let expected = if v == 0 { 1 } else { (bits + 6) / 7 };
        assert_eq!(n, expected);
        let mut reader = BinaryReader::new(&mut stream, Endian::Big);
        reader.seek(0).unwrap();
        assert_eq!(reader.read_7bit_encoded_u32().unwrap(), v);
        assert_eq!(reader.tell().unwrap(), expected);
    }
}

#[test]
fn varint_round_trips_at_every_width() {
    let mut stream = MemoryStream::new();
    let mut writer = BinaryWriter::new(&mut stream, Endian::Little);
    writer.write_7bit_encoded_i32(i32::MIN).unwrap();
    writer.write_7bit_encoded_i32(-1).unwrap();
    writer.write_7bit_encoded_usize(usize::MAX).unwrap();
    writer.write_7bit_encoded_usize(0).unwrap();
    let mut reader = BinaryReader::new(&mut stream, Endian::Little);
    reader.seek(0).unwrap();
    assert_eq!(reader.read_7bit_encoded_i32().unwrap(), i32::MIN);
    assert_eq!(reader.read_7bit_encoded_i32().unwrap(), -1);
    assert_eq!(reader.read_7bit_encoded_usize().unwrap(), usize::MAX);
    assert_eq!(reader.read_7bit_encoded_usize().unwrap(), 0);
}

#[test]
fn varint_groups_past_the_width_are_dropped() {
    let bytes = vec![0x80, 0x80, 0x80, 0x80, 0x80, 0x01, 0x05];
    let mut stream = SliceStream::new(&bytes);
    let mut reader = BinaryReader::new(&mut stream, Endian::Big);
    assert_eq!(reader.read_7bit_encoded_u32().unwrap(), 0);
    assert_eq!(reader.tell().unwrap(), 6);
    assert_eq!(reader.read_7bit_encoded_u32().unwrap(), 5);
}

#[test]
fn varint_without_a_last_byte_runs_past_the_end() {
    let bytes = vec![0x80, 0xFF];
    let mut stream = SliceStream::new(&bytes);
    let mut reader = BinaryReader::new(&mut stream, Endian::Big);
    assert!(matches!(reader.read_7bit_encoded_u32(), Err(BinaryError::ReadPastEof)));
}

#[test]
fn strings_round_trip_with_either_length_prefix() {
    for s in ["", "foo", "h\u{e9}llo \u{2713} \u{1D11E}"] {
        let mut stream = MemoryStream::new();
        let mut writer = BinaryWriter::new(&mut stream, Endian::Little);
        assert_eq!(writer.write_string(s).unwrap(), s.len());
        assert_eq!(writer.write_7bit_encoded_len_string(s).unwrap(), s.len());
        let mut reader = BinaryReader::new(&mut stream, Endian::Little);
        reader.seek(0).unwrap();
        assert_eq!(reader.read_string().unwrap(), s);
        assert_eq!(reader.read_7bit_encoded_len_string().unwrap(), s);
        assert_eq!(reader.tell().unwrap(), 8 + s.len() + 1 + s.len());
    }
}

#[test]
fn seven_bit_length_string_layout() {
    assert_eq!(
        written(Endian::Big, |w| w.write_7bit_encoded_len_string("hi")),
        vec![2, b'h', b'i']
    );
    let long = "a".repeat(200);
    let bytes = written(Endian::Big, |w| w.write_7bit_encoded_len_string(&long));
    assert_eq!(&bytes[..2], &[0xC8, 0x01]);
    assert_eq!(bytes.len(), 202);
}

#[test]
fn invalid_utf8_is_refused() {
    let bytes = vec![0, 0, 0, 0, 0, 0, 0, 2, 0xC3, 0x28];
    let mut stream = SliceStream::new(&bytes);
    let mut reader = BinaryReader::new(&mut stream, Endian::Big);
    assert!(matches!(reader.read_string(), Err(BinaryError::InvalidUtf8)));

    let bytes = vec![1, 0xFF];
    let mut stream = SliceStream::new(&bytes);
    let mut reader = BinaryReader::new(&mut stream, Endian::Big);
    assert!(matches!(reader.read_7bit_encoded_len_string(), Err(BinaryError::InvalidUtf8)));
}

#[test]
fn string_longer_than_the_data_runs_past_the_end() {
    let bytes = vec![0, 0, 0, 0, 0, 0, 0, 9, b'a'];
    let mut stream = SliceStream::new(&bytes);
    let mut reader = BinaryReader::new(&mut stream, Endian::Big);
    assert!(matches!(reader.read_string(), Err(BinaryError::ReadPastEof)));
}

#[test]
fn invalid_code_point_is_refused() {
    let bytes = vec![0, 0, 0xD8, 0x00, 0x00, 0x11, 0x00, 0x00, 0, 0, 0, 0x78];
    let mut stream = SliceStream::new(&bytes);
    let mut reader = BinaryReader::new(&mut stream, Endian::Big);
    assert!(matches!(reader.read_char(), Err(BinaryError::InvalidChar)));
    assert!(matches!(reader.read_char(), Err(BinaryError::InvalidChar)));
    assert_eq!(reader.read_char().unwrap(), 'x');
}

#[test]
fn reading_past_the_end_fails_and_exactly_to_it_succeeds() {
    let mut stream = MemoryStream::from(vec![1u8, 2, 3]);
    let mut reader = BinaryReader::new(&mut stream, Endian::Big);
    assert!(matches!(reader.read_bytes(4), Err(BinaryError::ReadPastEof)));
    assert_eq!(reader.tell().unwrap(), 0);
    assert_eq!(reader.read_bytes(3).unwrap(), vec![1, 2, 3]);
    assert_eq!(reader.tell().unwrap(), 3);
    assert_eq!(reader.len().unwrap(), 3);
    assert!(matches!(reader.read_bytes(1), Err(BinaryError::ReadPastEof)));
    assert_eq!(reader.read_bytes(0).unwrap(), Vec::<u8>::new());
}

#[test]
fn rewriting_in_place_overwrites_without_growing() {
    let first: Vec<u8> = (0u8..12).collect();
    let second: Vec<u8> = (100u8..112).collect();
    let mut stream = MemoryStream::new();
    let mut writer = BinaryWriter::new(&mut stream, Endian::Big);
    writer.write_bytes(&first).unwrap();
    writer.seek(0).unwrap();
    writer.write_bytes(&second).unwrap();
    assert_eq!(writer.len().unwrap(), 12);
    let bytes: Vec<u8> = stream.into();
    assert_eq!(bytes, second);
}

#[test]
fn writing_past_the_end_fills_the_gap_with_zeros() {
    let mut stream = MemoryStream::from(vec![9u8]);
    stream.seek(4).unwrap();
    assert_eq!(stream.len().unwrap(), 1);
    let mut writer = BinaryWriter::new(&mut stream, Endian::Big);
    writer.write_u8(7).unwrap();
    let bytes: Vec<u8> = stream.into();
    assert_eq!(bytes, vec![9, 0, 0, 0, 7]);
}

#[test]
fn seek_then_tell_gives_the_position() {
    let mut stream = MemoryStream::new();
    assert_eq!(stream.seek(100).unwrap(), 100);
    assert_eq!(stream.tell().unwrap(), 100);
    assert_eq!(stream.len().unwrap(), 0);

    let bytes = vec![1u8, 2, 3, 4];
    let mut stream = SliceStream::new(&bytes);
    assert_eq!(stream.seek(2).unwrap(), 2);
    assert_eq!(stream.tell().unwrap(), 2);
    let mut reader = BinaryReader::new(&mut stream, Endian::Big);
    assert_eq!(reader.read_u16().unwrap(), 0x0304);
}

#[test]
fn option_none_is_one_zero_byte_and_some_is_tagged() {
    let mut stream = MemoryStream::new();
    let mut ser = Serializer::new(BinaryWriter::new(&mut stream, Endian::Big));
    ser.serialize_none().unwrap();
    let bytes: Vec<u8> = stream.into();
    assert_eq!(bytes, vec![0]);

    let mut stream = MemoryStream::new();
    let mut ser = Serializer::new(BinaryWriter::new(&mut stream, Endian::Big));
    ser.serialize_some().unwrap();
    ser.writer.write_u8(1).unwrap();
    let bytes: Vec<u8> = stream.into();
    assert_eq!(bytes, vec![1, 1]);

    let mut stream = SliceStream::new(&bytes);
    let mut de = Deserializer::new(BinaryReader::new(&mut stream, Endian::Big));
    assert!(de.deserialize_option().unwrap());
    assert_eq!(de.reader.read_u8().unwrap(), 1);
    let none = vec![0u8];
    let mut stream = SliceStream::new(&none);
    let mut de = Deserializer::new(BinaryReader::new(&mut stream, Endian::Big));
    assert!(!de.deserialize_option().unwrap());
}

#[derive(Debug, PartialEq, Default)]
struct Point {
    x: u32,
    y: u32,
}

#[test]
fn struct_is_a_counted_map_of_field_names() {
    let value = Point { x: 1, y: 2 };
    let mut stream = MemoryStream::new();
    let mut ser = Serializer::new(BinaryWriter::new(&mut stream, Endian::Big));
    ser.serialize_map(Some(2)).unwrap();
    ser.serialize_field_name("x").unwrap();
    ser.writer.write_u32(value.x).unwrap();
    ser.serialize_field_name("y").unwrap();
    ser.writer.write_u32(value.y).unwrap();
    let bytes: Vec<u8> = stream.into();
    assert_eq!(
        bytes,
        vec![
            0, 0, 0, 2, 0, 0, 0, 0, 0, 0, 0, 1, b'x', 0, 0, 0, 1, 0, 0, 0, 0, 0, 0, 0, 1, b'y', 0,
            0, 0, 2
        ]
    );

    let mut stream = SliceStream::new(&bytes);
    let mut de = Deserializer::new(BinaryReader::new(&mut stream, Endian::Big));
    let mut decoded = Point::default();
    let count = de.deserialize_count().unwrap();
    assert_eq!(count, 2);
    for _ in 0..count {
        match de.deserialize_variant(&["x", "y"]).unwrap() {
            0 => decoded.x = de.reader.read_u32().unwrap(),
            _ => decoded.y = de.reader.read_u32().unwrap(),
        }
    }
    assert_eq!(decoded, value);
}

#[test]
fn sequence_and_variant_framing() {
    let mut stream = MemoryStream::new();
    let mut ser = Serializer::new(BinaryWriter::new(&mut stream, Endian::Little));
    ser.serialize_seq(Some(3)).unwrap();
    ser.serialize_seq(None).unwrap();
    ser.serialize_unit().unwrap();
    ser.serialize_unit_variant("Unit").unwrap();
    ser.serialize_variant_name("NewType").unwrap();
    ser.writer.write_u32(1).unwrap();
    ser.serialize_variant_head("Tuple", 2).unwrap();
    let bytes: Vec<u8> = stream.into();
    let mut expected = vec![3, 0, 0, 0, 0, 0, 0, 0, 0];
    expected.extend_from_slice(&[4, 0, 0, 0, 0, 0, 0, 0]);
    expected.extend_from_slice(b"Unit");
    expected.push(0);
    expected.extend_from_slice(&[7, 0, 0, 0, 0, 0, 0, 0]);
    expected.extend_from_slice(b"NewType");
    expected.extend_from_slice(&[1, 0, 0, 0]);
    expected.extend_from_slice(&[5, 0, 0, 0, 0, 0, 0, 0]);
    expected.extend_from_slice(b"Tuple");
    expected.extend_from_slice(&[2, 0, 0, 0]);
    assert_eq!(bytes, expected);

    let variants = ["Unit", "NewType", "Tuple", "Struct"];
    let mut stream = SliceStream::new(&bytes);
    let mut de = Deserializer::new(BinaryReader::new(&mut stream, Endian::Little));
    assert_eq!(de.deserialize_count().unwrap(), 3);
    assert_eq!(de.deserialize_count().unwrap(), 0);
    de.deserialize_unit().unwrap();
    assert_eq!(de.deserialize_variant(&variants).unwrap(), 0);
    de.deserialize_unit().unwrap();
    assert_eq!(de.deserialize_variant(&variants).unwrap(), 1);
    assert_eq!(de.reader.read_u32().unwrap(), 1);
    assert_eq!(de.deserialize_variant(&variants).unwrap(), 2);
    assert_eq!(de.deserialize_count().unwrap(), 2);
}

#[test]
fn unknown_variant_name_is_refused() {
    let mut stream = MemoryStream::new();
    let mut ser = Serializer::new(BinaryWriter::new(&mut stream, Endian::Big));
    ser.serialize_variant_name("Other").unwrap();
    let bytes: Vec<u8> = stream.into();
    let mut stream = SliceStream::new(&bytes);
    let mut de = Deserializer::new(BinaryReader::new(&mut stream, Endian::Big));
    match de.deserialize_variant(&["Unit", "NewType"]) {
        Err(BinaryError::UnexpectedVariant(name)) => assert_eq!(name, "Other"),
        other => panic!("unexpected {:?}", other),
    }
}

#[test]
fn variant_index_finds_the_first_match() {
    assert_eq!(variant_index("b", &["a", "b", "b"]), Some(1));
    assert_eq!(variant_index("\u{e9}", &["e", "\u{e9}"]), Some(1));
    assert_eq!(variant_index("c", &["a", "b"]), None);
    assert_eq!(variant_index("", &[]), None);
}

#[test]
fn endian_defaults_to_big() {
    assert_eq!(Endian::default(), Endian::Big);
}
