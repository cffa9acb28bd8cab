use szs_utils::binary::{get_u16, get_u32, get_u64, read, text_at, u24, AsciiString, Endian, VariableString, Vec2, Vec3};
use szs_utils::error::Error;

#[test]
fn u24_keeps_the_low_24_bits() {
    assert_eq!(u24::from_u32(0x12_3456).to_u32(), 0x12_3456);
    assert_eq!(u24::from_u32(0xAB12_3456).to_u32(), 0x12_3456);
    assert_eq!(u24::from_u32(0).to_u32(), 0);
    assert_eq!(u24::from_u32(u32::MAX).to_u32(), 0xFF_FFFF);
}

#[test]
fn numbers_are_big_endian() {
    let data = [0x12u8, 0x34, 0x56, 0x78, 0x9A, 0xBC, 0xDE, 0xF0, 0x01];
    assert_eq!(read::<u8>(&data, 8), Ok(0x01));
    assert_eq!(read::<i8>(&data, 4), Ok(0x9Au8 as i8));
    assert_eq!(read::<bool>(&data, 8), Ok(true));
    assert_eq!(read::<u16>(&data, 1), Ok(0x3456));
    assert_eq!(read::<i16>(&data, 4), Ok(0x9ABCu16 as i16));
    assert_eq!(read::<u32>(&data, 0), Ok(0x1234_5678));
    assert_eq!(read::<i32>(&data, 4), Ok(0x9ABC_DEF0u32 as i32));
    assert_eq!(read::<u64>(&data, 0), Ok(0x1234_5678_9ABC_DEF0));
    assert_eq!(read::<i64>(&data, 1), Ok(0x3456_789A_BCDE_F001));
    assert_eq!(get_u16(&data, 7), 0xF001);
    assert_eq!(get_u32(&data, 5), 0xBCDE_F001);
    assert_eq!(get_u64(&data, 1), 0x3456_789A_BCDE_F001);
    assert_eq!(read::<[u8; 3]>(&data, 6), Ok([0xDE, 0xF0, 0x01]));
    assert_eq!(read::<[u32; 2]>(&data, 0), Ok([0x1234_5678, 0x9ABC_DEF0]));
}

#[test]
fn reads_past_the_end_fail() {
    let data = [0u8; 4];
    assert_eq!(read::<u8>(&data, 4), Err(Error::OutOfBounds));
    assert_eq!(read::<u16>(&data, 3), Err(Error::OutOfBounds));
    assert_eq!(read::<u32>(&data, 1), Err(Error::OutOfBounds));
    assert_eq!(read::<u64>(&data, 0), Err(Error::OutOfBounds));
    assert_eq!(read::<u32>(&data, usize::MAX), Err(Error::OutOfBounds));
    assert_eq!(read::<[u32; 2]>(&data, 0), Err(Error::OutOfBounds));
    assert!(read::<Vec3>(&[0u8; 11], 0).is_err());
    assert!(read::<Vec2>(&[0u8; 7], 0).is_err());
}

#[test]
fn magic_strings() {
    assert_eq!(read::<String>(b"xxRKMD", 2), Ok("RKMD".to_string()));
    assert_eq!(read::<String>(b"RKM", 0), Err(Error::OutOfBounds));
    assert_eq!(read::<String>(b"\xff\xfeAB", 0), Err(Error::InvalidUtf8));
    assert_eq!(text_at(b"hello", 1, 4), Ok("ell".to_string()));
    assert_eq!(text_at(b"h\xc3\xa9", 0, 3), Ok("h\u{e9}".to_string()));
    assert_eq!(text_at(b"h\xc3\xa9", 0, 2), Err(Error::InvalidUtf8));
}

#[test]
fn length_prefixed_strings() {
    let data = b"\0\0\0\x05hello!";
    let s: VariableString = read(data, 4).unwrap();
    assert_eq!(s.string, "hello");
    assert_eq!(s.length, 5);
    assert!(read::<VariableString>(data, 3).is_err());
    assert_eq!(read::<VariableString>(b"\0\0\0\x09hello", 4).err().map(|_| ()), Some(()));
    assert!(matches!(read::<VariableString>(b"\0\0\0\x09hello", 4), Err(Error::OutOfBounds)));
    assert!(matches!(read::<VariableString>(b"\0\0\0\x01\xff", 4), Err(Error::InvalidUtf8)));
}

#[test]
fn zero_terminated_strings() {
    let a: AsciiString = read(b"ab\0cd\0", 3).unwrap();
    assert_eq!(a.string, "cd");
    assert_eq!(a.length, 2);
    let e: AsciiString = read(b"ab\0", 2).unwrap();
    assert_eq!(e.string, "");
    assert!(matches!(read::<AsciiString>(b"abc", 0), Err(Error::NoNullTerminator(0))));
    assert!(matches!(read::<AsciiString>(b"abc", 3), Err(Error::OutOfBounds)));
    assert!(matches!(read::<AsciiString>(b"\xff\0", 0), Err(Error::InvalidUtf8)));
}

#[test]
fn vectors_keep_bit_patterns() {
    let mut data = Vec::new();
    for f in [1.0f32, -2.5, 0.25] {
        data.extend_from_slice(&f.to_be_bytes());
    }
    let v: Vec3 = read(&data, 0).unwrap();
    assert_eq!(f32::from_bits(v.x), 1.0);
    assert_eq!(f32::from_bits(v.y), -2.5);
    assert_eq!(f32::from_bits(v.z), 0.25);
    let arr: [u8; 12] = data.clone().try_into().unwrap();
    assert_eq!(Vec3::raw_new(&arr), Ok(v));
    let w: Vec2 = read(&data, 4).unwrap();
    assert_eq!(f32::from_bits(w.x), -2.5);
    assert_eq!(f32::from_bits(w.y), 0.25);
    let arr: [u8; 8] = data[4..12].try_into().unwrap();
    assert_eq!(Vec2::raw_new(&arr), Ok(w));
}

#[test]
fn byte_order_names() {
    assert_eq!(Endian::Big.name(), "Big");
    assert_eq!(Endian::Little.name(), "Little");
}
