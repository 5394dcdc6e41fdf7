use amplify_num::u1024;
use amplify_num::u256;
use amplify_num::u512;
use regval::Value;

#[test]
fn unsigned_native_round_trips() {
    for x in [0u8, 1, 0x7f, 0xff] {
        assert_eq!(Value::from_u8(x).to_u8(), x);
    }
    for x in [0u16, 1, 378, 0xffff] {
        assert_eq!(Value::from_u16(x).to_u16(), x);
    }
    for x in [0u32, 1, 0xdead_beef, u32::MAX] {
        assert_eq!(Value::from_u32(x).to_u32(), x);
    }
    for x in [0u64, 1, 0xdead_beef_0bad_cafe, u64::MAX] {
        assert_eq!(Value::from_u64(x).to_u64(), x);
    }
    for x in [0u128, 1, u128::from(u64::MAX) + 17, u128::MAX] {
        assert_eq!(Value::from_u128(x).to_u128(), x);
    }
}

#[test]
fn signed_native_round_trips() {
    for x in [0i8, 1, -1, i8::MIN, i8::MAX] {
        assert_eq!(Value::from_i8(x).to_i8(), x);
    }
    for x in [0i16, 1, -1, i16::MIN, i16::MAX] {
        assert_eq!(Value::from_i16(x).to_i16(), x);
    }
    for x in [0i32, 1, -1, i32::MIN, i32::MAX] {
        assert_eq!(Value::from_i32(x).to_i32(), x);
    }
    for x in [0i64, 1, -1, i64::MIN, i64::MAX] {
        assert_eq!(Value::from_i64(x).to_i64(), x);
    }
    for x in [0i128, 1, -1, i128::MIN, i128::MAX] {
        assert_eq!(Value::from_i128(x).to_i128(), x);
    }
}

#[test]
fn native_encodings_are_little_endian() {
    let v = Value::from_u32(0x0403_0201);
    assert_eq!(v.len, 4);
    assert_eq!(v.to_bytes(4), vec![1, 2, 3, 4]);
    let n = Value::from_i16(-2);
    assert_eq!(n.to_bytes(2), vec![0xfe, 0xff]);
}

#[test]
fn array_round_trips() {
    for b in [
        vec![],
        vec![42u8],
        vec![1, 2, 3, 4, 5],
        vec![0xff; 20],
        vec![7; 1024],
    ] {
        let v = Value::with(&b);
        assert_eq!(v.to_bytes(b.len()), b);
        assert_eq!(v.len as usize, b.len());
    }
}

#[test]
fn truncation_is_low_order_bytes() {
    let v = Value::with(&[1, 2, 3, 4, 5]);
    assert_eq!(v.to_bytes(3), vec![1, 2, 3]);
    assert_eq!(v.to_bytes(0), vec![]);
    assert_eq!(v.to_u16(), 0x0201);
    assert_eq!(v.to_u8(), 1);
    assert_eq!(v.to_bytes(8), vec![1, 2, 3, 4, 5, 0, 0, 0]);
}

#[test]
fn truncation_ignores_dirty_bytes() {
    let mut v = Value::with(&[0x11]);
    v.bytes[1] = 0xee;
    assert_eq!(v.to_u16(), 0x0011);
    assert_eq!(v.to_bytes(2), vec![0x11, 0]);
}

#[test]
fn wide_integer_round_trips() {
    let mut a32 = [0u8; 32];
    for (i, b) in a32.iter_mut().enumerate() {
        *b = i as u8;
    }
    let x = u256::from_le_bytes(a32);
    let v = Value::from_u256(x);
    assert_eq!(v.len, 32);
    assert_eq!(v.to_bytes(32), a32.to_vec());
    assert_eq!(v.to_u256(), x);

    let mut a64 = [0u8; 64];
    a64[0] = 0xaa;
    a64[63] = 0xbb;
    let y = u512::from_le_bytes(a64);
    assert_eq!(Value::from_u512(y).to_u512(), y);

    let mut a128 = [0u8; 128];
    a128[127] = 1;
    let z = u1024::from_le_bytes(a128);
    let w = Value::from_u1024(z);
    assert_eq!(w.len, 128);
    assert_eq!(w.to_u1024(), z);
}

#[test]
fn to_u1024_truncates_overlong_values() {
    let mut long = Value::with(&[0u8; 200]);
    long.bytes[0] = 9;
    long.bytes[130] = 0xcc;
    let z = long.to_u1024();
    let mut expected = [0u8; 128];
    expected[0] = 9;
    assert_eq!(z, u1024::from_le_bytes(expected));
}

#[test]
fn hex_round_trips_through_display() {
    for b in [
        vec![],
        vec![0u8],
        vec![0xaf, 0x67, 0x93],
        vec![0x00, 0xff, 0x10],
        vec![3; 1024],
    ] {
        let v = Value::with(&b);
        let text = v.display();
        let back = Value::from_hex(&text).unwrap();
        assert_eq!(back, v);
        assert_eq!(back.len as usize, b.len());
    }
}
