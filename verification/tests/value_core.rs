use regval::HexError;
use regval::IntParseError;
use regval::LiteralParseError;
use regval::RegVal;
use regval::Step;
use regval::Value;

#[test]
fn zero_then_set_byte_displays() {
    let mut v = Value::zero(2);
    v.set_byte(0, 0x7a);
    assert_eq!(v.display(), "0x7a00");
    assert_eq!(v.len, 2);
    assert_eq!(v.byte_at(0), 0x7a);
    assert_eq!(v.byte_at(1), 0x00);
}

#[test]
fn with_ff_converts_and_truncates() {
    let v = Value::with(&[0xff; 4]);
    assert_eq!(v.to_u32(), 0xffff_ffff);
    assert_eq!(v.to_u8(), 0xff);
    assert_eq!(v.len, 4);
}

#[test]
fn from_hex_length_and_popcount() {
    let v = Value::from_hex("0xaf67937b5498dc").unwrap();
    assert_eq!(v.len, 7);
    let expected: u32 = [0xafu8, 0x67, 0x93, 0x7b, 0x54, 0x98, 0xdc]
        .iter()
        .map(|b| b.count_ones())
        .sum();
    assert_eq!(v.count_ones() as u32, expected);
}

#[test]
fn decimal_literal_picks_smallest_width() {
    let v = Value::from_str("378").unwrap();
    assert_eq!(v.len, 2);
    assert_eq!(v.byte_at(0), 0x7a);
    assert_eq!(v.byte_at(1), 0x01);
    assert_eq!(v.to_u16(), 378);
}

#[test]
fn negative_literal_is_sixteen_byte_twos_complement() {
    let v = Value::from_str("-5").unwrap();
    assert_eq!(v.len, 16);
    assert_eq!(v.to_i128(), -5);
    assert_eq!(v.byte_at(0), 0xfb);
    for i in 1..16 {
        assert_eq!(v.byte_at(i), 0xff);
    }
}

#[test]
fn step_mnemonics() {
    assert_eq!(Step(Value::from_i64(1)).mnemonic(), "inc");
    assert_eq!(Step(Value::from_i64(-1)).mnemonic(), "dec");
    assert_eq!(Step(Value::from_i64(7)).mnemonic(), "add");
    assert_eq!(Step(Value::from_i64(-7)).mnemonic(), "sub");
    assert_eq!(Step(Value::from_i64(0)).mnemonic(), "add");
}

#[test]
fn step_plain_display() {
    let s = Step(Value::from_u16(0x017a));
    assert_eq!(s.display(), ",0x7a01");
}

#[test]
fn equality_ignores_dirty_bytes() {
    let v = Value::with(&[1, 2, 3]);
    let mut w = v;
    w.bytes[3] = 0xaa;
    w.bytes[1023] = 0x55;
    assert_eq!(v, w);
    assert_eq!(w, v);
    let mut different = v;
    different.bytes[1] = 9;
    assert_ne!(v, different);
    let shorter = Value::with(&[1, 2]);
    assert_ne!(v, shorter);
}

#[test]
fn clean_is_idempotent() {
    let mut v = Value::with(&[9, 8]);
    v.bytes[2] = 0x77;
    v.bytes[500] = 0x66;
    let once = v.to_clean();
    let twice = once.to_clean();
    assert_eq!(once.len, twice.len);
    assert!(once.bytes.iter().eq(twice.bytes.iter()));
    assert_eq!(once, v);
    let mut in_place = v;
    in_place.clean();
    assert!(in_place.bytes.iter().eq(once.bytes.iter()));
}

#[test]
fn count_ones_skips_dirty_bytes() {
    let mut v = Value::with(&[0b1010_1010, 0b1111_0000]);
    v.bytes[2] = 0xff;
    assert_eq!(v.count_ones(), 8);
    assert_eq!(Value::zero(100).count_ones(), 0);
}

#[test]
fn default_is_empty() {
    let v = Value::default();
    assert_eq!(v.len, 0);
    assert_eq!(v, Value::zero(0));
    let r = RegVal::default();
    assert_eq!(r, RegVal::none());
}

#[test]
fn regval_states_are_distinct() {
    let absent = RegVal::none();
    let zero = RegVal::some(Value::zero(1));
    assert_ne!(absent, zero);
    assert_eq!(absent.display(), "~");
    assert_eq!(zero.display(), "0x00");
    assert_eq!(absent.to_option(), None);
    assert_eq!(zero.to_option(), Some(Value::zero(1)));
    assert_eq!(RegVal::from_option(None), absent);
    assert_eq!(RegVal::from_option(Some(Value::zero(1))), zero);
}

#[test]
fn regval_equality_ignores_dirty_bytes() {
    let v = Value::with(&[5]);
    let mut w = v;
    w.bytes[9] = 0x42;
    assert_eq!(RegVal::some(v), RegVal::some(w));
}

#[test]
fn optional_native_composes_with_regval() {
    let present: Option<u32> = Some(0xdead_beef);
    let absent: Option<u32> = None;
    let wrapped = RegVal::from_option(present.map(Value::from_u32));
    assert_eq!(wrapped, RegVal::some(Value::from_u32(0xdead_beef)));
    assert_eq!(
        wrapped.to_option().map(|v| v.to_u32()),
        Some(0xdead_beef)
    );
    let empty = RegVal::from_option(absent.map(Value::from_u32));
    assert_eq!(empty, RegVal::none());
    assert_eq!(empty.to_option().map(|v| v.to_u32()), None);
}

#[test]
fn display_abbreviates_long_values() {
    let v = Value::with(&[1, 2, 3, 4, 5, 6]);
    assert_eq!(v.display(), "0x010203040506");
    assert_eq!(v.display_abbrev(), "0x01020304..03040506");
    let short = Value::with(&[1, 2, 3, 4]);
    assert_eq!(short.display_abbrev(), "0x01020304");
}

#[test]
fn to_hex_renders_whole_buffer() {
    let mut v = Value::zero(2);
    v.set_byte(0, 0x7a);
    let hex = v.to_hex();
    assert_eq!(hex.len(), 2 + 2048);
    assert!(hex.starts_with("0x7a00"));
    assert!(hex[2..].chars().skip(4).all(|c| c == '0'));
}

#[test]
fn hex_error_taxonomy() {
    assert_eq!(
        Value::from_hex("0x123"),
        Err(HexError::OddLengthString(3))
    );
    assert_eq!(
        Value::from_hex("0x12zz"),
        Err(HexError::InvalidChar('z'))
    );
    let too_long = format!("0x{}", "ab".repeat(regval::CAPACITY as usize + 1));
    assert_eq!(
        Value::from_hex(&too_long),
        Err(HexError::InvalidLength(1024, 1025))
    );
    let max_len = format!("0x{}", "ab".repeat(regval::CAPACITY as usize));
    let v = Value::from_hex(&max_len).unwrap();
    assert_eq!(v.len, 1024);
}

#[test]
fn hex_accepts_uppercase_and_no_prefix() {
    let upper = Value::from_hex("0xAF").unwrap();
    let lower = Value::from_hex("0xaf").unwrap();
    assert_eq!(upper, lower);
    let bare = Value::from_hex("af").unwrap();
    assert_eq!(bare, lower);
    let empty = Value::from_hex("0x").unwrap();
    assert_eq!(empty.len, 0);
}

#[test]
fn literal_error_taxonomy() {
    assert_eq!(
        Value::from_str(""),
        Err(LiteralParseError::Int(IntParseError::Empty))
    );
    assert_eq!(
        Value::from_str("12a"),
        Err(LiteralParseError::Int(IntParseError::InvalidDigit))
    );
    assert_eq!(
        Value::from_str("340282366920938463463374607431768211456"),
        Err(LiteralParseError::Int(IntParseError::PosOverflow))
    );
    assert_eq!(
        Value::from_str("-170141183460469231731687303715884105729"),
        Err(LiteralParseError::Int(IntParseError::NegOverflow))
    );
    assert_eq!(
        Value::from_str("-"),
        Err(LiteralParseError::Int(IntParseError::Empty))
    );
    assert_eq!(
        Value::from_str("0x1g"),
        Err(LiteralParseError::Hex(HexError::InvalidChar('g')))
    );
    assert_eq!(
        Value::from_str("+5"),
        Err(LiteralParseError::Int(IntParseError::InvalidDigit))
    );
    assert_eq!(
        Value::from_str("0X12"),
        Err(LiteralParseError::Int(IntParseError::InvalidDigit))
    );
}

#[test]
fn literal_width_selection_boundaries() {
    assert_eq!(Value::from_str("0").unwrap().len, 1);
    assert_eq!(Value::from_str("255").unwrap().len, 1);
    assert_eq!(Value::from_str("256").unwrap().len, 2);
    assert_eq!(Value::from_str("65535").unwrap().len, 2);
    assert_eq!(Value::from_str("65536").unwrap().len, 4);
    assert_eq!(Value::from_str("4294967295").unwrap().len, 4);
    assert_eq!(Value::from_str("4294967296").unwrap().len, 8);
    assert_eq!(Value::from_str("18446744073709551615").unwrap().len, 8);
    assert_eq!(Value::from_str("18446744073709551616").unwrap().len, 16);
    assert_eq!(
        Value::from_str("340282366920938463463374607431768211455")
            .unwrap()
            .len,
        16
    );
}

#[test]
fn literal_extreme_signed_values() {
    let min = Value::from_str("-170141183460469231731687303715884105728").unwrap();
    assert_eq!(min.to_i128(), i128::MIN);
    let hex = Value::from_str("0x0102").unwrap();
    assert_eq!(hex.len, 2);
    assert_eq!(hex.to_u16(), 0x0201);
}
