use cortex_client::bridge::{json_to_msgpack, key_string, msgpack_to_json};
use cortex_client::human::{HumanNumber, HumanValue};
use cortex_client::wire::{WireInteger, WireValue};

fn text(content: &str) -> HumanValue {
    HumanValue::Text(content.to_string())
}

fn wire_text(content: &str) -> WireValue {
    WireValue::Text(content.to_string())
}

fn plain_sample() -> HumanValue {
    HumanValue::Object(vec![
        ("id".to_string(), text("u1")),
        ("age".to_string(), HumanValue::Number(HumanNumber::PosInt(41))),
        ("balance".to_string(), HumanValue::Number(HumanNumber::NegInt(-7))),
        ("least".to_string(), HumanValue::Number(HumanNumber::NegInt(i64::MIN))),
        ("most".to_string(), HumanValue::Number(HumanNumber::PosInt(i64::MAX as u64))),
        ("active".to_string(), HumanValue::Boolean(true)),
        ("note".to_string(), HumanValue::Null),
        (
            "tags".to_string(),
            HumanValue::Array(vec![text("a"), text(""), HumanValue::Array(vec![]), HumanValue::Object(vec![])]),
        ),
    ])
}

#[test]
fn plain_values_come_back_unchanged() {
    let there = json_to_msgpack(&plain_sample());
    assert_eq!(msgpack_to_json(&there), plain_sample());
}

#[test]
fn object_becomes_mapping_with_text_keys() {
    let record = HumanValue::Object(vec![("id".to_string(), text("u1")), ("name".to_string(), text("alice"))]);
    assert_eq!(
        json_to_msgpack(&record),
        WireValue::Mapping(vec![(wire_text("id"), wire_text("u1")), (wire_text("name"), wire_text("alice"))])
    );
}

#[test]
fn scalars_go_to_the_wire() {
    assert_eq!(json_to_msgpack(&HumanValue::Null), WireValue::Nil);
    assert_eq!(json_to_msgpack(&HumanValue::Boolean(false)), WireValue::Boolean(false));
    assert_eq!(json_to_msgpack(&text("x")), wire_text("x"));
    assert_eq!(
        json_to_msgpack(&HumanValue::Number(HumanNumber::PosInt(5))),
        WireValue::Integer(WireInteger::Unsigned(5))
    );
    assert_eq!(
        json_to_msgpack(&HumanValue::Number(HumanNumber::NegInt(-5))),
        WireValue::Integer(WireInteger::Signed(-5))
    );
    assert_eq!(
        json_to_msgpack(&HumanValue::Number(HumanNumber::Float(1.5f64.to_bits()))),
        WireValue::Float64(1.5f64.to_bits())
    );
}

#[test]
fn integer_beyond_signed_range_goes_out_as_the_nearest_double() {
    assert_eq!(
        json_to_msgpack(&HumanValue::Number(HumanNumber::PosInt(u64::MAX))),
        WireValue::Float64(18446744073709551616.0f64.to_bits())
    );
    assert_eq!(
        json_to_msgpack(&HumanValue::Number(HumanNumber::PosInt(i64::MAX as u64 + 1))),
        WireValue::Float64(9223372036854775808.0f64.to_bits())
    );
    let n: u64 = 12345678901234567890;
    assert_eq!(
        json_to_msgpack(&HumanValue::Number(HumanNumber::PosInt(n))),
        WireValue::Float64((n as f64).to_bits())
    );
    assert_eq!(
        json_to_msgpack(&HumanValue::Number(HumanNumber::PosInt(i64::MAX as u64))),
        WireValue::Integer(WireInteger::Unsigned(i64::MAX as u64))
    );
}

#[test]
fn number_that_is_no_finite_double_goes_out_as_nil() {
    for x in [f64::INFINITY, f64::NEG_INFINITY, f64::NAN] {
        assert_eq!(json_to_msgpack(&HumanValue::Number(HumanNumber::Float(x.to_bits()))), WireValue::Nil);
    }
}

#[test]
fn wire_integers_of_64_bits_become_numbers() {
    assert_eq!(
        msgpack_to_json(&WireValue::Integer(WireInteger::Unsigned(u64::MAX))),
        HumanValue::Number(HumanNumber::PosInt(u64::MAX))
    );
    assert_eq!(
        msgpack_to_json(&WireValue::Integer(WireInteger::Signed(i64::MIN))),
        HumanValue::Number(HumanNumber::NegInt(i64::MIN))
    );
    assert_eq!(
        msgpack_to_json(&WireValue::Integer(WireInteger::Unsigned(0))),
        HumanValue::Number(HumanNumber::PosInt(0))
    );
    assert_eq!(
        msgpack_to_json(&WireValue::Integer(WireInteger::Signed(9))),
        HumanValue::Number(HumanNumber::PosInt(9))
    );
}

#[test]
fn wire_floats_that_are_not_finite_become_zero() {
    for x in [f32::INFINITY, f32::NEG_INFINITY, f32::NAN, -f32::NAN] {
        assert_eq!(
            msgpack_to_json(&WireValue::Float32(x.to_bits())),
            HumanValue::Number(HumanNumber::PosInt(0))
        );
    }
    for x in [f64::INFINITY, f64::NEG_INFINITY, f64::NAN, -f64::NAN] {
        assert_eq!(
            msgpack_to_json(&WireValue::Float64(x.to_bits())),
            HumanValue::Number(HumanNumber::PosInt(0))
        );
    }
}

#[test]
fn finite_wire_floats_become_doubles() {
    assert_eq!(
        msgpack_to_json(&WireValue::Float64(2.5f64.to_bits())),
        HumanValue::Number(HumanNumber::Float(2.5f64.to_bits()))
    );
    for x in [0.1f32, -0.0f32, 3.0e38f32, 1.0e-45f32, 1.17549435e-38f32] {
        assert_eq!(
            msgpack_to_json(&WireValue::Float32(x.to_bits())),
            HumanValue::Number(HumanNumber::Float((x as f64).to_bits()))
        );
    }
}

#[test]
fn invalid_bytes_are_read_with_replacement_characters() {
    let bytes: Vec<u8> = vec![b'a', 0xff, b'b', 0xc3];
    let json = msgpack_to_json(&WireValue::Binary(bytes.clone()));
    assert_eq!(json, text("a\u{FFFD}b\u{FFFD}"));
    match json {
        HumanValue::Text(read) => {
            assert!(read.contains('\u{FFFD}'));
            assert_ne!(read.as_bytes(), &bytes[..]);
        },
        _ => panic!("binary must become text"),
    }
}

#[test]
fn valid_bytes_are_read_as_their_text() {
    assert_eq!(msgpack_to_json(&WireValue::Binary("héllo".as_bytes().to_vec())), text("héllo"));
    assert_eq!(msgpack_to_json(&WireValue::Binary(vec![])), text(""));
}

#[test]
fn malformed_text_is_read_with_replacement_characters() {
    assert_eq!(msgpack_to_json(&WireValue::MalformedText(vec![b'o', b'k', 0x80])), text("ok\u{FFFD}"));
}

#[test]
fn extension_becomes_null() {
    assert_eq!(msgpack_to_json(&WireValue::Extension(7, vec![1, 2, 3])), HumanValue::Null);
    assert_eq!(msgpack_to_json(&WireValue::Extension(-1, vec![])), HumanValue::Null);
}

#[test]
fn integer_key_becomes_its_printed_form() {
    let mapping = WireValue::Mapping(vec![(WireValue::Integer(WireInteger::Unsigned(42)), wire_text("x"))]);
    assert_eq!(msgpack_to_json(&mapping), HumanValue::Object(vec![("42".to_string(), text("x"))]));
}

#[test]
fn keys_of_every_kind_are_kept() {
    let mapping = WireValue::Mapping(vec![
        (wire_text("plain"), WireValue::Nil),
        (WireValue::Nil, WireValue::Boolean(true)),
        (WireValue::Boolean(false), WireValue::Boolean(false)),
        (WireValue::Integer(WireInteger::Signed(-3)), WireValue::Nil),
        (WireValue::Float64(1.5f64.to_bits()), WireValue::Nil),
        (WireValue::Binary(vec![1, 2]), WireValue::Nil),
        (WireValue::Array(vec![WireValue::Integer(WireInteger::Unsigned(1))]), WireValue::Nil),
        (WireValue::MalformedText(vec![b'k', 0xff]), WireValue::Nil),
    ]);
    assert_eq!(
        msgpack_to_json(&mapping),
        HumanValue::Object(vec![
            ("plain".to_string(), HumanValue::Null),
            ("nil".to_string(), HumanValue::Boolean(true)),
            ("false".to_string(), HumanValue::Boolean(false)),
            ("-3".to_string(), HumanValue::Null),
            ("1.5".to_string(), HumanValue::Null),
            ("[1, 2]".to_string(), HumanValue::Null),
            ("[1]".to_string(), HumanValue::Null),
            ("k\u{FFFD}".to_string(), HumanValue::Null),
        ])
    );
}

#[test]
fn of_two_entries_with_one_key_text_the_later_gives_the_value() {
    let mapping = WireValue::Mapping(vec![
        (wire_text("1"), wire_text("first")),
        (wire_text("other"), WireValue::Nil),
        (WireValue::Integer(WireInteger::Unsigned(1)), wire_text("second")),
    ]);
    assert_eq!(
        msgpack_to_json(&mapping),
        HumanValue::Object(vec![("1".to_string(), text("second")), ("other".to_string(), HumanValue::Null)])
    );
}

#[test]
fn key_text_of_a_text_key_is_the_text_itself() {
    assert_eq!(key_string(&wire_text("a \"quoted\" key")), "a \"quoted\" key");
    assert_eq!(key_string(&WireValue::Integer(WireInteger::Unsigned(42))), "42");
}

#[test]
fn nested_wire_values_are_converted_throughout() {
    let reply = WireValue::Array(vec![WireValue::Mapping(vec![
        (wire_text("id"), wire_text("u1")),
        (wire_text("name"), wire_text("alice")),
    ])]);
    assert_eq!(
        msgpack_to_json(&reply),
        HumanValue::Array(vec![HumanValue::Object(vec![
            ("id".to_string(), text("u1")),
            ("name".to_string(), text("alice")),
        ])])
    );
}
