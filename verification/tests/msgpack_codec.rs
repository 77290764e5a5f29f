use cortex_client::msgpack::{decode_value, encode_value, render_value};
use cortex_client::wire::{WireInteger, WireValue};

fn sample() -> WireValue {
    WireValue::Array(vec![
        WireValue::Nil,
        WireValue::Boolean(true),
        WireValue::Integer(WireInteger::Unsigned(7)),
        WireValue::Integer(WireInteger::Signed(-7)),
        WireValue::Float32(1.5f32.to_bits()),
        WireValue::Float64(0.1f64.to_bits()),
        WireValue::Text("héllo".to_string()),
        WireValue::Binary(vec![0, 255, 1]),
        WireValue::Mapping(vec![(
            WireValue::Integer(WireInteger::Unsigned(42)),
            WireValue::Text("x".to_string()),
        )]),
        WireValue::Extension(3, vec![9, 8]),
    ])
}

#[test]
fn encoding_agrees_with_rmpv() {
    let ours = encode_value(&sample()).unwrap();
    let theirs_value = rmpv::Value::Array(vec![
        rmpv::Value::Nil,
        rmpv::Value::Boolean(true),
        rmpv::Value::from(7u64),
        rmpv::Value::from(-7i64),
        rmpv::Value::F32(1.5),
        rmpv::Value::F64(0.1),
        rmpv::Value::from("héllo"),
        rmpv::Value::Binary(vec![0, 255, 1]),
        rmpv::Value::Map(vec![(rmpv::Value::from(42u64), rmpv::Value::from("x"))]),
        rmpv::Value::Ext(3, vec![9, 8]),
    ]);
    let mut theirs: Vec<u8> = Vec::new();
    rmpv::encode::write_value(&mut theirs, &theirs_value).unwrap();
    assert_eq!(ours, theirs);
}

#[test]
fn decoding_gives_back_what_was_encoded() {
    let bytes = encode_value(&sample()).unwrap();
    assert_eq!(decode_value(&bytes), Ok(sample()));
}

#[test]
fn decoding_ignores_trailing_bytes() {
    let mut bytes = encode_value(&WireValue::Boolean(false)).unwrap();
    bytes.extend_from_slice(&[0xc3, 0x01, 0x02]);
    assert_eq!(decode_value(&bytes), Ok(WireValue::Boolean(false)));
}

#[test]
fn decoding_reports_truncated_input() {
    let bytes = encode_value(&sample()).unwrap();
    assert!(decode_value(&bytes[..bytes.len() - 1]).is_err());
    assert!(decode_value(&[]).is_err());
}

#[test]
fn decoding_keeps_the_bytes_of_malformed_text() {
    // fixstr of length 2 holding bytes that are no valid UTF-8
    assert_eq!(
        decode_value(&[0xa2, 0xff, 0xfe]),
        Ok(WireValue::MalformedText(vec![0xff, 0xfe]))
    );
}

#[test]
fn decoding_puts_every_integer_in_its_one_form() {
    // int 64 holding 5, and uint 64 holding 5
    let signed = [0xd3, 0, 0, 0, 0, 0, 0, 0, 5];
    let unsigned = [0xcf, 0, 0, 0, 0, 0, 0, 0, 5];
    assert_eq!(decode_value(&signed), Ok(WireValue::Integer(WireInteger::Unsigned(5))));
    assert_eq!(decode_value(&unsigned), Ok(WireValue::Integer(WireInteger::Unsigned(5))));
    let negative = [0xd3, 0xff, 0xff, 0xff, 0xff, 0xff, 0xff, 0xff, 0xfb];
    assert_eq!(decode_value(&negative), Ok(WireValue::Integer(WireInteger::Signed(-5))));
    let largest = [0xcf, 0xff, 0xff, 0xff, 0xff, 0xff, 0xff, 0xff, 0xff];
    assert_eq!(decode_value(&largest), Ok(WireValue::Integer(WireInteger::Unsigned(u64::MAX))));
}

#[test]
fn float_bits_survive_the_wire() {
    for bits in [0u64, 1, 0x7ff0_0000_0000_0000, 0x7ff8_0000_0000_0001, 0xfff0_0000_0000_0000, 0x3ff8_0000_0000_0000] {
        let bytes = encode_value(&WireValue::Float64(bits)).unwrap();
        assert_eq!(bytes.len(), 9);
        assert_eq!(bytes[0], 0xcb);
        assert_eq!(&bytes[1..], &bits.to_be_bytes());
        assert_eq!(decode_value(&bytes), Ok(WireValue::Float64(bits)));
    }
    for bits in [0u32, 1, 0x7f80_0000, 0x7fc0_0001, 0xff80_0000, 0x3fc0_0000] {
        let bytes = encode_value(&WireValue::Float32(bits)).unwrap();
        assert_eq!(bytes.len(), 5);
        assert_eq!(bytes[0], 0xca);
        assert_eq!(&bytes[1..], &bits.to_be_bytes());
        assert_eq!(decode_value(&bytes), Ok(WireValue::Float32(bits)));
    }
}

#[test]
fn malformed_text_goes_out_as_binary() {
    let malformed = encode_value(&WireValue::MalformedText(vec![0xff, 0xfe])).unwrap();
    let binary = encode_value(&WireValue::Binary(vec![0xff, 0xfe])).unwrap();
    assert_eq!(malformed, binary);
    assert_eq!(
        render_value(&WireValue::MalformedText(vec![0xff, 0xfe])),
        render_value(&WireValue::Binary(vec![0xff, 0xfe]))
    );
}

#[test]
fn rendering_is_what_rmpv_prints() {
    assert_eq!(render_value(&WireValue::Nil), "nil");
    assert_eq!(render_value(&WireValue::Boolean(true)), "true");
    assert_eq!(render_value(&WireValue::Integer(WireInteger::Unsigned(42))), "42");
    assert_eq!(render_value(&WireValue::Integer(WireInteger::Signed(-42))), "-42");
    assert_eq!(render_value(&WireValue::Integer(WireInteger::Signed(42))), "42");
    assert_eq!(render_value(&WireValue::Float64(1.5f64.to_bits())), "1.5");
    assert_eq!(render_value(&WireValue::Float32(0.25f32.to_bits())), "0.25");
    assert_eq!(render_value(&WireValue::Text("a".to_string())), "\"a\"");
    assert_eq!(render_value(&WireValue::Binary(vec![1, 2])), "[1, 2]");
    assert_eq!(
        render_value(&WireValue::Array(vec![WireValue::Nil, WireValue::Boolean(false)])),
        "[nil, false]"
    );
    assert_eq!(
        render_value(&WireValue::Mapping(vec![(
            WireValue::Integer(WireInteger::Unsigned(1)),
            WireValue::Text("x".to_string())
        )])),
        "{1: \"x\"}"
    );
    assert_eq!(render_value(&WireValue::Extension(5, vec![7])), "[5, [7]]");
}
