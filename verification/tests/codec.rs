use amcrust::hsv::codec::{decode_one, encode, encode_to_vec, DecodeError, DecodeFault, Decoder, Value};
use amcrust::hsv::float::{truncate, widen};

/// Int64 is an encoding hint only — it decodes as Int.
fn normalize(v: Value) -> Value {
    match v {
        Value::Int64(i) => Value::Int(i),
        Value::Array(items) => Value::Array(items.into_iter().map(normalize).collect()),
        Value::Dict(entries) => {
            Value::Dict(entries.into_iter().map(|(k, v)| (k, normalize(v))).collect())
        }
        other => other,
    }
}

fn roundtrip(v: Value) {
    let encoded = encode_to_vec(&v);
    let decoded = decode_one(&encoded).unwrap();
    assert_eq!(decoded, normalize(v));
}

#[test]
fn codec_roundtrip_scalars() {
    roundtrip(Value::Bool(true));
    roundtrip(Value::Bool(false));
    roundtrip(Value::Null);
    roundtrip(Value::Int(-1));
    roundtrip(Value::Int(0));
    roundtrip(Value::Int(38));
    roundtrip(Value::Int(39));
    roundtrip(Value::Int(40));
    roundtrip(Value::Int(-42));
    roundtrip(Value::Int(1000));
    roundtrip(Value::Int(100_000));
    roundtrip(Value::Int(10_000_000_000));
    roundtrip(Value::Int64(7));
    roundtrip(Value::Float(1.5f64.to_bits()));
    roundtrip(Value::String("hello".into()));
    roundtrip(Value::String("x".repeat(100)));
    roundtrip(Value::Data(vec![1, 2, 3]));
    roundtrip(Value::Data(vec![0xAB; 300]));
}

#[test]
fn roundtrip_containers() {
    roundtrip(Value::Array(vec![Value::Int(1), Value::String("a".into())]));
    roundtrip(Value::dict(vec![
        ("protocol", Value::String("control".into())),
        ("request", Value::String("hello".into())),
        ("id", Value::Int64(12345)),
    ]));
    // Large containers use terminated forms.
    roundtrip(Value::Array((0..20).map(Value::Int).collect()));
    let big_dict = Value::Dict((0..20).map(|i| (format!("k{i}"), Value::Int(i))).collect());
    roundtrip(big_dict);
}

#[test]
fn small_int_encoding_matches_spec() {
    assert_eq!(encode_to_vec(&Value::Int(0)), vec![0x08]);
    assert_eq!(encode_to_vec(&Value::Int(38)), vec![0x2E]);
    assert_eq!(encode_to_vec(&Value::Int(-1)), vec![0x07]);
    assert_eq!(encode_to_vec(&Value::Bool(true)), vec![0x01]);
    assert_eq!(encode_to_vec(&Value::String("hi".into())), vec![0x42, b'h', b'i']);
}

#[test]
fn back_references_resolve() {
    // "dataSend" then a back-reference to it (index 0).
    let mut buf = encode_to_vec(&Value::String("dataSend".into()));
    buf.push(0xA0);
    let mut dec = Decoder::new(&buf);
    assert_eq!(dec.decode().unwrap().unwrap(), Value::String("dataSend".into()));
    assert_eq!(dec.decode().unwrap().unwrap(), Value::String("dataSend".into()));
}

#[test]
fn short_form_data_decodes() {
    // We must decode short-form data even though we never emit it.
    let buf = vec![0x73, 1, 2, 3];
    assert_eq!(decode_one(&buf).unwrap(), Value::Data(vec![1, 2, 3]));
}

#[test]
fn hello_response_header_shape() {
    let header = Value::dict(vec![
        ("protocol", Value::String("control".into())),
        ("response", Value::String("hello".into())),
        ("id", Value::Int64(5)),
        ("status", Value::Int64(0)),
    ]);
    let bytes = encode_to_vec(&header);
    // 4-entry dict, id/status must be 9-byte int64 encodings.
    assert_eq!(bytes[0], 0xE4);
    let decoded = decode_one(&bytes).unwrap();
    assert_eq!(decoded.get("id").unwrap().as_i64(), Some(5));
    assert_eq!(decoded.get("status").unwrap().as_i64(), Some(0));
}

#[test]
fn integers_take_the_shortest_form() {
    assert_eq!(encode_to_vec(&Value::Int(39)), vec![0x30, 39]);
    assert_eq!(encode_to_vec(&Value::Int(-2)), vec![0x30, 0xFE]);
    assert_eq!(encode_to_vec(&Value::Int(1000)), vec![0x31, 0xE8, 0x03]);
    assert_eq!(encode_to_vec(&Value::Int(100_000)), vec![0x32, 0xA0, 0x86, 0x01, 0x00]);
    assert_eq!(
        encode_to_vec(&Value::Int(0x1_0000_0000)),
        vec![0x33, 0, 0, 0, 0, 1, 0, 0, 0]
    );
    assert_eq!(encode_to_vec(&Value::Int64(5)), vec![0x33, 5, 0, 0, 0, 0, 0, 0, 0]);
}

#[test]
fn longer_texts_and_data_have_their_length_before_them() {
    let text = encode_to_vec(&Value::String("x".repeat(33)));
    assert_eq!(&text[..2], &[0x61, 33]);
    let text = encode_to_vec(&Value::String("x".repeat(300)));
    assert_eq!(&text[..3], &[0x62, 0x2C, 0x01]);
    let data = encode_to_vec(&Value::Data(vec![1, 2, 3]));
    assert_eq!(data, vec![0x91, 3, 1, 2, 3]);
    let data = encode_to_vec(&Value::Data(vec![0; 0x1_0000]));
    assert_eq!(&data[..5], &[0x93, 0, 0, 1, 0]);
}

#[test]
fn every_length_form_is_read() {
    assert_eq!(
        decode_one(&[0x64, 2, 0, 0, 0, 0, 0, 0, 0, b'h', b'i']).unwrap(),
        Value::String("hi".into())
    );
    assert_eq!(
        decode_one(&[0x94, 1, 0, 0, 0, 0, 0, 0, 0, 9]).unwrap(),
        Value::Data(vec![9])
    );
    assert_eq!(decode_one(&[0x6F, b'o', b'k', 0]).unwrap(), Value::String("ok".into()));
    assert_eq!(decode_one(&[0x9F, 1, 2, 3]).unwrap(), Value::Data(vec![1, 2]));
    assert_eq!(decode_one(&[0x2F]).unwrap(), Value::Int(39));
}

#[test]
fn invalid_utf8_is_repaired() {
    assert_eq!(decode_one(&[0x41, 0xFF]).unwrap(), Value::String("\u{FFFD}".into()));
}

#[test]
fn uuids_dates_and_floats_are_read() {
    let uuid = [3u8; 16];
    assert_eq!(decode_one(&encode_to_vec(&Value::Uuid(uuid))).unwrap(), Value::Uuid(uuid));
    let date = 12.25f64.to_bits();
    assert_eq!(decode_one(&encode_to_vec(&Value::Date(date))).unwrap(), Value::Date(date));
    let mut single = vec![0x35];
    single.extend_from_slice(&2.5f32.to_le_bytes());
    assert_eq!(decode_one(&single).unwrap(), Value::Float(2.5f64.to_bits()));
}

#[test]
fn faults_are_told() {
    let fault = |b: &[u8]| decode_one(b).unwrap_err().0;
    assert_eq!(fault(&[]), DecodeFault::Short { need: 1, have: 0 });
    assert_eq!(fault(&[0x31, 1]), DecodeFault::Short { need: 2, have: 1 });
    assert_eq!(fault(&[0x00]), DecodeFault::ZeroTag);
    assert_eq!(fault(&[0x34]), DecodeFault::UnknownTag(0x34));
    assert_eq!(fault(&[0xA1]), DecodeFault::BackReference(1));
    assert_eq!(fault(&[0xD1, 0x03]), DecodeFault::TerminatorInArray);
    assert_eq!(fault(&[0xE1, 0x41, b'k', 0x03]), DecodeFault::TerminatorInDict);
    assert_eq!(
        fault(&[0xE1, 0x08, 0x08]),
        DecodeFault::KeyExpected(Some(Value::Int(0)))
    );
    assert_eq!(fault(&[0xE1, 0x03]), DecodeFault::KeyExpected(None));
    assert_eq!(fault(&[0xEF, 0x07, 0x08]), DecodeFault::KeyNotString(Value::Int(-1)));
    assert_eq!(fault(&[0x03]), DecodeFault::UnexpectedTerminator);
}

#[test]
fn faults_have_words() {
    let words = |fault: DecodeFault| DecodeError(fault).message();
    assert_eq!(
        words(DecodeFault::Short { need: 8, have: 3 }),
        "HDS decode error: need 8 bytes, have 3"
    );
    assert_eq!(words(DecodeFault::UnknownTag(0x0f)), "HDS decode error: unknown tag 0x0f");
    assert_eq!(words(DecodeFault::UnknownTag(0xfa)), "HDS decode error: unknown tag 0xfa");
    assert_eq!(
        words(DecodeFault::BackReference(7)),
        "HDS decode error: back-reference 7 out of range"
    );
    assert_eq!(words(DecodeFault::ZeroTag), "HDS decode error: zero tag");
}

#[test]
fn values_are_read_by_kind() {
    assert_eq!(Value::Float((-2.9f64).to_bits()).as_i64(), Some(-2));
    assert_eq!(Value::Bool(true).as_i64(), None);
    assert_eq!(Value::Bool(true).as_bool(), Some(true));
    assert_eq!(Value::Null.as_bool(), None);
    assert_eq!(Value::String("a".into()).as_str(), Some("a"));
    assert_eq!(Value::Null.as_str(), None);
    assert_eq!(Value::Data(vec![1]).as_data(), Some(&[1u8][..]));
    assert_eq!(Value::Null.as_data(), None);
    assert!(Value::Null.get("x").is_none());
    let d = Value::dict(vec![("a", Value::Int(1)), ("a", Value::Int(2))]);
    assert_eq!(d.get("a").unwrap().as_i64(), Some(1));
    assert_eq!(d.clone(), d);
}

#[test]
fn decoding_goes_on_behind_a_value() {
    let mut buf = Vec::new();
    encode(&Value::Int(1), &mut buf);
    encode(&Value::String("b".into()), &mut buf);
    buf.push(0x03);
    let mut d = Decoder::new(&buf);
    assert_eq!(d.remaining(), 4);
    assert_eq!(d.decode().unwrap(), Some(Value::Int(1)));
    assert_eq!(d.decode().unwrap(), Some(Value::String("b".into())));
    assert_eq!(d.decode().unwrap(), None);
    assert_eq!(d.remaining(), 0);
}

#[test]
fn float_bits_agree_with_the_machine() {
    for x in [0.0f32, -0.0, 1.0, -1.5, 1e-40, f32::MAX, f32::INFINITY, f32::MIN_POSITIVE] {
        assert_eq!(widen(x.to_bits()), (x as f64).to_bits());
    }
    for x in [0.0f64, 0.9, -0.9, 1.0, 123456.75, -123456.75, 1e30, -1e30, 9.2e18, f64::NAN, f64::INFINITY]
    {
        assert_eq!(truncate(x.to_bits()), x as i64);
    }
}

#[test]
fn wrong_keys_are_quoted() {
    let words = |bytes: &[u8]| decode_one(bytes).unwrap_err().message();
    assert_eq!(
        words(&[0xE1, 0x30, 0x80, 0x08]),
        "HDS decode error: expected string dict key, got Some(Int(-128))"
    );
    assert_eq!(words(&[0xE1, 0x03]), "HDS decode error: expected string dict key, got None");
    let mut key = vec![0xEF, 0xD4, 0x01, 0x04, 0x73, 1, 2, 255];
    key.extend_from_slice(&[0xE1, 0x42, b'a', b'"', 0xD0]);
    assert_eq!(
        words(&key),
        "HDS decode error: non-string dict key: \
         Array([Bool(true), Null, Data([1, 2, 255]), Dict([(\"a\\\"\", Array([]))])])"
    );
    let mut id = vec![0xEF, 0x05];
    id.extend_from_slice(&[7; 16]);
    assert_eq!(
        words(&id),
        "HDS decode error: non-string dict key: Uuid([7, 7, 7, 7, 7, 7, 7, 7, 7, 7, 7, 7, 7, 7, 7, 7])"
    );
}

#[test]
fn a_fault_leaves_the_bytes_behind_it() {
    let left = |bytes: &[u8]| {
        let mut decoder = Decoder::new(bytes);
        assert!(decoder.decode().is_err());
        decoder.remaining()
    };
    assert_eq!(left(&[]), 0);
    assert_eq!(left(&[0x33, 1, 2, 3]), 3);
    assert_eq!(left(&[0x61, 9, 1, 2]), 2);
    assert_eq!(left(&[0x6F, 1, 2, 3]), 0);
    assert_eq!(left(&[0x00, 5, 5]), 2);
    assert_eq!(left(&[0xA3, 5]), 1);
    assert_eq!(left(&[0xD2, 0x08, 0x03, 5, 5]), 2);
    assert_eq!(left(&[0xEF, 0x08, 5, 5]), 2);
    let mut decoder = Decoder::new(&[0xD2, 0x0A, 0x00, 0xA0]);
    assert!(decoder.decode().is_err());
    assert_eq!(decoder.decode().unwrap(), Some(Value::Int(2)));
}
