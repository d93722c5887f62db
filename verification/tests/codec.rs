use rustmp::amf0::{Amf0Decoder, Amf0Encoder, Amf0Value};
use rustmp::bitstream::BitstreamReader;
use rustmp::strutil::{center, i64_string, pad_to, secs1_string, secs2_string, str_contains, str_eq, u64_string, visible_length};

const ONE_BITS: u64 = 0x3FF0_0000_0000_0000;

#[test]
fn decimal_rendering() {
    assert_eq!(u64_string(0), "0");
    assert_eq!(u64_string(7), "7");
    assert_eq!(u64_string(12345), "12345");
    assert_eq!(u64_string(u64::MAX), "18446744073709551615");
    assert_eq!(i64_string(-42), "-42");
    assert_eq!(i64_string(600), "600");
    assert_eq!(secs1_string(2500), "2.5");
    assert_eq!(secs1_string(999), "0.9");
    assert_eq!(secs2_string(1250), "1.25");
    assert_eq!(secs2_string(3050), "3.05");
}

#[test]
fn string_helpers() {
    assert!(str_eq("connect", "connect"));
    assert!(!str_eq("connect", "connec"));
    assert!(str_contains("HE-AAC v2 (SBR+PS)", "SBR"));
    assert!(str_contains("Scalable Baseline", "Baseline"));
    assert!(!str_contains("High", "Baseline"));
    assert!(str_contains("anything", ""));
}

#[test]
fn exp_golomb_decodes_encoded_form() {
    // 00110... encodes 5: two leading zeros, then 110 (code 6)
    let mut r = BitstreamReader::new(vec![0x30]);
    assert_eq!(r.read_exp_golomb(), 5);
    // 1... encodes 0
    let mut r = BitstreamReader::new(vec![0x80]);
    assert_eq!(r.read_exp_golomb(), 0);
    // 010... encodes 1
    let mut r = BitstreamReader::new(vec![0x40]);
    assert_eq!(r.read_exp_golomb(), 1);
}

#[test]
fn signed_exp_golomb_signs() {
    // code 1 -> +1, code 2 -> -1, code 5 -> +3
    let mut r = BitstreamReader::new(vec![0x40]);
    assert_eq!(r.read_signed_exp_golomb(), 1);
    let mut r = BitstreamReader::new(vec![0x60]);
    assert_eq!(r.read_signed_exp_golomb(), -1);
    let mut r = BitstreamReader::new(vec![0x30]);
    assert_eq!(r.read_signed_exp_golomb(), 3);
}

#[test]
fn read_bits_msb_first() {
    let mut r = BitstreamReader::new(vec![0xA5, 0xF0]);
    assert_eq!(r.read_bits(4), 0xA);
    assert_eq!(r.read_bits(4), 0x5);
    assert_eq!(r.read_bits(4), 0xF);
    // running off the end returns the bits read so far
    assert_eq!(r.read_bits(8), 0x0);
}

#[test]
fn amf0_number_round_trip() {
    let mut enc = Amf0Encoder::new();
    enc.write_number(ONE_BITS);
    let bytes = enc.into_bytes();
    assert_eq!(bytes, vec![0x00, 0x3F, 0xF0, 0, 0, 0, 0, 0, 0]);
    let mut dec = Amf0Decoder::new(&bytes);
    match dec.decode() {
        Some(Amf0Value::Number(bits)) => assert_eq!(bits, ONE_BITS),
        other => panic!("expected a number, got {:?}", other.is_some()),
    }
}

#[test]
fn amf0_boolean_round_trip() {
    let mut enc = Amf0Encoder::new();
    enc.write_boolean(true);
    enc.write_boolean(false);
    let bytes = enc.into_bytes();
    let mut dec = Amf0Decoder::new(&bytes);
    assert!(matches!(dec.decode(), Some(Amf0Value::Boolean(true))));
    assert!(matches!(dec.decode(), Some(Amf0Value::Boolean(false))));
}

#[test]
fn amf0_string_round_trip() {
    let mut enc = Amf0Encoder::new();
    enc.write_string("NetConnection.Connect.Success");
    let bytes = enc.into_bytes();
    let mut dec = Amf0Decoder::new(&bytes);
    match dec.decode() {
        Some(Amf0Value::Str(s)) => assert_eq!(s, "NetConnection.Connect.Success"),
        _ => panic!("expected a string"),
    }
}

#[test]
fn amf0_null_round_trip() {
    let mut enc = Amf0Encoder::new();
    enc.write_null();
    let bytes = enc.into_bytes();
    assert_eq!(bytes, vec![0x05]);
    let mut dec = Amf0Decoder::new(&bytes);
    assert!(matches!(dec.decode(), Some(Amf0Value::Null)));
}

#[test]
fn amf0_object_round_trip() {
    let mut enc = Amf0Encoder::new();
    enc.write_object(&[
        ("app", Amf0Value::Str(String::from("live"))),
        ("flashVer", Amf0Value::Str(String::from("FMLE/3.0"))),
        ("tcUrl", Amf0Value::Number(ONE_BITS)),
    ]);
    let bytes = enc.into_bytes();
    let mut dec = Amf0Decoder::new(&bytes);
    match dec.decode() {
        Some(Amf0Value::Object(pairs)) => {
            assert_eq!(pairs.len(), 3);
            assert_eq!(pairs[0].0, "app");
            match &pairs[0].1 {
                Amf0Value::Str(s) => assert_eq!(s, "live"),
                _ => panic!("expected a string for app"),
            }
            assert_eq!(pairs[2].0, "tcUrl");
            assert!(matches!(pairs[2].1, Amf0Value::Number(b) if b == ONE_BITS));
        }
        _ => panic!("expected an object"),
    }
}

#[test]
fn amf0_nested_object_round_trip() {
    let inner = vec![(String::from("k"), Amf0Value::Boolean(true))];
    let mut enc = Amf0Encoder::new();
    enc.write_value(&Amf0Value::Object(vec![
        (String::from("outer"), Amf0Value::Object(inner)),
        (String::from("n"), Amf0Value::Null),
    ]));
    let bytes = enc.into_bytes();
    let mut dec = Amf0Decoder::new(&bytes);
    match dec.decode() {
        Some(Amf0Value::Object(pairs)) => {
            assert_eq!(pairs.len(), 2);
            match &pairs[0].1 {
                Amf0Value::Object(ip) => {
                    assert_eq!(ip.len(), 1);
                    assert_eq!(ip[0].0, "k");
                }
                _ => panic!("expected a nested object"),
            }
        }
        _ => panic!("expected an object"),
    }
}

#[test]
fn amf0_strict_array_round_trip() {
    let mut enc = Amf0Encoder::new();
    enc.write_value(&Amf0Value::StrictArray(vec![
        Amf0Value::Number(ONE_BITS),
        Amf0Value::Str(String::from("x")),
        Amf0Value::Null,
    ]));
    let bytes = enc.into_bytes();
    assert_eq!(bytes[0], 0x0A);
    let mut dec = Amf0Decoder::new(&bytes);
    match dec.decode() {
        Some(Amf0Value::StrictArray(items)) => {
            assert_eq!(items.len(), 3);
            assert!(matches!(items[0], Amf0Value::Number(b) if b == ONE_BITS));
            assert!(matches!(items[2], Amf0Value::Null));
        }
        _ => panic!("expected a strict array"),
    }
}

#[test]
fn amf0_undefined_encodes_as_null() {
    let mut enc = Amf0Encoder::new();
    enc.write_value(&Amf0Value::Undefined);
    assert_eq!(enc.into_bytes(), vec![0x05]);
}

#[test]
fn amf0_unknown_marker_stops_decoding() {
    // a valid null, then an unknown marker: the prefix stays usable
    let bytes = vec![0x05, 0x55, 0x00];
    let mut dec = Amf0Decoder::new(&bytes);
    let values = dec.decode_all();
    assert_eq!(values.len(), 1);
    assert!(matches!(values[0], Amf0Value::Null));
}

#[test]
fn amf0_truncated_number_fails() {
    let bytes = vec![0x00, 0x3F, 0xF0];
    let mut dec = Amf0Decoder::new(&bytes);
    assert!(dec.decode().is_none());
}

#[test]
fn amf0_ecma_array_count_not_trusted() {
    // count says 99, the body terminator is authoritative
    let mut body = vec![0x08, 0, 0, 0, 99];
    body.extend_from_slice(&[0, 1, b'a', 0x05]); // "a" -> null
    body.extend_from_slice(&[0, 0, 0x09]);
    let mut dec = Amf0Decoder::new(&body);
    match dec.decode() {
        Some(Amf0Value::EcmaArray(pairs)) => {
            assert_eq!(pairs.len(), 1);
            assert_eq!(pairs[0].0, "a");
        }
        _ => panic!("expected an ecma array"),
    }
}

#[test]
fn amf0_long_string_decodes() {
    let mut bytes = vec![0x0C, 0, 0, 0, 5];
    bytes.extend_from_slice(b"hello");
    let mut dec = Amf0Decoder::new(&bytes);
    match dec.decode() {
        Some(Amf0Value::Str(s)) => assert_eq!(s, "hello"),
        _ => panic!("expected a string"),
    }
}

#[test]
fn amf0_empty_key_terminator_tolerated() {
    // object closed by an empty key followed by a bare 0x09
    let bytes = vec![0x03, 0, 1, b'k', 0x05, 0, 0, 0x09];
    let mut dec = Amf0Decoder::new(&bytes);
    match dec.decode() {
        Some(Amf0Value::Object(pairs)) => assert_eq!(pairs.len(), 1),
        _ => panic!("expected an object"),
    }
}

#[test]
fn amf0_get_property_finds_first() {
    let obj = Amf0Value::Object(vec![
        (String::from("a"), Amf0Value::Null),
        (String::from("app"), Amf0Value::Str(String::from("live"))),
        (String::from("app"), Amf0Value::Str(String::from("other"))),
    ]);
    match obj.get_property("app") {
        Some(Amf0Value::Str(s)) => assert_eq!(s, "live"),
        _ => panic!("expected the first app value"),
    }
    assert!(obj.get_property("missing").is_none());
}

#[test]
fn amf0_invalid_utf8_replaced_lossy() {
    // a 2-byte string of invalid UTF-8 decodes to replacement characters
    let bytes = vec![0x02, 0, 2, 0xFF, 0xFE];
    let mut dec = Amf0Decoder::new(&bytes);
    match dec.decode() {
        Some(Amf0Value::Str(s)) => assert_eq!(s, "\u{FFFD}\u{FFFD}"),
        _ => panic!("expected a lossily decoded string"),
    }
}

#[test]
fn visible_length_skips_ansi() {
    assert_eq!(visible_length("plain"), 5);
    assert_eq!(visible_length("\x1b[31mred\x1b[0m"), 3);
    assert_eq!(visible_length(""), 0);
    assert_eq!(visible_length("\x1b[1m"), 0);
}

#[test]
fn center_and_pad() {
    assert_eq!(center("ab", 6), "  ab");
    assert_eq!(center("abcdef", 4), "abcdef");
    assert_eq!(pad_to("ab", 5), "ab   ");
    assert_eq!(pad_to("\x1b[31mab\x1b[0m", 4), "\x1b[31mab\x1b[0m  ");
}

#[test]
fn read_bits_full_width() {
    let mut r = BitstreamReader::new(vec![0xFF; 8]);
    assert_eq!(r.read_bits(64), u64::MAX);
    let mut r = BitstreamReader::new(vec![0x80, 0, 0, 0, 0, 0, 0, 1]);
    assert_eq!(r.read_bits(64), 0x8000_0000_0000_0001);
}
