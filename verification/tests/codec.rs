//! Tests of the wire codecs: fixed-width values, variable-length numbers
//! and strings, and their error cases.

use std::collections::VecDeque;

use atmosphere_mc::types::var::{VarInt, VarLong, VarString};
use atmosphere_mc::types::{parse_long, parse_unsigned_short, DataType, DataTypeDecodeError};

#[test]
fn old_types_test_fixed_long() {
    let tests: [(Vec<u8>, i64); 1] = [(
        vec![0x7f, 0xff, 0xff, 0xff, 0xff, 0xff, 0xff, 0xff],
        9_223_372_036_854_775_807,
    )];
    for (bytes, value) in tests {
        let parsed: Result<i64, DataTypeDecodeError> =
            parse_long(&mut VecDeque::from(bytes.clone()));
        assert_eq!(
            parsed,
            Ok(value),
            "Parse returned {parsed:?} instead of {value} for {bytes:?}"
        );
    }
}

#[test]
fn types_test_fixed_long() {
    let tests: [(Vec<u8>, i64); 1] = [(
        vec![0x7f, 0xff, 0xff, 0xff, 0xff, 0xff, 0xff, 0xff],
        9_223_372_036_854_775_807,
    )];
    for (bytes, value) in tests {
        let parsed: Result<i64, DataTypeDecodeError> =
            parse_long(&mut VecDeque::from(bytes.clone()));
        assert_eq!(
            parsed,
            Ok(value),
            "Parse returned {parsed:?} instead of {value} for {bytes:?}"
        );
    }
}

#[test]
fn test_test_fixed_long() {
    let tests: [(Vec<u8>, i64); 1] = [(
        vec![0x7f, 0xff, 0xff, 0xff, 0xff, 0xff, 0xff, 0xff],
        9_223_372_036_854_775_807,
    )];
    for (bytes, value) in tests {
        let parsed: Result<i64, DataTypeDecodeError> =
            i64::decode(&mut VecDeque::from(bytes.clone()));
        assert_eq!(
            *parsed.as_ref().unwrap(),
            value,
            "Parse returned {parsed:?} instead of {value} for {bytes:?}"
        );
    }
}

fn varint_cases() -> [(Vec<u8>, i32); 11] {
    [
        (vec![0x00], 0),
        (vec![0x01], 1),
        (vec![0x02], 2),
        (vec![0x7f], 127),
        (vec![0x80, 0x01], 128),
        (vec![0xff, 0x01], 255),
        (vec![0xdd, 0xc7, 0x01], 25565),
        (vec![0xff, 0xff, 0x7f], 2_097_151),
        (vec![0xff, 0xff, 0xff, 0xff, 0x07], 2_147_483_647),
        (vec![0xff, 0xff, 0xff, 0xff, 0x0f], -1),
        (vec![0x80, 0x80, 0x80, 0x80, 0x08], -2_147_483_648),
    ]
}

#[test]
fn old_types_test_varint() {
    for (bytes, value) in varint_cases() {
        // Value -> Bytes
        let mut buf: Vec<u8> = Vec::new();
        VarInt(value).encode(&mut buf).unwrap();
        assert_eq!(buf, bytes);

        // Bytes -> Value
        assert_eq!(
            VarInt::decode(&mut VecDeque::from(bytes)),
            Ok(VarInt(value))
        );
    }
}

#[test]
fn types_test_varint() {
    for (bytes, value) in varint_cases() {
        // Value -> Bytes
        let mut buf: Vec<u8> = Vec::new();
        VarInt(value).encode(&mut buf).unwrap();
        assert_eq!(buf, bytes);

        // Bytes -> Value
        assert_eq!(
            VarInt::decode(&mut VecDeque::from(bytes)),
            Ok(VarInt(value))
        );
    }
}

#[test]
fn test_test_varint() {
    for (bytes, value) in varint_cases() {
        // Value -> Bytes
        let mut buf: Vec<u8> = Vec::new();
        VarInt::new(value).encode(&mut buf).expect("Encoding failed");
        assert_eq!(buf, bytes);

        // Bytes -> Value
        assert_eq!(
            VarInt::decode(&mut VecDeque::from(bytes)).unwrap(),
            VarInt(value)
        );
    }
}

fn varlong_cases() -> [(Vec<u8>, i64); 11] {
    [
        (vec![0x00], 0),
        (vec![0x01], 1),
        (vec![0x02], 2),
        (vec![0x7f], 127),
        (vec![0x80, 0x01], 128),
        (vec![0xff, 0x01], 255),
        (vec![0xff, 0xff, 0xff, 0xff, 0x07], 2_147_483_647),
        (
            vec![0xff, 0xff, 0xff, 0xff, 0xff, 0xff, 0xff, 0xff, 0x7f],
            9_223_372_036_854_775_807,
        ),
        (
            vec![0xff, 0xff, 0xff, 0xff, 0xff, 0xff, 0xff, 0xff, 0xff, 0x01],
            -1,
        ),
        (
            vec![0x80, 0x80, 0x80, 0x80, 0xf8, 0xff, 0xff, 0xff, 0xff, 0x01],
            -2_147_483_648,
        ),
        (
            vec![0x80, 0x80, 0x80, 0x80, 0x80, 0x80, 0x80, 0x80, 0x80, 0x01],
            -9_223_372_036_854_775_808,
        ),
    ]
}

#[test]
fn old_types_test_varlong() {
    for (bytes, value) in varlong_cases() {
        // Value -> Bytes
        let mut buf: Vec<u8> = Vec::new();
        VarLong(value).encode(&mut buf).unwrap();
        assert_eq!(buf, bytes);

        // Bytes -> Value
        assert_eq!(
            VarLong::decode(&mut VecDeque::from(bytes)),
            Ok(VarLong(value))
        );
    }
}

#[test]
fn types_test_varlong() {
    for (bytes, value) in varlong_cases() {
        // Value -> Bytes
        let mut buf: Vec<u8> = Vec::new();
        VarLong(value).encode(&mut buf).unwrap();
        assert_eq!(buf, bytes);

        // Bytes -> Value
        assert_eq!(
            VarLong::decode(&mut VecDeque::from(bytes)),
            Ok(VarLong(value))
        );
    }
}

#[test]
fn test_test_varlong() {
    for (bytes, value) in varlong_cases() {
        // Value -> Bytes
        let mut buf: Vec<u8> = Vec::new();
        VarLong::new(value).encode(&mut buf).expect("Encoding failed");
        assert_eq!(buf, bytes);

        // Bytes -> Value
        assert_eq!(
            VarLong::decode(&mut VecDeque::from(bytes)).unwrap(),
            VarLong::new(value)
        );
    }
}

fn debug_status_buffer() -> Vec<u8> {
    vec![
        135, 0, 0, 0, 0, 0, 0, 2, 123, 34, 118, 101, 114, 115, 105, 111, 110, 34, 58, 123, 34,
        110, 97, 109, 101, 34, 58, 34, 49, 46, 50, 49, 46, 50, 34, 44, 34, 112, 114, 111, 116,
        111, 99, 111, 108, 34, 58, 55, 54, 56, 125, 44, 34, 112, 108, 97, 121, 101, 114, 115, 34,
        58, 123, 34, 109, 97, 120, 34, 58, 49, 48, 48, 44, 34, 111, 110, 108, 105, 110, 101, 34,
        58, 53, 44, 34, 115, 97, 109, 112, 108, 101, 34, 58, 91, 123, 34, 110, 97, 109, 101, 34,
        58, 34, 116, 104, 105, 110, 107, 111, 102, 100, 101, 97, 116, 104, 34, 44, 34, 105, 100,
        34, 58, 34, 52, 53, 54, 54, 101, 54, 57, 102, 45, 99, 57, 48, 55, 45, 52, 56, 101, 101,
        45, 56, 100, 55, 49, 45, 100, 55, 98, 97, 53, 97, 97, 48, 48, 100, 50, 48, 34, 125, 93,
        125, 44, 34, 100, 101, 115, 99, 114, 105, 112, 116, 105, 111, 110, 34, 58, 123, 34, 116,
        101, 120, 116, 34, 58, 34, 72, 101, 108, 108, 111, 44, 32, 119, 111, 114, 108, 100, 33,
        34, 125, 44, 34, 102, 97, 118, 105, 99, 111, 110, 34, 58, 34, 100, 97, 116, 97, 58, 105,
        109, 97, 103, 101, 47, 112, 110, 103, 59, 98, 97, 115, 101, 54, 52, 44, 60, 100, 97, 116,
        97, 62, 34, 44, 34, 101, 110, 102, 111, 114, 99, 101, 115, 83, 101, 99, 117, 114, 101, 67,
        104, 97, 116, 34, 58, 102, 97, 108, 115, 101, 125,
    ]
}

const DEBUG_JSON: &str = "{\"version\":{\"name\":\"1.21.2\",\"protocol\":768},\"players\":{\"max\":100,\"online\":5,\"sample\":[{\"name\":\"thinkofdeath\",\"id\":\"4566e69f-c907-48ee-8d71-d7ba5aa00d20\"}]},\"description\":{\"text\":\"Hello, world!\"},\"favicon\":\"data:image/png;base64,<data>\",\"enforcesSecureChat\":false}";

#[test]
fn old_types_debug() {
    let buf: Vec<u8> = debug_status_buffer();
    println!("{:#?}", VarString::decode(&mut VecDeque::from(buf)));
    let mut buf2: Vec<u8> = Vec::new();
    VarString::new(DEBUG_JSON.to_string()).encode(&mut buf2).unwrap();
    println!("{buf2:?}");

    println!(
        "Length is really {:#?}",
        VarInt::decode(&mut VecDeque::from(vec![135, 0, 0, 0, 0, 0, 0, 2]))
    );
}

#[test]
fn types_debug() {
    let buf: Vec<u8> = debug_status_buffer();
    println!("{:#?}", VarString::decode(&mut VecDeque::from(buf)));
    let mut buf2: Vec<u8> = Vec::new();
    VarString::new(DEBUG_JSON.to_string()).encode(&mut buf2).unwrap();
    println!("{buf2:?}");

    println!(
        "Length is really {:#?}",
        VarInt::decode(&mut VecDeque::from(vec![135, 0, 0, 0, 0, 0, 0, 2]))
    );
}

#[test]
fn varint_overflow_rejected() {
    // Five continuation-marked groups never fit 32 bits.
    let bytes: Vec<u8> = vec![0x80, 0x80, 0x80, 0x80, 0x80, 0x01];
    assert_eq!(
        VarInt::decode(&mut VecDeque::from(bytes)),
        Err(DataTypeDecodeError::VarNumberTooBig)
    );
}

#[test]
fn varlong_overflow_rejected() {
    // Ten continuation-marked groups never fit 64 bits.
    let bytes: Vec<u8> = vec![0x80; 11];
    assert_eq!(
        VarLong::decode(&mut VecDeque::from(bytes)),
        Err(DataTypeDecodeError::VarNumberTooBig)
    );
}

#[test]
fn varint_premature_end() {
    let bytes: Vec<u8> = vec![0x80, 0x80];
    assert_eq!(
        VarInt::decode(&mut VecDeque::from(bytes)),
        Err(DataTypeDecodeError::PrematureEndOfVarNumber)
    );
}

#[test]
fn string_round_trip() {
    // Encoding "hello" gives one length byte and five text bytes; decoding
    // them back consumes exactly those six bytes and restores the text.
    let mut buf: Vec<u8> = Vec::new();
    VarString::new("hello".to_string()).encode(&mut buf).unwrap();
    assert_eq!(buf, vec![5, b'h', b'e', b'l', b'l', b'o']);

    buf.push(0xAA); // a trailing byte the decoder must not touch
    let mut deque: VecDeque<u8> = VecDeque::from(buf);
    let decoded: VarString = VarString::decode(&mut deque).unwrap();
    assert_eq!(decoded.get(), "hello".to_string());
    assert_eq!(deque.len(), 1);
}

#[test]
fn varstring_negative_length() {
    // A negative length prefix (VarInt -1) cannot index a buffer.
    let bytes: Vec<u8> = vec![0xff, 0xff, 0xff, 0xff, 0x0f];
    assert_eq!(
        VarString::decode(&mut VecDeque::from(bytes)),
        Err(DataTypeDecodeError::TryFromIntError)
    );
}

#[test]
fn varstring_invalid_utf8() {
    let bytes: Vec<u8> = vec![0x02, 0xff, 0xfe];
    assert_eq!(
        VarString::decode(&mut VecDeque::from(bytes)),
        Err(DataTypeDecodeError::FromUtf8Error)
    );
}

#[test]
fn varstring_short_body() {
    let bytes: Vec<u8> = vec![0x05, b'a'];
    assert_eq!(
        VarString::decode(&mut VecDeque::from(bytes)),
        Err(DataTypeDecodeError::PrematureEndOfVarNumber)
    );
}

#[test]
fn unsigned_short_exact() {
    let mut deque: VecDeque<u8> = VecDeque::from(vec![0x63, 0xdd]);
    assert_eq!(parse_unsigned_short(&mut deque), Ok(25565));

    let mut short: VecDeque<u8> = VecDeque::from(vec![0x63]);
    assert_eq!(
        parse_unsigned_short(&mut short),
        Err(DataTypeDecodeError::PrematureEnd)
    );
}

#[test]
fn byte_codec_exact() {
    let mut deque: VecDeque<u8> = VecDeque::from(vec![0x2a, 0x01]);
    assert_eq!(u8::decode(&mut deque), Ok(0x2a));
    assert_eq!(u8::decode(&mut deque), Ok(0x01));
    assert_eq!(u8::decode(&mut deque), Err(DataTypeDecodeError::PrematureEnd));

    let mut buf: Vec<u8> = Vec::new();
    0x2au8.encode(&mut buf).unwrap();
    0xffu8.encode(&mut buf).unwrap();
    assert_eq!(buf, vec![0x2a, 0xff]);
}

#[test]
fn fixed_width_short_reads() {
    // Fixed-width reads that run short fail with the fixed-width error kind.
    let mut short8: VecDeque<u8> = VecDeque::from(vec![0x01, 0x02, 0x03]);
    assert_eq!(parse_long(&mut short8), Err(DataTypeDecodeError::PrematureEnd));
    assert_eq!(
        i64::decode(&mut VecDeque::from(vec![0x01])),
        Err(DataTypeDecodeError::PrematureEnd)
    );
}

#[test]
fn long_codec_round_trip() {
    let mut buf: Vec<u8> = Vec::new();
    (-2i64).encode(&mut buf).unwrap();
    assert_eq!(
        buf,
        vec![0xff, 0xff, 0xff, 0xff, 0xff, 0xff, 0xff, 0xfe]
    );
    assert_eq!(i64::decode(&mut VecDeque::from(buf)), Ok(-2));
}

#[test]
fn short_codec_round_trip() {
    let mut buf: Vec<u8> = Vec::new();
    25565u16.encode(&mut buf).unwrap();
    assert_eq!(buf, vec![0x63, 0xdd]);
    assert_eq!(u16::decode(&mut VecDeque::from(buf)), Ok(25565));
}
