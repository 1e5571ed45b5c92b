use airi_protocol::bytes::decimal_string;
use airi_protocol::containers::{LenPrefixedBytes, StaticLenBytes, UnsizedBytes};
use airi_protocol::error::{IoErrorKind, ReadingError, WritingError};
use airi_protocol::serial::{Lengthable, Serializable};
use airi_protocol::varint::{VarInt, VarIntReader, VarIntStep, VarLong};
use std::io::Read;

fn write<T: Serializable>(v: &T) -> Vec<u8> {
    let mut buf = Vec::new();
    v.write_to(&mut buf).expect("write failed");
    buf
}

const VARINT_CASES: &[(i32, &[u8])] = &[
    (0, &[0x00]),
    (1, &[0x01]),
    (2, &[0x02]),
    (127, &[0x7f]),
    (128, &[0x80, 0x01]),
    (255, &[0xff, 0x01]),
    (25565, &[0xdd, 0xc7, 0x01]),
    (2097151, &[0xff, 0xff, 0x7f]),
    (2147483647, &[0xff, 0xff, 0xff, 0xff, 0x07]),
    (-1, &[0xff, 0xff, 0xff, 0xff, 0x0f]),
    (-2147483648, &[0x80, 0x80, 0x80, 0x80, 0x08]),
];

#[test]
fn varint_writes_known_bytes() {
    for (value, bytes) in VARINT_CASES {
        assert_eq!(write(&VarInt(*value)), bytes.to_vec(), "value {}", value);
    }
}

#[test]
fn varint_reads_known_bytes() {
    for (value, bytes) in VARINT_CASES {
        let (v, n) = VarInt::read_from(bytes).expect("read failed");
        assert_eq!(v.0, *value);
        assert_eq!(n, bytes.len());
    }
}

#[test]
fn varint_written_size_matches_bytes() {
    for (value, bytes) in VARINT_CASES {
        assert_eq!(VarInt(*value).written_size(), bytes.len(), "value {}", value);
    }
    assert_eq!(VarInt(-1).written_size(), 5);
    assert_eq!(VarInt(16384).written_size(), 3);
    assert_eq!(VarInt(16383).written_size(), 2);
}

#[test]
fn varint_read_leaves_following_bytes() {
    let data = [0xdd, 0xc7, 0x01, 0x42, 0x43];
    let (v, n) = VarInt::read_from(&data).unwrap();
    assert_eq!(v.0, 25565);
    assert_eq!(n, 3);
}

#[test]
fn varint_too_long_is_too_large() {
    let data = [0xff, 0xff, 0xff, 0xff, 0xff, 0x01];
    assert!(matches!(VarInt::read_from(&data), Err(ReadingError::TooLarge(_))));
}

#[test]
fn varint_cut_short_is_eof() {
    assert!(matches!(
        VarInt::read_from(&[0x80, 0x80]),
        Err(ReadingError::IoError(IoErrorKind::UnexpectedEof))
    ));
    assert!(matches!(
        VarInt::read_from(&[]),
        Err(ReadingError::IoError(IoErrorKind::UnexpectedEof))
    ));
}

#[test]
fn varint_conversions() {
    let v: VarInt = 42.into();
    assert_eq!(v.0, 42);
    let t: Result<VarInt, _> = VarInt::try_from(7usize);
    assert_eq!(t.unwrap().0, 7);
    assert!(VarInt::try_from(3_000_000_000usize).is_err());
    assert_eq!(VarInt::from_len(300).0, 300);
    assert_eq!(VarInt(300).into_len(), 300);
}

#[test]
fn varint_reader_feeds_bytes() {
    let mut reader = VarIntReader::new();
    let mut result = None;
    for b in [0xdd, 0xc7, 0x01] {
        match reader.feed(b) {
            VarIntStep::More(next) => reader = next,
            VarIntStep::Done(v) => {
                result = Some(v.0);
                break;
            }
            VarIntStep::Failed(_) => panic!("failed"),
        }
    }
    assert_eq!(result, Some(25565));
}

#[test]
fn varint_reader_fails_on_sixth_byte() {
    let mut reader = VarIntReader::new();
    let mut failed = false;
    for b in [0xff, 0xff, 0xff, 0xff, 0xff] {
        match reader.feed(b) {
            VarIntStep::More(next) => reader = next,
            VarIntStep::Done(_) => panic!("done"),
            VarIntStep::Failed(e) => {
                assert!(matches!(e, ReadingError::TooLarge(_)));
                failed = true;
                break;
            }
        }
    }
    assert!(failed);
}

#[test]
fn varint_reader_failure_kinds() {
    let reader = VarIntReader::new();
    assert!(matches!(
        reader.read_failed(true, "x".to_string()),
        ReadingError::CleanEOF(_)
    ));
    let reader = match VarIntReader::new().feed(0x80) {
        VarIntStep::More(r) => r,
        _ => panic!("expected more"),
    };
    match reader.read_failed(true, "early eof".to_string()) {
        ReadingError::Incomplete(m) => assert_eq!(m, "early eof"),
        other => panic!("unexpected {:?}", other),
    }
}

#[test]
fn varint_async_form_matches_for_non_negative() {
    for (value, bytes) in VARINT_CASES {
        if *value >= 0 {
            let mut buf = Vec::new();
            VarInt(*value).write_to_async(&mut buf);
            assert_eq!(buf, bytes.to_vec(), "value {}", value);
        }
    }
}

#[test]
fn varint_async_form_of_negative_is_the_usual_one() {
    for (value, bytes) in VARINT_CASES {
        let mut buf = Vec::new();
        VarInt(*value).write_to_async(&mut buf);
        assert_eq!(buf, bytes.to_vec(), "value {}", value);
    }
    let mut buf = Vec::new();
    VarInt(-1).write_to_async(&mut buf);
    assert_eq!(buf, vec![0xff, 0xff, 0xff, 0xff, 0x0f]);
}

const VARLONG_CASES: &[&[u8]] = &[
    &[0x00],
    &[0x01],
    &[0x7f],
    &[0x80, 0x01],
    &[0xff, 0x01],
    &[0xff, 0xff, 0xff, 0xff, 0x07],
    &[0xff, 0xff, 0xff, 0xff, 0xff, 0xff, 0xff, 0xff, 0x7f],
    &[0xff, 0xff, 0xff, 0xff, 0xff, 0xff, 0xff, 0xff, 0xff, 0x01],
    &[0x80, 0x80, 0x80, 0x80, 0xf8, 0xff, 0xff, 0xff, 0xff, 0x01],
    &[0x80, 0x80, 0x80, 0x80, 0x80, 0x80, 0x80, 0x80, 0x80, 0x01],
];

#[test]
fn varlong_reads_and_writes_back() {
    for bytes in VARLONG_CASES {
        let (v, n) = VarLong::read_from(bytes).expect("read failed");
        assert_eq!(n, bytes.len());
        assert_eq!(write(&v), bytes.to_vec());
    }
}

#[test]
fn varlong_too_long_is_an_error() {
    let data = [0xff; 11];
    assert!(VarLong::read_from(&data).is_err());
}

#[test]
fn fixed_width_integers_are_big_endian() {
    assert_eq!(write(&0x1234u16), vec![0x12, 0x34]);
    assert_eq!(write(&0x12345678u32), vec![0x12, 0x34, 0x56, 0x78]);
    assert_eq!(
        write(&0x0102030405060708u64),
        vec![1, 2, 3, 4, 5, 6, 7, 8]
    );
    assert_eq!(write(&-2i16), vec![0xff, 0xfe]);
    assert_eq!(write(&-1i32), vec![0xff; 4]);
    assert_eq!(write(&i64::MIN), vec![0x80, 0, 0, 0, 0, 0, 0, 0]);
    assert_eq!(write(&1u128), {
        let mut v = vec![0u8; 15];
        v.push(1);
        v
    });
    assert_eq!(write(&0xabu8), vec![0xab]);
    assert_eq!(write(&-3i8), vec![0xfd]);
}

#[test]
fn fixed_width_integers_read_back() {
    assert_eq!(u16::read_from(&[0x12, 0x34]).unwrap(), (0x1234, 2));
    assert_eq!(u32::read_from(&[0, 0, 1, 0, 9]).unwrap(), (256, 4));
    assert_eq!(i32::read_from(&[0xff, 0xff, 0xff, 0xfe]).unwrap(), (-2, 4));
    assert_eq!(i64::read_from(&[0xff; 8]).unwrap(), (-1, 8));
    assert_eq!(i16::read_from(&[0x80, 0x00]).unwrap(), (i16::MIN, 2));
    assert_eq!(u64::read_from(&[0, 0, 0, 0, 0, 0, 0, 5]).unwrap(), (5, 8));
    assert_eq!(u128::read_from(&[0xff; 16]).unwrap(), (u128::MAX, 16));
    assert_eq!(i8::read_from(&[0xff]).unwrap(), (-1, 1));
    assert_eq!(u8::read_from(&[7, 8]).unwrap(), (7, 1));
}

#[test]
fn short_input_is_eof() {
    assert!(matches!(
        u32::read_from(&[1, 2, 3]),
        Err(ReadingError::IoError(IoErrorKind::UnexpectedEof))
    ));
    assert!(matches!(
        u8::read_from(&[]),
        Err(ReadingError::IoError(IoErrorKind::UnexpectedEof))
    ));
    assert!(matches!(
        bool::read_from(&[]),
        Err(ReadingError::IoError(IoErrorKind::UnexpectedEof))
    ));
}

#[test]
fn bools_are_one_byte() {
    assert_eq!(write(&true), vec![1]);
    assert_eq!(write(&false), vec![0]);
    assert_eq!(bool::read_from(&[0]).unwrap(), (false, 1));
    assert_eq!(bool::read_from(&[1]).unwrap(), (true, 1));
    assert_eq!(bool::read_from(&[2]).unwrap(), (true, 1));
    assert!(bool::from_len(1));
    assert_eq!(true.into_len(), 1);
    assert_eq!(false.into_len(), 0);
}

#[test]
fn unit_takes_no_bytes() {
    assert_eq!(write(&()), Vec::<u8>::new());
    assert_eq!(<()>::read_from(&[1, 2]).unwrap(), ((), 0));
}

#[test]
fn small_lengths() {
    assert_eq!(u8::from_len(200), 200);
    assert_eq!(200u8.into_len(), 200);
    assert_eq!(i8::from_len(5), 5);
    assert_eq!(5i8.into_len(), 5);
}

#[test]
fn strings_are_length_prefixed_utf8() {
    assert_eq!(write(&"hi".to_string()), vec![2, b'h', b'i']);
    assert_eq!(write(&String::new()), vec![0]);
    let umlaut = "\u{e4}".to_string();
    assert_eq!(write(&umlaut), vec![2, 0xc3, 0xa4]);
    let (s, n) = String::read_from(&[3, b'a', b'b', b'c', b'd']).unwrap();
    assert_eq!(s, "abc");
    assert_eq!(n, 4);
}

#[test]
fn string_roundtrip() {
    let s = "localhost \u{1F600}".to_string();
    let bytes = write(&s);
    let (back, n) = String::read_from(&bytes).unwrap();
    assert_eq!(back, s);
    assert_eq!(n, bytes.len());
}

#[test]
fn string_too_long_is_refused() {
    let long = "a".repeat(32768);
    let mut buf = Vec::new();
    match long.write_to(&mut buf) {
        Err(WritingError::Message(m)) => assert_eq!(m, "Invalid string size: 32768"),
        other => panic!("unexpected {:?}", other),
    }
    assert!(buf.is_empty());
    let ok = "a".repeat(32767);
    assert_eq!(write(&ok).len(), 32767 + 3);
}

#[test]
fn string_length_over_limit_is_a_message() {
    let data = [0x80, 0x80, 0x02];
    match String::read_from(&data) {
        Err(ReadingError::Message(m)) => assert_eq!(m, "Invalid string size"),
        other => panic!("unexpected {:?}", other),
    }
}

#[test]
fn string_with_bad_utf8_is_utf8_error() {
    assert!(matches!(
        String::read_from(&[2, 0xff, 0xfe]),
        Err(ReadingError::Utf8Error(_))
    ));
}

#[test]
fn string_shorter_than_its_length_is_eof() {
    assert!(matches!(
        String::read_from(&[5, b'a', b'b']),
        Err(ReadingError::IoError(IoErrorKind::UnexpectedEof))
    ));
}

#[test]
fn options_carry_a_flag() {
    assert_eq!(write(&Some(5u8)), vec![1, 5]);
    assert_eq!(write(&Option::<u8>::None), vec![0]);
    assert_eq!(Option::<u8>::read_from(&[1, 9]).unwrap(), (Some(9), 2));
    assert_eq!(Option::<u8>::read_from(&[0, 9]).unwrap(), (None, 1));
    assert!(Option::<u16>::read_from(&[1, 9]).is_err());
}

#[test]
fn boxes_and_triples() {
    assert_eq!(write(&Box::new(0x0102u16)), vec![1, 2]);
    let (b, n) = Box::<u16>::read_from(&[1, 2]).unwrap();
    assert_eq!(*b, 0x0102);
    assert_eq!(n, 2);
    let t = (1u8, true, 0x0304u16);
    assert_eq!(write(&t), vec![1, 1, 3, 4]);
    let (back, n) = <(u8, bool, u16)>::read_from(&[1, 1, 3, 4]).unwrap();
    assert_eq!(back, t);
    assert_eq!(n, 4);
}

#[test]
fn len_prefixed_bytes() {
    let b: LenPrefixedBytes<VarInt> = LenPrefixedBytes::new(vec![9, 8, 7]);
    assert_eq!(write(&b), vec![3, 9, 8, 7]);
    let b: LenPrefixedBytes<u8> = vec![1, 2].into();
    assert_eq!(write(&b), vec![2, 1, 2]);
    let (back, n) = LenPrefixedBytes::<VarInt>::read_from(&[2, 5, 6, 7]).unwrap();
    assert_eq!(back.data, vec![5, 6]);
    assert_eq!(n, 3);
    assert_eq!(back.describe(), "LenPrefixedBytes (2 bytes)");
    assert!(matches!(
        LenPrefixedBytes::<VarInt>::read_from(&[3, 5, 6]),
        Err(ReadingError::IoError(IoErrorKind::UnexpectedEof))
    ));
}

#[test]
fn len_prefixed_bytes_read_back_with_each_prefix() {
    let data = vec![7u8; 200];
    let mut buf = Vec::new();
    LenPrefixedBytes::<u8>::new(data.clone()).write_to(&mut buf).unwrap();
    assert_eq!(buf.len(), 201);
    buf.push(99);
    let (back, n) = LenPrefixedBytes::<u8>::read_from(&buf).unwrap();
    assert_eq!((back.data, n), (data, 201));
    let data = vec![1u8, 2, 3];
    let mut buf = Vec::new();
    LenPrefixedBytes::<i8>::new(data.clone()).write_to(&mut buf).unwrap();
    assert_eq!(buf, vec![3, 1, 2, 3]);
    let (back, n) = LenPrefixedBytes::<i8>::read_from(&buf).unwrap();
    assert_eq!((back.data, n), (data, 4));
}

#[test]
fn static_len_bytes() {
    let (s, n) = StaticLenBytes::<4>::read_from(&[1, 2, 3, 4, 5]).unwrap();
    assert_eq!(n, 4);
    assert_eq!(write(&s), vec![1, 2, 3, 4]);
    let (short, n) = StaticLenBytes::<4>::read_from(&[1, 2]).unwrap();
    assert_eq!(n, 2);
    let mut buf = Vec::new();
    match short.write_to(&mut buf) {
        Err(WritingError::Message(m)) => assert_eq!(m, "wrong static len bytes length: 4"),
        other => panic!("unexpected {:?}", other),
    }
}

#[test]
fn unsized_bytes_take_the_rest() {
    let (u, n) = UnsizedBytes::read_from(&[1, 2, 3]).unwrap();
    assert_eq!(u.0, vec![1, 2, 3]);
    assert_eq!(n, 3);
    assert_eq!(write(&u), vec![1, 2, 3]);
    assert_eq!(u.describe(), "UnsizedBytes (3 bytes)");
}

#[test]
fn error_texts() {
    let mut two = [0u8; 2];
    let eof = (&[1u8][..]).read_exact(&mut two).unwrap_err();
    assert_eq!(
        ReadingError::IoError(IoErrorKind::UnexpectedEof).describe(),
        format!("IO error: {}", eof)
    );
    assert_eq!(
        ReadingError::CleanEOF("VarInt".to_string()).describe(),
        "EOF, Tried to read VarInt but No bytes left to consume"
    );
    assert_eq!(ReadingError::Incomplete("x".to_string()).describe(), "incomplete: x");
    assert_eq!(ReadingError::TooLarge("VarInt".to_string()).describe(), "too large: VarInt");
    assert_eq!(ReadingError::Message("m".to_string()).describe(), "m");
    assert_eq!(ReadingError::Serde("s".to_string()).describe(), "serde failure: s");
    match String::read_from(&[1, 0xff]) {
        Err(e) => {
            let text = e.describe();
            assert!(text.starts_with("utf8 decode error: "));
            assert!(text.len() > "utf8 decode error: ".len());
        }
        other => panic!("unexpected {:?}", other),
    }
    assert_eq!(
        WritingError::Message("m".to_string()).describe(),
        "Failed to serialize packet: m"
    );
    assert_eq!(WritingError::Serde("s".to_string()).describe(), "Serde failure: s");
}

#[test]
fn decimal_strings_match_format() {
    for n in [0u64, 7, 10, 99, 100, 1234567890, u64::MAX] {
        assert_eq!(decimal_string(n), format!("{}", n));
    }
}
