use airi_protocol::error::ReadingError;
use airi_protocol::json::{read_json, write_json};

fn string_bytes(text: &str) -> Vec<u8> {
    let mut out = vec![text.len() as u8];
    out.extend_from_slice(text.as_bytes());
    out
}

#[test]
fn json_text_is_read_from_a_string() {
    let mut data = string_bytes("{\"a\":[1,true]}");
    data.push(0x42);
    let (value, n) = read_json(&data).expect("read failed");
    assert_eq!(n, data.len() - 1);
    assert_eq!(value["a"][0], 1);
    assert_eq!(value["a"][1], true);
}

#[test]
fn invalid_json_text_is_a_serde_error() {
    let data = string_bytes("{not json");
    assert!(matches!(read_json(&data), Err(ReadingError::Serde(_))));
}

#[test]
fn json_text_cut_short_is_an_io_error() {
    let data = vec![5u8, b'{', b'}'];
    assert!(matches!(read_json(&data), Err(ReadingError::IoError(_))));
}

#[test]
fn json_values_are_written_as_their_text() {
    let value: serde_json::Value = serde_json::from_str("{\"k\":\"v\"}").unwrap();
    let mut buf = vec![7u8];
    write_json(&value, &mut buf).expect("write failed");
    assert_eq!(buf, [vec![7u8], string_bytes("{\"k\":\"v\"}")].concat());
    let (back, n) = read_json(&buf[1..]).expect("read failed");
    assert_eq!(back, value);
    assert_eq!(n, buf.len() - 1);
}
