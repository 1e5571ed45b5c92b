use airi_protocol::arrays::{IdOrX, IdSet, PrefixedArray};
use airi_protocol::entities::EntityTable;
use airi_protocol::error::ReadingError;
use airi_protocol::serial::Serializable;
use airi_protocol::text::{Color, NamedColor, RGBColor};
use airi_protocol::types::{Angle, Position, Vec3, Vec4};
use airi_protocol::uuid::{UUIDParseError, UUID};
use airi_protocol::varint::VarInt;

fn write<T: Serializable>(v: &T) -> Vec<u8> {
    let mut buf = Vec::new();
    v.write_to(&mut buf).expect("write failed");
    buf
}

#[test]
fn position_packs_into_one_long() {
    let bytes = [0x00, 0x00, 0x00, 0x40, 0x00, 0x00, 0x30, 0x02];
    let (p, n) = Position::read_from(&bytes).unwrap();
    assert_eq!(n, 8);
    assert_eq!(write(&p), bytes.to_vec());
}

#[test]
fn position_bits_survive_a_read_and_a_write() {
    for bytes in [
        [0xff; 8],
        [0x12, 0x34, 0x56, 0x78, 0x9a, 0xbc, 0xde, 0xf0],
        [0; 8],
    ] {
        let (p, _) = Position::read_from(&bytes).unwrap();
        assert_eq!(write(&p), bytes.to_vec());
    }
}

#[test]
fn position_fields_are_signed() {
    let (p, n) = Position::read_from(&[0x46, 0x07, 0x63, 0x2C, 0x15, 0xB4, 0x83, 0x3F]).unwrap();
    assert_eq!(n, 8);
    assert_eq!(format!("{:?}", p), "Position { x: 18357644, y: 831, z: -20882616 }");
    let (p, _) = Position::read_from(&[0xff; 8]).unwrap();
    assert_eq!(format!("{:?}", p), "Position { x: -1, y: -1, z: -1 }");
}

#[test]
fn position_needs_eight_bytes() {
    assert!(matches!(Position::read_from(&[0; 7]), Err(ReadingError::IoError(_))));
}

#[test]
fn angle_is_one_byte() {
    let (a, n) = Angle::read_from(&[0x80, 1]).unwrap();
    assert_eq!(n, 1);
    assert_eq!(write(&a), vec![0x80]);
}

#[test]
fn uuid_parses_its_five_groups() {
    let u = UUID::parse("01234567-89ab-cdef-0011-223344556677").unwrap();
    assert_eq!(u.0, 0x0123456789abcdef0011223344556677);
    let v: UUID = "00000000-0000-0000-0000-00000000002a".parse().unwrap();
    assert_eq!(v.0, 42);
}

#[test]
fn uuid_parse_skips_the_separators() {
    let u = UUID::parse("01234567x89abxcdefx0011x223344556677").unwrap();
    assert_eq!(u.0, 0x0123456789abcdef0011223344556677);
}

#[test]
fn uuid_parse_refuses_bad_text() {
    assert!(matches!(UUID::parse("0123"), Err(UUIDParseError)));
    assert!(UUID::parse("0123456g-89ab-cdef-0011-223344556677").is_err());
    assert!(UUID::parse("").is_err());
}

#[test]
fn uuid_text_puts_hyphens_after_nine_digits() {
    assert_eq!(
        UUID(0x0123456789abcdef0011223344556677).to_text(),
        "012345678-9abc-def0-0112-23344556677"
    );
    assert_eq!(UUID(1).to_text(), "000000000-0000-0000-0000-00000000001");
}

#[test]
fn uuid_is_sixteen_bytes() {
    let mut expected = vec![0u8; 15];
    expected.push(42);
    assert_eq!(write(&UUID(42)), expected);
    let (u, n) = UUID::read_from(&expected).unwrap();
    assert_eq!(u.0, 42);
    assert_eq!(n, 16);
}

#[test]
fn prefixed_arrays_count_their_items() {
    let a = PrefixedArray::new(vec![VarInt(1), VarInt(300)]);
    assert_eq!(write(&a), vec![2, 1, 0xac, 0x02]);
    let (back, n) = PrefixedArray::<VarInt>::read_from(&[2, 1, 0xac, 0x02, 9]).unwrap();
    assert_eq!(n, 4);
    assert_eq!(back.data.len(), 2);
    assert_eq!(back.data[1].0, 300);
}

#[test]
fn prefixed_array_missing_items_is_an_error() {
    assert!(PrefixedArray::<u8>::read_from(&[3, 1, 2]).is_err());
}

#[test]
fn id_sets_by_tag_and_by_ids() {
    let tag = IdSet::ByTag { tag_name: "logs".to_string() };
    assert_eq!(write(&tag), vec![0, 4, b'l', b'o', b'g', b's']);
    let ids = IdSet::IdArray(vec![VarInt(5), VarInt(6)]);
    assert_eq!(write(&ids), vec![3, 5, 6]);
    match IdSet::read_from(&[3, 5, 6]).unwrap() {
        (IdSet::IdArray(v), 3) => {
            assert_eq!(v.len(), 2);
            assert_eq!(v[0].0, 5);
            assert_eq!(v[1].0, 6);
        }
        other => panic!("unexpected {:?}", other),
    }
    match IdSet::read_from(&[0, 1, b'x']).unwrap() {
        (IdSet::ByTag { tag_name }, 3) => assert_eq!(tag_name, "x"),
        other => panic!("unexpected {:?}", other),
    }
}

#[test]
fn id_set_with_negative_count_is_empty() {
    match IdSet::read_from(&[0xff, 0xff, 0xff, 0xff, 0x0f]).unwrap() {
        (IdSet::IdArray(v), 5) => assert!(v.is_empty()),
        other => panic!("unexpected {:?}", other),
    }
}

#[test]
fn id_or_value() {
    assert_eq!(write(&IdOrX::<u8>::Id(VarInt(4))), vec![5]);
    assert_eq!(write(&IdOrX::<u8>::X(7)), vec![0, 7]);
    match IdOrX::<u8>::read_from(&[5]).unwrap() {
        (IdOrX::Id(v), 1) => assert_eq!(v.0, 4),
        other => panic!("unexpected {:?}", other),
    }
    match IdOrX::<u8>::read_from(&[0, 7]).unwrap() {
        (IdOrX::X(v), 2) => assert_eq!(v, 7),
        other => panic!("unexpected {:?}", other),
    }
}

#[test]
fn id_minus_one_is_written_as_a_value_marker() {
    assert_eq!(write(&IdOrX::<u8>::Id(VarInt(-1))), vec![0]);
}

#[test]
fn colors() {
    assert_eq!(Color::default(), Color::Reset);
    let c = Color::Rgb(RGBColor { r: 1, g: 2, b: 3 });
    assert_ne!(c, Color::Named(NamedColor::White));
}

#[test]
fn vectors_write_their_values_in_order() {
    let v = Vec3 { x: 1i16, y: -2, z: 3 };
    assert_eq!(write(&v), vec![0, 1, 0xff, 0xfe, 0, 3]);
    let (back, n) = Vec3::<i16>::read_from(&[0, 1, 0xff, 0xfe, 0, 3, 9]).unwrap();
    assert_eq!((back.x, back.y, back.z, n), (1, -2, 3, 6));
    let (w, n) = Vec4::<u8>::read_from(&[1, 2, 3, 4, 5]).unwrap();
    assert_eq!(n, 4);
    assert_eq!(write(&w), vec![1, 2, 3, 4]);
    assert!(Vec4::<u16>::read_from(&[1, 2, 3, 4, 5, 6, 7]).is_err());
}

#[test]
fn entities_are_tracked_by_id() {
    let angle = |b: u8| Angle::read_from(&[b]).unwrap().0;
    let mut table = EntityTable::new();
    assert!(table.get(7).is_none());
    assert!(!table.moved(7, true));
    table.spawn(7, UUID(5), 12, angle(1), angle(2), angle(3));
    let e = table.get(7).unwrap();
    assert_eq!((e.uuid, e.ty, e.on_ground), (UUID(5), 12, false));
    assert!(table.moved(7, true));
    assert!(table.get(7).unwrap().on_ground);
    assert!(table.rotated(7, angle(9), angle(8)));
    let e = table.get(7).unwrap();
    assert_eq!(write(&e.yaw), vec![9]);
    assert_eq!(write(&e.pitch), vec![8]);
    assert!(table.head_rotated(7, angle(4)));
    assert_eq!(write(&table.get(7).unwrap().head_yaw), vec![4]);
    assert!(table.moved_and_rotated(7, false, angle(1), angle(1)));
    let e = table.get(7).unwrap();
    assert!(!e.on_ground);
    assert_eq!(write(&e.yaw), vec![1]);
    assert!(!table.head_rotated(8, angle(4)));
}
