use airi_protocol::codegen::{
    assign_property_enum, block_id, block_type_name, direction_key, packet_key, property_enum_type_name,
    property_field_name, protocol_id, record_packet_name, same_strings, state_variant_name,
    new_packet_table, PacketTable, PropertyEntries,
};
use airi_protocol::derive::{read_variant, variant_for_number, variant_numbers};
use airi_protocol::error::ReadingError;
use airi_protocol::logging::{level_enabled, LogLevel};

#[test]
fn variants_are_numbered_by_position() {
    assert_eq!(variant_numbers(&vec![None, None, None]), Ok(vec![0, 1, 2]));
    assert_eq!(variant_numbers(&vec![]), Ok(vec![]));
}

#[test]
fn a_requested_number_shifts_the_rest() {
    assert_eq!(variant_numbers(&vec![None, Some(5), None]), Ok(vec![0, 5, 6]));
    assert_eq!(
        variant_numbers(&vec![None, Some(3), None, Some(10), None]),
        Ok(vec![0, 3, 4, 10, 11])
    );
}

#[test]
fn a_requested_number_must_pass_the_position() {
    assert_eq!(variant_numbers(&vec![Some(0)]), Err(0));
    assert_eq!(variant_numbers(&vec![None, Some(1)]), Err(1));
    assert_eq!(variant_numbers(&vec![None, Some(0), Some(0)]), Err(1));
}

#[test]
fn a_lower_request_can_repeat_a_number() {
    let numbers = variant_numbers(&vec![Some(5), None, Some(6)]).unwrap();
    assert_eq!(numbers, vec![5, 6, 6]);
    assert_eq!(variant_for_number(&numbers, 6), Some(1));
}

#[test]
fn each_number_reads_back_as_its_variant() {
    let numbers = variant_numbers(&vec![None, Some(4), None, None, Some(9)]).unwrap();
    for (i, n) in numbers.iter().enumerate() {
        assert_eq!(variant_for_number(&numbers, *n), Some(i));
        assert_eq!(read_variant(&numbers, *n, "Kind").unwrap(), i);
    }
    assert_eq!(variant_for_number(&numbers, 1), None);
}

#[test]
fn unknown_numbers_are_refused_by_name() {
    match read_variant(&vec![0, 1, 2], 5, "Intent") {
        Err(ReadingError::Message(m)) => assert_eq!(m, "invalid Intent enum index: 5"),
        other => panic!("unexpected {:?}", other),
    }
}

#[test]
fn block_ids_drop_the_namespace() {
    assert_eq!(block_id("block.minecraft.stone"), Some(".stone"));
    assert_eq!(block_id("block.minecraft"), Some(""));
    assert_eq!(block_id("item.minecraft.stone"), None);
    assert_eq!(block_id("block"), None);
}

#[test]
fn state_names() {
    assert_eq!(state_variant_name("north"), "North");
    assert_eq!(state_variant_name("lower_half"), "LowerHalf");
    assert_eq!(state_variant_name("1"), "Num1");
    assert_eq!(state_variant_name("15"), "Num15");
    assert_eq!(property_enum_type_name("facingChest"), "FacingChest");
    assert_eq!(property_enum_type_name(".oak_log"), "OakLog");
}

#[test]
fn type_is_a_keyword() {
    assert_eq!(property_field_name("type"), "ty");
    assert_eq!(property_field_name("facing"), "facing");
    assert_eq!(property_field_name("types"), "types");
}

fn strings(v: &[&str]) -> Vec<String> {
    v.iter().map(|s| s.to_string()).collect()
}

#[test]
fn property_enums_are_shared_by_equal_states() {
    let mut entries: PropertyEntries = Vec::new();
    let ns = strings(&["north", "south"]);
    assert_eq!(assign_property_enum(&mut entries, "facing", &ns, "Chest"), "facing");
    assert_eq!(assign_property_enum(&mut entries, "facing", &ns, "Barrel"), "facing");
    assert_eq!(entries.len(), 1);
    let ud = strings(&["up", "down"]);
    assert_eq!(assign_property_enum(&mut entries, "facing", &ud, "Hopper"), "facingHopper");
    assert_eq!(entries.len(), 2);
    assert_eq!(assign_property_enum(&mut entries, "facing", &ud, "Piston"), "facingHopper");
    assert_eq!(entries[1].0, ud);
    assert_eq!(entries[1].1, "facingHopper");
}

#[test]
fn string_lists_compare_in_order() {
    assert!(same_strings(&strings(&["a", "b"]), &strings(&["a", "b"])));
    assert!(!same_strings(&strings(&["a", "b"]), &strings(&["b", "a"])));
    assert!(!same_strings(&strings(&["a"]), &strings(&["a", "b"])));
}

#[test]
fn packet_lookups() {
    assert_eq!(direction_key("Clientbound"), Some("clientbound".to_string()));
    assert_eq!(direction_key("Serverbound"), Some("serverbound".to_string()));
    assert_eq!(direction_key("clientbound"), None);
    assert_eq!(packet_key("login_start"), "minecraft:login_start");
    assert_eq!(protocol_id(Some(5)), Some(5));
    assert_eq!(protocol_id(Some(-7)), Some(-7));
    assert_eq!(protocol_id(Some(1 << 40)), None);
    assert_eq!(protocol_id(None), None);
}

#[test]
fn trace_records_are_not_printed() {
    assert!(level_enabled(LogLevel::Error));
    assert!(level_enabled(LogLevel::Warn));
    assert!(level_enabled(LogLevel::Info));
    assert!(level_enabled(LogLevel::Debug));
    assert!(!level_enabled(LogLevel::Trace));
}

fn names(entries: &PacketTable) -> Vec<&str> {
    entries.keys().map(|k| k.as_str()).collect()
}

#[test]
fn packet_names_are_recorded_in_order() {
    let mut entries: PacketTable = new_packet_table();
    assert!(record_packet_name(&mut entries, "login".to_string(), "clientbound", "login", 2, 8));
    assert!(record_packet_name(&mut entries, "disconnect".to_string(), "clientbound", "login", 0, 8));
    assert_eq!(names(&entries), vec!["login", "disconnect"]);
    assert_eq!(entries[0], ("clientbound".to_string(), "login".to_string(), 2));
}

#[test]
fn clashing_names_of_one_direction_take_their_states() {
    let mut entries: PacketTable = new_packet_table();
    assert!(record_packet_name(&mut entries, "a".to_string(), "clientbound", "status", 9, 8));
    assert!(record_packet_name(&mut entries, "ping".to_string(), "clientbound", "play", 5, 8));
    assert!(record_packet_name(&mut entries, "b".to_string(), "clientbound", "status", 8, 8));
    assert!(record_packet_name(
        &mut entries,
        "ping".to_string(),
        "clientbound",
        "configuration",
        3,
        8
    ));
    assert_eq!(names(&entries), vec!["a", "b", "ping_play", "ping_configuration"]);
    assert_eq!(entries[2].2, 5);
    assert_eq!(entries[3].2, 3);
}

#[test]
fn clashing_names_of_two_directions_take_their_directions() {
    let mut entries: PacketTable = new_packet_table();
    assert!(record_packet_name(&mut entries, "keep_alive".to_string(), "clientbound", "play", 1, 8));
    assert!(record_packet_name(&mut entries, "keep_alive".to_string(), "serverbound", "play", 2, 8));
    assert_eq!(
        names(&entries),
        vec!["clientbound_keep_alive", "serverbound_keep_alive"]
    );
}

#[test]
fn names_that_never_part_run_out_of_steps() {
    let mut entries: PacketTable = new_packet_table();
    assert!(record_packet_name(&mut entries, "x".to_string(), "clientbound", "play", 1, 8));
    assert!(!record_packet_name(&mut entries, "x".to_string(), "clientbound", "play", 2, 8));
    assert_eq!(names(&entries), vec!["x"]);
    assert_eq!(entries[0], ("clientbound".to_string(), "play".to_string(), 1));
}

#[test]
fn distinct_packets_can_still_clash_for_ever() {
    let mut entries: PacketTable = new_packet_table();
    assert!(record_packet_name(&mut entries, "x_play".to_string(), "clientbound", "play", 1, 32));
    assert!(record_packet_name(&mut entries, "x".to_string(), "clientbound", "configuration", 2, 32));
    assert!(!record_packet_name(&mut entries, "x".to_string(), "clientbound", "play", 3, 32));
    assert_eq!(names(&entries), vec!["x_play", "x"]);
}

#[test]
fn a_larger_renaming_budget_changes_nothing() {
    let mut small: PacketTable = new_packet_table();
    let mut large: PacketTable = new_packet_table();
    assert!(record_packet_name(&mut small, "ping".to_string(), "clientbound", "status", 1, 3));
    assert!(record_packet_name(&mut small, "ping".to_string(), "serverbound", "status", 2, 3));
    assert!(record_packet_name(&mut large, "ping".to_string(), "clientbound", "status", 1, 64));
    assert!(record_packet_name(&mut large, "ping".to_string(), "serverbound", "status", 2, 64));
    assert_eq!(names(&small), names(&large));
    assert_eq!(small, large);
}

#[test]
fn a_free_name_is_recorded_last() {
    let mut entries: PacketTable = new_packet_table();
    assert!(record_packet_name(&mut entries, "pong".to_string(), "clientbound", "status", 1, 1));
    assert!(record_packet_name(&mut entries, "ack".to_string(), "serverbound", "play", 7, 1));
    assert_eq!(names(&entries), vec!["pong", "ack"]);
    assert_eq!(entries[1], ("serverbound".to_string(), "play".to_string(), 7));
}

#[test]
fn same_direction_and_state_never_part_whatever_the_budget() {
    let mut entries: PacketTable = new_packet_table();
    assert!(record_packet_name(&mut entries, "ping".to_string(), "serverbound", "play", 1, 1));
    assert!(!record_packet_name(&mut entries, "ping".to_string(), "serverbound", "play", 2, 200));
    assert_eq!(names(&entries), vec!["ping"]);
}

#[test]
fn block_type_names_are_upper_camel_case_ids() {
    assert_eq!(block_type_name("block.minecraft.oak_log"), Some("OakLog".to_string()));
    assert_eq!(block_type_name("item.minecraft.stick"), None);
}
