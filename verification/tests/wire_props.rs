use edda::ident::parse_identity;
use edda::ident::get_curent_timestamp;
use edda::packet::Packet;
use edda::wire::serialize_packet;

#[test]
fn delivery_text_is_exact() {
    let mut p = Packet::build(
        0,
        5,
        String::from("orders"),
        String::from("{\"id\":1}"),
        1,
        1,
        0,
    );
    p.assign_destination(2);
    let text = serialize_packet(&p);
    assert_eq!(
        text,
        "{\"message_uuid\":\"00000000-0000-0000-0000-000000000000\",\
         \"timestamp\":5,\
         \"event_type\":\"orders\",\
         \"identifier_source\":\"00000000-0000-0000-0000-000000000001\",\
         \"identifier_destination\":\"00000000-0000-0000-0000-000000000002\",\
         \"hash\":\"not-yet-implemented\",\
         \"priority\":1,\
         \"ttl\":0,\
         \"consumed\":false,\
         \"payload\":{\"id\":1}}"
    );
}

#[test]
fn identity_text_is_hyphenated_hex() {
    let mut p = Packet::build(
        0x000102030405060708090a0b0c0d0e0f,
        1700000000,
        String::from("e"),
        String::from("null"),
        0xffffffffffffffffffffffffffffffff,
        255,
        18446744073709551615,
    );
    p.assign_destination(0xdeadbeef00000000000000000000cafe);
    let text = serialize_packet(&p);
    let v: serde_json::Value = serde_json::from_str(&text).unwrap();
    assert_eq!(v["message_uuid"], "00010203-0405-0607-0809-0a0b0c0d0e0f");
    assert_eq!(
        v["identifier_source"],
        "ffffffff-ffff-ffff-ffff-ffffffffffff"
    );
    assert_eq!(
        v["identifier_destination"],
        "deadbeef-0000-0000-0000-00000000cafe"
    );
    assert_eq!(v["timestamp"], 1700000000u64);
    assert_eq!(v["ttl"], 18446744073709551615u64);
}

#[test]
fn string_fields_survive_escaping() {
    let event = String::from("a\"b\\c\nd\t e\u{1}");
    let p = Packet::build(
        7,
        9,
        event.clone(),
        String::from("[]"),
        8,
        2,
        3,
    );
    let text = serialize_packet(&p);
    let v: serde_json::Value = serde_json::from_str(&text).unwrap();
    assert_eq!(v["event_type"].as_str().unwrap(), event);
}

#[test]
fn priority_keeps_its_low_byte() {
    let p = Packet::build(0, 0, String::from("e"), String::from("0"), 0, 300, 0);
    assert_eq!(p.priority, 44);
    let text = serialize_packet(&p);
    let v: serde_json::Value = serde_json::from_str(&text).unwrap();
    assert_eq!(v["priority"], 44);
}

#[test]
fn identity_parsing_round_trips_through_the_wire() {
    let spelled = "ece4985f-e3de-4453-b9a7-c517e524d555";
    let id = parse_identity(spelled).unwrap();
    let p = Packet::build(0, 0, String::from("e"), String::from("0"), id, 0, 0);
    let text = serialize_packet(&p);
    let v: serde_json::Value = serde_json::from_str(&text).unwrap();
    assert_eq!(v["identifier_source"], spelled);
}

#[test]
fn packet_methods_agree_with_the_encoder() {
    let p = Packet::build(1, 2, String::from("orders"), String::from("{}"), 3, 4, 5);
    assert_eq!(p.to_string(), serialize_packet(&p));
    assert_eq!(p.as_bytes(), serialize_packet(&p).as_bytes().to_vec());
}

#[test]
fn identity_parsing_rejects_junk() {
    assert!(parse_identity("not-an-identity").is_none());
    assert!(parse_identity("").is_none());
}

#[test]
fn the_clock_moved_past_the_epoch() {
    assert!(get_curent_timestamp() > 1_600_000_000);
}
