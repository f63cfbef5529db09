use edda::engine::handle_frame;
use edda::engine::Outcome;
use edda::registry::Registry;

const CONSUMER_A: u128 = 5;
const CONSUMER_B: u128 = 6;
const PRODUCER: u128 = 9;

fn announce(reg: &mut Registry, id: u128, category: &str) {
    let text = format!(
        "{{\"client_type\":\"consumer\",\"consumer_type\":\"{}\"}}",
        category
    );
    match handle_frame(reg, id, &text) {
        Outcome::Reclassified { category: c } => assert_eq!(c, category),
        _ => panic!("announcement was not accepted"),
    }
}

#[test]
fn routes_to_the_matching_consumer() {
    let mut reg = Registry::new();
    reg.register(CONSUMER_A).unwrap();
    reg.register(CONSUMER_B).unwrap();
    reg.register(PRODUCER).unwrap();
    announce(&mut reg, CONSUMER_A, "orders");
    announce(&mut reg, CONSUMER_B, "billing");

    let frame = "{\"event_type\":\"orders\",\"payload\":{\"id\":1},\
                 \"identifier_source\":\"ece4985f-e3de-4453-b9a7-c517e524d555\",\
                 \"priority\":1,\"ttl\":0}";
    match handle_frame(&mut reg, PRODUCER, frame) {
        Outcome::Deliver { destination, text } => {
            assert_eq!(destination, CONSUMER_A);
            let delivered: serde_json::Value = serde_json::from_str(&text).unwrap();
            assert_eq!(delivered["event_type"], "orders");
            let expected_payload: serde_json::Value =
                serde_json::from_str("{\"id\":1}").unwrap();
            assert_eq!(delivered["payload"], expected_payload);
            assert_eq!(
                delivered["identifier_destination"],
                "00000000-0000-0000-0000-000000000005"
            );
        }
        _ => panic!("the frame was not delivered"),
    }
}

#[test]
fn delivery_round_trip_preserves_event_and_payload() {
    let mut reg = Registry::new();
    reg.register(CONSUMER_A).unwrap();
    announce(&mut reg, CONSUMER_A, "orders");
    let payload_text = "{\"k\":[1,2,\"x\"],\"nested\":{\"deep\":true}}";
    let frame = format!(
        "{{\"event_type\":\"orders\",\"payload\":{},\
         \"identifier_source\":\"ece4985f-e3de-4453-b9a7-c517e524d555\",\
         \"priority\":3,\"ttl\":9}}",
        payload_text
    );
    match handle_frame(&mut reg, PRODUCER, &frame) {
        Outcome::Deliver { destination, text } => {
            assert_eq!(destination, CONSUMER_A);
            let delivered: serde_json::Value = serde_json::from_str(&text).unwrap();
            let expected_payload: serde_json::Value =
                serde_json::from_str(payload_text).unwrap();
            assert_eq!(delivered["payload"], expected_payload);
            assert_eq!(delivered["event_type"], "orders");
            assert_eq!(delivered["priority"], 3);
            assert_eq!(delivered["ttl"], 9);
            assert_eq!(delivered["consumed"], false);
            assert_eq!(delivered["hash"], "not-yet-implemented");
            assert_eq!(
                delivered["identifier_source"],
                "ece4985f-e3de-4453-b9a7-c517e524d555"
            );
        }
        _ => panic!("the frame was not delivered"),
    }
}

#[test]
fn no_route_drops_without_terminating_anyone() {
    let mut reg = Registry::new();
    reg.register(PRODUCER).unwrap();
    let before = reg.identities();
    let frame = "{\"event_type\":\"shipping\",\"payload\":{},\
                 \"identifier_source\":\"ece4985f-e3de-4453-b9a7-c517e524d555\",\
                 \"priority\":1,\"ttl\":0}";
    match handle_frame(&mut reg, PRODUCER, frame) {
        Outcome::NoRoute { event_type } => assert_eq!(event_type, "shipping"),
        _ => panic!("expected no route"),
    }
    assert_eq!(reg.identities(), before);
}

#[test]
fn disconnected_consumer_receives_nothing() {
    let mut reg = Registry::new();
    reg.register(CONSUMER_A).unwrap();
    announce(&mut reg, CONSUMER_A, "orders");
    reg.unregister(CONSUMER_A);
    assert!(reg.find_consumers(&String::from("orders")).is_empty());
    let frame = "{\"event_type\":\"orders\",\"payload\":{},\
                 \"identifier_source\":\"ece4985f-e3de-4453-b9a7-c517e524d555\",\
                 \"priority\":1,\"ttl\":0}";
    assert!(matches!(
        handle_frame(&mut reg, PRODUCER, frame),
        Outcome::NoRoute { .. }
    ));
}

#[test]
fn malformed_text_is_a_decode_error() {
    let mut reg = Registry::new();
    reg.register(PRODUCER).unwrap();
    let before = reg.identities();
    assert!(matches!(
        handle_frame(&mut reg, PRODUCER, "this is not structured data"),
        Outcome::DecodeError
    ));
    assert_eq!(reg.identities(), before);
}

#[test]
fn missing_required_member_is_a_decode_error() {
    let mut reg = Registry::new();
    reg.register(PRODUCER).unwrap();
    let frame = "{\"event_type\":\"orders\",\"payload\":{},\
                 \"identifier_source\":\"ece4985f-e3de-4453-b9a7-c517e524d555\",\
                 \"priority\":1}";
    assert!(matches!(
        handle_frame(&mut reg, PRODUCER, frame),
        Outcome::DecodeError
    ));
}

#[test]
fn unparseable_source_identity_is_a_decode_error() {
    let mut reg = Registry::new();
    reg.register(PRODUCER).unwrap();
    let frame = "{\"event_type\":\"orders\",\"payload\":{},\
                 \"identifier_source\":\"not-an-identity\",\
                 \"priority\":1,\"ttl\":0}";
    assert!(matches!(
        handle_frame(&mut reg, PRODUCER, frame),
        Outcome::DecodeError
    ));
}

#[test]
fn role_frame_for_another_role_is_ignored() {
    let mut reg = Registry::new();
    reg.register(PRODUCER).unwrap();
    assert!(matches!(
        handle_frame(&mut reg, PRODUCER, "{\"client_type\":\"producer\"}"),
        Outcome::Ignored
    ));
    assert!(reg.find_consumers(&String::from("orders")).is_empty());
}

#[test]
fn role_frame_without_category_is_a_decode_error() {
    let mut reg = Registry::new();
    reg.register(CONSUMER_A).unwrap();
    assert!(matches!(
        handle_frame(&mut reg, CONSUMER_A, "{\"client_type\":\"consumer\"}"),
        Outcome::DecodeError
    ));
}

#[test]
fn selection_shares_deliveries_between_equal_consumers() {
    let mut reg = Registry::new();
    reg.register(CONSUMER_A).unwrap();
    reg.register(CONSUMER_B).unwrap();
    announce(&mut reg, CONSUMER_A, "orders");
    announce(&mut reg, CONSUMER_B, "orders");
    let frame = "{\"event_type\":\"orders\",\"payload\":{},\
                 \"identifier_source\":\"ece4985f-e3de-4453-b9a7-c517e524d555\",\
                 \"priority\":1,\"ttl\":0}";
    let mut to_a: u32 = 0;
    let mut to_b: u32 = 0;
    for _ in 0..400 {
        match handle_frame(&mut reg, PRODUCER, frame) {
            Outcome::Deliver { destination, .. } => {
                if destination == CONSUMER_A {
                    to_a += 1;
                } else if destination == CONSUMER_B {
                    to_b += 1;
                } else {
                    panic!("delivered to a stranger");
                }
            }
            _ => panic!("the frame was not delivered"),
        }
    }
    assert_eq!(to_a + to_b, 400);
    assert!(to_a >= 100, "consumer A starved: {} of 400", to_a);
    assert!(to_b >= 100, "consumer B starved: {} of 400", to_b);
}
