use recipe_node::codec::{decode_records, encode_records};
use recipe_node::protocol::{
    decode_request, encode_request, encode_response, make_list_response, ListMode, ListRequest,
};
use recipe_node::record::Record;
use recipe_node::router::{route_event, NetEvent, NodeContext, RouterAction};
use recipe_node::subnet::{subnet_info, SubnetError};

fn sample_record(id: u64, public: bool) -> Record {
    Record {
        id,
        name: format!("Dish {}", id),
        ingredients: "a|b, c \"quoted\"".to_owned(),
        instructions: "stir\\fold".to_owned(),
        public,
    }
}

#[test]
fn records_round_trip_through_the_codec() {
    let records = vec![sample_record(1, false), sample_record(42, true)];
    let encoded = encode_records(&records);
    let decoded = decode_records(&encoded).expect("canonical encoding must decode");
    assert_eq!(decoded, records);
}

#[test]
fn empty_list_round_trips() {
    let records: Vec<Record> = Vec::new();
    let encoded = encode_records(&records);
    assert_eq!(encoded, "[]");
    assert_eq!(decode_records(&encoded), Some(Vec::new()));
}

#[test]
fn encoding_is_the_documented_json() {
    let records = vec![Record {
        id: 7,
        name: "Soup".to_owned(),
        ingredients: "Water".to_owned(),
        instructions: "Boil".to_owned(),
        public: false,
    }];
    assert_eq!(
        encode_records(&records),
        "[{\"id\":7,\"name\":\"Soup\",\"ingredients\":\"Water\",\"instructions\":\"Boil\",\"public\":false}]"
    );
}

#[test]
fn truncated_and_garbage_inputs_are_rejected() {
    let records = vec![sample_record(3, true)];
    let encoded = encode_records(&records);
    for cut in 1..encoded.len() {
        if encoded.is_char_boundary(cut) {
            assert_eq!(decode_records(&encoded[..cut]), None, "cut at {}", cut);
        }
    }
    assert_eq!(decode_records(""), None);
    assert_eq!(decode_records("not json"), None);
    assert_eq!(decode_records("[{\"id\":true}]"), None);
    assert_eq!(decode_records("[{\"id\":1}]"), None);
}

#[test]
fn request_wire_shapes() {
    let all = ListRequest { mode: ListMode::All };
    assert_eq!(encode_request(&all), "{\"type\":\"all\"}");
    let one = ListRequest { mode: ListMode::One("peer \"x\"".to_owned()) };
    let wire = encode_request(&one);
    assert_eq!(wire, "{\"type\":\"one\",\"peer\":\"peer \\\"x\\\"\"}");
    match decode_request(&wire) {
        Some(ListRequest { mode: ListMode::One(p) }) => assert_eq!(p, "peer \"x\""),
        other => panic!("unexpected decode: {:?}", other.is_some()),
    }
    assert!(matches!(
        decode_request("{\"type\":\"all\"}"),
        Some(ListRequest { mode: ListMode::All })
    ));
    assert!(decode_request("{\"type\":\"response\",\"mode\":{\"type\":\"all\"}}").is_none());
    assert!(decode_request("").is_none());
}

#[test]
fn response_wire_shape() {
    let data = vec![Record {
        id: 1,
        name: "Soup".to_owned(),
        ingredients: "Water".to_owned(),
        instructions: "Boil".to_owned(),
        public: true,
    }];
    let resp = make_list_response(data, "peer-1".to_owned());
    assert_eq!(
        encode_response(&resp),
        "{\"type\":\"response\",\"mode\":{\"type\":\"all\"},\"receiver\":\"peer-1\",\"data\":[{\"id\":1,\"name\":\"Soup\",\"ingredients\":\"Water\",\"instructions\":\"Boil\",\"public\":true}]}"
    );
}

fn ctx() -> NodeContext {
    NodeContext { peer_id: "self-peer".to_owned(), topic: "recipes".to_owned() }
}

#[test]
fn router_dispatches_each_event() {
    assert!(matches!(route_event(&ctx(), NetEvent::ConnectionReady), RouterAction::SpawnHandler));
    match route_event(&ctx(), NetEvent::Discovered("p1".to_owned())) {
        RouterAction::AddPeer(p) => assert_eq!(p, "p1"),
        _ => panic!("expected AddPeer"),
    }
    match route_event(&ctx(), NetEvent::Expired("p1".to_owned())) {
        RouterAction::RemovePeer(p) => assert_eq!(p, "p1"),
        _ => panic!("expected RemovePeer"),
    }
    assert!(matches!(route_event(&ctx(), NetEvent::Shutdown), RouterAction::Stop));
}

#[test]
fn router_answers_broadcast_list_requests() {
    let ev = NetEvent::Gossip {
        source: "asker".to_owned(),
        payload: "{\"type\":\"all\"}".to_owned(),
    };
    match route_event(&ctx(), ev) {
        RouterAction::RespondAllRecords { requester } => assert_eq!(requester, "asker"),
        _ => panic!("expected RespondAllRecords"),
    }
}

#[test]
fn router_notes_directed_requests_only_for_itself() {
    let directed = NetEvent::Gossip {
        source: "asker".to_owned(),
        payload: "{\"type\":\"one\",\"peer\":\"self-peer\"}".to_owned(),
    };
    match route_event(&ctx(), directed) {
        RouterAction::NoteDirectedRequest { requester } => assert_eq!(requester, "asker"),
        _ => panic!("expected NoteDirectedRequest"),
    }
    let for_other = NetEvent::Gossip {
        source: "asker".to_owned(),
        payload: "{\"type\":\"one\",\"peer\":\"someone-else\"}".to_owned(),
    };
    assert!(matches!(route_event(&ctx(), for_other), RouterAction::Ignore));
}

#[test]
fn router_ignores_unrelated_payloads_and_keeps_going() {
    let noise = NetEvent::Gossip {
        source: "asker".to_owned(),
        payload: String::from_utf8_lossy(&[0u8, 159, 146, 150, 7, 255]).into_owned(),
    };
    assert!(matches!(route_event(&ctx(), noise), RouterAction::Ignore));
    let ev = NetEvent::Gossip {
        source: "asker".to_owned(),
        payload: "{\"type\":\"all\"}".to_owned(),
    };
    assert!(matches!(
        route_event(&ctx(), ev),
        RouterAction::RespondAllRecords { .. }
    ));
}

#[test]
fn subnet_of_a_class_c_network() {
    let ip = u32::from_be_bytes([192, 168, 1, 0]);
    let info = subnet_info(ip, 24).expect("a /24 has hosts");
    assert_eq!(info.network, u32::from_be_bytes([192, 168, 1, 0]));
    assert_eq!(info.broadcast, u32::from_be_bytes([192, 168, 1, 255]));
    assert_eq!(info.first_host, u32::from_be_bytes([192, 168, 1, 1]));
    assert_eq!(info.last_host, u32::from_be_bytes([192, 168, 1, 254]));
    assert_eq!(info.mask, u32::from_be_bytes([255, 255, 255, 0]));
    assert_eq!(info.wildcard, u32::from_be_bytes([0, 0, 0, 255]));
    assert_eq!(info.hosts, 254);
}

#[test]
fn subnet_rejects_hostless_and_invalid_prefixes() {
    assert_eq!(subnet_info(0, 33), Err(SubnetError::InvalidPrefix));
    assert_eq!(subnet_info(0, 32), Err(SubnetError::NoHostRange));
    let wide = subnet_info(u32::from_be_bytes([10, 0, 0, 1]), 0).expect("a /0 has hosts");
    assert_eq!(wide.network, 0);
    assert_eq!(wide.broadcast, u32::MAX);
    assert_eq!(wide.hosts, (1u64 << 32) - 2);
}
