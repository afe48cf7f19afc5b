//! The control-plane state machine and the datagram relay, driven the
//! way the connection loops drive them.

use ping_relay::relay::handle_datagram;
use ping_relay::handler::handle_ws_message;
use ping_relay::text::addr_port_of;
use ping_relay::text::candidate_port;
use ping_relay::IdAllocator;
use ping_relay::Registry;
use ping_relay::WsAction;

#[test]
fn candidate_port_is_sixth_field() {
    let cand = "candidate:1 1 UDP 2122260223 192.0.2.1 54321 typ host";
    assert_eq!(candidate_port(cand), Some(String::from("54321")));
}

#[test]
fn candidate_port_absent_when_too_short() {
    assert_eq!(candidate_port("candidate:1 1 UDP"), None);
    assert_eq!(candidate_port(""), None);
}

#[test]
fn candidate_port_skips_space_runs() {
    assert_eq!(candidate_port("a b  c d e f g"), Some(String::from("f")));
}

#[test]
fn addr_port_reads_text_after_colon() {
    assert_eq!(addr_port_of("192.0.2.1:54321"), Some(String::from("54321")));
    assert_eq!(addr_port_of("no-port-here"), None);
}

#[test]
fn offer_asks_for_negotiation() {
    let mut reg = Registry::new();
    let act = handle_ws_message("{\"type\":\"offer\",\"sdp\":\"v=0\"}", 1, &mut reg);
    assert_eq!(act, WsAction::Negotiate { sdp: String::from("v=0") });
    assert_eq!(reg.len(), 0);
}

#[test]
fn offer_without_sdp_is_ignored() {
    let mut reg = Registry::new();
    let act = handle_ws_message("{\"type\":\"offer\"}", 1, &mut reg);
    assert_eq!(act, WsAction::Ignore);
    assert_eq!(reg.len(), 0);
}

#[test]
fn ice_binds_candidate_port() {
    let mut reg = Registry::new();
    let msg = "{\"type\":\"ice\",\"ice\":{\"candidate\":\"candidate:1 1 UDP 2122260223 192.0.2.1 54321 typ host\"}}";
    let act = handle_ws_message(msg, 4, &mut reg);
    assert_eq!(act, WsAction::Ignore);
    assert_eq!(reg.lookup_port_by_id(4), Some(String::from("54321")));
}

#[test]
fn ice_with_short_candidate_is_ignored() {
    let mut reg = Registry::new();
    let msg = "{\"type\":\"ice\",\"ice\":{\"candidate\":\"too short\"}}";
    let act = handle_ws_message(msg, 4, &mut reg);
    assert_eq!(act, WsAction::Ignore);
    assert_eq!(reg.len(), 0);
}

#[test]
fn ice_without_candidate_is_ignored() {
    let mut reg = Registry::new();
    let act = handle_ws_message("{\"type\":\"ice\"}", 4, &mut reg);
    assert_eq!(act, WsAction::Ignore);
    assert_eq!(reg.len(), 0);
}

#[test]
fn unknown_type_and_invalid_json_are_ignored() {
    let mut reg = Registry::new();
    assert_eq!(handle_ws_message("{\"type\":\"hello\"}", 1, &mut reg), WsAction::Ignore);
    assert_eq!(handle_ws_message("not json at all", 1, &mut reg), WsAction::Ignore);
    assert_eq!(handle_ws_message("", 1, &mut reg), WsAction::Ignore);
    assert_eq!(reg.len(), 0);
}

#[test]
fn done_without_entry_yields_nothing() {
    let mut reg = Registry::new();
    let act = handle_ws_message("{\"type\":\"done\"}", 1, &mut reg);
    assert_eq!(act, WsAction::Ignore);
    assert_eq!(reg.len(), 0);
}

#[test]
fn done_reports_recorded_samples() {
    let mut reg = Registry::new();
    reg.register(String::from("54321"), 1);
    reg.record_sample("54321", 4);
    reg.record_sample("54321", 5);
    reg.record_sample("54321", 6);
    let act = handle_ws_message("{\"type\":\"done\"}", 1, &mut reg);
    assert_eq!(
        act,
        WsAction::SendResults {
            body: String::from("{\"type\":\"results\",\"list\":[4,5,6],\"receivedCount\":3}")
        }
    );
    // reading the results does not consume them
    assert_eq!(reg.read_samples(1), Some(vec![4, 5, 6]));
}

#[test]
fn datagram_records_and_echoes() {
    let mut reg = Registry::new();
    reg.register(String::from("54321"), 1);
    let echo = handle_datagram(b"{\"i\":1,\"time\":1000}", "192.0.2.1:54321", &mut reg);
    assert_eq!(echo, Some(String::from("{\"i\":1,\"time\":1000}")));
    assert_eq!(reg.read_samples(1), Some(vec![1]));
}

#[test]
fn datagram_echo_is_rebuilt_not_copied() {
    let mut reg = Registry::new();
    reg.register(String::from("54321"), 1);
    let echo = handle_datagram(
        b" { \"time\" : 1000 , \"i\" : 5 } ",
        "192.0.2.1:54321",
        &mut reg,
    );
    assert_eq!(echo, Some(String::from("{\"i\":5,\"time\":1000}")));
    assert_eq!(reg.read_samples(1), Some(vec![5]));
}

#[test]
fn datagram_for_unbound_port_is_echoed_but_not_recorded() {
    let mut reg = Registry::new();
    let echo = handle_datagram(b"{\"i\":1,\"time\":1000}", "192.0.2.1:54321", &mut reg);
    assert_eq!(echo, Some(String::from("{\"i\":1,\"time\":1000}")));
    assert_eq!(reg.len(), 0);
}

#[test]
fn invalid_utf8_datagram_is_dropped() {
    let mut reg = Registry::new();
    reg.register(String::from("54321"), 1);
    let echo = handle_datagram(&[0xff, 0xfe, 0x01], "192.0.2.1:54321", &mut reg);
    assert_eq!(echo, None);
    assert_eq!(reg.read_samples(1), Some(vec![]));
}

#[test]
fn datagram_without_index_is_dropped() {
    let mut reg = Registry::new();
    reg.register(String::from("54321"), 1);
    assert_eq!(handle_datagram(b"{\"time\":1000}", "192.0.2.1:54321", &mut reg), None);
    assert_eq!(handle_datagram(b"{\"i\":1.5,\"time\":1}", "192.0.2.1:54321", &mut reg), None);
    assert_eq!(handle_datagram(b"{\"i\":\"x\",\"time\":1}", "192.0.2.1:54321", &mut reg), None);
    assert_eq!(handle_datagram(b"{\"i\":1}", "192.0.2.1:54321", &mut reg), None);
    assert_eq!(handle_datagram(b"not json", "192.0.2.1:54321", &mut reg), None);
    assert_eq!(reg.read_samples(1), Some(vec![]));
}

#[test]
fn full_session_scenario() {
    let mut ids = IdAllocator::new();
    let mut reg = Registry::new();
    let client_id = ids.next_id();
    assert_eq!(client_id, 1);

    let act = handle_ws_message(
        "{\"type\":\"offer\",\"sdp\":\"v=0\\r\\no=- 0 0 IN IP4 0.0.0.0\"}",
        client_id,
        &mut reg,
    );
    match act {
        WsAction::Negotiate { sdp } => assert_eq!(sdp, "v=0\r\no=- 0 0 IN IP4 0.0.0.0"),
        other => panic!("expected negotiation, got {:?}", other),
    }

    let ice = "{\"type\":\"ice\",\"ice\":{\"candidate\":\"candidate:1 1 UDP 2122260223 192.0.2.1 54321 typ host\"}}";
    assert_eq!(handle_ws_message(ice, client_id, &mut reg), WsAction::Ignore);
    assert_eq!(reg.lookup_port_by_id(client_id), Some(String::from("54321")));

    let e1 = handle_datagram(b"{\"i\":1,\"time\":1000}", "192.0.2.1:54321", &mut reg);
    let e2 = handle_datagram(b"{\"i\":2,\"time\":1002}", "192.0.2.1:54321", &mut reg);
    assert_eq!(e1, Some(String::from("{\"i\":1,\"time\":1000}")));
    assert_eq!(e2, Some(String::from("{\"i\":2,\"time\":1002}")));

    let act = handle_ws_message("{\"type\":\"done\"}", client_id, &mut reg);
    assert_eq!(
        act,
        WsAction::SendResults {
            body: String::from("{\"type\":\"results\",\"list\":[1,2],\"receivedCount\":2}")
        }
    );

    // the connection closes: its entry is removed, a replayed "done"
    // finds nothing
    reg.deregister(client_id);
    assert_eq!(reg.len(), 0);
    assert_eq!(handle_ws_message("{\"type\":\"done\"}", client_id, &mut reg), WsAction::Ignore);
}
