//! The message model on the wire: encoding shapes, tolerant decoding, and
//! the round trip.

use memvisor::json::JsonValue;
use memvisor::message::CancelArguments;
use memvisor::message::DapEvent;
use memvisor::message::ProtocolMessage;
use memvisor::message::RequestMessage;
use memvisor::message::ResponseMessage;
use memvisor::message_types::Capabilities;

fn chars(s: &str) -> Vec<char> {
    s.chars().collect()
}

fn text(v: &[char]) -> String {
    v.iter().collect()
}

#[test]
fn test_serialize_request() {
    let msg = ProtocolMessage::Request(RequestMessage::Cancel {
        seq: 100,
        arguments: Some(CancelArguments {
            progress_id: None,
            request_id: Some(4),
        }),
    });

    let encoded = text(&msg.encode());
    println!("{encoded}");

    let val: serde_json::Value = serde_json::from_str(&encoded).unwrap();

    assert_eq!(val.get("seq").unwrap().as_u64().unwrap(), 100);
    assert_eq!(val.get("type").unwrap().as_str().unwrap(), "request");
    assert_eq!(val.get("command").unwrap().as_str().unwrap(), "cancel");

    let arguments = val.get("arguments").unwrap();

    assert_eq!(arguments.get("requestId").unwrap().as_u64().unwrap(), 4);
    assert!(arguments.get("progressId").is_none());
}

#[test]
fn test_serialize_response() {
}

#[test]
fn round_trip_initialize_response() {
    let msg = ProtocolMessage::Response(ResponseMessage::Initialize {
        seq: 7,
        request_seq: 1,
        success: true,
        body: Some(Capabilities {
            supports_configuration_done_request: Some(true),
            supports_single_thread_execution_requests: None,
        }),
    });
    let encoded = msg.encode();
    let back = ProtocolMessage::decode(&encoded).unwrap();
    match back {
        ProtocolMessage::Response(ResponseMessage::Initialize {
            seq,
            request_seq,
            success,
            body,
        }) => {
            assert_eq!(seq, 7);
            assert_eq!(request_seq, 1);
            assert!(success);
            let caps = body.unwrap();
            assert_eq!(caps.supports_configuration_done_request, Some(true));
            assert_eq!(caps.supports_single_thread_execution_requests, None);
        }
        _ => panic!("wrong shape after round trip"),
    }
}

#[test]
fn round_trip_launch_payload() {
    let payload = memvisor::codec::parse_payload(&chars("{\"program\":\"a.out\",\"n\":3}")).unwrap();
    let msg = ProtocolMessage::Request(RequestMessage::Launch {
        seq: 2,
        arguments: payload,
    });
    let encoded = msg.encode();
    let back = ProtocolMessage::decode(&encoded).unwrap();
    match back {
        ProtocolMessage::Request(RequestMessage::Launch { seq, arguments }) => {
            assert_eq!(seq, 2);
            let printed = text(&arguments.print());
            let val: serde_json::Value = serde_json::from_str(&printed).unwrap();
            assert_eq!(val.get("program").unwrap().as_str().unwrap(), "a.out");
            assert_eq!(val.get("n").unwrap().as_u64().unwrap(), 3);
        }
        _ => panic!("wrong shape after round trip"),
    }
}

#[test]
fn unknown_event_decodes_without_error() {
    let wire = chars("{\"type\":\"event\",\"event\":\"someFutureEvent\",\"seq\":1}");
    let msg = ProtocolMessage::decode(&wire).unwrap();
    assert!(matches!(msg, ProtocolMessage::Event(DapEvent::Unknown)));
}

#[test]
fn unknown_top_level_tag_decodes_without_error() {
    let wire = chars("{\"type\":\"telepathy\",\"seq\":1}");
    let msg = ProtocolMessage::decode(&wire).unwrap();
    assert!(matches!(msg, ProtocolMessage::Unknown));
}

#[test]
fn unknown_command_decodes_without_error() {
    let wire = chars("{\"type\":\"request\",\"command\":\"someFutureCommand\",\"seq\":9}");
    let msg = ProtocolMessage::decode(&wire).unwrap();
    assert!(matches!(msg, ProtocolMessage::Request(RequestMessage::Unknown)));
}

#[test]
fn missing_type_is_a_decode_error() {
    let wire = chars("{\"seq\":1}");
    assert!(ProtocolMessage::decode(&wire).is_none());
}

#[test]
fn decode_tolerates_whitespace_and_field_order() {
    let wire = chars(
        "  { \"event\" : \"terminated\" , \"seq\" : 12 , \"type\" : \"event\" }  ",
    );
    let msg = ProtocolMessage::decode(&wire).unwrap();
    match msg {
        ProtocolMessage::Event(DapEvent::Terminated { seq }) => assert_eq!(seq, 12),
        _ => panic!("wrong shape"),
    }
}

#[test]
fn output_event_round_trip() {
    let wire = chars(
        "{\"type\":\"event\",\"event\":\"output\",\"seq\":4,\"body\":{\"category\":\"stdout\",\"output\":\"hi\\n\"}}",
    );
    let msg = ProtocolMessage::decode(&wire).unwrap();
    match msg {
        ProtocolMessage::Event(DapEvent::Output { seq, body }) => {
            assert_eq!(seq, 4);
            assert_eq!(
                body.category,
                Some(memvisor::message_types::OutputEventCategory::Stdout)
            );
            assert_eq!(text(&body.output), "hi\n");
        }
        _ => panic!("wrong shape"),
    }
}

#[test]
fn json_parser_handles_nesting_and_escapes() {
    let v = memvisor::json::parse_json(&chars(
        "{\"a\":[1,2,{\"b\":\"q\\u0041\\n\\\"x\\\"\"}],\"c\":null,\"d\":-1.5e3}",
    ))
    .unwrap();
    let printed = text(&v.print());
    let val: serde_json::Value = serde_json::from_str(&printed).unwrap();
    assert_eq!(val.get("a").unwrap().as_array().unwrap().len(), 3);
    assert_eq!(
        val.get("a").unwrap()[2].get("b").unwrap().as_str().unwrap(),
        "qA\n\"x\""
    );
    assert!(val.get("c").unwrap().is_null());
    assert_eq!(val.get("d").unwrap().as_f64().unwrap(), -1500.0);
}

#[test]
fn debug_pointer_hex_round_trip() {
    let p = memvisor::DebugPointer::new(0xdeadbeef);
    let j = p.to_json();
    assert_eq!(text(&j.print()), "\"0xdeadbeef\"");
    let q = memvisor::DebugPointer::from_json(&JsonValue::Str(chars("0xdeadbeef"))).unwrap();
    assert_eq!(q.as_usize(), 0xdeadbeef);
    let bare = memvisor::DebugPointer::from_json(&JsonValue::Str(chars("ff"))).unwrap();
    assert_eq!(bare.as_usize(), 0xff);
    assert!(memvisor::DebugPointer::from_json(&JsonValue::Str(chars("0xzz"))).is_none());
}
