//! The session, the registry and the orchestrator: sequence numbers,
//! launch ordering, breakpoint synchronization, and the handshake.

use memvisor::breakpoints::Breakpoint;
use memvisor::breakpoints::BreakpointStore;
use memvisor::dap::DapInstance;
use memvisor::dap_interface::Action;
use memvisor::dap_interface::DapInterface;
use memvisor::errors::DapError;
use memvisor::message::ProtocolMessage;
use memvisor::message::ResponseMessage;
use memvisor::message_types::Capabilities;

fn chars(s: &str) -> Vec<char> {
    s.chars().collect()
}

fn text(v: &[char]) -> String {
    v.iter().collect()
}

/// The JSON body of a frame, with its length header stripped.
fn frame_body(frame: &str) -> serde_json::Value {
    let idx = frame.find("\r\n\r\n").expect("frame has a blank line");
    serde_json::from_str(&frame[idx + 4..]).expect("frame body is JSON")
}

fn init_success() -> ProtocolMessage {
    ProtocolMessage::Response(ResponseMessage::Initialize {
        seq: 1,
        request_seq: 1,
        success: true,
        body: Some(Capabilities {
            supports_configuration_done_request: Some(true),
            supports_single_thread_execution_requests: Some(true),
        }),
    })
}

#[test]
fn sequence_numbers_strictly_increase() {
    let mut inst = DapInstance::new();
    let mut prev = 0;
    let mut i = 0;
    while i < 100 {
        let next = inst.next_seq();
        assert!(next > prev);
        prev = next;
        i += 1;
    }
}

#[test]
fn launch_sends_initialize_and_holds_launch_back() {
    let mut iface = DapInterface::new();
    iface.attach_instance(DapInstance::new());
    let frame = iface.launch("{\"program\":\"a.out\"}").unwrap();
    let body = frame_body(&frame);
    assert_eq!(body.get("command").unwrap().as_str().unwrap(), "initialize");
    assert_eq!(body.get("seq").unwrap().as_u64().unwrap(), 1);
    let args = body.get("arguments").unwrap();
    assert_eq!(args.get("clientID").unwrap().as_str().unwrap(), "memvisor");
    assert_eq!(args.get("adapterID").unwrap().as_str().unwrap(), "rust-gdb");

    // nothing has been drained yet: a tick with no inbound messages must
    // not put a launch request on the wire
    let actions = iface.process_dap_events(&Vec::new()).unwrap();
    assert!(actions.is_empty());
}

#[test]
fn launch_appears_once_after_initialize_success() {
    let mut iface = DapInterface::new();
    iface.attach_instance(DapInstance::new());
    let _init = iface.launch("{\"program\":\"a.out\"}").unwrap();
    let actions = iface.process_dap_events(&vec![init_success()]).unwrap();
    let mut launches = 0;
    let mut config_done = 0;
    for a in &actions {
        if let Action::Send(frame) = a {
            let body = frame_body(frame);
            match body.get("command").unwrap().as_str().unwrap() {
                "launch" => {
                    launches += 1;
                    let args = body.get("arguments").unwrap();
                    assert_eq!(args.get("program").unwrap().as_str().unwrap(), "a.out");
                }
                "configurationDone" => config_done += 1,
                _ => {}
            }
        }
    }
    assert_eq!(launches, 1);
    assert_eq!(config_done, 1);

    // a second tick with another initialize response sends no second launch
    let actions2 = iface.process_dap_events(&vec![init_success()]).unwrap();
    for a in &actions2 {
        if let Action::Send(frame) = a {
            let body = frame_body(frame);
            assert_ne!(body.get("command").unwrap().as_str().unwrap(), "launch");
        }
    }
}

#[test]
fn breakpoint_add_is_idempotent_and_remove_reports_absence() {
    let mut store = BreakpointStore::new();
    store.add(Breakpoint::on_source(chars("a.rs"), 5));
    store.add(Breakpoint::on_source(chars("a.rs"), 5));
    let mut out = Vec::new();
    store.get_file_breakpoints(&chars("a.rs"), &mut out);
    assert_eq!(out.len(), 1);

    let removed = store.remove(&Breakpoint::on_source(chars("a.rs"), 99));
    assert!(!removed);
    let mut out2 = Vec::new();
    store.get_file_breakpoints(&chars("a.rs"), &mut out2);
    assert_eq!(out2.len(), 1);

    let removed5 = store.remove(&Breakpoint::on_source(chars("a.rs"), 5));
    assert!(removed5);
    let mut files = Vec::new();
    store.get_files(&mut files);
    assert!(files.is_empty(), "last breakpoint removes the file entry");
}

#[test]
fn breakpoints_come_back_ordered_by_line() {
    let mut store = BreakpointStore::new();
    store.add(Breakpoint::on_source(chars("a.rs"), 9));
    store.add(Breakpoint::on_source(chars("a.rs"), 3));
    store.add(Breakpoint::on_source(chars("a.rs"), 7));
    let mut out = Vec::new();
    store.get_file_breakpoints(&chars("a.rs"), &mut out);
    let lines: Vec<u64> = out
        .iter()
        .map(|b| match b {
            Breakpoint::Source(c) => c.lineno,
        })
        .collect();
    assert_eq!(lines, vec![3, 7, 9]);
}

#[test]
fn full_replace_sync_carries_the_complete_current_set() {
    let mut iface = DapInterface::new();
    iface.attach_instance(DapInstance::new());
    iface.put_breakpoint(Breakpoint::on_source(chars("a.rs"), 3)).unwrap();
    iface.put_breakpoint(Breakpoint::on_source(chars("a.rs"), 7)).unwrap();
    let frame = iface
        .remove_breakpoint(&Breakpoint::on_source(chars("a.rs"), 3))
        .unwrap()
        .expect("a session is attached");
    let body = frame_body(&frame);
    assert_eq!(body.get("command").unwrap().as_str().unwrap(), "setBreakpoints");
    let args = body.get("arguments").unwrap();
    assert_eq!(args.get("source").unwrap().get("path").unwrap().as_str().unwrap(), "a.rs");
    let bps = args.get("breakpoints").unwrap().as_array().unwrap();
    assert_eq!(bps.len(), 1, "never a delta, never a stale set");
    assert_eq!(bps[0].get("line").unwrap().as_u64().unwrap(), 7);
}

#[test]
fn isolated_files_keep_their_own_breakpoints() {
    let mut store = BreakpointStore::new();
    store.add(Breakpoint::on_source(chars("a.rs"), 1));
    store.add(Breakpoint::on_source(chars("b.rs"), 2));
    store.remove(&Breakpoint::on_source(chars("a.rs"), 1));
    let mut out = Vec::new();
    store.get_file_breakpoints(&chars("b.rs"), &mut out);
    assert_eq!(out.len(), 1);
}

#[test]
fn handshake_orders_sync_then_launch_then_configuration_done() {
    let mut iface = DapInterface::new();
    iface.attach_instance(DapInstance::new());
    iface.put_breakpoint(Breakpoint::on_source(chars("a.rs"), 3)).unwrap();
    iface.put_breakpoint(Breakpoint::on_source(chars("b.rs"), 8)).unwrap();
    let _init = iface.launch("{\"program\":\"a.out\"}").unwrap();
    let actions = iface.process_dap_events(&vec![init_success()]).unwrap();
    let mut commands = Vec::new();
    for a in &actions {
        if let Action::Send(frame) = a {
            let body = frame_body(frame);
            commands.push(body.get("command").unwrap().as_str().unwrap().to_string());
        }
    }
    assert_eq!(
        commands,
        vec!["setBreakpoints", "setBreakpoints", "launch", "configurationDone"]
    );

    match iface.get_debug_state() {
        memvisor::DebugState::Ready => {}
        other => panic!("expected the ready state, found {other:?}"),
    }
}

#[test]
fn stdout_and_stderr_events_are_mirrored() {
    let mut iface = DapInterface::new();
    iface.attach_instance(DapInstance::new());
    let out_event = ProtocolMessage::decode(&chars(
        "{\"type\":\"event\",\"event\":\"output\",\"seq\":2,\"body\":{\"category\":\"stdout\",\"output\":\"ok\"}}",
    ))
    .unwrap();
    let err_event = ProtocolMessage::decode(&chars(
        "{\"type\":\"event\",\"event\":\"output\",\"seq\":3,\"body\":{\"category\":\"stderr\",\"output\":\"bad\"}}",
    ))
    .unwrap();
    let actions = iface.process_dap_events(&vec![out_event, err_event]).unwrap();
    assert_eq!(actions.len(), 2);
    match &actions[0] {
        Action::WriteStdout(t) => assert_eq!(text(t), "ok"),
        _ => panic!("expected mirrored standard output"),
    }
    match &actions[1] {
        Action::WriteStderr(t) => assert_eq!(text(t), "bad"),
        _ => panic!("expected mirrored standard error"),
    }
}

#[test]
fn other_output_categories_reach_the_diagnostic_log() {
    let mut iface = DapInterface::new();
    iface.attach_instance(DapInstance::new());
    let console_event = ProtocolMessage::decode(&chars(
        "{\"type\":\"event\",\"event\":\"output\",\"seq\":5,\"body\":{\"category\":\"console\",\"output\":\"note\"}}",
    ))
    .unwrap();
    let actions = iface.process_dap_events(&vec![console_event]).unwrap();
    assert_eq!(actions.len(), 1);
    match &actions[0] {
        Action::LogOutput { category, output } => {
            assert_eq!(
                *category,
                memvisor::message_types::OutputEventCategory::Console
            );
            assert_eq!(text(output), "note");
        }
        _ => panic!("expected the output routed to the diagnostic log"),
    }
}

#[test]
fn error_kinds_stay_distinct() {
    let mut iface = DapInterface::new();
    assert_eq!(iface.launch("{}").unwrap_err(), DapError::NoLoadedTarget);
    assert_eq!(iface.request_next().unwrap_err(), DapError::NoDapInstance);

    iface.attach_instance(DapInstance::new());
    assert_eq!(iface.launch("not json").unwrap_err(), DapError::JsonEncodingError);

    let bad_header = memvisor::dap_messenger::parse_content_length(&chars("X-Header: 12\r\n"));
    assert!(matches!(bad_header, Err(DapError::BadMessageHeader(_))));
    let bad_length = memvisor::dap_messenger::parse_content_length(&chars("Content-Length: ten\r\n"));
    assert!(matches!(bad_length, Err(DapError::InvalidContentLength(_))));
    let good = memvisor::dap_messenger::parse_content_length(&chars("Content-Length: 42\r\n"));
    assert_eq!(good.unwrap(), 42);
}

#[test]
fn frames_carry_the_byte_length_of_the_body() {
    let inst = DapInstance::new();
    let frame = inst.send_message(ProtocolMessage::Request(
        memvisor::message::RequestMessage::ConfigurationDone {
            seq: 1,
            arguments: None,
        },
    ));
    let idx = frame.find("\r\n\r\n").unwrap();
    let header = &frame[..idx];
    let body = &frame[idx + 4..];
    let n: usize = header.strip_prefix("Content-Length: ").unwrap().parse().unwrap();
    assert_eq!(n, body.len());
}

#[test]
fn stepping_uses_single_thread_only_when_advertised() {
    let mut iface = DapInterface::new();
    let mut inst = DapInstance::new();
    inst.set_capabilities(Capabilities {
        supports_configuration_done_request: None,
        supports_single_thread_execution_requests: Some(true),
    });
    iface.attach_instance(inst);
    let frame = iface.request_next().unwrap();
    let body = frame_body(&frame);
    assert_eq!(body.get("command").unwrap().as_str().unwrap(), "next");
    let args = body.get("arguments").unwrap();
    assert_eq!(args.get("singleThread").unwrap().as_bool().unwrap(), true);
    assert_eq!(args.get("steppingGranularity").unwrap().as_str().unwrap(), "statement");
}
