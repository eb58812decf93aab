//! One adapter session: the sequence counter, the negotiated capabilities,
//! and the launch request held back until initialization completes.

use vstd::prelude::*;
use crate::codec::msg_text;
use crate::codec::sp_payload;
use crate::codec::parse_payload;
use crate::dap_messenger::frame_text;
use crate::dap_messenger::make_frame;
use crate::errors::DapError;
use crate::json::JsonValue;
use crate::json::JsonView;
use crate::json::jview;
use crate::json::lit;
use crate::message::InitializeArguments;
use crate::message::InitializeArgumentsView;
use crate::message::ProtocolMessage;
use crate::message::ProtocolMessageView;
use crate::message::RequestMessage;
use crate::message::RequestMessageView;
use crate::message_types::Capabilities;

verus! {

/// The full wire form of one message: its frame around its JSON text.
pub open spec fn msg_frame(m: ProtocolMessageView) -> Seq<char> {
    frame_text(msg_text(m))
}

/// The client identification this engine sends with its initialize request.
pub open spec fn init_client_args() -> InitializeArgumentsView {
    InitializeArgumentsView {
        client_id: Some("memvisor"@),
        client_name: Some("MemVisor"@),
        adapter_id: "rust-gdb"@,
        locale: None,
    }
}

/// Protocol bookkeeping for one spawned adapter. The pipes and the reader
/// live with the caller; this state decides what goes onto them.
pub struct DapInstance {
    pub last_seq: u64,
    pub capabilities: Capabilities,
    pub pending_launch_req: Option<JsonValue>,
}

impl DapInstance {
    /// The held-back launch payload, as a value.
    pub open spec fn spec_pending(self) -> Option<JsonView> {
        match self.pending_launch_req {
            Some(j) => Some(jview(j)),
            None => None,
        }
    }

    /// A fresh session: no sequence number given out yet, no capability
    /// known, nothing held back.
    pub fn new() -> (r: Self)
        ensures
            r.last_seq == 0,
            r.capabilities.supports_configuration_done_request is None,
            r.capabilities.supports_single_thread_execution_requests is None,
            r.spec_pending() is None,
    {
        DapInstance {
            last_seq: 0,
            capabilities: Capabilities {
                supports_configuration_done_request: None,
                supports_single_thread_execution_requests: None,
            },
            pending_launch_req: None,
        }
    }

    /// Gives out the next sequence number; every number handed out is
    /// strictly greater than every earlier one and never reused.
    pub fn next_seq(&mut self) -> (r: u64)
        requires
            old(self).last_seq < u64::MAX,
        ensures
            r == old(self).last_seq + 1,
            final(self).last_seq == r,
            final(self).capabilities == old(self).capabilities,
            final(self).spec_pending() == old(self).spec_pending(),
    {
        self.last_seq = self.last_seq + 1;
        self.last_seq
    }

    /// Sends an initialize request at once and holds the launch payload
    /// back; the payload must be one JSON value. Nothing is sent and
    /// nothing changes when it is not.
    pub fn launch(&mut self, backend_args_json: &str) -> (r: Result<String, DapError>)
        requires
            old(self).last_seq < u64::MAX,
        ensures
            ({
                match r {
                    Ok(frame) => {
                        &&& sp_payload(backend_args_json@) is Some
                        &&& frame@ == msg_frame(
                            ProtocolMessageView::Request(
                                RequestMessageView::Initialize {
                                    seq: (old(self).last_seq + 1) as u64,
                                    arguments: init_client_args(),
                                },
                            ),
                        )
                        &&& final(self).last_seq == old(self).last_seq + 1
                        &&& final(self).spec_pending() == sp_payload(backend_args_json@)
                        &&& final(self).capabilities == old(self).capabilities
                    },
                    Err(e) => {
                        &&& sp_payload(backend_args_json@) is None
                        &&& e == DapError::JsonEncodingError
                        &&& *final(self) == *old(self)
                    },
                }
            }),
    {
        let args_chars = lit(backend_args_json);
        let parsed = match parse_payload(&args_chars) {
            Some(v) => v,
            None => {
                return Err(DapError::JsonEncodingError);
            },
        };
        let seq = self.next_seq();
        let message = ProtocolMessage::Request(
            RequestMessage::Initialize {
                seq,
                arguments: InitializeArguments {
                    client_id: Some(lit("memvisor")),
                    client_name: Some(lit("MemVisor")),
                    adapter_id: lit("rust-gdb"),
                    locale: None,
                },
            },
        );
        let body = message.encode();
        let frame = make_frame(&body);
        self.pending_launch_req = Some(parsed);
        Ok(frame)
    }

    /// The wire form of one message, ready to write to the adapter.
    pub fn send_message(&self, msg: ProtocolMessage) -> (frame: String)
        ensures
            frame@ == msg_frame(msg@),
    {
        let body = msg.encode();
        make_frame(&body)
    }

    /// Sends the held-back launch request, if any; with nothing held back
    /// this is a no-op, not an error.
    pub fn flush_pending_launch_requests(&mut self) -> (r: Option<String>)
        requires
            old(self).last_seq < u64::MAX,
        ensures
            ({
                match old(self).spec_pending() {
                    Some(a) => {
                        &&& r matches Some(frame) && frame@ == msg_frame(
                            ProtocolMessageView::Request(
                                RequestMessageView::Launch {
                                    seq: (old(self).last_seq + 1) as u64,
                                    arguments: a,
                                },
                            ),
                        )
                        &&& final(self).last_seq == old(self).last_seq + 1
                        &&& final(self).spec_pending() is None
                        &&& final(self).capabilities == old(self).capabilities
                    },
                    None => r is None && *final(self) == *old(self),
                }
            }),
    {
        let pending = self.pending_launch_req.take();
        match pending {
            Some(launch_req) => {
                let seq = self.next_seq();
                let message = ProtocolMessage::Request(
                    RequestMessage::Launch { seq, arguments: launch_req },
                );
                let body = message.encode();
                Some(make_frame(&body))
            },
            None => None,
        }
    }

    /// The capability set the adapter advertised.
    pub fn get_capabilities(&self) -> (c: Capabilities)
        ensures
            c == self.capabilities,
    {
        self.capabilities
    }

    /// Replaces the capability set wholesale.
    pub fn set_capabilities(&mut self, cap: Capabilities)
        ensures
            final(self).capabilities == cap,
            final(self).last_seq == old(self).last_seq,
            final(self).spec_pending() == old(self).spec_pending(),
    {
        self.capabilities = cap;
    }
}

} // verus!
