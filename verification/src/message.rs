//! The tagged message model: requests, responses and events, each keyed by
//! a command or event name, with an explicit catch-all for names this client
//! does not recognize.

use vstd::prelude::*;
use crate::json::JsonValue;
use crate::json::JsonView;
use crate::json::jview;
use crate::message_types::Breakpoint;
use crate::message_types::BreakpointView;
use crate::message_types::Capabilities;
use crate::message_types::OutputEventCategory;
use crate::message_types::Scope;
use crate::message_types::ScopeView;
use crate::message_types::Source;
use crate::message_types::SourceBreakpoint;
use crate::message_types::SourceBreakpointView;
use crate::message_types::SourceView;
use crate::message_types::SteppingGranularity;
use crate::message_types::StoppedEventReason;
use crate::message_types::Variable;
use crate::message_types::VariableView;
use crate::message_types::opt_text_view;

verus! {

/// The view of a vector of viewable values, element by element.
pub open spec fn seq_view<T: View>(v: Vec<T>) -> Seq<T::V> {
    Seq::new(v@.len(), |i: int| v@[i]@)
}

/// A message on the wire: the top-level discriminant.
#[derive(Debug)]
pub enum ProtocolMessage {
    Request(RequestMessage),
    Response(ResponseMessage),
    Event(DapEvent),
    /// A message whose top-level tag this client does not recognize.
    Unknown,
}

pub enum ProtocolMessageView {
    Request(RequestMessageView),
    Response(ResponseMessageView),
    Event(DapEventView),
    Unknown,
}

impl View for ProtocolMessage {
    type V = ProtocolMessageView;

    open spec fn view(&self) -> ProtocolMessageView {
        match self {
            ProtocolMessage::Request(r) => ProtocolMessageView::Request(r@),
            ProtocolMessage::Response(r) => ProtocolMessageView::Response(r@),
            ProtocolMessage::Event(e) => ProtocolMessageView::Event(e@),
            ProtocolMessage::Unknown => ProtocolMessageView::Unknown,
        }
    }
}

/// A request, keyed by its command name.
#[derive(Debug)]
pub enum RequestMessage {
    Cancel { seq: u64, arguments: Option<CancelArguments> },
    /// The first request a client sends; until the adapter answers it, no
    /// other request may be sent, and the adapter sends nothing either.
    Initialize { seq: u64, arguments: InitializeArguments },
    /// Attach to a debuggee that is already running; the arguments depend
    /// on the debugger.
    Attach { seq: u64, arguments: JsonValue },
    /// The client has finished its configuration requests.
    ConfigurationDone { seq: u64, arguments: Option<JsonValue> },
    /// Start the debuggee; the arguments depend on the debugger.
    Launch { seq: u64, arguments: JsonValue },
    Next { seq: u64, arguments: NextArguments },
    Scopes { seq: u64, arguments: ScopesArguments },
    /// Sets all breakpoints for one source, clearing previous ones; an
    /// empty list clears every breakpoint in that source.
    SetBreakpoints { seq: u64, arguments: SetBreakpointsArguments },
    Variables { seq: u64, arguments: VariablesArguments },
    /// A request whose command this client does not recognize.
    Unknown,
}

pub enum RequestMessageView {
    Cancel { seq: u64, arguments: Option<CancelArgumentsView> },
    Initialize { seq: u64, arguments: InitializeArgumentsView },
    Attach { seq: u64, arguments: JsonView },
    ConfigurationDone { seq: u64, arguments: Option<JsonView> },
    Launch { seq: u64, arguments: JsonView },
    Next { seq: u64, arguments: NextArguments },
    Scopes { seq: u64, arguments: ScopesArguments },
    SetBreakpoints { seq: u64, arguments: SetBreakpointsArgumentsView },
    Variables { seq: u64, arguments: VariablesArguments },
    Unknown,
}

impl View for RequestMessage {
    type V = RequestMessageView;

    open spec fn view(&self) -> RequestMessageView {
        match self {
            RequestMessage::Cancel { seq, arguments } => RequestMessageView::Cancel {
                seq: *seq,
                arguments: match arguments {
                    Some(a) => Some(a@),
                    None => None,
                },
            },
            RequestMessage::Initialize { seq, arguments } => RequestMessageView::Initialize {
                seq: *seq,
                arguments: arguments@,
            },
            RequestMessage::Attach { seq, arguments } => RequestMessageView::Attach {
                seq: *seq,
                arguments: jview(*arguments),
            },
            RequestMessage::ConfigurationDone { seq, arguments } => {
                RequestMessageView::ConfigurationDone {
                    seq: *seq,
                    arguments: match arguments {
                        Some(a) => Some(jview(*a)),
                        None => None,
                    },
                }
            },
            RequestMessage::Launch { seq, arguments } => RequestMessageView::Launch {
                seq: *seq,
                arguments: jview(*arguments),
            },
            RequestMessage::Next { seq, arguments } => RequestMessageView::Next {
                seq: *seq,
                arguments: *arguments,
            },
            RequestMessage::Scopes { seq, arguments } => RequestMessageView::Scopes {
                seq: *seq,
                arguments: *arguments,
            },
            RequestMessage::SetBreakpoints { seq, arguments } => {
                RequestMessageView::SetBreakpoints { seq: *seq, arguments: arguments@ }
            },
            RequestMessage::Variables { seq, arguments } => RequestMessageView::Variables {
                seq: *seq,
                arguments: *arguments,
            },
            RequestMessage::Unknown => RequestMessageView::Unknown,
        }
    }
}

/// A response, keyed by the command it answers.
#[derive(Debug)]
pub enum ResponseMessage {
    Cancelled,
    Initialize { seq: u64, request_seq: u64, success: bool, body: Option<Capabilities> },
    NotStopped,
    Scopes { seq: u64, request_req: u64, success: bool, body: ScopesResponseBody },
    Variables { seq: u64, request_req: u64, success: bool, body: VariablesResponseBody },
    SetBreakpoints { seq: u64, request_seq: u64, success: bool, body: SetBreakpointsResponseBody },
    /// A response whose command this client does not recognize.
    Unknown,
}

pub enum ResponseMessageView {
    Cancelled,
    Initialize { seq: u64, request_seq: u64, success: bool, body: Option<Capabilities> },
    NotStopped,
    Scopes { seq: u64, request_req: u64, success: bool, body: ScopesResponseBodyView },
    Variables { seq: u64, request_req: u64, success: bool, body: VariablesResponseBodyView },
    SetBreakpoints {
        seq: u64,
        request_seq: u64,
        success: bool,
        body: SetBreakpointsResponseBodyView,
    },
    Unknown,
}

impl View for ResponseMessage {
    type V = ResponseMessageView;

    open spec fn view(&self) -> ResponseMessageView {
        match self {
            ResponseMessage::Cancelled => ResponseMessageView::Cancelled,
            ResponseMessage::Initialize { seq, request_seq, success, body } => {
                ResponseMessageView::Initialize {
                    seq: *seq,
                    request_seq: *request_seq,
                    success: *success,
                    body: *body,
                }
            },
            ResponseMessage::NotStopped => ResponseMessageView::NotStopped,
            ResponseMessage::Scopes { seq, request_req, success, body } => {
                ResponseMessageView::Scopes {
                    seq: *seq,
                    request_req: *request_req,
                    success: *success,
                    body: body@,
                }
            },
            ResponseMessage::Variables { seq, request_req, success, body } => {
                ResponseMessageView::Variables {
                    seq: *seq,
                    request_req: *request_req,
                    success: *success,
                    body: body@,
                }
            },
            ResponseMessage::SetBreakpoints { seq, request_seq, success, body } => {
                ResponseMessageView::SetBreakpoints {
                    seq: *seq,
                    request_seq: *request_seq,
                    success: *success,
                    body: body@,
                }
            },
            ResponseMessage::Unknown => ResponseMessageView::Unknown,
        }
    }
}

/// An event, keyed by its event name.
#[derive(Debug)]
pub enum DapEvent {
    Breakpoint { seq: u64, body: BreakpointEvent },
    Output { seq: u64, body: OutputEvent },
    Stopped { seq: u64, body: StoppedEvent },
    Terminated { seq: u64 },
    /// An event whose name this client does not recognize.
    Unknown,
}

pub enum DapEventView {
    Breakpoint { seq: u64, body: BreakpointEventView },
    Output { seq: u64, body: OutputEventView },
    Stopped { seq: u64, body: StoppedEventView },
    Terminated { seq: u64 },
    Unknown,
}

impl View for DapEvent {
    type V = DapEventView;

    open spec fn view(&self) -> DapEventView {
        match self {
            DapEvent::Breakpoint { seq, body } => DapEventView::Breakpoint {
                seq: *seq,
                body: body@,
            },
            DapEvent::Output { seq, body } => DapEventView::Output { seq: *seq, body: body@ },
            DapEvent::Stopped { seq, body } => DapEventView::Stopped { seq: *seq, body: body@ },
            DapEvent::Terminated { seq } => DapEventView::Terminated { seq: *seq },
            DapEvent::Unknown => DapEventView::Unknown,
        }
    }
}

#[derive(Clone, Debug)]
pub struct CancelArguments {
    pub request_id: Option<u64>,
    pub progress_id: Option<Vec<char>>,
}

pub struct CancelArgumentsView {
    pub request_id: Option<u64>,
    pub progress_id: Option<Seq<char>>,
}

impl View for CancelArguments {
    type V = CancelArgumentsView;

    open spec fn view(&self) -> CancelArgumentsView {
        CancelArgumentsView {
            request_id: self.request_id,
            progress_id: opt_text_view(self.progress_id),
        }
    }
}

#[derive(Clone, Debug)]
pub struct InitializeArguments {
    pub client_id: Option<Vec<char>>,
    pub client_name: Option<Vec<char>>,
    pub adapter_id: Vec<char>,
    pub locale: Option<Vec<char>>,
}

pub struct InitializeArgumentsView {
    pub client_id: Option<Seq<char>>,
    pub client_name: Option<Seq<char>>,
    pub adapter_id: Seq<char>,
    pub locale: Option<Seq<char>>,
}

impl View for InitializeArguments {
    type V = InitializeArgumentsView;

    open spec fn view(&self) -> InitializeArgumentsView {
        InitializeArgumentsView {
            client_id: opt_text_view(self.client_id),
            client_name: opt_text_view(self.client_name),
            adapter_id: self.adapter_id@,
            locale: opt_text_view(self.locale),
        }
    }
}

#[derive(Clone, Copy, Debug, PartialEq, Eq, Structural)]
pub struct NextArguments {
    /// The thread to resume execution for, one step.
    pub thread_id: u64,
    /// If true, other suspended threads are not resumed.
    pub single_thread: Option<bool>,
    /// Stepping granularity; statement-level when absent.
    pub stepping_granularity: Option<SteppingGranularity>,
}

#[derive(Clone, Copy, Debug, PartialEq, Eq, Structural)]
pub struct ScopesArguments {
    /// The stack frame to retrieve scopes for.
    pub frame_id: u64,
}

#[derive(Debug)]
pub struct ScopesResponseBody {
    pub scopes: Vec<Scope>,
}

pub struct ScopesResponseBodyView {
    pub scopes: Seq<ScopeView>,
}

impl View for ScopesResponseBody {
    type V = ScopesResponseBodyView;

    open spec fn view(&self) -> ScopesResponseBodyView {
        ScopesResponseBodyView { scopes: seq_view(self.scopes) }
    }
}

#[derive(Debug)]
pub struct SetBreakpointsArguments {
    /// The source the breakpoints belong to.
    pub source: Source,
    /// The code locations of the breakpoints.
    pub breakpoints: Option<Vec<SourceBreakpoint>>,
    /// Indicates that the underlying source code has been modified.
    pub source_modified: Option<bool>,
}

pub struct SetBreakpointsArgumentsView {
    pub source: SourceView,
    pub breakpoints: Option<Seq<SourceBreakpointView>>,
    pub source_modified: Option<bool>,
}

impl View for SetBreakpointsArguments {
    type V = SetBreakpointsArgumentsView;

    open spec fn view(&self) -> SetBreakpointsArgumentsView {
        SetBreakpointsArgumentsView {
            source: self.source@,
            breakpoints: match self.breakpoints {
                Some(v) => Some(seq_view(v)),
                None => None,
            },
            source_modified: self.source_modified,
        }
    }
}

#[derive(Debug)]
pub struct SetBreakpointsResponseBody {
    pub breakpoints: Vec<Breakpoint>,
}

pub struct SetBreakpointsResponseBodyView {
    pub breakpoints: Seq<BreakpointView>,
}

impl View for SetBreakpointsResponseBody {
    type V = SetBreakpointsResponseBodyView;

    open spec fn view(&self) -> SetBreakpointsResponseBodyView {
        SetBreakpointsResponseBodyView { breakpoints: seq_view(self.breakpoints) }
    }
}

#[derive(Clone, Copy, Debug, PartialEq, Eq, Structural)]
pub struct VariablesArguments {
    /// The variable to retrieve children of.
    pub variables_reference: u64,
}

#[derive(Debug)]
pub struct VariablesResponseBody {
    pub variables: Vec<Variable>,
}

pub struct VariablesResponseBodyView {
    pub variables: Seq<VariableView>,
}

impl View for VariablesResponseBody {
    type V = VariablesResponseBodyView;

    open spec fn view(&self) -> VariablesResponseBodyView {
        VariablesResponseBodyView { variables: seq_view(self.variables) }
    }
}

#[derive(Debug)]
pub struct BreakpointEvent {
    pub reason: BreakpointEventReason,
    pub breakpoint: Breakpoint,
}

pub struct BreakpointEventView {
    pub reason: BreakpointEventReason,
    pub breakpoint: BreakpointView,
}

impl View for BreakpointEvent {
    type V = BreakpointEventView;

    open spec fn view(&self) -> BreakpointEventView {
        BreakpointEventView { reason: self.reason, breakpoint: self.breakpoint@ }
    }
}

#[derive(Clone, Copy, Debug, PartialEq, Eq, Structural)]
pub enum BreakpointEventReason {
    Changed,
    New,
    Removed,
    Unknown,
}

#[derive(Clone, Debug)]
pub struct OutputEvent {
    pub category: Option<OutputEventCategory>,
    pub output: Vec<char>,
}

pub struct OutputEventView {
    pub category: Option<OutputEventCategory>,
    pub output: Seq<char>,
}

impl View for OutputEvent {
    type V = OutputEventView;

    open spec fn view(&self) -> OutputEventView {
        OutputEventView { category: self.category, output: self.output@ }
    }
}

#[derive(Clone, Debug)]
pub struct StoppedEvent {
    /// The reason for the stoppage.
    pub reason: StoppedEventReason,
    /// A description of the stoppage.
    pub description: Option<Vec<char>>,
    /// The thread which was stopped.
    pub thread_id: Option<u64>,
    /// A hint that the client should not change focus.
    pub preserve_focus_hint: Option<bool>,
    /// Additional information, e.g. the name of an exception.
    pub text: Option<Vec<char>>,
    /// If true, all threads have been stopped.
    pub all_threads_stopped: Option<bool>,
    /// The breakpoints that triggered the event.
    pub hit_breakpoint_ids: Option<Vec<u64>>,
}

pub struct StoppedEventView {
    pub reason: StoppedEventReason,
    pub description: Option<Seq<char>>,
    pub thread_id: Option<u64>,
    pub preserve_focus_hint: Option<bool>,
    pub text: Option<Seq<char>>,
    pub all_threads_stopped: Option<bool>,
    pub hit_breakpoint_ids: Option<Seq<u64>>,
}

impl View for StoppedEvent {
    type V = StoppedEventView;

    open spec fn view(&self) -> StoppedEventView {
        StoppedEventView {
            reason: self.reason,
            description: opt_text_view(self.description),
            thread_id: self.thread_id,
            preserve_focus_hint: self.preserve_focus_hint,
            text: opt_text_view(self.text),
            all_threads_stopped: self.all_threads_stopped,
            hit_breakpoint_ids: match self.hit_breakpoint_ids {
                Some(v) => Some(v@),
                None => None,
            },
        }
    }
}

} // verus!
