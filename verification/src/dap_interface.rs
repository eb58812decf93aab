//! The facade the rest of a debugger front end talks to: it owns the
//! session and the breakpoint registry, drains decoded messages once per
//! tick, and turns them into state changes and outbound frames.

use vstd::prelude::*;
use crate::breakpoints::Breakpoint;
use crate::breakpoints::BreakpointView;
use crate::breakpoints::BreakpointStore;
use crate::breakpoints::CodeBreakpoint;
use crate::breakpoints::CodeBreakpointView;
use crate::dap::DapInstance;
use crate::dap::msg_frame;
use crate::errors::DapError;
use crate::json::JsonValue;
use crate::json::JsonView;
use crate::json::copy_text;
use crate::message::DapEvent;
use crate::message::ProtocolMessage;
use crate::message::ProtocolMessageView;
use crate::message::RequestMessage;
use crate::message::RequestMessageView;
use crate::message::ResponseMessage;
use crate::message::ResponseMessageView;
use crate::message::NextArguments;
use crate::message::SetBreakpointsArguments;
use crate::message::SetBreakpointsArgumentsView;
use crate::message::seq_view;
use crate::message_types::Capabilities;
use crate::message_types::Source;
use crate::message_types::SourceBreakpoint;
use crate::message_types::SourceBreakpointView;
use crate::message_types::SourceView;
use crate::message_types::SteppingGranularity;
use crate::types::RequestId;

verus! {

broadcast use vstd::std_specs::vec::group_vec_axioms;

/// The coarse debugging state a front end renders.
#[derive(Debug)]
pub enum DebugState {
    NotInitialized,
    Ready,
    Running,
    Paused,
    StoppedAtBreakpoint { breakpoint: Breakpoint },
}

pub enum DebugStateView {
    NotInitialized,
    Ready,
    Running,
    Paused,
    StoppedAtBreakpoint { breakpoint: BreakpointView },
}

impl View for DebugState {
    type V = DebugStateView;

    open spec fn view(&self) -> DebugStateView {
        match self {
            DebugState::NotInitialized => DebugStateView::NotInitialized,
            DebugState::Ready => DebugStateView::Ready,
            DebugState::Running => DebugStateView::Running,
            DebugState::Paused => DebugStateView::Paused,
            DebugState::StoppedAtBreakpoint { breakpoint } => {
                DebugStateView::StoppedAtBreakpoint { breakpoint: breakpoint@ }
            },
        }
    }
}

/// One side effect the caller must carry out after a tick.
#[derive(Debug)]
pub enum Action {
    /// Write this frame to the adapter's input pipe.
    Send(String),
    /// Mirror this adapter output to the local standard output.
    WriteStdout(Vec<char>),
    /// Mirror this adapter output to the local standard error.
    WriteStderr(Vec<char>),
    /// Route this adapter output, of any other category, to the caller's
    /// diagnostic log, category included.
    LogOutput { category: crate::message_types::OutputEventCategory, output: Vec<char> },
}

pub enum ActionView {
    Send(Seq<char>),
    WriteStdout(Seq<char>),
    WriteStderr(Seq<char>),
    LogOutput { category: crate::message_types::OutputEventCategory, output: Seq<char> },
}

impl View for Action {
    type V = ActionView;

    open spec fn view(&self) -> ActionView {
        match self {
            Action::Send(f) => ActionView::Send(f@),
            Action::WriteStdout(t) => ActionView::WriteStdout(t@),
            Action::WriteStderr(t) => ActionView::WriteStderr(t@),
            Action::LogOutput { category, output } => ActionView::LogOutput {
                category: *category,
                output: output@,
            },
        }
    }
}

/// Whether a message is a successful initialize response.
pub open spec fn is_init_success(m: ProtocolMessageView) -> bool {
    match m {
        ProtocolMessageView::Response(ResponseMessageView::Initialize { success, .. }) => success,
        _ => false,
    }
}

/// Whether a successful initialize response occurs among the first `n`
/// messages.
pub open spec fn init_in_prefix(msgs: Seq<ProtocolMessageView>, n: int) -> bool {
    exists|i: int| 0 <= i < n && i < msgs.len() && is_init_success(#[trigger] msgs[i])
}

/// The capability set after the first `n` messages: each successful
/// initialize response carrying a body replaces it wholesale.
pub open spec fn caps_after(c0: Capabilities, msgs: Seq<ProtocolMessageView>, n: int) -> Capabilities
    decreases n,
{
    if n <= 0 || n > msgs.len() {
        c0
    } else {
        let c = caps_after(c0, msgs, n - 1);
        match msgs[n - 1] {
            ProtocolMessageView::Response(
                ResponseMessageView::Initialize { success, body, .. },
            ) => if success {
                match body {
                    Some(b) => b,
                    None => c,
                }
            } else {
                c
            },
            _ => c,
        }
    }
}

/// The output routed while draining the first `n` messages, in arrival
/// order: stdout and stderr output events are mirrored to the matching
/// local stream, output of any other category goes to the diagnostic log
/// with its category; an output event carrying no category is dropped.
pub open spec fn out_actions(msgs: Seq<ProtocolMessageView>, n: int) -> Seq<ActionView>
    decreases n,
{
    if n <= 0 || n > msgs.len() {
        Seq::empty()
    } else {
        out_actions(msgs, n - 1) + (match msgs[n - 1] {
            ProtocolMessageView::Event(crate::message::DapEventView::Output { body, .. }) => {
                match body.category {
                    Some(crate::message_types::OutputEventCategory::Stdout) => seq![
                        ActionView::WriteStdout(body.output),
                    ],
                    Some(crate::message_types::OutputEventCategory::Stderr) => seq![
                        ActionView::WriteStderr(body.output),
                    ],
                    Some(cat) => seq![
                        ActionView::LogOutput { category: cat, output: body.output },
                    ],
                    None => Seq::empty(),
                }
            },
            _ => Seq::empty(),
        })
    }
}

/// The source descriptor a synchronization request carries: the file path
/// and nothing else.
pub open spec fn sync_source(file: Seq<char>) -> SourceView {
    SourceView {
        name: None,
        path: Some(file),
        source_reference: None,
        presentation_hint: None,
        origin: None,
        adapter_data: None,
        checksums: None,
    }
}

/// The full-replace synchronization request for one file: it always carries
/// the file's complete current breakpoint list, never a delta.
pub open spec fn setbp_request(file: Seq<char>, lines: Seq<u64>, seq: u64) -> ProtocolMessageView {
    ProtocolMessageView::Request(
        RequestMessageView::SetBreakpoints {
            seq,
            arguments: SetBreakpointsArgumentsView {
                source: sync_source(file),
                breakpoints: Some(
                    Seq::new(
                        lines.len(),
                        |i: int|
                            SourceBreakpointView {
                                line: lines[i],
                                column: None,
                                condition: None,
                                hit_condition: None,
                                log_message: None,
                                mode: None,
                            },
                    ),
                ),
                source_modified: None,
            },
        },
    )
}

/// One synchronization frame per file with breakpoints, in registry order,
/// with consecutive sequence numbers from `base + 1` on.
pub open spec fn sync_actions(st: BreakpointStore, base: int) -> Seq<ActionView> {
    Seq::new(
        st.spec_files().len(),
        |i: int|
            ActionView::Send(
                msg_frame(
                    setbp_request(
                        st.spec_files()[i],
                        st.spec_lines(st.spec_files()[i]),
                        (base + i + 1) as u64,
                    ),
                ),
            ),
    )
}

/// The configuration-done request that closes the handshake.
pub open spec fn configuration_done_request(seq: u64) -> ProtocolMessageView {
    ProtocolMessageView::Request(
        RequestMessageView::ConfigurationDone {
            seq,
            arguments: Some(JsonView::Obj(Seq::empty())),
        },
    )
}

/// Everything sent after initialization succeeds: every file's breakpoints,
/// then the held-back launch if any, then exactly one configuration-done —
/// in that order.
pub open spec fn post_init_actions(st: BreakpointStore, pending: Option<JsonView>, base: int) -> Seq<
    ActionView,
> {
    let nf = st.spec_files().len() as int;
    sync_actions(st, base) + (match pending {
        Some(a) => seq![
            ActionView::Send(
                msg_frame(
                    ProtocolMessageView::Request(
                        RequestMessageView::Launch { seq: (base + nf + 1) as u64, arguments: a },
                    ),
                ),
            ),
        ],
        None => Seq::empty(),
    }) + seq![
        ActionView::Send(
            msg_frame(
                configuration_done_request(
                    (base + nf + (if pending is Some {
                        1int
                    } else {
                        0int
                    }) + 1) as u64,
                ),
            ),
        ),
    ]
}

/// The facade: one optional session, the breakpoint registry, and the
/// coarse debug state.
pub struct DapInterface {
    pub instance: Option<DapInstance>,
    pub breakpoints: BreakpointStore,
    pub debug_state: DebugState,
}

impl DapInterface {
    pub open spec fn wf(self) -> bool {
        self.breakpoints.wf()
    }

    /// Enough sequence numbers left for a full tick.
    pub open spec fn seq_headroom(self) -> bool {
        match self.instance {
            Some(i) => i.last_seq + self.breakpoints.spec_files().len() + 2 <= u64::MAX,
            None => true,
        }
    }

    /// No session, no breakpoints, not initialized.
    pub fn new() -> (r: Self)
        ensures
            r.wf(),
            r.instance is None,
            r.breakpoints.spec_files() == Seq::<Seq<char>>::empty(),
            r.debug_state@ == DebugStateView::NotInitialized,
    {
        DapInterface {
            instance: None,
            breakpoints: BreakpointStore::new(),
            debug_state: DebugState::NotInitialized,
        }
    }

    /// Installs a session, replacing any previous one.
    pub fn attach_instance(&mut self, instance: DapInstance)
        requires
            old(self).wf(),
        ensures
            final(self).wf(),
            final(self).instance == Some(instance),
            final(self).breakpoints == old(self).breakpoints,
            final(self).debug_state@ == old(self).debug_state@,
    {
        self.instance = Some(instance);
    }

    /// Forwards the launch payload to the session and resets the debug
    /// state; fails when no session exists or the payload is no JSON value.
    pub fn launch(&mut self, launch_json: &str) -> (r: Result<String, DapError>)
        requires
            old(self).wf(),
            old(self).seq_headroom(),
        ensures
            final(self).wf(),
            final(self).breakpoints == old(self).breakpoints,
            r is Err <==> (old(self).instance is None || crate::codec::sp_payload(launch_json@)
                is None),
            ({
                match r {
                    Ok(frame) => {
                        &&& old(self).instance matches Some(inst0) ==> (frame@ == msg_frame(
                            ProtocolMessageView::Request(
                                RequestMessageView::Initialize {
                                    seq: (inst0.last_seq + 1) as u64,
                                    arguments: crate::dap::init_client_args(),
                                },
                            ),
                        ) && (final(self).instance matches Some(inst1) && inst1.spec_pending()
                            == crate::codec::sp_payload(launch_json@) && inst1.last_seq
                            == inst0.last_seq + 1))
                        &&& old(self).instance is Some
                        &&& final(self).debug_state@ == DebugStateView::NotInitialized
                    },
                    Err(e) => {
                        &&& *final(self) == *old(self)
                        &&& (e == DapError::NoLoadedTarget <==> old(self).instance is None)
                        &&& (e == DapError::JsonEncodingError <==> old(self).instance is Some
                            && crate::codec::sp_payload(launch_json@) is None)
                    },
                }
            }),
    {
        match &mut self.instance {
            Some(inst) => {
                let frame = inst.launch(launch_json)?;
                self.debug_state = DebugState::NotInitialized;
                Ok(frame)
            },
            None => Err(DapError::NoLoadedTarget),
        }
    }

    /// Drains one tick's decoded messages, in arrival order. Successful
    /// initialization captures the capabilities and moves to ready; stdout
    /// and stderr output is mirrored, output of any other category is
    /// routed to the caller's diagnostic log. After the drain, if initialization
    /// succeeded during it, every file's breakpoints are re-sent, the
    /// held-back launch goes out, and exactly one configuration-done
    /// closes the handshake — in that order.
    #[verifier::loop_isolation(false)]
    #[verifier::rlimit(100)]
    pub fn process_dap_events(&mut self, inbound: &Vec<ProtocolMessage>) -> (r: Result<
        Vec<Action>,
        DapError,
    >)
        requires
            old(self).wf(),
            old(self).seq_headroom(),
        ensures
            final(self).wf(),
            final(self).breakpoints == old(self).breakpoints,
            r is Ok,
            ({
                let msgs = seq_view(*inbound);
                let actions = r->Ok_0;
                match old(self).instance {
                    None => *final(self) == *old(self) && actions@.len() == 0,
                    Some(inst0) => {
                        let init = init_in_prefix(msgs, msgs.len() as int);
                        let nf = old(self).breakpoints.spec_files().len() as int;
                        &&& seq_view(actions) == out_actions(msgs, msgs.len() as int) + (if init {
                            post_init_actions(
                                old(self).breakpoints,
                                inst0.spec_pending(),
                                inst0.last_seq as int,
                            )
                        } else {
                            Seq::<ActionView>::empty()
                        })
                        &&& final(self).debug_state@ == (if init {
                            DebugStateView::Ready
                        } else {
                            old(self).debug_state@
                        })
                        &&& final(self).instance matches Some(inst1)
                        &&& inst1.capabilities == caps_after(
                            inst0.capabilities,
                            msgs,
                            msgs.len() as int,
                        )
                        &&& (init ==> inst1.spec_pending() is None && inst1.last_seq
                            == inst0.last_seq + nf + (if inst0.spec_pending() is Some {
                            1int
                        } else {
                            0int
                        }) + 1)
                        &&& (!init ==> inst1.spec_pending() == inst0.spec_pending()
                            && inst1.last_seq == inst0.last_seq)
                    },
                }
            }),
    {
        let ghost msgs = seq_view(*inbound);
        let mut actions: Vec<Action> = Vec::new();
        if self.instance.is_none() {
            return Ok(actions);
        }
        let ghost inst0 = self.instance->Some_0;
        let mut configuration_done = false;
        let mut i: usize = 0;
        while i < inbound.len()
            invariant
                i <= inbound.len(),
                self.instance is Some,
                self.instance->Some_0.last_seq == inst0.last_seq,
                self.instance->Some_0.spec_pending() == inst0.spec_pending(),
                self.instance->Some_0.capabilities == caps_after(
                    inst0.capabilities,
                    msgs,
                    i as int,
                ),
                configuration_done == init_in_prefix(msgs, i as int),
                seq_view(actions) == out_actions(msgs, i as int),
                self.breakpoints == old(self).breakpoints,
                self.debug_state@ == (if configuration_done {
                    DebugStateView::Ready
                } else {
                    old(self).debug_state@
                }),
            decreases inbound.len() - i,
        {
            let ghost actions0 = seq_view(actions);
            match &inbound[i] {
                ProtocolMessage::Response(ResponseMessage::Initialize { success, body, .. }) => {
                    if *success {
                        configuration_done = true;
                        match body {
                            Some(cap) => {
                                match &mut self.instance {
                                    Some(inst) => {
                                        inst.set_capabilities(*cap);
                                    },
                                    None => {},
                                }
                            },
                            None => {},
                        }
                        self.debug_state = DebugState::Ready;
                    }
                },
                ProtocolMessage::Event(DapEvent::Output { body, .. }) => {
                    match body.category {
                        Some(crate::message_types::OutputEventCategory::Stdout) => {
                            actions.push(Action::WriteStdout(copy_text(&body.output)));
                        },
                        Some(crate::message_types::OutputEventCategory::Stderr) => {
                            actions.push(Action::WriteStderr(copy_text(&body.output)));
                        },
                        Some(cat) => {
                            actions.push(
                                Action::LogOutput {
                                    category: cat,
                                    output: copy_text(&body.output),
                                },
                            );
                        },
                        None => {},
                    }
                },
                _ => {},
            }
            i = i + 1;
            proof {
                assert(msgs[i as int - 1] == inbound[i as int - 1]@);
                assert(seq_view(actions) =~= out_actions(msgs, i as int));
            }
        }
        proof {
            assert(out_actions(msgs, msgs.len() as int) == seq_view(actions));
        }
        if configuration_done {
            let ghost base = inst0.last_seq as int;
            let ghost st = self.breakpoints;
            let mut files: Vec<Vec<char>> = Vec::new();
            self.breakpoints.get_files(&mut files);
            let mut k: usize = 0;
            while k < files.len()
                invariant
                    k <= files.len(),
                    files@.len() == st.spec_files().len(),
                    forall|t: int|
                        0 <= t < files@.len() ==> (#[trigger] files@[t])@ == st.spec_files()[t],
                    self.instance is Some,
                    self.instance->Some_0.last_seq == inst0.last_seq + k,
                    self.instance->Some_0.spec_pending() == inst0.spec_pending(),
                    self.instance->Some_0.capabilities == caps_after(
                        inst0.capabilities,
                        msgs,
                        msgs.len() as int,
                    ),
                    self.breakpoints == old(self).breakpoints,
                    st == self.breakpoints,
                    self.debug_state@ == DebugStateView::Ready,
                    seq_view(actions) == out_actions(msgs, msgs.len() as int) + sync_actions(
                        st,
                        base,
                    ).take(k as int),
                decreases files.len() - k,
            {
                let ghost actions0 = seq_view(actions);
                let mut list: Vec<Breakpoint> = Vec::new();
                self.breakpoints.get_file_breakpoints(&files[k], &mut list);
                let mut bps: Vec<SourceBreakpoint> = Vec::new();
                let ghost lines = st.spec_lines(files@[k as int]@);
                let mut t: usize = 0;
                while t < list.len()
                    invariant
                        t <= list.len(),
                        list@.len() == lines.len(),
                        forall|w: int|
                            0 <= w < list@.len() ==> (#[trigger] list@[w])@
                                == BreakpointView::Source(
                                CodeBreakpointView {
                                    file: files@[k as int]@,
                                    lineno: lines[w],
                                },
                            ),
                        bps@.len() == t,
                        forall|w: int|
                            0 <= w < t ==> (#[trigger] bps@[w])@ == (SourceBreakpointView {
                                line: lines[w],
                                column: None,
                                condition: None,
                                hit_condition: None,
                                log_message: None,
                                mode: None,
                            }),
                    decreases list.len() - t,
                {
                    let line = match &list[t] {
                        Breakpoint::Source(b) => b.lineno,
                    };
                    bps.push(SourceBreakpoint::at_line(line));
                    t = t + 1;
                }
                let source = Source {
                    name: None,
                    path: Some(copy_text(&files[k])),
                    source_reference: None,
                    presentation_hint: None,
                    origin: None,
                    adapter_data: None,
                    checksums: None,
                };
                let seq = match &mut self.instance {
                    Some(inst) => inst.next_seq(),
                    None => 0,
                };
                let msg = ProtocolMessage::Request(
                    RequestMessage::SetBreakpoints {
                        seq,
                        arguments: SetBreakpointsArguments {
                            source,
                            breakpoints: Some(bps),
                            source_modified: None,
                        },
                    },
                );
                let ghost mv = msg@;
                let frame = match &self.instance {
                    Some(inst) => inst.send_message(msg),
                    None => String::new(),
                };
                actions.push(Action::Send(frame));
                k = k + 1;
                proof {
                    assert(mv == setbp_request(
                        st.spec_files()[k as int - 1],
                        st.spec_lines(st.spec_files()[k as int - 1]),
                        (base + (k as int - 1) + 1) as u64,
                    )) by {
                        assert(seq_view(bps) =~= Seq::new(
                            lines.len(),
                            |i: int|
                                SourceBreakpointView {
                                    line: lines[i],
                                    column: None,
                                    condition: None,
                                    hit_condition: None,
                                    log_message: None,
                                    mode: None,
                                },
                        ));
                    }
                    assert(sync_actions(st, base)[k as int - 1] == ActionView::Send(
                        msg_frame(mv),
                    ));
                    assert(seq_view(actions) =~= actions0.push(ActionView::Send(msg_frame(mv))));
                    assert(sync_actions(st, base).take(k as int) =~= sync_actions(st, base).take(
                        k as int - 1,
                    ).push(sync_actions(st, base)[k as int - 1]));
                    assert(seq_view(actions) =~= out_actions(msgs, msgs.len() as int)
                        + sync_actions(st, base).take(k as int));
                }
            }
            proof {
                assert(sync_actions(st, base).take(files@.len() as int) =~= sync_actions(
                    st,
                    base,
                ));
            }
            let ghost actions_sync = seq_view(actions);
            let launch_frame = match &mut self.instance {
                Some(inst) => inst.flush_pending_launch_requests(),
                None => None,
            };
            match launch_frame {
                Some(f) => {
                    actions.push(Action::Send(f));
                },
                None => {},
            }
            let ghost actions_launch = seq_view(actions);
            let seq = match &mut self.instance {
                Some(inst) => inst.next_seq(),
                None => 0,
            };
            let empty_fields: Vec<(Vec<char>, JsonValue)> = Vec::new();
            proof {
                assert(crate::json::jview_fields(empty_fields, 0) =~= Seq::<
                    (Seq<char>, JsonView),
                >::empty());
            }
            let msg = ProtocolMessage::Request(
                RequestMessage::ConfigurationDone {
                    seq,
                    arguments: Some(JsonValue::Obj(empty_fields)),
                },
            );
            let ghost mv = msg@;
            let frame = match &self.instance {
                Some(inst) => inst.send_message(msg),
                None => String::new(),
            };
            actions.push(Action::Send(frame));
            proof {
                assert(mv == configuration_done_request(
                    (base + st.spec_files().len() + (if inst0.spec_pending() is Some {
                        1int
                    } else {
                        0int
                    }) + 1) as u64,
                ));
                let nf = st.spec_files().len() as int;
                let launch_part: Seq<ActionView> = match inst0.spec_pending() {
                    Some(a) => seq![
                        ActionView::Send(
                            msg_frame(
                                ProtocolMessageView::Request(
                                    RequestMessageView::Launch {
                                        seq: (base + nf + 1) as u64,
                                        arguments: a,
                                    },
                                ),
                            ),
                        ),
                    ],
                    None => Seq::empty(),
                };
                assert(actions_launch =~= actions_sync + launch_part);
                assert(seq_view(actions) =~= actions_launch.push(ActionView::Send(msg_frame(mv))));
                assert(seq_view(actions) =~= out_actions(msgs, msgs.len() as int)
                    + post_init_actions(st, inst0.spec_pending(), base));
            }
        }
        Ok(actions)
    }

    /// Re-sends every file's complete breakpoint list.
    #[verifier::loop_isolation(false)]
    #[verifier::rlimit(100)]
    pub fn update_all_breakpoints(&mut self) -> (r: Result<Vec<Action>, DapError>)
        requires
            old(self).wf(),
            old(self).seq_headroom(),
        ensures
            final(self).wf(),
            final(self).breakpoints == old(self).breakpoints,
            final(self).debug_state@ == old(self).debug_state@,
            r is Ok,
            ({
                let actions = r->Ok_0;
                match old(self).instance {
                    None => *final(self) == *old(self) && actions@.len() == 0,
                    Some(inst0) => {
                        &&& seq_view(actions) == sync_actions(
                            old(self).breakpoints,
                            inst0.last_seq as int,
                        )
                        &&& final(self).instance matches Some(inst1)
                        &&& inst1.last_seq == inst0.last_seq + old(
                            self,
                        ).breakpoints.spec_files().len()
                        &&& inst1.spec_pending() == inst0.spec_pending()
                        &&& inst1.capabilities == inst0.capabilities
                    },
                }
            }),
    {
        let mut actions: Vec<Action> = Vec::new();
        if self.instance.is_none() {
            return Ok(actions);
        }
        let ghost inst0 = self.instance->Some_0;
        let ghost base = inst0.last_seq as int;
        let ghost st = self.breakpoints;
        let mut files: Vec<Vec<char>> = Vec::new();
        self.breakpoints.get_files(&mut files);
        let mut k: usize = 0;
        while k < files.len()
            invariant
                k <= files.len(),
                files@.len() == st.spec_files().len(),
                forall|t: int|
                    0 <= t < files@.len() ==> (#[trigger] files@[t])@ == st.spec_files()[t],
                self.instance is Some,
                self.instance->Some_0.last_seq == inst0.last_seq + k,
                self.instance->Some_0.spec_pending() == inst0.spec_pending(),
                self.instance->Some_0.capabilities == inst0.capabilities,
                self.breakpoints == old(self).breakpoints,
                st == self.breakpoints,
                self.debug_state@ == old(self).debug_state@,
                seq_view(actions) == sync_actions(st, base).take(k as int),
            decreases files.len() - k,
        {
            let mut list: Vec<Breakpoint> = Vec::new();
            self.breakpoints.get_file_breakpoints(&files[k], &mut list);
            let mut bps: Vec<SourceBreakpoint> = Vec::new();
            let ghost lines = st.spec_lines(files@[k as int]@);
            let mut t: usize = 0;
            while t < list.len()
                invariant
                    t <= list.len(),
                    list@.len() == lines.len(),
                    forall|w: int|
                        0 <= w < list@.len() ==> (#[trigger] list@[w])@ == BreakpointView::Source(
                            CodeBreakpointView { file: files@[k as int]@, lineno: lines[w] },
                        ),
                    bps@.len() == t,
                    forall|w: int|
                        0 <= w < t ==> (#[trigger] bps@[w])@ == (SourceBreakpointView {
                            line: lines[w],
                            column: None,
                            condition: None,
                            hit_condition: None,
                            log_message: None,
                            mode: None,
                        }),
                decreases list.len() - t,
            {
                let line = match &list[t] {
                    Breakpoint::Source(b) => b.lineno,
                };
                bps.push(SourceBreakpoint::at_line(line));
                t = t + 1;
            }
            let source = Source {
                name: None,
                path: Some(copy_text(&files[k])),
                source_reference: None,
                presentation_hint: None,
                origin: None,
                adapter_data: None,
                checksums: None,
            };
            let seq = match &mut self.instance {
                Some(inst) => inst.next_seq(),
                None => 0,
            };
            let msg = ProtocolMessage::Request(
                RequestMessage::SetBreakpoints {
                    seq,
                    arguments: SetBreakpointsArguments {
                        source,
                        breakpoints: Some(bps),
                        source_modified: None,
                    },
                },
            );
            let ghost mv = msg@;
            let frame = match &self.instance {
                Some(inst) => inst.send_message(msg),
                None => String::new(),
            };
            actions.push(Action::Send(frame));
            k = k + 1;
            proof {
                assert(mv == setbp_request(
                    st.spec_files()[k as int - 1],
                    st.spec_lines(st.spec_files()[k as int - 1]),
                    (base + (k as int - 1) + 1) as u64,
                )) by {
                    assert(seq_view(bps) =~= Seq::new(
                        lines.len(),
                        |i: int|
                            SourceBreakpointView {
                                line: lines[i],
                                column: None,
                                condition: None,
                                hit_condition: None,
                                log_message: None,
                                mode: None,
                            },
                    ));
                }
                assert(sync_actions(st, base)[k as int - 1] == ActionView::Send(msg_frame(mv)));
                assert(sync_actions(st, base).take(k as int) =~= sync_actions(st, base).take(
                    k as int - 1,
                ).push(sync_actions(st, base)[k as int - 1]));
                assert(seq_view(actions) =~= sync_actions(st, base).take(k as int));
            }
        }
        proof {
            assert(sync_actions(st, base).take(files@.len() as int) =~= sync_actions(st, base));
        }
        Ok(actions)
    }
}


impl DapInterface {
    /// The synchronization frame for one file, carrying its complete
    /// current breakpoint list.
    fn sync_file_frame(&mut self, file: &Vec<char>) -> (r: Option<String>)
        requires
            old(self).wf(),
            old(self).instance matches Some(i) ==> i.last_seq < u64::MAX,
        ensures
            final(self).wf(),
            final(self).breakpoints == old(self).breakpoints,
            final(self).debug_state@ == old(self).debug_state@,
            ({
                match old(self).instance {
                    None => r is None && *final(self) == *old(self),
                    Some(inst0) => {
                        &&& r matches Some(frame) && frame@ == msg_frame(
                            setbp_request(
                                file@,
                                old(self).breakpoints.spec_lines(file@),
                                (inst0.last_seq + 1) as u64,
                            ),
                        )
                        &&& final(self).instance matches Some(inst1)
                        &&& inst1.last_seq == inst0.last_seq + 1
                        &&& inst1.spec_pending() == inst0.spec_pending()
                        &&& inst1.capabilities == inst0.capabilities
                    },
                }
            }),
    {
        if self.instance.is_none() {
            return None;
        }
        let ghost st = self.breakpoints;
        let mut list: Vec<Breakpoint> = Vec::new();
        self.breakpoints.get_file_breakpoints(file, &mut list);
        let mut bps: Vec<SourceBreakpoint> = Vec::new();
        let ghost lines = st.spec_lines(file@);
        let mut t: usize = 0;
        while t < list.len()
            invariant
                t <= list.len(),
                list@.len() == lines.len(),
                forall|w: int|
                    0 <= w < list@.len() ==> (#[trigger] list@[w])@ == BreakpointView::Source(
                        CodeBreakpointView { file: file@, lineno: lines[w] },
                    ),
                bps@.len() == t,
                forall|w: int|
                    0 <= w < t ==> (#[trigger] bps@[w])@ == (SourceBreakpointView {
                        line: lines[w],
                        column: None,
                        condition: None,
                        hit_condition: None,
                        log_message: None,
                        mode: None,
                    }),
            decreases list.len() - t,
        {
            let line = match &list[t] {
                Breakpoint::Source(b) => b.lineno,
            };
            bps.push(SourceBreakpoint::at_line(line));
            t = t + 1;
        }
        let source = Source {
            name: None,
            path: Some(copy_text(file)),
            source_reference: None,
            presentation_hint: None,
            origin: None,
            adapter_data: None,
            checksums: None,
        };
        let seq = match &mut self.instance {
            Some(inst) => inst.next_seq(),
            None => 0,
        };
        let msg = ProtocolMessage::Request(
            RequestMessage::SetBreakpoints {
                seq,
                arguments: SetBreakpointsArguments {
                    source,
                    breakpoints: Some(bps),
                    source_modified: None,
                },
            },
        );
        let ghost mv = msg@;
        let frame = match &self.instance {
            Some(inst) => inst.send_message(msg),
            None => String::new(),
        };
        proof {
            assert(mv == setbp_request(
                file@,
                lines,
                (old(self).instance->Some_0.last_seq + 1) as u64,
            )) by {
                assert(seq_view(bps) =~= Seq::new(
                    lines.len(),
                    |i: int|
                        SourceBreakpointView {
                            line: lines[i],
                            column: None,
                            condition: None,
                            hit_condition: None,
                            log_message: None,
                            mode: None,
                        },
                ));
            }
        }
        Some(frame)
    }

    /// Puts a breakpoint in the registry and, when a session exists, hands
    /// back the full-replace synchronization frame for that one file — the
    /// complete current set, never a delta.
    pub fn put_breakpoint(&mut self, breakpoint: Breakpoint) -> (r: Result<Option<String>, DapError>)
        requires
            old(self).wf(),
            old(self).instance matches Some(i) ==> i.last_seq < u64::MAX,
        ensures
            final(self).wf(),
            final(self).breakpoints.spec_lines(breakpoint.spec_file())
                == crate::breakpoints::insert_line(
                old(self).breakpoints.spec_lines(breakpoint.spec_file()),
                breakpoint.spec_line(),
            ),
            forall|f: Seq<char>|
                f != breakpoint.spec_file() ==> final(self).breakpoints.spec_lines(f) == old(
                    self,
                ).breakpoints.spec_lines(f),
            r is Ok,
            ({
                match old(self).instance {
                    None => r->Ok_0 is None && final(self).instance is None,
                    Some(inst0) => {
                        &&& r->Ok_0 matches Some(frame) && frame@ == msg_frame(
                            setbp_request(
                                breakpoint.spec_file(),
                                final(self).breakpoints.spec_lines(breakpoint.spec_file()),
                                (inst0.last_seq + 1) as u64,
                            ),
                        )
                        &&& final(self).instance matches Some(inst1)
                        &&& inst1.last_seq == inst0.last_seq + 1
                        &&& inst1.spec_pending() == inst0.spec_pending()
                        &&& inst1.capabilities == inst0.capabilities
                    },
                }
            }),
    {
        let file = match &breakpoint {
            Breakpoint::Source(b) => copy_text(&b.file),
        };
        self.breakpoints.add(breakpoint);
        let frame = self.sync_file_frame(&file);
        Ok(frame)
    }

    /// Takes a breakpoint out of the registry and, when a session exists,
    /// hands back the full-replace synchronization frame for that one file.
    pub fn remove_breakpoint(&mut self, breakpoint: &Breakpoint) -> (r: Result<
        Option<String>,
        DapError,
    >)
        requires
            old(self).wf(),
            old(self).instance matches Some(i) ==> i.last_seq < u64::MAX,
        ensures
            final(self).wf(),
            final(self).breakpoints.spec_lines(breakpoint.spec_file())
                == crate::breakpoints::remove_line(
                old(self).breakpoints.spec_lines(breakpoint.spec_file()),
                breakpoint.spec_line(),
            ),
            forall|f: Seq<char>|
                f != breakpoint.spec_file() ==> final(self).breakpoints.spec_lines(f) == old(
                    self,
                ).breakpoints.spec_lines(f),
            r is Ok,
            ({
                match old(self).instance {
                    None => r->Ok_0 is None && final(self).instance is None,
                    Some(inst0) => {
                        &&& r->Ok_0 matches Some(frame) && frame@ == msg_frame(
                            setbp_request(
                                breakpoint.spec_file(),
                                final(self).breakpoints.spec_lines(breakpoint.spec_file()),
                                (inst0.last_seq + 1) as u64,
                            ),
                        )
                        &&& final(self).instance matches Some(inst1)
                        &&& inst1.last_seq == inst0.last_seq + 1
                        &&& inst1.spec_pending() == inst0.spec_pending()
                        &&& inst1.capabilities == inst0.capabilities
                    },
                }
            }),
    {
        let file = match breakpoint {
            Breakpoint::Source(b) => copy_text(&b.file),
        };
        let _removed = self.breakpoints.remove(breakpoint);
        let frame = self.sync_file_frame(&file);
        Ok(frame)
    }

    /// Asks the adapter to step one statement; single-thread stepping is
    /// chosen exactly when the negotiated capabilities advertise it.
    pub fn request_next(&mut self) -> (r: Result<String, DapError>)
        requires
            old(self).wf(),
            old(self).instance matches Some(i) ==> i.last_seq < u64::MAX,
        ensures
            final(self).wf(),
            final(self).breakpoints == old(self).breakpoints,
            ({
                match old(self).instance {
                    None => r matches Err(e) && e == DapError::NoDapInstance && *final(self)
                        == *old(self),
                    Some(inst0) => {
                        &&& r matches Ok(frame) && frame@ == msg_frame(
                            ProtocolMessageView::Request(
                                RequestMessageView::Next {
                                    seq: (inst0.last_seq + 1) as u64,
                                    arguments: NextArguments {
                                        thread_id: 0,
                                        single_thread:
                                            inst0.capabilities.supports_single_thread_execution_requests,
                                        stepping_granularity: Some(SteppingGranularity::Statement),
                                    },
                                },
                            ),
                        )
                        &&& final(self).instance matches Some(inst1)
                        &&& inst1.last_seq == inst0.last_seq + 1
                        &&& inst1.spec_pending() == inst0.spec_pending()
                        &&& inst1.capabilities == inst0.capabilities
                    },
                }
            }),
    {
        match &mut self.instance {
            Some(inst) => {
                let seq = inst.next_seq();
                let single_thread = inst.get_capabilities().supports_single_thread_execution_requests;
                let msg = ProtocolMessage::Request(
                    RequestMessage::Next {
                        seq,
                        arguments: NextArguments {
                            thread_id: 0,
                            single_thread,
                            stepping_granularity: Some(SteppingGranularity::Statement),
                        },
                    },
                );
                Ok(inst.send_message(msg))
            },
            None => Err(DapError::NoDapInstance),
        }
    }

    /// Issues the same stepping request and hands back its sequence number
    /// for callers that buffer responses.
    pub fn request_variables(&mut self) -> (r: Result<(RequestId, String), DapError>)
        requires
            old(self).wf(),
            old(self).instance matches Some(i) ==> i.last_seq < u64::MAX,
        ensures
            final(self).wf(),
            final(self).breakpoints == old(self).breakpoints,
            ({
                match old(self).instance {
                    None => r matches Err(e) && e == DapError::NoDapInstance && *final(self)
                        == *old(self),
                    Some(inst0) => {
                        &&& r matches Ok(p) && p.0.0 == inst0.last_seq + 1 && p.1@ == msg_frame(
                            ProtocolMessageView::Request(
                                RequestMessageView::Next {
                                    seq: (inst0.last_seq + 1) as u64,
                                    arguments: NextArguments {
                                        thread_id: 0,
                                        single_thread:
                                            inst0.capabilities.supports_single_thread_execution_requests,
                                        stepping_granularity: Some(SteppingGranularity::Statement),
                                    },
                                },
                            ),
                        )
                        &&& final(self).instance matches Some(inst1)
                        &&& inst1.last_seq == inst0.last_seq + 1
                    },
                }
            }),
    {
        match &mut self.instance {
            Some(inst) => {
                let seq = inst.next_seq();
                let single_thread = inst.get_capabilities().supports_single_thread_execution_requests;
                let msg = ProtocolMessage::Request(
                    RequestMessage::Next {
                        seq,
                        arguments: NextArguments {
                            thread_id: 0,
                            single_thread,
                            stepping_granularity: Some(SteppingGranularity::Statement),
                        },
                    },
                );
                let frame = inst.send_message(msg);
                Ok((RequestId::new(seq), frame))
            },
            None => Err(DapError::NoDapInstance),
        }
    }

    /// Copies the list of files with breakpoints out.
    pub fn get_files_with_breakpoints(&self, out: &mut Vec<Vec<char>>)
        requires
            self.wf(),
        ensures
            final(out)@.len() == self.breakpoints.spec_files().len(),
            forall|t: int|
                0 <= t < final(out)@.len() ==> (#[trigger] final(out)@[t])@
                    == self.breakpoints.spec_files()[t],
    {
        self.breakpoints.get_files(out);
    }

    /// Copies one file's breakpoints out, ascending by line.
    pub fn get_file_breakpoints(&self, file: &Vec<char>, out: &mut Vec<Breakpoint>)
        requires
            self.wf(),
        ensures
            final(out)@.len() == self.breakpoints.spec_lines(file@).len(),
            forall|t: int|
                0 <= t < final(out)@.len() ==> (#[trigger] final(out)@[t])@
                    == BreakpointView::Source(
                    CodeBreakpointView {
                        file: file@,
                        lineno: self.breakpoints.spec_lines(file@)[t],
                    },
                ),
    {
        self.breakpoints.get_file_breakpoints(file, out);
    }

    /// The coarse debug state, as a fresh value.
    pub fn get_debug_state(&self) -> (r: DebugState)
        ensures
            r@ == self.debug_state@,
    {
        match &self.debug_state {
            DebugState::NotInitialized => DebugState::NotInitialized,
            DebugState::Ready => DebugState::Ready,
            DebugState::Running => DebugState::Running,
            DebugState::Paused => DebugState::Paused,
            DebugState::StoppedAtBreakpoint { breakpoint } => {
                let copy = match breakpoint {
                    Breakpoint::Source(b) => Breakpoint::Source(
                        CodeBreakpoint { file: copy_text(&b.file), lineno: b.lineno },
                    ),
                };
                DebugState::StoppedAtBreakpoint { breakpoint: copy }
            },
        }
    }
}


impl Default for DapInterface {
    /// The same empty facade `new` yields.
    fn default() -> (r: Self)
        ensures
            r.wf(),
            r.instance is None,
            r.breakpoints.spec_files() == Seq::<Seq<char>>::empty(),
            r.debug_state@ == DebugStateView::NotInitialized,
    {
        DapInterface::new()
    }
}


} // verus!
