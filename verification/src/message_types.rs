//! Auxiliary wire types: breakpoints, capabilities, sources, scopes,
//! variables and the enumerations they carry.

use vstd::prelude::*;
use crate::json::JsonValue;
use crate::json::JsonView;
use crate::json::jview;
use crate::types::DebugPointer;

verus! {

/// A breakpoint as the adapter reports it.
#[derive(Debug)]
pub struct Breakpoint {
    pub id: Option<u64>,
    /// If true, the breakpoint was set; otherwise it is pending and the
    /// adapter may verify it later through an update event.
    pub verified: bool,
    /// Information about the breakpoint that may be shown to the user.
    pub message: Option<Vec<char>>,
    /// Source code file where the breakpoint was set.
    pub source: Option<Source>,
    /// Line in the source code where the breakpoint was set.
    pub line: Option<u64>,
    /// Start position of the source range covered by the breakpoint.
    pub column: Option<u64>,
    pub end_line: Option<u64>,
    pub end_column: Option<u64>,
    /// A memory reference to where the breakpoint is set.
    pub instruction_reference: Option<DebugPointer>,
    /// The offset from the instruction reference; may be negative.
    pub offset: Option<i64>,
    /// An explanation of why a breakpoint could not be verified.
    pub reason: Option<BreakpointUnverifiedReason>,
}

pub struct BreakpointView {
    pub id: Option<u64>,
    pub verified: bool,
    pub message: Option<Seq<char>>,
    pub source: Option<SourceView>,
    pub line: Option<u64>,
    pub column: Option<u64>,
    pub end_line: Option<u64>,
    pub end_column: Option<u64>,
    pub instruction_reference: Option<DebugPointer>,
    pub offset: Option<i64>,
    pub reason: Option<BreakpointUnverifiedReason>,
}

pub open spec fn opt_text_view(t: Option<Vec<char>>) -> Option<Seq<char>> {
    match t {
        Some(v) => Some(v@),
        None => None,
    }
}

impl View for Breakpoint {
    type V = BreakpointView;

    open spec fn view(&self) -> BreakpointView {
        BreakpointView {
            id: self.id,
            verified: self.verified,
            message: opt_text_view(self.message),
            source: match self.source {
                Some(src) => Some(src@),
                None => None,
            },
            line: self.line,
            column: self.column,
            end_line: self.end_line,
            end_column: self.end_column,
            instruction_reference: self.instruction_reference,
            offset: self.offset,
            reason: self.reason,
        }
    }
}

/// An explanation of why a breakpoint could not be verified.
#[derive(Clone, Copy, Debug, PartialEq, Eq, Structural)]
pub enum BreakpointUnverifiedReason {
    /// The breakpoint might be verified later, but not in the current state.
    Pending,
    /// The adapter does not believe it can verify the breakpoint without
    /// intervention.
    Failed,
}

/// The capabilities the adapter advertises; absent flags are unknown, never
/// assumed true.
#[derive(Clone, Copy, Debug, PartialEq, Eq, Structural)]
pub struct Capabilities {
    pub supports_configuration_done_request: Option<bool>,
    pub supports_single_thread_execution_requests: Option<bool>,
}

impl Default for Capabilities {
    /// All flags unknown.
    fn default() -> (r: Self)
        ensures
            r.supports_configuration_done_request is None,
            r.supports_single_thread_execution_requests is None,
    {
        Capabilities {
            supports_configuration_done_request: None,
            supports_single_thread_execution_requests: None,
        }
    }
}

#[derive(Clone, Debug)]
pub struct Checksum {
    pub algorithm: ChecksumAlgorithm,
    pub checksum: Vec<char>,
}

pub struct ChecksumView {
    pub algorithm: ChecksumAlgorithm,
    pub checksum: Seq<char>,
}

impl View for Checksum {
    type V = ChecksumView;

    open spec fn view(&self) -> ChecksumView {
        ChecksumView { algorithm: self.algorithm, checksum: self.checksum@ }
    }
}

#[derive(Clone, Copy, Debug, PartialEq, Eq, Structural)]
pub enum ChecksumAlgorithm {
    Md5,
    Sha1,
    Sha256,
    Timestamp,
}

#[derive(Clone, Copy, Debug, PartialEq, Eq, Structural)]
pub enum OutputEventCategory {
    Console,
    Important,
    Stdout,
    Stderr,
    Telemetry,
    Unknown,
}

#[derive(Clone, Copy, Debug, PartialEq, Eq, Structural)]
pub enum PresentationHint {
    Arguments,
    Locals,
    Registers,
    ReturnValue,
    Unknown,
}

/// A named container for variables.
#[derive(Debug)]
pub struct Scope {
    /// E.g. 'Arguments', 'Locals' or 'Registers'; shown in a UI as is.
    pub name: Vec<char>,
    pub presentation_hint: Option<PresentationHint>,
    /// A reference for retrieving the variables of this scope.
    pub variables_reference: u64,
    pub named_variables: Option<u64>,
    pub indexed_variables: Option<u64>,
    /// If true, the variables of this scope are expensive to retrieve.
    pub expensive: bool,
    pub source: Option<Source>,
    pub line: Option<u64>,
    pub column: Option<u64>,
    pub end_line: Option<u64>,
    pub end_column: Option<u64>,
}

pub struct ScopeView {
    pub name: Seq<char>,
    pub presentation_hint: Option<PresentationHint>,
    pub variables_reference: u64,
    pub named_variables: Option<u64>,
    pub indexed_variables: Option<u64>,
    pub expensive: bool,
    pub source: Option<SourceView>,
    pub line: Option<u64>,
    pub column: Option<u64>,
    pub end_line: Option<u64>,
    pub end_column: Option<u64>,
}

impl View for Scope {
    type V = ScopeView;

    open spec fn view(&self) -> ScopeView {
        ScopeView {
            name: self.name@,
            presentation_hint: self.presentation_hint,
            variables_reference: self.variables_reference,
            named_variables: self.named_variables,
            indexed_variables: self.indexed_variables,
            expensive: self.expensive,
            source: match self.source {
                Some(src) => Some(src@),
                None => None,
            },
            line: self.line,
            column: self.column,
            end_line: self.end_line,
            end_column: self.end_column,
        }
    }
}

/// A descriptor for source code.
#[derive(Debug)]
pub struct Source {
    /// Short name of the source.
    pub name: Option<Vec<char>>,
    /// The path of the source, to be shown in a UI.
    pub path: Option<Vec<char>>,
    /// If greater than zero, the contents must be retrieved through a
    /// source request; only valid for one session.
    pub source_reference: Option<u64>,
    pub presentation_hint: Option<SourcePresentationHint>,
    /// The origin of this source, e.g. 'internal module'.
    pub origin: Option<Vec<char>>,
    /// Additional data the adapter wants looped through the client,
    /// kept intact.
    pub adapter_data: Option<JsonValue>,
    /// The checksums associated with this file.
    pub checksums: Option<Checksum>,
}

pub struct SourceView {
    pub name: Option<Seq<char>>,
    pub path: Option<Seq<char>>,
    pub source_reference: Option<u64>,
    pub presentation_hint: Option<SourcePresentationHint>,
    pub origin: Option<Seq<char>>,
    pub adapter_data: Option<JsonView>,
    pub checksums: Option<ChecksumView>,
}

impl View for Source {
    type V = SourceView;

    open spec fn view(&self) -> SourceView {
        SourceView {
            name: opt_text_view(self.name),
            path: opt_text_view(self.path),
            source_reference: self.source_reference,
            presentation_hint: self.presentation_hint,
            origin: opt_text_view(self.origin),
            adapter_data: match self.adapter_data {
                Some(j) => Some(jview(j)),
                None => None,
            },
            checksums: match self.checksums {
                Some(c) => Some(c@),
                None => None,
            },
        }
    }
}

impl Default for Source {
    /// Every field absent.
    fn default() -> (r: Self)
        ensures
            r@ == (SourceView {
                name: None,
                path: None,
                source_reference: None,
                presentation_hint: None,
                origin: None,
                adapter_data: None,
                checksums: None,
            }),
    {
        Source {
            name: None,
            path: None,
            source_reference: None,
            presentation_hint: None,
            origin: None,
            adapter_data: None,
            checksums: None,
        }
    }
}

#[derive(Clone, Debug)]
pub struct SourceBreakpoint {
    pub line: u64,
    pub column: Option<u64>,
    pub condition: Option<Vec<char>>,
    pub hit_condition: Option<Vec<char>>,
    pub log_message: Option<Vec<char>>,
    pub mode: Option<Vec<char>>,
}

pub struct SourceBreakpointView {
    pub line: u64,
    pub column: Option<u64>,
    pub condition: Option<Seq<char>>,
    pub hit_condition: Option<Seq<char>>,
    pub log_message: Option<Seq<char>>,
    pub mode: Option<Seq<char>>,
}

impl View for SourceBreakpoint {
    type V = SourceBreakpointView;

    open spec fn view(&self) -> SourceBreakpointView {
        SourceBreakpointView {
            line: self.line,
            column: self.column,
            condition: opt_text_view(self.condition),
            hit_condition: opt_text_view(self.hit_condition),
            log_message: opt_text_view(self.log_message),
            mode: opt_text_view(self.mode),
        }
    }
}

impl SourceBreakpoint {
    /// A plain line breakpoint with every optional field absent.
    pub fn at_line(line: u64) -> (r: Self)
        ensures
            r@ == (SourceBreakpointView {
                line,
                column: None,
                condition: None,
                hit_condition: None,
                log_message: None,
                mode: None,
            }),
    {
        SourceBreakpoint {
            line,
            column: None,
            condition: None,
            hit_condition: None,
            log_message: None,
            mode: None,
        }
    }
}

#[derive(Clone, Copy, Debug, PartialEq, Eq, Structural)]
pub enum SourcePresentationHint {
    Normal,
    Emphasize,
    Deemphasize,
}

#[derive(Clone, Copy, Debug, PartialEq, Eq, Structural)]
pub enum SteppingGranularity {
    Statement,
    Line,
    Instruction,
}

#[derive(Clone, Copy, Debug, PartialEq, Eq, Structural)]
pub enum StoppedEventReason {
    Step,
    Breakpoint,
    Exception,
    Pause,
    Entry,
    Goto,
    FunctionBreakpoint,
    DataBreakpoint,
    InstructionBreakpoint,
    Unknown,
}

#[derive(Clone, Debug)]
pub struct Variable {
    pub name: Vec<char>,
    /// The value as text; may be multi-line, may be empty.
    pub value: Vec<char>,
    /// The type of the value, typically shown when hovering over it.
    pub var_type: Option<Vec<char>>,
}

pub struct VariableView {
    pub name: Seq<char>,
    pub value: Seq<char>,
    pub var_type: Option<Seq<char>>,
}

impl View for Variable {
    type V = VariableView;

    open spec fn view(&self) -> VariableView {
        VariableView {
            name: self.name@,
            value: self.value@,
            var_type: opt_text_view(self.var_type),
        }
    }
}

/// How a variable should be presented; defined by the protocol, carried for
/// completeness.
#[derive(Clone, Debug)]
pub struct VariablePresentationHint {
    pub kind: Option<VariablePresentationHintKind>,
    pub attributes: Option<Vec<VariablePresentationHintAttribute>>,
    pub visibility: Option<VariablePresentationHintVisibility>,
    pub lazy: Option<bool>,
}

#[derive(Clone, Copy, Debug, PartialEq, Eq, Structural)]
pub enum VariablePresentationHintAttribute {
    Static,
    Constant,
    ReadOnly,
    RawString,
    HasObjectId,
    CanHaveObjectId,
    HasSideEffects,
    HasDataBreakpoint,
    Unknown,
}

#[derive(Clone, Copy, Debug, PartialEq, Eq, Structural)]
pub enum VariablePresentationHintKind {
    Property,
    Method,
    Class,
    Data,
    Event,
    BaseClass,
    InnerClass,
    Interface,
    MostDerivedClass,
    Virtual,
    Unknown,
}

#[derive(Clone, Copy, Debug, PartialEq, Eq, Structural)]
pub enum VariablePresentationHintVisibility {
    Public,
    Private,
    Protected,
    Internal,
    Final,
    Unknown,
}

} // verus!
