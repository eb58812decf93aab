//! Between the message model and its JSON form: each type's wire shape,
//! with a proof that reading a written message yields it back.

use vstd::prelude::*;
use crate::json::JsonValue;
use crate::json::JsonView;
use crate::json::jview;
use crate::json::jview_elems;
use crate::json::jview_fields;
use crate::json::jget;
use crate::json::obj_of;
use crate::json::jdepth;
use crate::json::jdepth_elems;
use crate::json::jdepth_fields;
use crate::json::wf_json;
use crate::json::wf_num_raw;
use crate::json::is_canonical_u64;
use crate::json::is_digit;
use crate::json::all_digits;
use crate::json::dec_val;
use crate::json::dec_digits;
use crate::json::digit_char16;
use crate::json::is_hex;
use crate::json::hex_val;
use crate::json::is_num_char;
use crate::json::is_num_start;
use crate::json::lemma_jview_elems;
use crate::json::lemma_obj_of_get;
use crate::json::ObjBuilder;
use crate::json::obj_get;
use crate::json::optv;
use crate::json::orefv;
use crate::json::copy_text;
use crate::json::lit;
use crate::json::text_eq_str;
use crate::json::write_u64;
use crate::json::check_canonical;
use crate::json::copy_range;
use crate::json::lemma_dec_digits;
use crate::json::digit_char16_exec;
use crate::types::DebugPointer;
use crate::message_types::OutputEventCategory;
use crate::message_types::PresentationHint;
use crate::message_types::SourcePresentationHint;
use crate::message_types::SteppingGranularity;
use crate::message_types::StoppedEventReason;
use crate::message_types::BreakpointUnverifiedReason;
use crate::message_types::ChecksumAlgorithm;
use crate::message_types::Breakpoint;
use crate::message_types::BreakpointView;
use crate::message_types::Scope;
use crate::message_types::ScopeView;
use crate::message::BreakpointEventReason;
use crate::message::seq_view;
use crate::message_types::Capabilities;
use crate::message::CancelArguments;
use crate::message::CancelArgumentsView;
use crate::message::InitializeArguments;
use crate::message::InitializeArgumentsView;
use crate::message::NextArguments;
use crate::message::ScopesArguments;
use crate::message::VariablesArguments;
use crate::message::SetBreakpointsArguments;
use crate::message::SetBreakpointsArgumentsView;
use crate::message::ScopesResponseBody;
use crate::message::ScopesResponseBodyView;
use crate::message::SetBreakpointsResponseBody;
use crate::message::SetBreakpointsResponseBodyView;
use crate::message::VariablesResponseBody;
use crate::message::VariablesResponseBodyView;
use crate::message::OutputEvent;
use crate::message::OutputEventView;
use crate::message::StoppedEvent;
use crate::message::StoppedEventView;
use crate::message::BreakpointEvent;
use crate::message::BreakpointEventView;
use crate::message::ProtocolMessage;
use crate::message::ProtocolMessageView;
use crate::message::RequestMessage;
use crate::message::RequestMessageView;
use crate::message::ResponseMessage;
use crate::message::ResponseMessageView;
use crate::message::DapEvent;
use crate::message::DapEventView;
use crate::message_types::Checksum;
use crate::message_types::ChecksumView;
use crate::message_types::Source;
use crate::message_types::SourceView;
use crate::message_types::SourceBreakpoint;
use crate::message_types::SourceBreakpointView;
use crate::message_types::Variable;
use crate::message_types::VariableView;

verus! {

broadcast use vstd::std_specs::vec::group_vec_axioms;

/// How deep the uninterpreted payloads an application hands over (launch or
/// attach arguments, adapter data) may nest, so that a full message still
/// fits the reader's depth budget.
pub const PAYLOAD_DEPTH_LIMIT: u32 = 120;

/// The view of an optional result.
pub open spec fn ov<T: View>(r: Option<T>) -> Option<T::V> {
    match r {
        Some(v) => Some(v@),
        None => None,
    }
}

// ---------------------------------------------------------------------------
// Field readers
// ---------------------------------------------------------------------------

pub open spec fn de_u64(o: Option<JsonView>) -> Option<u64> {
    match o {
        Some(JsonView::Num(n)) => Some(n),
        _ => None,
    }
}

pub open spec fn de_opt_u64(o: Option<JsonView>) -> Option<Option<u64>> {
    match o {
        None => Some(None),
        Some(JsonView::Null) => Some(None),
        Some(JsonView::Num(n)) => Some(Some(n)),
        Some(_) => None,
    }
}

pub open spec fn de_bool(o: Option<JsonView>) -> Option<bool> {
    match o {
        Some(JsonView::Bool(b)) => Some(b),
        _ => None,
    }
}

pub open spec fn de_opt_bool(o: Option<JsonView>) -> Option<Option<bool>> {
    match o {
        None => Some(None),
        Some(JsonView::Null) => Some(None),
        Some(JsonView::Bool(b)) => Some(Some(b)),
        Some(_) => None,
    }
}

pub open spec fn de_text(o: Option<JsonView>) -> Option<Seq<char>> {
    match o {
        Some(JsonView::Str(s)) => Some(s),
        _ => None,
    }
}

pub open spec fn de_opt_text(o: Option<JsonView>) -> Option<Option<Seq<char>>> {
    match o {
        None => Some(None),
        Some(JsonView::Null) => Some(None),
        Some(JsonView::Str(s)) => Some(Some(s)),
        Some(_) => None,
    }
}

pub fn ex_u64(o: Option<&JsonValue>) -> (r: Option<u64>)
    ensures
        r == de_u64(orefv(o)),
{
    match o {
        Some(JsonValue::Num(n)) => Some(*n),
        _ => None,
    }
}

pub fn ex_opt_u64(o: Option<&JsonValue>) -> (r: Option<Option<u64>>)
    ensures
        r == de_opt_u64(orefv(o)),
{
    match o {
        None => Some(None),
        Some(JsonValue::Null) => Some(None),
        Some(JsonValue::Num(n)) => Some(Some(*n)),
        Some(_) => None,
    }
}

pub fn ex_bool(o: Option<&JsonValue>) -> (r: Option<bool>)
    ensures
        r == de_bool(orefv(o)),
{
    match o {
        Some(JsonValue::Bool(b)) => Some(*b),
        _ => None,
    }
}

pub fn ex_opt_bool(o: Option<&JsonValue>) -> (r: Option<Option<bool>>)
    ensures
        r == de_opt_bool(orefv(o)),
{
    match o {
        None => Some(None),
        Some(JsonValue::Null) => Some(None),
        Some(JsonValue::Bool(b)) => Some(Some(*b)),
        Some(_) => None,
    }
}

pub fn ex_text(o: Option<&JsonValue>) -> (r: Option<Vec<char>>)
    ensures
        ({
            match r {
                Some(t) => de_text(orefv(o)) == Some(t@),
                None => de_text(orefv(o)) is None,
            }
        }),
{
    match o {
        Some(JsonValue::Str(s)) => Some(copy_text(s)),
        _ => None,
    }
}

pub fn ex_opt_text(o: Option<&JsonValue>) -> (r: Option<Option<Vec<char>>>)
    ensures
        ({
            match r {
                Some(t) => de_opt_text(orefv(o)) == Some(crate::message_types::opt_text_view(t)),
                None => de_opt_text(orefv(o)) is None,
            }
        }),
{
    match o {
        None => Some(None),
        Some(JsonValue::Null) => Some(None),
        Some(JsonValue::Str(s)) => Some(Some(copy_text(s))),
        Some(_) => None,
    }
}

/// A text field, written only when present.
pub open spec fn opt_text_json(t: Option<Seq<char>>) -> Option<JsonView> {
    match t {
        Some(s) => Some(JsonView::Str(s)),
        None => None,
    }
}

pub open spec fn opt_u64_json(n: Option<u64>) -> Option<JsonView> {
    match n {
        Some(x) => Some(JsonView::Num(x)),
        None => None,
    }
}

pub open spec fn opt_bool_json(b: Option<bool>) -> Option<JsonView> {
    match b {
        Some(x) => Some(JsonView::Bool(x)),
        None => None,
    }
}

// ---------------------------------------------------------------------------
// Element-wise decoding of arrays
// ---------------------------------------------------------------------------

/// Decodes every element, failing as a whole when any element fails.
pub open spec fn de_seq<A>(elems: Seq<JsonView>, f: spec_fn(JsonView) -> Option<A>) -> Option<
    Seq<A>,
>
    decreases elems.len(),
{
    if elems.len() == 0 {
        Some(Seq::empty())
    } else {
        match f(elems[0]) {
            Some(a) => match de_seq(elems.skip(1), f) {
                Some(rest) => Some(seq![a] + rest),
                None => None,
            },
            None => None,
        }
    }
}

pub proof fn lemma_de_seq_pointwise<A>(
    elems: Seq<JsonView>,
    f: spec_fn(JsonView) -> Option<A>,
    out: Seq<A>,
)
    requires
        out.len() == elems.len(),
        forall|k: int| 0 <= k < elems.len() ==> f(#[trigger] elems[k]) == Some(out[k]),
    ensures
        de_seq(elems, f) == Some(out),
    decreases elems.len(),
{
    if elems.len() == 0 {
        assert(out =~= Seq::<A>::empty());
    } else {
        assert forall|k: int| 0 <= k < elems.skip(1).len() implies f(#[trigger] elems.skip(1)[k])
            == Some(out.skip(1)[k]) by {
            assert(elems.skip(1)[k] == elems[k + 1]);
            assert(out.skip(1)[k] == out[k + 1]);
        }
        lemma_de_seq_pointwise(elems.skip(1), f, out.skip(1));
        assert(f(elems[0]) == Some(out[0]));
        assert(seq![out[0]] + out.skip(1) =~= out);
    }
}

pub proof fn lemma_de_seq_fail<A>(elems: Seq<JsonView>, f: spec_fn(JsonView) -> Option<A>, k: int)
    requires
        0 <= k < elems.len(),
        f(elems[k]) is None,
    ensures
        de_seq(elems, f) is None,
    decreases elems.len(),
{
    if k > 0 {
        assert(elems.skip(1)[k - 1] == elems[k]);
        lemma_de_seq_fail(elems.skip(1), f, k - 1);
    }
}

/// Elements no deeper than `b` give an array no deeper than `b + 1`.
pub proof fn lemma_jdepth_elems_ub(elems: Seq<JsonView>, n: int, b: nat)
    requires
        0 <= n <= elems.len(),
        forall|i: int| 0 <= i < elems.len() ==> jdepth(#[trigger] elems[i]) <= b,
    ensures
        jdepth_elems(elems, n) <= b,
    decreases n,
{
    if n > 0 {
        lemma_jdepth_elems_ub(elems, n - 1, b);
    }
}

/// Entry values no deeper than `b` give a record no deeper than `b + 1`.
pub proof fn lemma_obj_of_depth(entries: Seq<(Seq<char>, Option<JsonView>)>, b: nat)
    requires
        forall|i: int|
            0 <= i < entries.len() ==> (#[trigger] entries[i].1 matches Some(v) ==> jdepth(v)
                <= b),
    ensures
        jdepth_fields(obj_of(entries), obj_of(entries).len() as int) <= b,
        forall|j: int|
            0 <= j < obj_of(entries).len() ==> jdepth(#[trigger] obj_of(entries)[j].1) <= b,
    decreases entries.len(),
{
    if entries.len() == 0 {
    } else {
        assert forall|i: int|
            0 <= i < entries.skip(1).len() implies (#[trigger] entries.skip(1)[i].1 matches Some(v)
            ==> jdepth(v) <= b) by {
            assert(entries.skip(1)[i] == entries[i + 1]);
        }
        lemma_obj_of_depth(entries.skip(1), b);
        let whole = obj_of(entries);
        let rest = obj_of(entries.skip(1));
        match entries[0].1 {
            Some(v) => {
                assert(whole == seq![(entries[0].0, v)] + rest);
                assert(whole[0] == (entries[0].0, v));
                assert forall|j: int| 0 <= j < whole.len() implies jdepth(
                    #[trigger] whole[j].1,
                ) <= b by {
                    if j > 0 {
                        assert(whole[j] == rest[j - 1]);
                    }
                }
                lemma_jdepth_fields_ub(whole, whole.len() as int, b);
            },
            None => {
                assert(whole =~= rest);
                lemma_jdepth_fields_ub(whole, whole.len() as int, b);
            },
        }
    }
}

pub proof fn lemma_jdepth_fields_ub(fields: Seq<(Seq<char>, JsonView)>, n: int, b: nat)
    requires
        0 <= n <= fields.len(),
        forall|i: int| 0 <= i < fields.len() ==> jdepth(#[trigger] fields[i].1) <= b,
    ensures
        jdepth_fields(fields, n) <= b,
    decreases n,
{
    if n > 0 {
        lemma_jdepth_fields_ub(fields, n - 1, b);
    }
}

/// Well-formed entry values give a well-formed record.
pub proof fn lemma_obj_of_wf(entries: Seq<(Seq<char>, Option<JsonView>)>)
    requires
        forall|i: int|
            0 <= i < entries.len() ==> (#[trigger] entries[i].1 matches Some(v) ==> wf_json(v)),
    ensures
        forall|j: int| 0 <= j < obj_of(entries).len() ==> wf_json(#[trigger] obj_of(entries)[j].1),
    decreases entries.len(),
{
    if entries.len() > 0 {
        assert forall|i: int|
            0 <= i < entries.skip(1).len() implies (#[trigger] entries.skip(1)[i].1 matches Some(v)
            ==> wf_json(v)) by {
            assert(entries.skip(1)[i] == entries[i + 1]);
        }
        lemma_obj_of_wf(entries.skip(1));
        let whole = obj_of(entries);
        let rest = obj_of(entries.skip(1));
        match entries[0].1 {
            Some(v) => {
                assert(whole == seq![(entries[0].0, v)] + rest);
                assert(whole[0] == (entries[0].0, v));
                assert forall|j: int| 0 <= j < whole.len() implies wf_json(
                    #[trigger] whole[j].1,
                ) by {
                    if j > 0 {
                        assert(whole[j] == rest[j - 1]);
                    }
                }
            },
            None => {
                assert(whole =~= rest);
            },
        }
    }
}


/// An optional field decoded by `f`: absent and null mean absent, anything
/// else must decode.
pub open spec fn de_opt<A>(o: Option<JsonView>, f: spec_fn(JsonView) -> Option<A>) -> Option<
    Option<A>,
> {
    match o {
        None => Some(None),
        Some(JsonView::Null) => Some(None),
        Some(j) => match f(j) {
            Some(a) => Some(Some(a)),
            None => None,
        },
    }
}

// ---------------------------------------------------------------------------
// Enumerations carried as strings
// ---------------------------------------------------------------------------

pub open spec fn category_name(c: OutputEventCategory) -> Seq<char> {
    match c {
        OutputEventCategory::Console => "console"@,
        OutputEventCategory::Important => "important"@,
        OutputEventCategory::Stdout => "stdout"@,
        OutputEventCategory::Stderr => "stderr"@,
        OutputEventCategory::Telemetry => "telemetry"@,
        OutputEventCategory::Unknown => "Unknown"@,
    }
}

pub open spec fn de_category(j: JsonView) -> Option<OutputEventCategory> {
    match j {
        JsonView::Str(s) => Some(
            if s == "console"@ {
                OutputEventCategory::Console
            } else if s == "important"@ {
                OutputEventCategory::Important
            } else if s == "stdout"@ {
                OutputEventCategory::Stdout
            } else if s == "stderr"@ {
                OutputEventCategory::Stderr
            } else if s == "telemetry"@ {
                OutputEventCategory::Telemetry
            } else {
                OutputEventCategory::Unknown
            },
        ),
        _ => None,
    }
}

impl OutputEventCategory {
    pub fn to_json(self) -> (j: JsonValue)
        ensures
            jview(j) == JsonView::Str(category_name(self)),
    {
        match self {
            OutputEventCategory::Console => JsonValue::Str(lit("console")),
            OutputEventCategory::Important => JsonValue::Str(lit("important")),
            OutputEventCategory::Stdout => JsonValue::Str(lit("stdout")),
            OutputEventCategory::Stderr => JsonValue::Str(lit("stderr")),
            OutputEventCategory::Telemetry => JsonValue::Str(lit("telemetry")),
            OutputEventCategory::Unknown => JsonValue::Str(lit("Unknown")),
        }
    }

    pub fn from_json(j: &JsonValue) -> (r: Option<Self>)
        ensures
            r == de_category(jview(*j)),
    {
        match j {
            JsonValue::Str(s) => Some(
                if text_eq_str(s, "console") {
                    OutputEventCategory::Console
                } else if text_eq_str(s, "important") {
                    OutputEventCategory::Important
                } else if text_eq_str(s, "stdout") {
                    OutputEventCategory::Stdout
                } else if text_eq_str(s, "stderr") {
                    OutputEventCategory::Stderr
                } else if text_eq_str(s, "telemetry") {
                    OutputEventCategory::Telemetry
                } else {
                    OutputEventCategory::Unknown
                },
            ),
            _ => None,
        }
    }
}

pub proof fn lemma_rt_category(c: OutputEventCategory)
    ensures
        de_category(JsonView::Str(category_name(c))) == Some(c),
{
    broadcast use vstd::string::group_string_axioms;

    reveal_strlit("console");
    reveal_strlit("important");
    reveal_strlit("stdout");
    reveal_strlit("stderr");
    reveal_strlit("telemetry");
    reveal_strlit("Unknown");
    assert("console"@.len() == 7 && "important"@.len() == 9 && "stdout"@.len() == 6
        && "stderr"@.len() == 6 && "telemetry"@.len() == 9 && "Unknown"@.len() == 7);
    assert("stdout"@[3] == 'o' && "stderr"@[3] == 'e');
    assert("important"@[0] == 'i' && "telemetry"@[0] == 't');
    assert("console"@[0] == 'c' && "Unknown"@[0] == 'U');
}

pub open spec fn hint_name(h: PresentationHint) -> Seq<char> {
    match h {
        PresentationHint::Arguments => "arguments"@,
        PresentationHint::Locals => "locals"@,
        PresentationHint::Registers => "registers"@,
        PresentationHint::ReturnValue => "returnValue"@,
        PresentationHint::Unknown => "Unknown"@,
    }
}

pub open spec fn de_hint(j: JsonView) -> Option<PresentationHint> {
    match j {
        JsonView::Str(s) => Some(
            if s == "arguments"@ {
                PresentationHint::Arguments
            } else if s == "locals"@ {
                PresentationHint::Locals
            } else if s == "registers"@ {
                PresentationHint::Registers
            } else if s == "returnValue"@ {
                PresentationHint::ReturnValue
            } else {
                PresentationHint::Unknown
            },
        ),
        _ => None,
    }
}

impl PresentationHint {
    pub fn to_json(self) -> (j: JsonValue)
        ensures
            jview(j) == JsonView::Str(hint_name(self)),
    {
        match self {
            PresentationHint::Arguments => JsonValue::Str(lit("arguments")),
            PresentationHint::Locals => JsonValue::Str(lit("locals")),
            PresentationHint::Registers => JsonValue::Str(lit("registers")),
            PresentationHint::ReturnValue => JsonValue::Str(lit("returnValue")),
            PresentationHint::Unknown => JsonValue::Str(lit("Unknown")),
        }
    }

    pub fn from_json(j: &JsonValue) -> (r: Option<Self>)
        ensures
            r == de_hint(jview(*j)),
    {
        match j {
            JsonValue::Str(s) => Some(
                if text_eq_str(s, "arguments") {
                    PresentationHint::Arguments
                } else if text_eq_str(s, "locals") {
                    PresentationHint::Locals
                } else if text_eq_str(s, "registers") {
                    PresentationHint::Registers
                } else if text_eq_str(s, "returnValue") {
                    PresentationHint::ReturnValue
                } else {
                    PresentationHint::Unknown
                },
            ),
            _ => None,
        }
    }
}

pub proof fn lemma_rt_hint(h: PresentationHint)
    ensures
        de_hint(JsonView::Str(hint_name(h))) == Some(h),
{
    broadcast use vstd::string::group_string_axioms;

    reveal_strlit("arguments");
    reveal_strlit("locals");
    reveal_strlit("registers");
    reveal_strlit("returnValue");
    reveal_strlit("Unknown");
    assert("arguments"@.len() == 9 && "locals"@.len() == 6 && "registers"@.len() == 9
        && "returnValue"@.len() == 11 && "Unknown"@.len() == 7);
    assert("arguments"@[0] == 'a' && "registers"@[0] == 'r');
}

pub open spec fn source_hint_name(h: SourcePresentationHint) -> Seq<char> {
    match h {
        SourcePresentationHint::Normal => "normal"@,
        SourcePresentationHint::Emphasize => "emphasize"@,
        SourcePresentationHint::Deemphasize => "deemphasize"@,
    }
}

pub open spec fn de_source_hint(j: JsonView) -> Option<SourcePresentationHint> {
    match j {
        JsonView::Str(s) => if s == "normal"@ {
            Some(SourcePresentationHint::Normal)
        } else if s == "emphasize"@ {
            Some(SourcePresentationHint::Emphasize)
        } else if s == "deemphasize"@ {
            Some(SourcePresentationHint::Deemphasize)
        } else {
            None
        },
        _ => None,
    }
}

impl SourcePresentationHint {
    pub fn to_json(self) -> (j: JsonValue)
        ensures
            jview(j) == JsonView::Str(source_hint_name(self)),
    {
        match self {
            SourcePresentationHint::Normal => JsonValue::Str(lit("normal")),
            SourcePresentationHint::Emphasize => JsonValue::Str(lit("emphasize")),
            SourcePresentationHint::Deemphasize => JsonValue::Str(lit("deemphasize")),
        }
    }

    pub fn from_json(j: &JsonValue) -> (r: Option<Self>)
        ensures
            r == de_source_hint(jview(*j)),
    {
        match j {
            JsonValue::Str(s) => if text_eq_str(s, "normal") {
                Some(SourcePresentationHint::Normal)
            } else if text_eq_str(s, "emphasize") {
                Some(SourcePresentationHint::Emphasize)
            } else if text_eq_str(s, "deemphasize") {
                Some(SourcePresentationHint::Deemphasize)
            } else {
                None
            },
            _ => None,
        }
    }
}

pub proof fn lemma_rt_source_hint(h: SourcePresentationHint)
    ensures
        de_source_hint(JsonView::Str(source_hint_name(h))) == Some(h),
{
    broadcast use vstd::string::group_string_axioms;

    reveal_strlit("normal");
    reveal_strlit("emphasize");
    reveal_strlit("deemphasize");
    assert("normal"@.len() == 6 && "emphasize"@.len() == 9 && "deemphasize"@.len() == 11);
}

pub open spec fn granularity_name(g: SteppingGranularity) -> Seq<char> {
    match g {
        SteppingGranularity::Statement => "statement"@,
        SteppingGranularity::Line => "line"@,
        SteppingGranularity::Instruction => "instruction"@,
    }
}

pub open spec fn de_granularity(j: JsonView) -> Option<SteppingGranularity> {
    match j {
        JsonView::Str(s) => if s == "statement"@ {
            Some(SteppingGranularity::Statement)
        } else if s == "line"@ {
            Some(SteppingGranularity::Line)
        } else if s == "instruction"@ {
            Some(SteppingGranularity::Instruction)
        } else {
            None
        },
        _ => None,
    }
}

impl SteppingGranularity {
    pub fn to_json(self) -> (j: JsonValue)
        ensures
            jview(j) == JsonView::Str(granularity_name(self)),
    {
        match self {
            SteppingGranularity::Statement => JsonValue::Str(lit("statement")),
            SteppingGranularity::Line => JsonValue::Str(lit("line")),
            SteppingGranularity::Instruction => JsonValue::Str(lit("instruction")),
        }
    }

    pub fn from_json(j: &JsonValue) -> (r: Option<Self>)
        ensures
            r == de_granularity(jview(*j)),
    {
        match j {
            JsonValue::Str(s) => if text_eq_str(s, "statement") {
                Some(SteppingGranularity::Statement)
            } else if text_eq_str(s, "line") {
                Some(SteppingGranularity::Line)
            } else if text_eq_str(s, "instruction") {
                Some(SteppingGranularity::Instruction)
            } else {
                None
            },
            _ => None,
        }
    }
}

pub proof fn lemma_rt_granularity(g: SteppingGranularity)
    ensures
        de_granularity(JsonView::Str(granularity_name(g))) == Some(g),
{
    broadcast use vstd::string::group_string_axioms;

    reveal_strlit("statement");
    reveal_strlit("line");
    reveal_strlit("instruction");
    assert("statement"@.len() == 9 && "line"@.len() == 4 && "instruction"@.len() == 11);
}

pub open spec fn stopped_reason_name(r: StoppedEventReason) -> Seq<char> {
    match r {
        StoppedEventReason::Step => "step"@,
        StoppedEventReason::Breakpoint => "breakpoint"@,
        StoppedEventReason::Exception => "exception"@,
        StoppedEventReason::Pause => "pause"@,
        StoppedEventReason::Entry => "entry"@,
        StoppedEventReason::Goto => "goto"@,
        StoppedEventReason::FunctionBreakpoint => "function breakpoint"@,
        StoppedEventReason::DataBreakpoint => "data breakpoint"@,
        StoppedEventReason::InstructionBreakpoint => "instruction breakpoint"@,
        StoppedEventReason::Unknown => "Unknown"@,
    }
}

pub open spec fn de_stopped_reason(j: JsonView) -> Option<StoppedEventReason> {
    match j {
        JsonView::Str(s) => Some(
            if s == "step"@ {
                StoppedEventReason::Step
            } else if s == "breakpoint"@ {
                StoppedEventReason::Breakpoint
            } else if s == "exception"@ {
                StoppedEventReason::Exception
            } else if s == "pause"@ {
                StoppedEventReason::Pause
            } else if s == "entry"@ {
                StoppedEventReason::Entry
            } else if s == "goto"@ {
                StoppedEventReason::Goto
            } else if s == "function breakpoint"@ {
                StoppedEventReason::FunctionBreakpoint
            } else if s == "data breakpoint"@ {
                StoppedEventReason::DataBreakpoint
            } else if s == "instruction breakpoint"@ {
                StoppedEventReason::InstructionBreakpoint
            } else {
                StoppedEventReason::Unknown
            },
        ),
        _ => None,
    }
}

impl StoppedEventReason {
    pub fn to_json(self) -> (j: JsonValue)
        ensures
            jview(j) == JsonView::Str(stopped_reason_name(self)),
    {
        match self {
            StoppedEventReason::Step => JsonValue::Str(lit("step")),
            StoppedEventReason::Breakpoint => JsonValue::Str(lit("breakpoint")),
            StoppedEventReason::Exception => JsonValue::Str(lit("exception")),
            StoppedEventReason::Pause => JsonValue::Str(lit("pause")),
            StoppedEventReason::Entry => JsonValue::Str(lit("entry")),
            StoppedEventReason::Goto => JsonValue::Str(lit("goto")),
            StoppedEventReason::FunctionBreakpoint => JsonValue::Str(lit("function breakpoint")),
            StoppedEventReason::DataBreakpoint => JsonValue::Str(lit("data breakpoint")),
            StoppedEventReason::InstructionBreakpoint => JsonValue::Str(
                lit("instruction breakpoint"),
            ),
            StoppedEventReason::Unknown => JsonValue::Str(lit("Unknown")),
        }
    }

    pub fn from_json(j: &JsonValue) -> (r: Option<Self>)
        ensures
            r == de_stopped_reason(jview(*j)),
    {
        match j {
            JsonValue::Str(s) => Some(
                if text_eq_str(s, "step") {
                    StoppedEventReason::Step
                } else if text_eq_str(s, "breakpoint") {
                    StoppedEventReason::Breakpoint
                } else if text_eq_str(s, "exception") {
                    StoppedEventReason::Exception
                } else if text_eq_str(s, "pause") {
                    StoppedEventReason::Pause
                } else if text_eq_str(s, "entry") {
                    StoppedEventReason::Entry
                } else if text_eq_str(s, "goto") {
                    StoppedEventReason::Goto
                } else if text_eq_str(s, "function breakpoint") {
                    StoppedEventReason::FunctionBreakpoint
                } else if text_eq_str(s, "data breakpoint") {
                    StoppedEventReason::DataBreakpoint
                } else if text_eq_str(s, "instruction breakpoint") {
                    StoppedEventReason::InstructionBreakpoint
                } else {
                    StoppedEventReason::Unknown
                },
            ),
            _ => None,
        }
    }
}

pub proof fn lemma_rt_stopped_reason(r: StoppedEventReason)
    ensures
        de_stopped_reason(JsonView::Str(stopped_reason_name(r))) == Some(r),
{
    broadcast use vstd::string::group_string_axioms;

    reveal_strlit("step");
    reveal_strlit("breakpoint");
    reveal_strlit("exception");
    reveal_strlit("pause");
    reveal_strlit("entry");
    reveal_strlit("goto");
    reveal_strlit("function breakpoint");
    reveal_strlit("data breakpoint");
    reveal_strlit("instruction breakpoint");
    reveal_strlit("Unknown");
    assert("step"@.len() == 4 && "breakpoint"@.len() == 10 && "exception"@.len() == 9
        && "pause"@.len() == 5 && "entry"@.len() == 5 && "goto"@.len() == 4
        && "function breakpoint"@.len() == 19 && "data breakpoint"@.len() == 15
        && "instruction breakpoint"@.len() == 22 && "Unknown"@.len() == 7);
    assert("step"@[0] == 's' && "goto"@[0] == 'g');
    assert("pause"@[0] == 'p' && "entry"@[0] == 'e');
    assert("breakpoint"@[0] == 'b' && "exception"@[0] == 'e');
}

pub open spec fn bp_reason_name(r: BreakpointEventReason) -> Seq<char> {
    match r {
        BreakpointEventReason::Changed => "changed"@,
        BreakpointEventReason::New => "new"@,
        BreakpointEventReason::Removed => "removed"@,
        BreakpointEventReason::Unknown => "Unknown"@,
    }
}

pub open spec fn de_bp_reason(j: JsonView) -> Option<BreakpointEventReason> {
    match j {
        JsonView::Str(s) => Some(
            if s == "changed"@ {
                BreakpointEventReason::Changed
            } else if s == "new"@ {
                BreakpointEventReason::New
            } else if s == "removed"@ {
                BreakpointEventReason::Removed
            } else {
                BreakpointEventReason::Unknown
            },
        ),
        _ => None,
    }
}

impl BreakpointEventReason {
    pub fn to_json(self) -> (j: JsonValue)
        ensures
            jview(j) == JsonView::Str(bp_reason_name(self)),
    {
        match self {
            BreakpointEventReason::Changed => JsonValue::Str(lit("changed")),
            BreakpointEventReason::New => JsonValue::Str(lit("new")),
            BreakpointEventReason::Removed => JsonValue::Str(lit("removed")),
            BreakpointEventReason::Unknown => JsonValue::Str(lit("Unknown")),
        }
    }

    pub fn from_json(j: &JsonValue) -> (r: Option<Self>)
        ensures
            r == de_bp_reason(jview(*j)),
    {
        match j {
            JsonValue::Str(s) => Some(
                if text_eq_str(s, "changed") {
                    BreakpointEventReason::Changed
                } else if text_eq_str(s, "new") {
                    BreakpointEventReason::New
                } else if text_eq_str(s, "removed") {
                    BreakpointEventReason::Removed
                } else {
                    BreakpointEventReason::Unknown
                },
            ),
            _ => None,
        }
    }
}

pub proof fn lemma_rt_bp_reason(r: BreakpointEventReason)
    ensures
        de_bp_reason(JsonView::Str(bp_reason_name(r))) == Some(r),
{
    broadcast use vstd::string::group_string_axioms;

    reveal_strlit("changed");
    reveal_strlit("new");
    reveal_strlit("removed");
    reveal_strlit("Unknown");
    assert("changed"@.len() == 7 && "new"@.len() == 3 && "removed"@.len() == 7 && "Unknown"@.len()
        == 7);
    assert("changed"@[0] == 'c' && "removed"@[0] == 'r' && "Unknown"@[0] == 'U');
}

pub open spec fn unverified_name(r: BreakpointUnverifiedReason) -> Seq<char> {
    match r {
        BreakpointUnverifiedReason::Pending => "pending"@,
        BreakpointUnverifiedReason::Failed => "failed"@,
    }
}

pub open spec fn de_unverified(j: JsonView) -> Option<BreakpointUnverifiedReason> {
    match j {
        JsonView::Str(s) => if s == "pending"@ {
            Some(BreakpointUnverifiedReason::Pending)
        } else if s == "failed"@ {
            Some(BreakpointUnverifiedReason::Failed)
        } else {
            None
        },
        _ => None,
    }
}

impl BreakpointUnverifiedReason {
    pub fn to_json(self) -> (j: JsonValue)
        ensures
            jview(j) == JsonView::Str(unverified_name(self)),
    {
        match self {
            BreakpointUnverifiedReason::Pending => JsonValue::Str(lit("pending")),
            BreakpointUnverifiedReason::Failed => JsonValue::Str(lit("failed")),
        }
    }

    pub fn from_json(j: &JsonValue) -> (r: Option<Self>)
        ensures
            r == de_unverified(jview(*j)),
    {
        match j {
            JsonValue::Str(s) => if text_eq_str(s, "pending") {
                Some(BreakpointUnverifiedReason::Pending)
            } else if text_eq_str(s, "failed") {
                Some(BreakpointUnverifiedReason::Failed)
            } else {
                None
            },
            _ => None,
        }
    }
}

pub proof fn lemma_rt_unverified(r: BreakpointUnverifiedReason)
    ensures
        de_unverified(JsonView::Str(unverified_name(r))) == Some(r),
{
    broadcast use vstd::string::group_string_axioms;

    reveal_strlit("pending");
    reveal_strlit("failed");
    assert("pending"@.len() == 7 && "failed"@.len() == 6);
}

pub open spec fn algorithm_name(a: ChecksumAlgorithm) -> Seq<char> {
    match a {
        ChecksumAlgorithm::Md5 => "MD5"@,
        ChecksumAlgorithm::Sha1 => "SHA1"@,
        ChecksumAlgorithm::Sha256 => "SHA256"@,
        ChecksumAlgorithm::Timestamp => "timestamp"@,
    }
}

pub open spec fn de_algorithm(j: JsonView) -> Option<ChecksumAlgorithm> {
    match j {
        JsonView::Str(s) => if s == "MD5"@ {
            Some(ChecksumAlgorithm::Md5)
        } else if s == "SHA1"@ {
            Some(ChecksumAlgorithm::Sha1)
        } else if s == "SHA256"@ {
            Some(ChecksumAlgorithm::Sha256)
        } else if s == "timestamp"@ {
            Some(ChecksumAlgorithm::Timestamp)
        } else {
            None
        },
        _ => None,
    }
}

impl ChecksumAlgorithm {
    pub fn to_json(self) -> (j: JsonValue)
        ensures
            jview(j) == JsonView::Str(algorithm_name(self)),
    {
        match self {
            ChecksumAlgorithm::Md5 => JsonValue::Str(lit("MD5")),
            ChecksumAlgorithm::Sha1 => JsonValue::Str(lit("SHA1")),
            ChecksumAlgorithm::Sha256 => JsonValue::Str(lit("SHA256")),
            ChecksumAlgorithm::Timestamp => JsonValue::Str(lit("timestamp")),
        }
    }

    pub fn from_json(j: &JsonValue) -> (r: Option<Self>)
        ensures
            r == de_algorithm(jview(*j)),
    {
        match j {
            JsonValue::Str(s) => if text_eq_str(s, "MD5") {
                Some(ChecksumAlgorithm::Md5)
            } else if text_eq_str(s, "SHA1") {
                Some(ChecksumAlgorithm::Sha1)
            } else if text_eq_str(s, "SHA256") {
                Some(ChecksumAlgorithm::Sha256)
            } else if text_eq_str(s, "timestamp") {
                Some(ChecksumAlgorithm::Timestamp)
            } else {
                None
            },
            _ => None,
        }
    }
}

pub proof fn lemma_rt_algorithm(a: ChecksumAlgorithm)
    ensures
        de_algorithm(JsonView::Str(algorithm_name(a))) == Some(a),
{
    broadcast use vstd::string::group_string_axioms;

    reveal_strlit("MD5");
    reveal_strlit("SHA1");
    reveal_strlit("SHA256");
    reveal_strlit("timestamp");
    assert("MD5"@.len() == 3 && "SHA1"@.len() == 4 && "SHA256"@.len() == 6 && "timestamp"@.len()
        == 9);
}


/// A required field decoded by `f`.
pub open spec fn de_req<A>(o: Option<JsonView>, f: spec_fn(JsonView) -> Option<A>) -> Option<A> {
    match o {
        Some(j) => f(j),
        None => None,
    }
}

// ---------------------------------------------------------------------------
// Signed integers
// ---------------------------------------------------------------------------

/// A signed integer: written as a plain number when not negative, else as a
/// minus sign followed by the magnitude.
pub open spec fn i64_json(x: i64) -> JsonView {
    if x >= 0 {
        JsonView::Num(x as u64)
    } else {
        JsonView::NumRaw(seq!['-'] + dec_digits((-(x as int)) as nat))
    }
}

pub open spec fn de_i64(j: JsonView) -> Option<i64> {
    match j {
        JsonView::Num(n) => if n <= i64::MAX as u64 {
            Some(n as i64)
        } else {
            None
        },
        JsonView::NumRaw(lex) => if lex.len() >= 2 && lex[0] == '-' && is_canonical_u64(
            lex.skip(1),
        ) && dec_val(lex.skip(1)) <= 0x8000000000000000 {
            Some((0 - dec_val(lex.skip(1)) as int) as i64)
        } else {
            None
        },
        _ => None,
    }
}

pub fn i64_to_json(x: i64) -> (j: JsonValue)
    ensures
        jview(j) == i64_json(x),
{
    if x >= 0 {
        JsonValue::Num(x as u64)
    } else {
        let mag: u64 = ((-(x + 1)) as u64) + 1;
        assert(mag == -(x as int));
        let mut v: Vec<char> = Vec::new();
        v.push('-');
        write_u64(mag, &mut v);
        proof {
            assert(v@ =~= seq!['-'] + dec_digits(mag as nat));
        }
        JsonValue::NumRaw(v)
    }
}

pub fn json_to_i64(j: &JsonValue) -> (r: Option<i64>)
    ensures
        r == de_i64(jview(*j)),
{
    match j {
        JsonValue::Num(n) => {
            if *n <= 0x7fffffffffffffff {
                Some(*n as i64)
            } else {
                None
            }
        },
        JsonValue::NumRaw(lex) => {
            if lex.len() < 2 {
                return None;
            }
            if lex[0] != '-' {
                return None;
            }
            let digits = copy_range(lex, 1, lex.len());
            proof {
                assert(digits@ =~= lex@.skip(1));
            }
            match check_canonical(&digits) {
                Some(v) => {
                    if v <= 0x8000000000000000 {
                        if v == 0x8000000000000000 {
                            Some(i64::MIN)
                        } else {
                            Some(-(v as i64))
                        }
                    } else {
                        None
                    }
                },
                None => None,
            }
        },
        _ => None,
    }
}

pub proof fn lemma_i64_codec(x: i64)
    ensures
        wf_json(i64_json(x)),
        jdepth(i64_json(x)) == 0,
        de_i64(i64_json(x)) == Some(x),
{
    if x < 0 {
        let m = (-(x as int)) as nat;
        lemma_dec_digits(m);
        let lex = seq!['-'] + dec_digits(m);
        assert(lex[0] == '-');
        assert(lex.skip(1) =~= dec_digits(m));
        assert(is_num_start('-') && is_num_char('-'));
        assert forall|i: int| 0 <= i < lex.len() implies is_num_char(#[trigger] lex[i]) by {
            if i > 0 {
                assert(lex[i] == dec_digits(m)[i - 1]);
                assert(is_digit(dec_digits(m)[i - 1]));
            }
        }
        assert(!is_digit('-'));
        assert(!all_digits(lex));
        assert(is_canonical_u64(lex.skip(1)));
        assert(de_i64(i64_json(x)) == Some(x));
    }
}

// ---------------------------------------------------------------------------
// Pointers, written as hexadecimal strings
// ---------------------------------------------------------------------------

/// The hexadecimal spelling of `n`, lowercase, no leading zero.
pub open spec fn hex_digits(n: nat) -> Seq<char>
    decreases n,
{
    if n < 16 {
        seq![digit_char16(n)]
    } else {
        hex_digits(n / 16).push(digit_char16(n % 16))
    }
}

/// The value of a string of hexadecimal digits.
pub open spec fn hexv(s: Seq<char>) -> nat
    decreases s.len(),
{
    if s.len() == 0 {
        0
    } else {
        hexv(s.drop_last()) * 16 + hex_val(s.last())
    }
}

pub open spec fn all_hex(s: Seq<char>) -> bool {
    forall|i: int| 0 <= i < s.len() ==> is_hex(#[trigger] s[i])
}

/// An address: the text `0x` followed by hexadecimal digits.
pub open spec fn ptr_json(p: DebugPointer) -> JsonView {
    JsonView::Str(seq!['0', 'x'] + hex_digits(p.0 as nat))
}

/// An address read back: a leading `0x` is dropped when present, the rest
/// must be hexadecimal digits whose value fits an address.
pub open spec fn de_ptr(j: JsonView) -> Option<DebugPointer> {
    match j {
        JsonView::Str(s) => {
            let t = if s.len() >= 2 && s[0] == '0' && s[1] == 'x' {
                s.skip(2)
            } else {
                s
            };
            if t.len() > 0 && all_hex(t) && hexv(t) <= usize::MAX {
                Some(DebugPointer(hexv(t) as usize))
            } else {
                None
            }
        },
        _ => None,
    }
}

fn write_hex_u64(n: u64, out: &mut Vec<char>)
    ensures
        final(out)@ == old(out)@ + hex_digits(n as nat),
    decreases n,
{
    if n < 16 {
        out.push(digit_char16_exec(n as u32));
        assert(out@ =~= old(out)@ + hex_digits(n as nat));
    } else {
        write_hex_u64(n / 16, out);
        out.push(digit_char16_exec((n % 16) as u32));
        assert(out@ =~= old(out)@ + hex_digits(n as nat));
    }
}

proof fn lemma_hex_digits(n: nat)
    ensures
        hex_digits(n).len() >= 1,
        all_hex(hex_digits(n)),
        hexv(hex_digits(n)) == n,
    decreases n,
{
    crate::json::lemma_digit_char16(n % 16);
    if n < 16 {
        crate::json::lemma_digit_char16(n);
        assert(hex_digits(n) == seq![digit_char16(n)]);
        assert(hex_digits(n).drop_last() =~= Seq::<char>::empty());
        assert(hexv(Seq::<char>::empty()) == 0);
        assert(hex_digits(n).last() == digit_char16(n));
        assert(hexv(hex_digits(n)) == n);
    } else {
        lemma_hex_digits(n / 16);
        let h = hex_digits(n / 16);
        let w = hex_digits(n);
        assert(w == h.push(digit_char16(n % 16)));
        assert(w.drop_last() =~= h);
        assert(w.last() == digit_char16(n % 16));
        assert(hexv(w) == hexv(h) * 16 + (n % 16));
        vstd::arithmetic::div_mod::lemma_fundamental_div_mod(n as int, 16);
        assert(hexv(w) == n);
        assert forall|i: int| 0 <= i < w.len() implies is_hex(#[trigger] w[i]) by {
            if i < h.len() {
                assert(w[i] == h[i]);
            }
        }
    }
}

proof fn lemma_hexv_grows(s: Seq<char>, i: int)
    requires
        0 <= i <= s.len(),
    ensures
        hexv(s.take(i)) <= hexv(s),
    decreases s.len() - i,
{
    if i < s.len() {
        lemma_hexv_grows(s, i + 1);
        assert(s.take(i + 1).drop_last() =~= s.take(i));
        assert(hexv(s.take(i + 1)) == hexv(s.take(i)) * 16 + hex_val(s.take(i + 1).last()));
    } else {
        assert(s.take(i) =~= s);
    }
}

fn hex_val_u64(c: char) -> (d: u64)
    requires
        is_hex(c),
    ensures
        d == hex_val(c),
        d < 16,
{
    crate::json::hex_val_exec(c) as u64
}

/// Reads hexadecimal digits as an address value.
fn parse_hex_value(s: &Vec<char>, start: usize) -> (r: Option<usize>)
    requires
        start <= s.len(),
    ensures
        ({
            let t = s@.skip(start as int);
            match r {
                Some(v) => t.len() > 0 && all_hex(t) && hexv(t) <= usize::MAX && v == hexv(t),
                None => !(t.len() > 0 && all_hex(t) && hexv(t) <= usize::MAX),
            }
        }),
{
    let ghost t = s@.skip(start as int);
    if start >= s.len() {
        return None;
    }
    let mut val: usize = 0;
    let mut i: usize = start;
    while i < s.len()
        invariant
            start <= i <= s.len(),
            t == s@.skip(start as int),
            forall|k: int| 0 <= k < i - start ==> is_hex(#[trigger] t[k]),
            val == hexv(t.take(i - start)),
        decreases s.len() - i,
    {
        let c = s[i];
        proof {
            assert(t[i - start] == s@[i as int]);
        }
        if !crate::json::is_hex_exec(c) {
            assert(!all_hex(t));
            return None;
        }
        let dv: usize = hex_val_u64(c) as usize;
        if val > (usize::MAX - dv) / 16 {
            proof {
                assert(t.take(i - start + 1).drop_last() =~= t.take(i - start));
                assert(t.take(i - start + 1).last() == t[i - start]);
                assert(hexv(t.take(i - start + 1)) == val * 16 + dv);
                assert(val * 16 + dv > usize::MAX) by {
                    let q = (usize::MAX - dv) / 16;
                    assert(usize::MAX - dv == 16 * q + (usize::MAX - dv) % 16);
                };
                lemma_hexv_grows(t, i - start + 1);
            }
            return None;
        }
        proof {
            let q = (usize::MAX - dv) / 16;
            assert(usize::MAX - dv == 16 * q + (usize::MAX - dv) % 16);
            assert(val * 16 <= q * 16);
        }
        val = val * 16 + dv;
        i = i + 1;
        proof {
            assert(t.take(i - start).drop_last() =~= t.take(i - start - 1));
            assert(t.take(i - start).last() == t[i - start - 1]);
        }
    }
    proof {
        assert(t.take(s.len() - start) =~= t);
    }
    Some(val)
}

impl DebugPointer {
    /// The wire form of this address.
    pub fn to_json(self) -> (j: JsonValue)
        ensures
            jview(j) == ptr_json(self),
    {
        let mut v: Vec<char> = Vec::new();
        v.push('0');
        v.push('x');
        write_hex_u64(self.0 as u64, &mut v);
        proof {
            assert(v@ =~= seq!['0', 'x'] + hex_digits(self.0 as nat));
        }
        JsonValue::Str(v)
    }

    /// An address read from its wire form.
    pub fn from_json(j: &JsonValue) -> (r: Option<Self>)
        ensures
            r == de_ptr(jview(*j)),
    {
        match j {
            JsonValue::Str(s) => {
                let start: usize = if s.len() >= 2 && s[0] == '0' && s[1] == 'x' {
                    2
                } else {
                    0
                };
                proof {
                    if start == 0 {
                        assert(s@.skip(0) =~= s@);
                    }
                }
                match parse_hex_value(s, start) {
                    Some(v) => Some(DebugPointer(v)),
                    None => None,
                }
            },
            _ => None,
        }
    }
}

pub proof fn lemma_ptr_codec(p: DebugPointer)
    ensures
        wf_json(ptr_json(p)),
        jdepth(ptr_json(p)) == 0,
        de_ptr(ptr_json(p)) == Some(p),
{
    lemma_hex_digits(p.0 as nat);
    let s = seq!['0', 'x'] + hex_digits(p.0 as nat);
    assert(s[0] == '0' && s[1] == 'x');
    assert(s.skip(2) =~= hex_digits(p.0 as nat));
}




/// An optional number, as a field value.
pub fn opt_num_val(n: Option<u64>) -> (r: Option<JsonValue>)
    ensures
        optv(r) == opt_u64_json(n),
{
    match n {
        Some(x) => Some(JsonValue::Num(x)),
        None => None,
    }
}

/// An optional text, as a field value.
pub fn opt_text_val(t: Option<Vec<char>>) -> (r: Option<JsonValue>)
    ensures
        optv(r) == opt_text_json(crate::message_types::opt_text_view(t)),
{
    match t {
        Some(x) => Some(JsonValue::Str(x)),
        None => None,
    }
}

/// An optional truth value, as a field value.
pub fn opt_bool_val(b: Option<bool>) -> (r: Option<JsonValue>)
    ensures
        optv(r) == opt_bool_json(b),
{
    match b {
        Some(x) => Some(JsonValue::Bool(x)),
        None => None,
    }
}

// ---------------------------------------------------------------------------
// Checksums
// ---------------------------------------------------------------------------

pub open spec fn checksum_entries(v: ChecksumView) -> Seq<(Seq<char>, Option<JsonView>)> {
    seq![
        ("algorithm"@, Some(JsonView::Str(algorithm_name(v.algorithm)))),
        ("checksum"@, Some(JsonView::Str(v.checksum))),
    ]
}

#[verifier::opaque]
pub open spec fn checksum_json(v: ChecksumView) -> JsonView {
    JsonView::Obj(obj_of(checksum_entries(v)))
}

#[verifier::opaque]
pub open spec fn de_checksum(j: JsonView) -> Option<ChecksumView> {
    match j {
        JsonView::Obj(fields) => {
            let alg = de_req(jget(fields, "algorithm"@), |jj: JsonView| de_algorithm(jj));
            let ck = de_text(jget(fields, "checksum"@));
            if alg is Some && ck is Some {
                Some(ChecksumView { algorithm: alg->Some_0, checksum: ck->Some_0 })
            } else {
                None
            }
        },
        _ => None,
    }
}

impl Checksum {
    pub fn to_json(self) -> (j: JsonValue)
        ensures
            jview(j) == checksum_json(self@),
    {
        let ghost v = self@;
        proof {
            reveal(crate::codec::checksum_json);
        }
        let mut b = ObjBuilder::new();
        b.add("algorithm", Some(self.algorithm.to_json()));
        b.add("checksum", Some(JsonValue::Str(self.checksum)));
        proof {
            assert(b.entries() =~= checksum_entries(v));
        }
        b.finish()
    }

    pub fn from_json(j: &JsonValue) -> (r: Option<Self>)
        ensures
            ov(r) == de_checksum(jview(*j)),
    {
        proof {
            reveal(crate::codec::de_checksum);
        }
        match j {
            JsonValue::Obj(fields) => {
                let alg = match obj_get(fields, "algorithm") {
                    Some(x) => ChecksumAlgorithm::from_json(x),
                    None => None,
                };
                let alg = match alg {
                    Some(a) => a,
                    None => {
                        return None;
                    },
                };
                let ck = match ex_text(obj_get(fields, "checksum")) {
                    Some(c) => c,
                    None => {
                        return None;
                    },
                };
                Some(Checksum { algorithm: alg, checksum: ck })
            },
            _ => None,
        }
    }
}

pub proof fn lemma_checksum_codec(v: ChecksumView)
    ensures
        checksum_json(v) is Obj,
        wf_json(checksum_json(v)),
        jdepth(checksum_json(v)) <= 1,
        de_checksum(checksum_json(v)) == Some(v),
{
    broadcast use vstd::string::group_string_axioms;

    reveal(crate::codec::checksum_json);
    reveal(crate::codec::de_checksum);
    let entries = checksum_entries(v);
    reveal_strlit("algorithm");
    reveal_strlit("checksum");
    assert("algorithm"@.len() == 9 && "checksum"@.len() == 8);
    assert(forall|a: int, b: int|
        0 <= a < b < entries.len() ==> (#[trigger] entries[a].0) != (#[trigger] entries[b].0));
    lemma_obj_of_get(entries, 0);
    lemma_obj_of_get(entries, 1);
    lemma_rt_algorithm(v.algorithm);
    assert forall|i: int|
        0 <= i < entries.len() implies (#[trigger] entries[i].1 matches Some(x) ==> wf_json(x)
            && jdepth(x) <= 0) by {
        assert(entries[0].1 == Some(JsonView::Str(algorithm_name(v.algorithm))));
        assert(entries[1].1 == Some(JsonView::Str(v.checksum)));
    }
    lemma_obj_of_wf(entries);
    lemma_obj_of_depth(entries, 0);
}

// ---------------------------------------------------------------------------
// Sources
// ---------------------------------------------------------------------------

/// A payload the application handed over: any JSON value within the nesting
/// budget.
pub open spec fn wf_payload(j: JsonView) -> bool {
    wf_json(j) && jdepth(j) <= PAYLOAD_DEPTH_LIMIT as nat
}

pub open spec fn wf_source(v: SourceView) -> bool {
    match v.adapter_data {
        Some(j) => wf_payload(j) && !(j is Null),
        None => true,
    }
}

pub open spec fn source_entries(v: SourceView) -> Seq<(Seq<char>, Option<JsonView>)> {
    seq![
        ("name"@, opt_text_json(v.name)),
        ("path"@, opt_text_json(v.path)),
        ("sourceReference"@, opt_u64_json(v.source_reference)),
        (
            "presentationHint"@,
            match v.presentation_hint {
                Some(h) => Some(JsonView::Str(source_hint_name(h))),
                None => None,
            },
        ),
        ("origin"@, opt_text_json(v.origin)),
        ("adapterData"@, v.adapter_data),
        (
            "checksums"@,
            match v.checksums {
                Some(c) => Some(checksum_json(c)),
                None => None,
            },
        ),
    ]
}

#[verifier::opaque]
pub open spec fn source_json(v: SourceView) -> JsonView {
    JsonView::Obj(obj_of(source_entries(v)))
}

#[verifier::opaque]
pub open spec fn de_source(j: JsonView) -> Option<SourceView> {
    match j {
        JsonView::Obj(fields) => {
            let name = de_opt_text(jget(fields, "name"@));
            let path = de_opt_text(jget(fields, "path"@));
            let srcref = de_opt_u64(jget(fields, "sourceReference"@));
            let hint = de_opt(
                jget(fields, "presentationHint"@),
                |jj: JsonView| de_source_hint(jj),
            );
            let origin = de_opt_text(jget(fields, "origin"@));
            let adata = de_opt(jget(fields, "adapterData"@), |jj: JsonView| Some(jj));
            let cks = de_opt(jget(fields, "checksums"@), |jj: JsonView| de_checksum(jj));
            if name is Some && path is Some && srcref is Some && hint is Some && origin is Some
                && adata is Some && cks is Some {
                Some(
                    SourceView {
                        name: name->Some_0,
                        path: path->Some_0,
                        source_reference: srcref->Some_0,
                        presentation_hint: hint->Some_0,
                        origin: origin->Some_0,
                        adapter_data: adata->Some_0,
                        checksums: cks->Some_0,
                    },
                )
            } else {
                None
            }
        },
        _ => None,
    }
}

impl Source {
    pub fn to_json(self) -> (j: JsonValue)
        ensures
            jview(j) == source_json(self@),
    {
        let ghost v = self@;
        proof {
            reveal(crate::codec::source_json);
        }
        let mut b = ObjBuilder::new();
        b.add("name", match self.name {
            Some(t) => Some(JsonValue::Str(t)),
            None => None,
        });
        b.add("path", match self.path {
            Some(t) => Some(JsonValue::Str(t)),
            None => None,
        });
        b.add("sourceReference", match self.source_reference {
            Some(n) => Some(JsonValue::Num(n)),
            None => None,
        });
        b.add("presentationHint", match self.presentation_hint {
            Some(h) => Some(h.to_json()),
            None => None,
        });
        b.add("origin", match self.origin {
            Some(t) => Some(JsonValue::Str(t)),
            None => None,
        });
        b.add("adapterData", self.adapter_data);
        b.add("checksums", match self.checksums {
            Some(c) => Some(c.to_json()),
            None => None,
        });
        proof {
            assert(b.entries() =~= source_entries(v));
        }
        b.finish()
    }

    pub fn from_json(j: &JsonValue) -> (r: Option<Self>)
        ensures
            ov(r) == de_source(jview(*j)),
    {
        proof {
            reveal(crate::codec::de_source);
        }
        match j {
            JsonValue::Obj(fields) => {
                let name = match ex_opt_text(obj_get(fields, "name")) {
                    Some(x) => x,
                    None => {
                        return None;
                    },
                };
                let path = match ex_opt_text(obj_get(fields, "path")) {
                    Some(x) => x,
                    None => {
                        return None;
                    },
                };
                let srcref = match ex_opt_u64(obj_get(fields, "sourceReference")) {
                    Some(x) => x,
                    None => {
                        return None;
                    },
                };
                let hint = match obj_get(fields, "presentationHint") {
                    None => None,
                    Some(JsonValue::Null) => None,
                    Some(x) => match SourcePresentationHint::from_json(x) {
                        Some(h) => Some(h),
                        None => {
                            return None;
                        },
                    },
                };
                let origin = match ex_opt_text(obj_get(fields, "origin")) {
                    Some(x) => x,
                    None => {
                        return None;
                    },
                };
                let adata = match obj_get(fields, "adapterData") {
                    None => None,
                    Some(JsonValue::Null) => None,
                    Some(x) => Some(x.duplicate()),
                };
                let cks = match obj_get(fields, "checksums") {
                    None => None,
                    Some(JsonValue::Null) => None,
                    Some(x) => match Checksum::from_json(x) {
                        Some(c) => Some(c),
                        None => {
                            return None;
                        },
                    },
                };
                Some(
                    Source {
                        name,
                        path,
                        source_reference: srcref,
                        presentation_hint: hint,
                        origin,
                        adapter_data: adata,
                        checksums: cks,
                    },
                )
            },
            _ => None,
        }
    }
}

pub proof fn lemma_source_codec(v: SourceView)
    requires
        wf_source(v),
    ensures
        source_json(v) is Obj,
        wf_json(source_json(v)),
        jdepth(source_json(v)) <= PAYLOAD_DEPTH_LIMIT as nat + 1,
        de_source(source_json(v)) == Some(v),
{
    broadcast use vstd::string::group_string_axioms;

    reveal(crate::codec::source_json);
    reveal(crate::codec::de_source);
    let entries = source_entries(v);
    reveal_strlit("name");
    reveal_strlit("path");
    reveal_strlit("sourceReference");
    reveal_strlit("presentationHint");
    reveal_strlit("origin");
    reveal_strlit("adapterData");
    reveal_strlit("checksums");
    assert("name"@.len() == 4 && "path"@.len() == 4 && "sourceReference"@.len() == 15
        && "presentationHint"@.len() == 16 && "origin"@.len() == 6 && "adapterData"@.len() == 11
        && "checksums"@.len() == 9);
    assert("name"@[0] == 'n' && "path"@[0] == 'p');
    assert(forall|a: int, b: int|
        0 <= a < b < entries.len() ==> (#[trigger] entries[a].0) != (#[trigger] entries[b].0));
    lemma_obj_of_get(entries, 0);
    lemma_obj_of_get(entries, 1);
    lemma_obj_of_get(entries, 2);
    lemma_obj_of_get(entries, 3);
    lemma_obj_of_get(entries, 4);
    lemma_obj_of_get(entries, 5);
    lemma_obj_of_get(entries, 6);
    match v.presentation_hint {
        Some(h) => {
            lemma_rt_source_hint(h);
        },
        None => {},
    }
    match v.checksums {
        Some(c) => {
            lemma_checksum_codec(c);
        },
        None => {},
    }
    assert forall|i: int|
        0 <= i < entries.len() implies (#[trigger] entries[i].1 matches Some(x) ==> wf_json(x)
            && jdepth(x) <= PAYLOAD_DEPTH_LIMIT as nat) by {
        if i == 3 {
            match v.presentation_hint {
                Some(h) => {
                    assert(entries[3].1 == Some(JsonView::Str(source_hint_name(h))));
                },
                None => {},
            }
        }
        if i == 6 {
            match v.checksums {
                Some(c) => {
                    assert(entries[6].1 == Some(checksum_json(c)));
                },
                None => {},
            }
        }
    }
    lemma_obj_of_wf(entries);
    lemma_obj_of_depth(entries, PAYLOAD_DEPTH_LIMIT as nat);
    let fields = obj_of(entries);
    assert(de_opt_text(jget(fields, "name"@)) == Some(v.name)) by {
        assert(jget(fields, "name"@) == entries[0].1);
    }
    assert(de_opt_text(jget(fields, "path"@)) == Some(v.path)) by {
        assert(jget(fields, "path"@) == entries[1].1);
    }
    assert(de_opt_u64(jget(fields, "sourceReference"@)) == Some(v.source_reference)) by {
        assert(jget(fields, "sourceReference"@) == entries[2].1);
    }
    assert(de_opt(jget(fields, "presentationHint"@), |jj: JsonView| de_source_hint(jj)) == Some(
        v.presentation_hint,
    )) by {
        assert(jget(fields, "presentationHint"@) == entries[3].1);
    }
    assert(de_opt_text(jget(fields, "origin"@)) == Some(v.origin)) by {
        assert(jget(fields, "origin"@) == entries[4].1);
    }
    assert(de_opt(jget(fields, "adapterData"@), |jj: JsonView| Some(jj)) == Some(v.adapter_data))
        by {
        assert(jget(fields, "adapterData"@) == entries[5].1);
    }
    assert(de_opt(jget(fields, "checksums"@), |jj: JsonView| de_checksum(jj)) == Some(
        v.checksums,
    )) by {
        assert(jget(fields, "checksums"@) == entries[6].1);
    }
}


// ---------------------------------------------------------------------------
// Source breakpoints
// ---------------------------------------------------------------------------

pub open spec fn source_bp_entries(v: SourceBreakpointView) -> Seq<(Seq<char>, Option<JsonView>)> {
    seq![
        ("line"@, Some(JsonView::Num(v.line))),
        ("column"@, opt_u64_json(v.column)),
        ("condition"@, opt_text_json(v.condition)),
        ("hitCondition"@, opt_text_json(v.hit_condition)),
        ("logMessage"@, opt_text_json(v.log_message)),
        ("mode"@, opt_text_json(v.mode)),
    ]
}

#[verifier::opaque]
pub open spec fn source_bp_json(v: SourceBreakpointView) -> JsonView {
    JsonView::Obj(obj_of(source_bp_entries(v)))
}

#[verifier::opaque]
pub open spec fn de_source_bp(j: JsonView) -> Option<SourceBreakpointView> {
    match j {
        JsonView::Obj(fields) => {
            let line = de_u64(jget(fields, "line"@));
            let column = de_opt_u64(jget(fields, "column"@));
            let condition = de_opt_text(jget(fields, "condition"@));
            let hit = de_opt_text(jget(fields, "hitCondition"@));
            let log = de_opt_text(jget(fields, "logMessage"@));
            let mode = de_opt_text(jget(fields, "mode"@));
            if line is Some && column is Some && condition is Some && hit is Some && log is Some
                && mode is Some {
                Some(
                    SourceBreakpointView {
                        line: line->Some_0,
                        column: column->Some_0,
                        condition: condition->Some_0,
                        hit_condition: hit->Some_0,
                        log_message: log->Some_0,
                        mode: mode->Some_0,
                    },
                )
            } else {
                None
            }
        },
        _ => None,
    }
}

impl SourceBreakpoint {
    pub fn to_json(self) -> (j: JsonValue)
        ensures
            jview(j) == source_bp_json(self@),
    {
        let ghost v = self@;
        proof {
            reveal(crate::codec::source_bp_json);
        }
        let mut b = ObjBuilder::new();
        b.add("line", Some(JsonValue::Num(self.line)));
        b.add("column", match self.column {
            Some(n) => Some(JsonValue::Num(n)),
            None => None,
        });
        b.add("condition", match self.condition {
            Some(t) => Some(JsonValue::Str(t)),
            None => None,
        });
        b.add("hitCondition", match self.hit_condition {
            Some(t) => Some(JsonValue::Str(t)),
            None => None,
        });
        b.add("logMessage", match self.log_message {
            Some(t) => Some(JsonValue::Str(t)),
            None => None,
        });
        b.add("mode", match self.mode {
            Some(t) => Some(JsonValue::Str(t)),
            None => None,
        });
        proof {
            assert(b.entries() =~= source_bp_entries(v));
        }
        b.finish()
    }

    pub fn from_json(j: &JsonValue) -> (r: Option<Self>)
        ensures
            ov(r) == de_source_bp(jview(*j)),
    {
        proof {
            reveal(crate::codec::de_source_bp);
        }
        match j {
            JsonValue::Obj(fields) => {
                let line = match ex_u64(obj_get(fields, "line")) {
                    Some(x) => x,
                    None => {
                        return None;
                    },
                };
                let column = match ex_opt_u64(obj_get(fields, "column")) {
                    Some(x) => x,
                    None => {
                        return None;
                    },
                };
                let condition = match ex_opt_text(obj_get(fields, "condition")) {
                    Some(x) => x,
                    None => {
                        return None;
                    },
                };
                let hit = match ex_opt_text(obj_get(fields, "hitCondition")) {
                    Some(x) => x,
                    None => {
                        return None;
                    },
                };
                let log = match ex_opt_text(obj_get(fields, "logMessage")) {
                    Some(x) => x,
                    None => {
                        return None;
                    },
                };
                let mode = match ex_opt_text(obj_get(fields, "mode")) {
                    Some(x) => x,
                    None => {
                        return None;
                    },
                };
                Some(
                    SourceBreakpoint {
                        line,
                        column,
                        condition,
                        hit_condition: hit,
                        log_message: log,
                        mode,
                    },
                )
            },
            _ => None,
        }
    }
}

pub proof fn lemma_source_bp_codec(v: SourceBreakpointView)
    ensures
        source_bp_json(v) is Obj,
        wf_json(source_bp_json(v)),
        jdepth(source_bp_json(v)) <= 1,
        de_source_bp(source_bp_json(v)) == Some(v),
{
    broadcast use vstd::string::group_string_axioms;

    reveal(crate::codec::source_bp_json);
    reveal(crate::codec::de_source_bp);
    let entries = source_bp_entries(v);
    reveal_strlit("line");
    reveal_strlit("column");
    reveal_strlit("condition");
    reveal_strlit("hitCondition");
    reveal_strlit("logMessage");
    reveal_strlit("mode");
    assert("line"@.len() == 4 && "column"@.len() == 6 && "condition"@.len() == 9
        && "hitCondition"@.len() == 12 && "logMessage"@.len() == 10 && "mode"@.len() == 4);
    assert("line"@[0] == 'l' && "mode"@[0] == 'm');
    assert(forall|a: int, b: int|
        0 <= a < b < entries.len() ==> (#[trigger] entries[a].0) != (#[trigger] entries[b].0));
    lemma_obj_of_get(entries, 0);
    lemma_obj_of_get(entries, 1);
    lemma_obj_of_get(entries, 2);
    lemma_obj_of_get(entries, 3);
    lemma_obj_of_get(entries, 4);
    lemma_obj_of_get(entries, 5);
    assert forall|i: int|
        0 <= i < entries.len() implies (#[trigger] entries[i].1 matches Some(x) ==> wf_json(x)
            && jdepth(x) <= 0) by {
        assert(entries[0].1 == Some(JsonView::Num(v.line)));
        assert(entries[1].1 == opt_u64_json(v.column));
        assert(entries[2].1 == opt_text_json(v.condition));
        assert(entries[3].1 == opt_text_json(v.hit_condition));
        assert(entries[4].1 == opt_text_json(v.log_message));
        assert(entries[5].1 == opt_text_json(v.mode));
    }
    lemma_obj_of_wf(entries);
    lemma_obj_of_depth(entries, 0);
    let fields = obj_of(entries);
    assert(de_u64(jget(fields, "line"@)) == Some(v.line)) by {
        assert(jget(fields, "line"@) == entries[0].1);
    }
    assert(de_opt_u64(jget(fields, "column"@)) == Some(v.column)) by {
        assert(jget(fields, "column"@) == entries[1].1);
    }
    assert(de_opt_text(jget(fields, "condition"@)) == Some(v.condition)) by {
        assert(jget(fields, "condition"@) == entries[2].1);
    }
    assert(de_opt_text(jget(fields, "hitCondition"@)) == Some(v.hit_condition)) by {
        assert(jget(fields, "hitCondition"@) == entries[3].1);
    }
    assert(de_opt_text(jget(fields, "logMessage"@)) == Some(v.log_message)) by {
        assert(jget(fields, "logMessage"@) == entries[4].1);
    }
    assert(de_opt_text(jget(fields, "mode"@)) == Some(v.mode)) by {
        assert(jget(fields, "mode"@) == entries[5].1);
    }
}

// ---------------------------------------------------------------------------
// Variables
// ---------------------------------------------------------------------------

pub open spec fn variable_entries(v: VariableView) -> Seq<(Seq<char>, Option<JsonView>)> {
    seq![
        ("name"@, Some(JsonView::Str(v.name))),
        ("value"@, Some(JsonView::Str(v.value))),
        ("type"@, opt_text_json(v.var_type)),
    ]
}

#[verifier::opaque]
pub open spec fn variable_json(v: VariableView) -> JsonView {
    JsonView::Obj(obj_of(variable_entries(v)))
}

#[verifier::opaque]
pub open spec fn de_variable(j: JsonView) -> Option<VariableView> {
    match j {
        JsonView::Obj(fields) => {
            let name = de_text(jget(fields, "name"@));
            let value = de_text(jget(fields, "value"@));
            let vt = de_opt_text(jget(fields, "type"@));
            if name is Some && value is Some && vt is Some {
                Some(
                    VariableView {
                        name: name->Some_0,
                        value: value->Some_0,
                        var_type: vt->Some_0,
                    },
                )
            } else {
                None
            }
        },
        _ => None,
    }
}

impl Variable {
    pub fn to_json(self) -> (j: JsonValue)
        ensures
            jview(j) == variable_json(self@),
    {
        let ghost v = self@;
        proof {
            reveal(crate::codec::variable_json);
        }
        let mut b = ObjBuilder::new();
        b.add("name", Some(JsonValue::Str(self.name)));
        b.add("value", Some(JsonValue::Str(self.value)));
        b.add("type", match self.var_type {
            Some(t) => Some(JsonValue::Str(t)),
            None => None,
        });
        proof {
            assert(b.entries() =~= variable_entries(v));
        }
        b.finish()
    }

    pub fn from_json(j: &JsonValue) -> (r: Option<Self>)
        ensures
            ov(r) == de_variable(jview(*j)),
    {
        proof {
            reveal(crate::codec::de_variable);
        }
        match j {
            JsonValue::Obj(fields) => {
                let name = match ex_text(obj_get(fields, "name")) {
                    Some(x) => x,
                    None => {
                        return None;
                    },
                };
                let value = match ex_text(obj_get(fields, "value")) {
                    Some(x) => x,
                    None => {
                        return None;
                    },
                };
                let vt = match ex_opt_text(obj_get(fields, "type")) {
                    Some(x) => x,
                    None => {
                        return None;
                    },
                };
                Some(Variable { name, value, var_type: vt })
            },
            _ => None,
        }
    }
}

pub proof fn lemma_variable_codec(v: VariableView)
    ensures
        variable_json(v) is Obj,
        wf_json(variable_json(v)),
        jdepth(variable_json(v)) <= 1,
        de_variable(variable_json(v)) == Some(v),
{
    broadcast use vstd::string::group_string_axioms;

    reveal(crate::codec::variable_json);
    reveal(crate::codec::de_variable);
    let entries = variable_entries(v);
    reveal_strlit("name");
    reveal_strlit("value");
    reveal_strlit("type");
    assert("name"@.len() == 4 && "value"@.len() == 5 && "type"@.len() == 4);
    assert("name"@[0] == 'n' && "type"@[0] == 't');
    assert(forall|a: int, b: int|
        0 <= a < b < entries.len() ==> (#[trigger] entries[a].0) != (#[trigger] entries[b].0));
    lemma_obj_of_get(entries, 0);
    lemma_obj_of_get(entries, 1);
    lemma_obj_of_get(entries, 2);
    assert forall|i: int|
        0 <= i < entries.len() implies (#[trigger] entries[i].1 matches Some(x) ==> wf_json(x)
            && jdepth(x) <= 0) by {
        assert(entries[0].1 == Some(JsonView::Str(v.name)));
        assert(entries[1].1 == Some(JsonView::Str(v.value)));
        assert(entries[2].1 == opt_text_json(v.var_type));
    }
    lemma_obj_of_wf(entries);
    lemma_obj_of_depth(entries, 0);
    let fields = obj_of(entries);
    assert(de_text(jget(fields, "name"@)) == Some(v.name)) by {
        assert(jget(fields, "name"@) == entries[0].1);
    }
    assert(de_text(jget(fields, "value"@)) == Some(v.value)) by {
        assert(jget(fields, "value"@) == entries[1].1);
    }
    assert(de_opt_text(jget(fields, "type"@)) == Some(v.var_type)) by {
        assert(jget(fields, "type"@) == entries[2].1);
    }
}


// ---------------------------------------------------------------------------
// Reported breakpoints
// ---------------------------------------------------------------------------

pub open spec fn wf_breakpoint(v: BreakpointView) -> bool {
    match v.source {
        Some(s) => wf_source(s),
        None => true,
    }
}

pub open spec fn breakpoint_entries(v: BreakpointView) -> Seq<(Seq<char>, Option<JsonView>)> {
    seq![
        ("id"@, opt_u64_json(v.id)),
        ("verified"@, Some(JsonView::Bool(v.verified))),
        ("message"@, opt_text_json(v.message)),
        (
            "source"@,
            match v.source {
                Some(s) => Some(source_json(s)),
                None => None,
            },
        ),
        ("line"@, opt_u64_json(v.line)),
        ("column"@, opt_u64_json(v.column)),
        ("endLine"@, opt_u64_json(v.end_line)),
        ("endColumn"@, opt_u64_json(v.end_column)),
        (
            "instructionReference"@,
            match v.instruction_reference {
                Some(p) => Some(ptr_json(p)),
                None => None,
            },
        ),
        (
            "offset"@,
            match v.offset {
                Some(x) => Some(i64_json(x)),
                None => None,
            },
        ),
        (
            "reason"@,
            match v.reason {
                Some(r) => Some(JsonView::Str(unverified_name(r))),
                None => None,
            },
        ),
    ]
}

#[verifier::opaque]
pub open spec fn breakpoint_json(v: BreakpointView) -> JsonView {
    JsonView::Obj(obj_of(breakpoint_entries(v)))
}

#[verifier::opaque]
pub open spec fn de_breakpoint(j: JsonView) -> Option<BreakpointView> {
    match j {
        JsonView::Obj(fields) => {
            let id = de_opt_u64(jget(fields, "id"@));
            let verified = de_bool(jget(fields, "verified"@));
            let message = de_opt_text(jget(fields, "message"@));
            let source = de_opt(jget(fields, "source"@), |jj: JsonView| de_source(jj));
            let line = de_opt_u64(jget(fields, "line"@));
            let column = de_opt_u64(jget(fields, "column"@));
            let end_line = de_opt_u64(jget(fields, "endLine"@));
            let end_column = de_opt_u64(jget(fields, "endColumn"@));
            let iref = de_opt(jget(fields, "instructionReference"@), |jj: JsonView| de_ptr(jj));
            let offset = de_opt(jget(fields, "offset"@), |jj: JsonView| de_i64(jj));
            let reason = de_opt(jget(fields, "reason"@), |jj: JsonView| de_unverified(jj));
            if id is Some && verified is Some && message is Some && source is Some && line is Some
                && column is Some && end_line is Some && end_column is Some && iref is Some
                && offset is Some && reason is Some {
                Some(
                    BreakpointView {
                        id: id->Some_0,
                        verified: verified->Some_0,
                        message: message->Some_0,
                        source: source->Some_0,
                        line: line->Some_0,
                        column: column->Some_0,
                        end_line: end_line->Some_0,
                        end_column: end_column->Some_0,
                        instruction_reference: iref->Some_0,
                        offset: offset->Some_0,
                        reason: reason->Some_0,
                    },
                )
            } else {
                None
            }
        },
        _ => None,
    }
}

impl Breakpoint {
    #[verifier::rlimit(100)]
    #[verifier::spinoff_prover]
    pub fn to_json(self) -> (j: JsonValue)
        ensures
            jview(j) == breakpoint_json(self@),
    {
        let ghost v = self@;
        proof {
            reveal(crate::codec::breakpoint_json);
        }
        let mut b = ObjBuilder::new();
        b.add("id", opt_num_val(self.id));
        b.add("verified", Some(JsonValue::Bool(self.verified)));
        b.add("message", opt_text_val(self.message));
        let source_val = match self.source {
            Some(s) => Some(s.to_json()),
            None => None,
        };
        b.add("source", source_val);
        b.add("line", opt_num_val(self.line));
        b.add("column", opt_num_val(self.column));
        b.add("endLine", opt_num_val(self.end_line));
        b.add("endColumn", opt_num_val(self.end_column));
        let iref_val = match self.instruction_reference {
            Some(p) => Some(p.to_json()),
            None => None,
        };
        b.add("instructionReference", iref_val);
        let offset_val = match self.offset {
            Some(x) => Some(i64_to_json(x)),
            None => None,
        };
        b.add("offset", offset_val);
        let reason_val = match self.reason {
            Some(r) => Some(r.to_json()),
            None => None,
        };
        b.add("reason", reason_val);
        proof {
            assert(b.entries() =~= breakpoint_entries(v));
        }
        b.finish()
    }

    pub fn from_json(j: &JsonValue) -> (r: Option<Self>)
        ensures
            ov(r) == de_breakpoint(jview(*j)),
    {
        proof {
            reveal(crate::codec::de_breakpoint);
        }
        match j {
            JsonValue::Obj(fields) => {
                let id = match ex_opt_u64(obj_get(fields, "id")) {
                    Some(x) => x,
                    None => {
                        return None;
                    },
                };
                let verified = match ex_bool(obj_get(fields, "verified")) {
                    Some(x) => x,
                    None => {
                        return None;
                    },
                };
                let message = match ex_opt_text(obj_get(fields, "message")) {
                    Some(x) => x,
                    None => {
                        return None;
                    },
                };
                let source = match obj_get(fields, "source") {
                    None => None,
                    Some(JsonValue::Null) => None,
                    Some(x) => match Source::from_json(x) {
                        Some(sv) => Some(sv),
                        None => {
                            return None;
                        },
                    },
                };
                let line = match ex_opt_u64(obj_get(fields, "line")) {
                    Some(x) => x,
                    None => {
                        return None;
                    },
                };
                let column = match ex_opt_u64(obj_get(fields, "column")) {
                    Some(x) => x,
                    None => {
                        return None;
                    },
                };
                let end_line = match ex_opt_u64(obj_get(fields, "endLine")) {
                    Some(x) => x,
                    None => {
                        return None;
                    },
                };
                let end_column = match ex_opt_u64(obj_get(fields, "endColumn")) {
                    Some(x) => x,
                    None => {
                        return None;
                    },
                };
                let iref = match obj_get(fields, "instructionReference") {
                    None => None,
                    Some(JsonValue::Null) => None,
                    Some(x) => match DebugPointer::from_json(x) {
                        Some(p) => Some(p),
                        None => {
                            return None;
                        },
                    },
                };
                let offset = match obj_get(fields, "offset") {
                    None => None,
                    Some(JsonValue::Null) => None,
                    Some(x) => match json_to_i64(x) {
                        Some(o) => Some(o),
                        None => {
                            return None;
                        },
                    },
                };
                let reason = match obj_get(fields, "reason") {
                    None => None,
                    Some(JsonValue::Null) => None,
                    Some(x) => match BreakpointUnverifiedReason::from_json(x) {
                        Some(rr) => Some(rr),
                        None => {
                            return None;
                        },
                    },
                };
                Some(
                    Breakpoint {
                        id,
                        verified,
                        message,
                        source,
                        line,
                        column,
                        end_line,
                        end_column,
                        instruction_reference: iref,
                        offset,
                        reason,
                    },
                )
            },
            _ => None,
        }
    }
}

#[verifier::rlimit(100)]
#[verifier::spinoff_prover]
pub proof fn lemma_breakpoint_codec(v: BreakpointView)
    requires
        wf_breakpoint(v),
    ensures
        breakpoint_json(v) is Obj,
        wf_json(breakpoint_json(v)),
        jdepth(breakpoint_json(v)) <= PAYLOAD_DEPTH_LIMIT as nat + 2,
        de_breakpoint(breakpoint_json(v)) == Some(v),
{
    broadcast use vstd::string::group_string_axioms;

    reveal(crate::codec::breakpoint_json);
    reveal(crate::codec::de_breakpoint);
    let entries = breakpoint_entries(v);
    reveal_strlit("id");
    reveal_strlit("verified");
    reveal_strlit("message");
    reveal_strlit("source");
    reveal_strlit("line");
    reveal_strlit("column");
    reveal_strlit("endLine");
    reveal_strlit("endColumn");
    reveal_strlit("instructionReference");
    reveal_strlit("offset");
    reveal_strlit("reason");
    assert("id"@.len() == 2 && "verified"@.len() == 8 && "message"@.len() == 7 && "source"@.len()
        == 6 && "line"@.len() == 4 && "column"@.len() == 6 && "endLine"@.len() == 7
        && "endColumn"@.len() == 9 && "instructionReference"@.len() == 20 && "offset"@.len() == 6
        && "reason"@.len() == 6);
    assert("source"@[0] == 's' && "column"@[0] == 'c' && "offset"@[0] == 'o' && "reason"@[0]
        == 'r');
    assert("message"@[0] == 'm' && "endLine"@[0] == 'e');
    assert(forall|a: int, b: int|
        0 <= a < b < entries.len() ==> (#[trigger] entries[a].0) != (#[trigger] entries[b].0));
    lemma_obj_of_get(entries, 0);
    lemma_obj_of_get(entries, 1);
    lemma_obj_of_get(entries, 2);
    lemma_obj_of_get(entries, 3);
    lemma_obj_of_get(entries, 4);
    lemma_obj_of_get(entries, 5);
    lemma_obj_of_get(entries, 6);
    lemma_obj_of_get(entries, 7);
    lemma_obj_of_get(entries, 8);
    lemma_obj_of_get(entries, 9);
    lemma_obj_of_get(entries, 10);
    match v.source {
        Some(sv) => {
            lemma_source_codec(sv);
        },
        None => {},
    }
    match v.instruction_reference {
        Some(p) => {
            lemma_ptr_codec(p);
        },
        None => {},
    }
    match v.offset {
        Some(x) => {
            lemma_i64_codec(x);
        },
        None => {},
    }
    match v.reason {
        Some(r) => {
            lemma_rt_unverified(r);
        },
        None => {},
    }
    assert forall|i: int|
        0 <= i < entries.len() implies (#[trigger] entries[i].1 matches Some(x) ==> wf_json(x)
            && jdepth(x) <= PAYLOAD_DEPTH_LIMIT as nat + 1) by {
        assert(entries[0].1 == opt_u64_json(v.id));
        assert(entries[1].1 == Some(JsonView::Bool(v.verified)));
        assert(entries[2].1 == opt_text_json(v.message));
        match v.source {
            Some(sv) => {
                assert(entries[3].1 == Some(source_json(sv)));
            },
            None => {
                assert(entries[3].1 is None);
            },
        }
        assert(entries[4].1 == opt_u64_json(v.line));
        assert(entries[5].1 == opt_u64_json(v.column));
        assert(entries[6].1 == opt_u64_json(v.end_line));
        assert(entries[7].1 == opt_u64_json(v.end_column));
        match v.instruction_reference {
            Some(p) => {
                assert(entries[8].1 == Some(ptr_json(p)));
            },
            None => {},
        }
        match v.offset {
            Some(x) => {
                assert(entries[9].1 == Some(i64_json(x)));
            },
            None => {},
        }
        match v.reason {
            Some(r) => {
                assert(entries[10].1 == Some(JsonView::Str(unverified_name(r))));
            },
            None => {},
        }
    }
    lemma_obj_of_wf(entries);
    lemma_obj_of_depth(entries, PAYLOAD_DEPTH_LIMIT as nat + 1);
    let fields = obj_of(entries);
    assert(de_opt_u64(jget(fields, "id"@)) == Some(v.id)) by {
        assert(jget(fields, "id"@) == entries[0].1);
    }
    assert(de_bool(jget(fields, "verified"@)) == Some(v.verified)) by {
        assert(jget(fields, "verified"@) == entries[1].1);
    }
    assert(de_opt_text(jget(fields, "message"@)) == Some(v.message)) by {
        assert(jget(fields, "message"@) == entries[2].1);
    }
    assert(de_opt(jget(fields, "source"@), |jj: JsonView| de_source(jj)) == Some(v.source)) by {
        assert(jget(fields, "source"@) == entries[3].1);
    }
    assert(de_opt_u64(jget(fields, "line"@)) == Some(v.line)) by {
        assert(jget(fields, "line"@) == entries[4].1);
    }
    assert(de_opt_u64(jget(fields, "column"@)) == Some(v.column)) by {
        assert(jget(fields, "column"@) == entries[5].1);
    }
    assert(de_opt_u64(jget(fields, "endLine"@)) == Some(v.end_line)) by {
        assert(jget(fields, "endLine"@) == entries[6].1);
    }
    assert(de_opt_u64(jget(fields, "endColumn"@)) == Some(v.end_column)) by {
        assert(jget(fields, "endColumn"@) == entries[7].1);
    }
    assert(de_opt(jget(fields, "instructionReference"@), |jj: JsonView| de_ptr(jj)) == Some(
        v.instruction_reference,
    )) by {
        assert(jget(fields, "instructionReference"@) == entries[8].1);
    }
    assert(de_opt(jget(fields, "offset"@), |jj: JsonView| de_i64(jj)) == Some(v.offset)) by {
        assert(jget(fields, "offset"@) == entries[9].1);
    }
    assert(de_opt(jget(fields, "reason"@), |jj: JsonView| de_unverified(jj)) == Some(v.reason))
        by {
        assert(jget(fields, "reason"@) == entries[10].1);
    }
}


// ---------------------------------------------------------------------------
// Scopes
// ---------------------------------------------------------------------------

pub open spec fn wf_scope(v: ScopeView) -> bool {
    match v.source {
        Some(s) => wf_source(s),
        None => true,
    }
}

pub open spec fn scope_entries(v: ScopeView) -> Seq<(Seq<char>, Option<JsonView>)> {
    seq![
        ("name"@, Some(JsonView::Str(v.name))),
        (
            "presentationHint"@,
            match v.presentation_hint {
                Some(h) => Some(JsonView::Str(hint_name(h))),
                None => None,
            },
        ),
        ("variablesReference"@, Some(JsonView::Num(v.variables_reference))),
        ("namedVariables"@, opt_u64_json(v.named_variables)),
        ("indexedVariables"@, opt_u64_json(v.indexed_variables)),
        ("expensive"@, Some(JsonView::Bool(v.expensive))),
        (
            "source"@,
            match v.source {
                Some(s) => Some(source_json(s)),
                None => None,
            },
        ),
        ("line"@, opt_u64_json(v.line)),
        ("column"@, opt_u64_json(v.column)),
        ("endLine"@, opt_u64_json(v.end_line)),
        ("endColumn"@, opt_u64_json(v.end_column)),
    ]
}

#[verifier::opaque]
pub open spec fn scope_json(v: ScopeView) -> JsonView {
    JsonView::Obj(obj_of(scope_entries(v)))
}

#[verifier::opaque]
pub open spec fn de_scope(j: JsonView) -> Option<ScopeView> {
    match j {
        JsonView::Obj(fields) => {
            let name = de_text(jget(fields, "name"@));
            let hint = de_opt(jget(fields, "presentationHint"@), |jj: JsonView| de_hint(jj));
            let vref = de_u64(jget(fields, "variablesReference"@));
            let named = de_opt_u64(jget(fields, "namedVariables"@));
            let indexed = de_opt_u64(jget(fields, "indexedVariables"@));
            let expensive = de_bool(jget(fields, "expensive"@));
            let source = de_opt(jget(fields, "source"@), |jj: JsonView| de_source(jj));
            let line = de_opt_u64(jget(fields, "line"@));
            let column = de_opt_u64(jget(fields, "column"@));
            let end_line = de_opt_u64(jget(fields, "endLine"@));
            let end_column = de_opt_u64(jget(fields, "endColumn"@));
            if name is Some && hint is Some && vref is Some && named is Some && indexed is Some
                && expensive is Some && source is Some && line is Some && column is Some
                && end_line is Some && end_column is Some {
                Some(
                    ScopeView {
                        name: name->Some_0,
                        presentation_hint: hint->Some_0,
                        variables_reference: vref->Some_0,
                        named_variables: named->Some_0,
                        indexed_variables: indexed->Some_0,
                        expensive: expensive->Some_0,
                        source: source->Some_0,
                        line: line->Some_0,
                        column: column->Some_0,
                        end_line: end_line->Some_0,
                        end_column: end_column->Some_0,
                    },
                )
            } else {
                None
            }
        },
        _ => None,
    }
}

impl Scope {
    #[verifier::rlimit(100)]
    #[verifier::spinoff_prover]
    pub fn to_json(self) -> (j: JsonValue)
        ensures
            jview(j) == scope_json(self@),
    {
        let ghost v = self@;
        proof {
            reveal(crate::codec::scope_json);
        }
        let mut b = ObjBuilder::new();
        b.add("name", Some(JsonValue::Str(self.name)));
        let hint_val = match self.presentation_hint {
            Some(h) => Some(h.to_json()),
            None => None,
        };
        b.add("presentationHint", hint_val);
        b.add("variablesReference", Some(JsonValue::Num(self.variables_reference)));
        b.add("namedVariables", opt_num_val(self.named_variables));
        b.add("indexedVariables", opt_num_val(self.indexed_variables));
        b.add("expensive", Some(JsonValue::Bool(self.expensive)));
        let source_val = match self.source {
            Some(s) => Some(s.to_json()),
            None => None,
        };
        b.add("source", source_val);
        b.add("line", opt_num_val(self.line));
        b.add("column", opt_num_val(self.column));
        b.add("endLine", opt_num_val(self.end_line));
        b.add("endColumn", opt_num_val(self.end_column));
        proof {
            assert(b.entries() =~= scope_entries(v));
        }
        b.finish()
    }

    pub fn from_json(j: &JsonValue) -> (r: Option<Self>)
        ensures
            ov(r) == de_scope(jview(*j)),
    {
        proof {
            reveal(crate::codec::de_scope);
        }
        match j {
            JsonValue::Obj(fields) => {
                let name = match ex_text(obj_get(fields, "name")) {
                    Some(x) => x,
                    None => {
                        return None;
                    },
                };
                let hint = match obj_get(fields, "presentationHint") {
                    None => None,
                    Some(JsonValue::Null) => None,
                    Some(x) => match PresentationHint::from_json(x) {
                        Some(h) => Some(h),
                        None => {
                            return None;
                        },
                    },
                };
                let vref = match ex_u64(obj_get(fields, "variablesReference")) {
                    Some(x) => x,
                    None => {
                        return None;
                    },
                };
                let named = match ex_opt_u64(obj_get(fields, "namedVariables")) {
                    Some(x) => x,
                    None => {
                        return None;
                    },
                };
                let indexed = match ex_opt_u64(obj_get(fields, "indexedVariables")) {
                    Some(x) => x,
                    None => {
                        return None;
                    },
                };
                let expensive = match ex_bool(obj_get(fields, "expensive")) {
                    Some(x) => x,
                    None => {
                        return None;
                    },
                };
                let source = match obj_get(fields, "source") {
                    None => None,
                    Some(JsonValue::Null) => None,
                    Some(x) => match Source::from_json(x) {
                        Some(sv) => Some(sv),
                        None => {
                            return None;
                        },
                    },
                };
                let line = match ex_opt_u64(obj_get(fields, "line")) {
                    Some(x) => x,
                    None => {
                        return None;
                    },
                };
                let column = match ex_opt_u64(obj_get(fields, "column")) {
                    Some(x) => x,
                    None => {
                        return None;
                    },
                };
                let end_line = match ex_opt_u64(obj_get(fields, "endLine")) {
                    Some(x) => x,
                    None => {
                        return None;
                    },
                };
                let end_column = match ex_opt_u64(obj_get(fields, "endColumn")) {
                    Some(x) => x,
                    None => {
                        return None;
                    },
                };
                Some(
                    Scope {
                        name,
                        presentation_hint: hint,
                        variables_reference: vref,
                        named_variables: named,
                        indexed_variables: indexed,
                        expensive,
                        source,
                        line,
                        column,
                        end_line,
                        end_column,
                    },
                )
            },
            _ => None,
        }
    }
}

#[verifier::rlimit(100)]
#[verifier::spinoff_prover]
pub proof fn lemma_scope_codec(v: ScopeView)
    requires
        wf_scope(v),
    ensures
        scope_json(v) is Obj,
        wf_json(scope_json(v)),
        jdepth(scope_json(v)) <= PAYLOAD_DEPTH_LIMIT as nat + 2,
        de_scope(scope_json(v)) == Some(v),
{
    broadcast use vstd::string::group_string_axioms;

    reveal(crate::codec::scope_json);
    reveal(crate::codec::de_scope);
    let entries = scope_entries(v);
    reveal_strlit("name");
    reveal_strlit("presentationHint");
    reveal_strlit("variablesReference");
    reveal_strlit("namedVariables");
    reveal_strlit("indexedVariables");
    reveal_strlit("expensive");
    reveal_strlit("source");
    reveal_strlit("line");
    reveal_strlit("column");
    reveal_strlit("endLine");
    reveal_strlit("endColumn");
    assert("name"@.len() == 4 && "presentationHint"@.len() == 16 && "variablesReference"@.len()
        == 18 && "namedVariables"@.len() == 14 && "indexedVariables"@.len() == 16
        && "expensive"@.len() == 9 && "source"@.len() == 6 && "line"@.len() == 4
        && "column"@.len() == 6 && "endLine"@.len() == 7 && "endColumn"@.len() == 9);
    assert("name"@[0] == 'n' && "line"@[0] == 'l');
    assert("presentationHint"@[0] == 'p' && "indexedVariables"@[0] == 'i');
    assert("source"@[0] == 's' && "column"@[0] == 'c');
    assert("expensive"@[1] == 'x' && "endColumn"@[1] == 'n');
    assert(forall|a: int, b: int|
        0 <= a < b < entries.len() ==> (#[trigger] entries[a].0) != (#[trigger] entries[b].0));
    lemma_obj_of_get(entries, 0);
    lemma_obj_of_get(entries, 1);
    lemma_obj_of_get(entries, 2);
    lemma_obj_of_get(entries, 3);
    lemma_obj_of_get(entries, 4);
    lemma_obj_of_get(entries, 5);
    lemma_obj_of_get(entries, 6);
    lemma_obj_of_get(entries, 7);
    lemma_obj_of_get(entries, 8);
    lemma_obj_of_get(entries, 9);
    lemma_obj_of_get(entries, 10);
    match v.presentation_hint {
        Some(h) => {
            lemma_rt_hint(h);
        },
        None => {},
    }
    match v.source {
        Some(sv) => {
            lemma_source_codec(sv);
        },
        None => {},
    }
    assert forall|i: int|
        0 <= i < entries.len() implies (#[trigger] entries[i].1 matches Some(x) ==> wf_json(x)
            && jdepth(x) <= PAYLOAD_DEPTH_LIMIT as nat + 1) by {
        assert(entries[0].1 == Some(JsonView::Str(v.name)));
        match v.presentation_hint {
            Some(h) => {
                assert(entries[1].1 == Some(JsonView::Str(hint_name(h))));
            },
            None => {
                assert(entries[1].1 is None);
            },
        }
        assert(entries[2].1 == Some(JsonView::Num(v.variables_reference)));
        assert(entries[3].1 == opt_u64_json(v.named_variables));
        assert(entries[4].1 == opt_u64_json(v.indexed_variables));
        assert(entries[5].1 == Some(JsonView::Bool(v.expensive)));
        match v.source {
            Some(sv) => {
                assert(entries[6].1 == Some(source_json(sv)));
            },
            None => {
                assert(entries[6].1 is None);
            },
        }
        assert(entries[7].1 == opt_u64_json(v.line));
        assert(entries[8].1 == opt_u64_json(v.column));
        assert(entries[9].1 == opt_u64_json(v.end_line));
        assert(entries[10].1 == opt_u64_json(v.end_column));
    }
    lemma_obj_of_wf(entries);
    lemma_obj_of_depth(entries, PAYLOAD_DEPTH_LIMIT as nat + 1);
    let fields = obj_of(entries);
    assert(de_text(jget(fields, "name"@)) == Some(v.name)) by {
        assert(jget(fields, "name"@) == entries[0].1);
    }
    assert(de_opt(jget(fields, "presentationHint"@), |jj: JsonView| de_hint(jj)) == Some(
        v.presentation_hint,
    )) by {
        assert(jget(fields, "presentationHint"@) == entries[1].1);
    }
    assert(de_u64(jget(fields, "variablesReference"@)) == Some(v.variables_reference)) by {
        assert(jget(fields, "variablesReference"@) == entries[2].1);
    }
    assert(de_opt_u64(jget(fields, "namedVariables"@)) == Some(v.named_variables)) by {
        assert(jget(fields, "namedVariables"@) == entries[3].1);
    }
    assert(de_opt_u64(jget(fields, "indexedVariables"@)) == Some(v.indexed_variables)) by {
        assert(jget(fields, "indexedVariables"@) == entries[4].1);
    }
    assert(de_bool(jget(fields, "expensive"@)) == Some(v.expensive)) by {
        assert(jget(fields, "expensive"@) == entries[5].1);
    }
    assert(de_opt(jget(fields, "source"@), |jj: JsonView| de_source(jj)) == Some(v.source)) by {
        assert(jget(fields, "source"@) == entries[6].1);
    }
    assert(de_opt_u64(jget(fields, "line"@)) == Some(v.line)) by {
        assert(jget(fields, "line"@) == entries[7].1);
    }
    assert(de_opt_u64(jget(fields, "column"@)) == Some(v.column)) by {
        assert(jget(fields, "column"@) == entries[8].1);
    }
    assert(de_opt_u64(jget(fields, "endLine"@)) == Some(v.end_line)) by {
        assert(jget(fields, "endLine"@) == entries[9].1);
    }
    assert(de_opt_u64(jget(fields, "endColumn"@)) == Some(v.end_column)) by {
        assert(jget(fields, "endColumn"@) == entries[10].1);
    }
}


// ---------------------------------------------------------------------------
// Arrays of the above
// ---------------------------------------------------------------------------


pub open spec fn de_scope_fn() -> spec_fn(JsonView) -> Option<ScopeView> {
    |jj: JsonView| de_scope(jj)
}

pub open spec fn de_breakpoint_fn() -> spec_fn(JsonView) -> Option<BreakpointView> {
    |jj: JsonView| de_breakpoint(jj)
}

pub open spec fn de_variable_fn() -> spec_fn(JsonView) -> Option<VariableView> {
    |jj: JsonView| de_variable(jj)
}

pub open spec fn de_source_bp_fn() -> spec_fn(JsonView) -> Option<SourceBreakpointView> {
    |jj: JsonView| de_source_bp(jj)
}

pub open spec fn de_id_fn() -> spec_fn(JsonView) -> Option<u64> {
    |jj: JsonView| de_id(jj)
}

pub open spec fn scopes_json(ss: Seq<ScopeView>) -> JsonView {
    JsonView::Arr(Seq::new(ss.len(), |i: int| scope_json(ss[i])))
}

pub open spec fn de_scopes(j: JsonView) -> Option<Seq<ScopeView>> {
    match j {
        JsonView::Arr(elems) => de_seq(elems, de_scope_fn()),
        _ => None,
    }
}

pub fn scopes_to_json(v: Vec<Scope>) -> (j: JsonValue)
    ensures
        jview(j) == scopes_json(seq_view(v)),
{
    let ghost orig = seq_view(v);
    let mut v = v;
    let mut out: Vec<JsonValue> = Vec::new();
    while v.len() > 0
        invariant
            out.len() + v.len() == orig.len(),
            forall|k: int| 0 <= k < v@.len() ==> (#[trigger] v@[k])@ == orig[out@.len() + k],
            forall|k: int| 0 <= k < out.len() ==> jview(#[trigger] out[k]) == scope_json(orig[k]),
        decreases v.len(),
    {
        let x = v.remove(0);
        out.push(x.to_json());
    }
    proof {
        lemma_jview_elems(out, out.len() as int);
        assert(jview_elems(out, out.len() as int) =~= Seq::new(
            orig.len(),
            |i: int| scope_json(orig[i]),
        ));
    }
    JsonValue::Arr(out)
}

#[verifier::loop_isolation(false)]
pub fn json_to_scopes(j: &JsonValue) -> (r: Option<Vec<Scope>>)
    ensures
        ({
            match r {
                Some(v) => de_scopes(jview(*j)) == Some(seq_view(v)),
                None => de_scopes(jview(*j)) is None,
            }
        }),
{
    match j {
        JsonValue::Arr(elems) => {
            proof {
                lemma_jview_elems(*elems, elems.len() as int);
            }
            let ghost ev = jview_elems(*elems, elems.len() as int);
            let ghost f = de_scope_fn();
            let mut out: Vec<Scope> = Vec::new();
            let mut i: usize = 0;
            while i < elems.len()
                invariant
                    i <= elems.len(),
                    out.len() == i,
                    ev == jview_elems(*elems, elems.len() as int),
                    ev.len() == elems.len(),
                    forall|k: int| 0 <= k < elems.len() ==> #[trigger] ev[k] == jview(elems[k]),
                    f == (de_scope_fn()),
                    forall|k: int| 0 <= k < i ==> f(#[trigger] ev[k]) == Some(out@[k]@),
                decreases elems.len() - i,
            {
                match Scope::from_json(&elems[i]) {
                    Some(x) => {
                        out.push(x);
                        i = i + 1;
                    },
                    None => {
                        proof {
                            lemma_de_seq_fail(ev, f, i as int);
                        }
                        return None;
                    },
                }
            }
            proof {
                assert(seq_view(out).len() == ev.len());
                lemma_de_seq_pointwise(ev, f, seq_view(out));
            }
            Some(out)
        },
        _ => None,
    }
}

pub proof fn lemma_scopes_codec(ss: Seq<ScopeView>)
    requires
        forall|i: int| 0 <= i < ss.len() ==> wf_scope(#[trigger] ss[i]),
    ensures
        wf_json(scopes_json(ss)),
        jdepth(scopes_json(ss)) <= PAYLOAD_DEPTH_LIMIT as nat + 3,
        de_scopes(scopes_json(ss)) == Some(ss),
{
    let elems = Seq::new(ss.len(), |i: int| scope_json(ss[i]));
    assert forall|i: int| 0 <= i < elems.len() implies wf_json(#[trigger] elems[i]) && jdepth(
        elems[i],
    ) <= PAYLOAD_DEPTH_LIMIT as nat + 2 by {
        lemma_scope_codec(ss[i]);
    }
    lemma_jdepth_elems_ub(elems, elems.len() as int, PAYLOAD_DEPTH_LIMIT as nat + 2);
    let f = de_scope_fn();
    assert forall|k: int| 0 <= k < elems.len() implies f(#[trigger] elems[k]) == Some(ss[k]) by {
        lemma_scope_codec(ss[k]);
    }
    lemma_de_seq_pointwise(elems, f, ss);
}

pub open spec fn breakpoints_json(bs: Seq<BreakpointView>) -> JsonView {
    JsonView::Arr(Seq::new(bs.len(), |i: int| breakpoint_json(bs[i])))
}

pub open spec fn de_breakpoints(j: JsonView) -> Option<Seq<BreakpointView>> {
    match j {
        JsonView::Arr(elems) => de_seq(elems, de_breakpoint_fn()),
        _ => None,
    }
}

pub fn breakpoints_to_json(v: Vec<Breakpoint>) -> (j: JsonValue)
    ensures
        jview(j) == breakpoints_json(seq_view(v)),
{
    let ghost orig = seq_view(v);
    let mut v = v;
    let mut out: Vec<JsonValue> = Vec::new();
    while v.len() > 0
        invariant
            out.len() + v.len() == orig.len(),
            forall|k: int| 0 <= k < v@.len() ==> (#[trigger] v@[k])@ == orig[out@.len() + k],
            forall|k: int|
                0 <= k < out.len() ==> jview(#[trigger] out[k]) == breakpoint_json(orig[k]),
        decreases v.len(),
    {
        let x = v.remove(0);
        out.push(x.to_json());
    }
    proof {
        lemma_jview_elems(out, out.len() as int);
        assert(jview_elems(out, out.len() as int) =~= Seq::new(
            orig.len(),
            |i: int| breakpoint_json(orig[i]),
        ));
    }
    JsonValue::Arr(out)
}

#[verifier::loop_isolation(false)]
pub fn json_to_breakpoints(j: &JsonValue) -> (r: Option<Vec<Breakpoint>>)
    ensures
        ({
            match r {
                Some(v) => de_breakpoints(jview(*j)) == Some(seq_view(v)),
                None => de_breakpoints(jview(*j)) is None,
            }
        }),
{
    match j {
        JsonValue::Arr(elems) => {
            proof {
                lemma_jview_elems(*elems, elems.len() as int);
            }
            let ghost ev = jview_elems(*elems, elems.len() as int);
            let ghost f = de_breakpoint_fn();
            let mut out: Vec<Breakpoint> = Vec::new();
            let mut i: usize = 0;
            while i < elems.len()
                invariant
                    i <= elems.len(),
                    out.len() == i,
                    ev == jview_elems(*elems, elems.len() as int),
                    ev.len() == elems.len(),
                    forall|k: int| 0 <= k < elems.len() ==> #[trigger] ev[k] == jview(elems[k]),
                    f == (de_breakpoint_fn()),
                    forall|k: int| 0 <= k < i ==> f(#[trigger] ev[k]) == Some(out@[k]@),
                decreases elems.len() - i,
            {
                match Breakpoint::from_json(&elems[i]) {
                    Some(x) => {
                        out.push(x);
                        i = i + 1;
                    },
                    None => {
                        proof {
                            lemma_de_seq_fail(ev, f, i as int);
                        }
                        return None;
                    },
                }
            }
            proof {
                assert(seq_view(out).len() == ev.len());
                lemma_de_seq_pointwise(ev, f, seq_view(out));
            }
            Some(out)
        },
        _ => None,
    }
}

pub proof fn lemma_breakpoints_codec(bs: Seq<BreakpointView>)
    requires
        forall|i: int| 0 <= i < bs.len() ==> wf_breakpoint(#[trigger] bs[i]),
    ensures
        wf_json(breakpoints_json(bs)),
        jdepth(breakpoints_json(bs)) <= PAYLOAD_DEPTH_LIMIT as nat + 3,
        de_breakpoints(breakpoints_json(bs)) == Some(bs),
{
    let elems = Seq::new(bs.len(), |i: int| breakpoint_json(bs[i]));
    assert forall|i: int| 0 <= i < elems.len() implies wf_json(#[trigger] elems[i]) && jdepth(
        elems[i],
    ) <= PAYLOAD_DEPTH_LIMIT as nat + 2 by {
        lemma_breakpoint_codec(bs[i]);
    }
    lemma_jdepth_elems_ub(elems, elems.len() as int, PAYLOAD_DEPTH_LIMIT as nat + 2);
    let f = de_breakpoint_fn();
    assert forall|k: int| 0 <= k < elems.len() implies f(#[trigger] elems[k]) == Some(bs[k]) by {
        lemma_breakpoint_codec(bs[k]);
    }
    lemma_de_seq_pointwise(elems, f, bs);
}

pub open spec fn variables_json(vs: Seq<VariableView>) -> JsonView {
    JsonView::Arr(Seq::new(vs.len(), |i: int| variable_json(vs[i])))
}

pub open spec fn de_variables(j: JsonView) -> Option<Seq<VariableView>> {
    match j {
        JsonView::Arr(elems) => de_seq(elems, de_variable_fn()),
        _ => None,
    }
}

pub fn variables_to_json(v: Vec<Variable>) -> (j: JsonValue)
    ensures
        jview(j) == variables_json(seq_view(v)),
{
    let ghost orig = seq_view(v);
    let mut v = v;
    let mut out: Vec<JsonValue> = Vec::new();
    while v.len() > 0
        invariant
            out.len() + v.len() == orig.len(),
            forall|k: int| 0 <= k < v@.len() ==> (#[trigger] v@[k])@ == orig[out@.len() + k],
            forall|k: int|
                0 <= k < out.len() ==> jview(#[trigger] out[k]) == variable_json(orig[k]),
        decreases v.len(),
    {
        let x = v.remove(0);
        out.push(x.to_json());
    }
    proof {
        lemma_jview_elems(out, out.len() as int);
        assert(jview_elems(out, out.len() as int) =~= Seq::new(
            orig.len(),
            |i: int| variable_json(orig[i]),
        ));
    }
    JsonValue::Arr(out)
}

#[verifier::loop_isolation(false)]
pub fn json_to_variables(j: &JsonValue) -> (r: Option<Vec<Variable>>)
    ensures
        ({
            match r {
                Some(v) => de_variables(jview(*j)) == Some(seq_view(v)),
                None => de_variables(jview(*j)) is None,
            }
        }),
{
    match j {
        JsonValue::Arr(elems) => {
            proof {
                lemma_jview_elems(*elems, elems.len() as int);
            }
            let ghost ev = jview_elems(*elems, elems.len() as int);
            let ghost f = de_variable_fn();
            let mut out: Vec<Variable> = Vec::new();
            let mut i: usize = 0;
            while i < elems.len()
                invariant
                    i <= elems.len(),
                    out.len() == i,
                    ev == jview_elems(*elems, elems.len() as int),
                    ev.len() == elems.len(),
                    forall|k: int| 0 <= k < elems.len() ==> #[trigger] ev[k] == jview(elems[k]),
                    f == (de_variable_fn()),
                    forall|k: int| 0 <= k < i ==> f(#[trigger] ev[k]) == Some(out@[k]@),
                decreases elems.len() - i,
            {
                match Variable::from_json(&elems[i]) {
                    Some(x) => {
                        out.push(x);
                        i = i + 1;
                    },
                    None => {
                        proof {
                            lemma_de_seq_fail(ev, f, i as int);
                        }
                        return None;
                    },
                }
            }
            proof {
                assert(seq_view(out).len() == ev.len());
                lemma_de_seq_pointwise(ev, f, seq_view(out));
            }
            Some(out)
        },
        _ => None,
    }
}

pub proof fn lemma_variables_codec(vs: Seq<VariableView>)
    ensures
        wf_json(variables_json(vs)),
        jdepth(variables_json(vs)) <= 2,
        de_variables(variables_json(vs)) == Some(vs),
{
    let elems = Seq::new(vs.len(), |i: int| variable_json(vs[i]));
    assert forall|i: int| 0 <= i < elems.len() implies wf_json(#[trigger] elems[i]) && jdepth(
        elems[i],
    ) <= 1 by {
        lemma_variable_codec(vs[i]);
    }
    lemma_jdepth_elems_ub(elems, elems.len() as int, 1);
    let f = de_variable_fn();
    assert forall|k: int| 0 <= k < elems.len() implies f(#[trigger] elems[k]) == Some(vs[k]) by {
        lemma_variable_codec(vs[k]);
    }
    lemma_de_seq_pointwise(elems, f, vs);
}

pub open spec fn source_bps_json(bs: Seq<SourceBreakpointView>) -> JsonView {
    JsonView::Arr(Seq::new(bs.len(), |i: int| source_bp_json(bs[i])))
}

pub open spec fn de_source_bps(j: JsonView) -> Option<Seq<SourceBreakpointView>> {
    match j {
        JsonView::Arr(elems) => de_seq(elems, de_source_bp_fn()),
        _ => None,
    }
}

pub fn source_bps_to_json(v: Vec<SourceBreakpoint>) -> (j: JsonValue)
    ensures
        jview(j) == source_bps_json(seq_view(v)),
{
    let ghost orig = seq_view(v);
    let mut v = v;
    let mut out: Vec<JsonValue> = Vec::new();
    while v.len() > 0
        invariant
            out.len() + v.len() == orig.len(),
            forall|k: int| 0 <= k < v@.len() ==> (#[trigger] v@[k])@ == orig[out@.len() + k],
            forall|k: int|
                0 <= k < out.len() ==> jview(#[trigger] out[k]) == source_bp_json(orig[k]),
        decreases v.len(),
    {
        let x = v.remove(0);
        out.push(x.to_json());
    }
    proof {
        lemma_jview_elems(out, out.len() as int);
        assert(jview_elems(out, out.len() as int) =~= Seq::new(
            orig.len(),
            |i: int| source_bp_json(orig[i]),
        ));
    }
    JsonValue::Arr(out)
}

#[verifier::loop_isolation(false)]
pub fn json_to_source_bps(j: &JsonValue) -> (r: Option<Vec<SourceBreakpoint>>)
    ensures
        ({
            match r {
                Some(v) => de_source_bps(jview(*j)) == Some(seq_view(v)),
                None => de_source_bps(jview(*j)) is None,
            }
        }),
{
    match j {
        JsonValue::Arr(elems) => {
            proof {
                lemma_jview_elems(*elems, elems.len() as int);
            }
            let ghost ev = jview_elems(*elems, elems.len() as int);
            let ghost f = de_source_bp_fn();
            let mut out: Vec<SourceBreakpoint> = Vec::new();
            let mut i: usize = 0;
            while i < elems.len()
                invariant
                    i <= elems.len(),
                    out.len() == i,
                    ev == jview_elems(*elems, elems.len() as int),
                    ev.len() == elems.len(),
                    forall|k: int| 0 <= k < elems.len() ==> #[trigger] ev[k] == jview(elems[k]),
                    f == (de_source_bp_fn()),
                    forall|k: int| 0 <= k < i ==> f(#[trigger] ev[k]) == Some(out@[k]@),
                decreases elems.len() - i,
            {
                match SourceBreakpoint::from_json(&elems[i]) {
                    Some(x) => {
                        out.push(x);
                        i = i + 1;
                    },
                    None => {
                        proof {
                            lemma_de_seq_fail(ev, f, i as int);
                        }
                        return None;
                    },
                }
            }
            proof {
                assert(seq_view(out).len() == ev.len());
                lemma_de_seq_pointwise(ev, f, seq_view(out));
            }
            Some(out)
        },
        _ => None,
    }
}

pub proof fn lemma_source_bps_codec(bs: Seq<SourceBreakpointView>)
    ensures
        wf_json(source_bps_json(bs)),
        jdepth(source_bps_json(bs)) <= 2,
        de_source_bps(source_bps_json(bs)) == Some(bs),
{
    let elems = Seq::new(bs.len(), |i: int| source_bp_json(bs[i]));
    assert forall|i: int| 0 <= i < elems.len() implies wf_json(#[trigger] elems[i]) && jdepth(
        elems[i],
    ) <= 1 by {
        lemma_source_bp_codec(bs[i]);
    }
    lemma_jdepth_elems_ub(elems, elems.len() as int, 1);
    let f = de_source_bp_fn();
    assert forall|k: int| 0 <= k < elems.len() implies f(#[trigger] elems[k]) == Some(bs[k]) by {
        lemma_source_bp_codec(bs[k]);
    }
    lemma_de_seq_pointwise(elems, f, bs);
}

pub open spec fn ids_json(ids: Seq<u64>) -> JsonView {
    JsonView::Arr(Seq::new(ids.len(), |i: int| JsonView::Num(ids[i])))
}

pub open spec fn de_id(j: JsonView) -> Option<u64> {
    match j {
        JsonView::Num(n) => Some(n),
        _ => None,
    }
}

pub open spec fn de_ids(j: JsonView) -> Option<Seq<u64>> {
    match j {
        JsonView::Arr(elems) => de_seq(elems, de_id_fn()),
        _ => None,
    }
}

pub fn ids_to_json(v: &Vec<u64>) -> (j: JsonValue)
    ensures
        jview(j) == ids_json(v@),
{
    let mut out: Vec<JsonValue> = Vec::new();
    let mut i: usize = 0;
    while i < v.len()
        invariant
            i <= v.len(),
            out.len() == i,
            forall|k: int| 0 <= k < i ==> jview(#[trigger] out[k]) == JsonView::Num(v@[k]),
        decreases v.len() - i,
    {
        out.push(JsonValue::Num(v[i]));
        i = i + 1;
    }
    proof {
        lemma_jview_elems(out, out.len() as int);
        assert(jview_elems(out, out.len() as int) =~= Seq::new(
            v@.len(),
            |i: int| JsonView::Num(v@[i]),
        ));
    }
    JsonValue::Arr(out)
}

#[verifier::loop_isolation(false)]
pub fn json_to_ids(j: &JsonValue) -> (r: Option<Vec<u64>>)
    ensures
        ({
            match r {
                Some(v) => de_ids(jview(*j)) == Some(v@),
                None => de_ids(jview(*j)) is None,
            }
        }),
{
    match j {
        JsonValue::Arr(elems) => {
            proof {
                lemma_jview_elems(*elems, elems.len() as int);
            }
            let ghost ev = jview_elems(*elems, elems.len() as int);
            let ghost f = de_id_fn();
            let mut out: Vec<u64> = Vec::new();
            let mut i: usize = 0;
            while i < elems.len()
                invariant
                    i <= elems.len(),
                    out.len() == i,
                    ev == jview_elems(*elems, elems.len() as int),
                    ev.len() == elems.len(),
                    forall|k: int| 0 <= k < elems.len() ==> #[trigger] ev[k] == jview(elems[k]),
                    f == (de_id_fn()),
                    forall|k: int| 0 <= k < i ==> f(#[trigger] ev[k]) == Some(out@[k]),
                decreases elems.len() - i,
            {
                match &elems[i] {
                    JsonValue::Num(n) => {
                        out.push(*n);
                        i = i + 1;
                    },
                    _ => {
                        proof {
                            lemma_de_seq_fail(ev, f, i as int);
                        }
                        return None;
                    },
                }
            }
            proof {
                lemma_de_seq_pointwise(ev, f, out@);
            }
            Some(out)
        },
        _ => None,
    }
}

pub proof fn lemma_ids_codec(ids: Seq<u64>)
    ensures
        wf_json(ids_json(ids)),
        jdepth(ids_json(ids)) <= 1,
        de_ids(ids_json(ids)) == Some(ids),
{
    let elems = Seq::new(ids.len(), |i: int| JsonView::Num(ids[i]));
    assert forall|i: int| 0 <= i < elems.len() implies wf_json(#[trigger] elems[i]) && jdepth(
        elems[i],
    ) <= 0 by {}
    lemma_jdepth_elems_ub(elems, elems.len() as int, 0);
    let f = de_id_fn();
    assert forall|k: int| 0 <= k < elems.len() implies f(#[trigger] elems[k]) == Some(ids[k]) by {}
    lemma_de_seq_pointwise(elems, f, ids);
}


// ---------------------------------------------------------------------------
// Capabilities
// ---------------------------------------------------------------------------

pub open spec fn capabilities_entries(v: Capabilities) -> Seq<(Seq<char>, Option<JsonView>)> {
    seq![
        ("supportsConfigurationDoneRequest"@, opt_bool_json(v.supports_configuration_done_request)),
        (
            "supportsSingleThreadExecutionRequests"@,
            opt_bool_json(v.supports_single_thread_execution_requests),
        ),
    ]
}

#[verifier::opaque]
pub open spec fn capabilities_json(v: Capabilities) -> JsonView {
    JsonView::Obj(obj_of(capabilities_entries(v)))
}

#[verifier::opaque]
pub open spec fn de_capabilities(j: JsonView) -> Option<Capabilities> {
    match j {
        JsonView::Obj(fields) => {
            let f1 = de_opt_bool(jget(fields, "supportsConfigurationDoneRequest"@));
            let f2 = de_opt_bool(jget(fields, "supportsSingleThreadExecutionRequests"@));
            if f1 is Some && f2 is Some {
                Some(
                    Capabilities {
                        supports_configuration_done_request: f1->Some_0,
                        supports_single_thread_execution_requests: f2->Some_0,
                    },
                )
            } else {
                None
            }
        },
        _ => None,
    }
}

impl Capabilities {
    pub fn to_json(self) -> (j: JsonValue)
        ensures
            jview(j) == capabilities_json(self),
    {
        proof {
            reveal(crate::codec::capabilities_json);
        }
        let mut b = ObjBuilder::new();
        b.add(
            "supportsConfigurationDoneRequest",
            opt_bool_val(self.supports_configuration_done_request),
        );
        b.add(
            "supportsSingleThreadExecutionRequests",
            opt_bool_val(self.supports_single_thread_execution_requests),
        );
        proof {
            assert(b.entries() =~= capabilities_entries(self));
        }
        b.finish()
    }

    pub fn from_json(j: &JsonValue) -> (r: Option<Self>)
        ensures
            r == de_capabilities(jview(*j)),
    {
        proof {
            reveal(crate::codec::de_capabilities);
        }
        match j {
            JsonValue::Obj(fields) => {
                let f1 = match ex_opt_bool(obj_get(fields, "supportsConfigurationDoneRequest")) {
                    Some(x) => x,
                    None => {
                        return None;
                    },
                };
                let f2 = match ex_opt_bool(
                    obj_get(fields, "supportsSingleThreadExecutionRequests"),
                ) {
                    Some(x) => x,
                    None => {
                        return None;
                    },
                };
                Some(
                    Capabilities {
                        supports_configuration_done_request: f1,
                        supports_single_thread_execution_requests: f2,
                    },
                )
            },
            _ => None,
        }
    }
}

pub proof fn lemma_capabilities_codec(v: Capabilities)
    ensures
        capabilities_json(v) is Obj,
        wf_json(capabilities_json(v)),
        jdepth(capabilities_json(v)) <= 1,
        de_capabilities(capabilities_json(v)) == Some(v),
{
    broadcast use vstd::string::group_string_axioms;

    reveal(crate::codec::capabilities_json);
    reveal(crate::codec::de_capabilities);
    let entries = capabilities_entries(v);
    reveal_strlit("supportsConfigurationDoneRequest");
    reveal_strlit("supportsSingleThreadExecutionRequests");
    assert("supportsConfigurationDoneRequest"@.len() == 32
        && "supportsSingleThreadExecutionRequests"@.len() == 37);
    assert(forall|a: int, b: int|
        0 <= a < b < entries.len() ==> (#[trigger] entries[a].0) != (#[trigger] entries[b].0));
    lemma_obj_of_get(entries, 0);
    lemma_obj_of_get(entries, 1);
    assert forall|i: int|
        0 <= i < entries.len() implies (#[trigger] entries[i].1 matches Some(x) ==> wf_json(x)
            && jdepth(x) <= 0) by {
        assert(entries[0].1 == opt_bool_json(v.supports_configuration_done_request));
        assert(entries[1].1 == opt_bool_json(v.supports_single_thread_execution_requests));
    }
    lemma_obj_of_wf(entries);
    lemma_obj_of_depth(entries, 0);
    let fields = obj_of(entries);
    assert(de_opt_bool(jget(fields, "supportsConfigurationDoneRequest"@)) == Some(
        v.supports_configuration_done_request,
    )) by {
        assert(jget(fields, "supportsConfigurationDoneRequest"@) == entries[0].1);
    }
    assert(de_opt_bool(jget(fields, "supportsSingleThreadExecutionRequests"@)) == Some(
        v.supports_single_thread_execution_requests,
    )) by {
        assert(jget(fields, "supportsSingleThreadExecutionRequests"@) == entries[1].1);
    }
}

// ---------------------------------------------------------------------------
// Request arguments
// ---------------------------------------------------------------------------

pub open spec fn cancel_args_entries(v: CancelArgumentsView) -> Seq<(Seq<char>, Option<JsonView>)> {
    seq![("requestId"@, opt_u64_json(v.request_id)), ("progressId"@, opt_text_json(v.progress_id))]
}

#[verifier::opaque]
pub open spec fn cancel_args_json(v: CancelArgumentsView) -> JsonView {
    JsonView::Obj(obj_of(cancel_args_entries(v)))
}

#[verifier::opaque]
pub open spec fn de_cancel_args(j: JsonView) -> Option<CancelArgumentsView> {
    match j {
        JsonView::Obj(fields) => {
            let rid = de_opt_u64(jget(fields, "requestId"@));
            let pid = de_opt_text(jget(fields, "progressId"@));
            if rid is Some && pid is Some {
                Some(CancelArgumentsView { request_id: rid->Some_0, progress_id: pid->Some_0 })
            } else {
                None
            }
        },
        _ => None,
    }
}

impl CancelArguments {
    pub fn to_json(self) -> (j: JsonValue)
        ensures
            jview(j) == cancel_args_json(self@),
    {
        let ghost v = self@;
        proof {
            reveal(crate::codec::cancel_args_json);
        }
        let mut b = ObjBuilder::new();
        b.add("requestId", opt_num_val(self.request_id));
        b.add("progressId", opt_text_val(self.progress_id));
        proof {
            assert(b.entries() =~= cancel_args_entries(v));
        }
        b.finish()
    }

    pub fn from_json(j: &JsonValue) -> (r: Option<Self>)
        ensures
            ov(r) == de_cancel_args(jview(*j)),
    {
        proof {
            reveal(crate::codec::de_cancel_args);
        }
        match j {
            JsonValue::Obj(fields) => {
                let rid = match ex_opt_u64(obj_get(fields, "requestId")) {
                    Some(x) => x,
                    None => {
                        return None;
                    },
                };
                let pid = match ex_opt_text(obj_get(fields, "progressId")) {
                    Some(x) => x,
                    None => {
                        return None;
                    },
                };
                Some(CancelArguments { request_id: rid, progress_id: pid })
            },
            _ => None,
        }
    }
}

pub proof fn lemma_cancel_args_codec(v: CancelArgumentsView)
    ensures
        cancel_args_json(v) is Obj,
        wf_json(cancel_args_json(v)),
        jdepth(cancel_args_json(v)) <= 1,
        de_cancel_args(cancel_args_json(v)) == Some(v),
{
    broadcast use vstd::string::group_string_axioms;

    reveal(crate::codec::cancel_args_json);
    reveal(crate::codec::de_cancel_args);
    let entries = cancel_args_entries(v);
    reveal_strlit("requestId");
    reveal_strlit("progressId");
    assert("requestId"@.len() == 9 && "progressId"@.len() == 10);
    assert(forall|a: int, b: int|
        0 <= a < b < entries.len() ==> (#[trigger] entries[a].0) != (#[trigger] entries[b].0));
    lemma_obj_of_get(entries, 0);
    lemma_obj_of_get(entries, 1);
    assert forall|i: int|
        0 <= i < entries.len() implies (#[trigger] entries[i].1 matches Some(x) ==> wf_json(x)
            && jdepth(x) <= 0) by {
        assert(entries[0].1 == opt_u64_json(v.request_id));
        assert(entries[1].1 == opt_text_json(v.progress_id));
    }
    lemma_obj_of_wf(entries);
    lemma_obj_of_depth(entries, 0);
    let fields = obj_of(entries);
    assert(de_opt_u64(jget(fields, "requestId"@)) == Some(v.request_id)) by {
        assert(jget(fields, "requestId"@) == entries[0].1);
    }
    assert(de_opt_text(jget(fields, "progressId"@)) == Some(v.progress_id)) by {
        assert(jget(fields, "progressId"@) == entries[1].1);
    }
}

pub open spec fn init_args_entries(v: InitializeArgumentsView) -> Seq<
    (Seq<char>, Option<JsonView>),
> {
    seq![
        ("clientID"@, opt_text_json(v.client_id)),
        ("clientName"@, opt_text_json(v.client_name)),
        ("adapterID"@, Some(JsonView::Str(v.adapter_id))),
        ("locale"@, opt_text_json(v.locale)),
    ]
}

#[verifier::opaque]
pub open spec fn init_args_json(v: InitializeArgumentsView) -> JsonView {
    JsonView::Obj(obj_of(init_args_entries(v)))
}

#[verifier::opaque]
pub open spec fn de_init_args(j: JsonView) -> Option<InitializeArgumentsView> {
    match j {
        JsonView::Obj(fields) => {
            let cid = de_opt_text(jget(fields, "clientID"@));
            let cname = de_opt_text(jget(fields, "clientName"@));
            let aid = de_text(jget(fields, "adapterID"@));
            let locale = de_opt_text(jget(fields, "locale"@));
            if cid is Some && cname is Some && aid is Some && locale is Some {
                Some(
                    InitializeArgumentsView {
                        client_id: cid->Some_0,
                        client_name: cname->Some_0,
                        adapter_id: aid->Some_0,
                        locale: locale->Some_0,
                    },
                )
            } else {
                None
            }
        },
        _ => None,
    }
}

impl InitializeArguments {
    pub fn to_json(self) -> (j: JsonValue)
        ensures
            jview(j) == init_args_json(self@),
    {
        let ghost v = self@;
        proof {
            reveal(crate::codec::init_args_json);
        }
        let mut b = ObjBuilder::new();
        b.add("clientID", opt_text_val(self.client_id));
        b.add("clientName", opt_text_val(self.client_name));
        b.add("adapterID", Some(JsonValue::Str(self.adapter_id)));
        b.add("locale", opt_text_val(self.locale));
        proof {
            assert(b.entries() =~= init_args_entries(v));
        }
        b.finish()
    }

    pub fn from_json(j: &JsonValue) -> (r: Option<Self>)
        ensures
            ov(r) == de_init_args(jview(*j)),
    {
        proof {
            reveal(crate::codec::de_init_args);
        }
        match j {
            JsonValue::Obj(fields) => {
                let cid = match ex_opt_text(obj_get(fields, "clientID")) {
                    Some(x) => x,
                    None => {
                        return None;
                    },
                };
                let cname = match ex_opt_text(obj_get(fields, "clientName")) {
                    Some(x) => x,
                    None => {
                        return None;
                    },
                };
                let aid = match ex_text(obj_get(fields, "adapterID")) {
                    Some(x) => x,
                    None => {
                        return None;
                    },
                };
                let locale = match ex_opt_text(obj_get(fields, "locale")) {
                    Some(x) => x,
                    None => {
                        return None;
                    },
                };
                Some(
                    InitializeArguments {
                        client_id: cid,
                        client_name: cname,
                        adapter_id: aid,
                        locale,
                    },
                )
            },
            _ => None,
        }
    }
}

pub proof fn lemma_init_args_codec(v: InitializeArgumentsView)
    ensures
        init_args_json(v) is Obj,
        wf_json(init_args_json(v)),
        jdepth(init_args_json(v)) <= 1,
        de_init_args(init_args_json(v)) == Some(v),
{
    broadcast use vstd::string::group_string_axioms;

    reveal(crate::codec::init_args_json);
    reveal(crate::codec::de_init_args);
    let entries = init_args_entries(v);
    reveal_strlit("clientID");
    reveal_strlit("clientName");
    reveal_strlit("adapterID");
    reveal_strlit("locale");
    assert("clientID"@.len() == 8 && "clientName"@.len() == 10 && "adapterID"@.len() == 9
        && "locale"@.len() == 6);
    assert(forall|a: int, b: int|
        0 <= a < b < entries.len() ==> (#[trigger] entries[a].0) != (#[trigger] entries[b].0));
    lemma_obj_of_get(entries, 0);
    lemma_obj_of_get(entries, 1);
    lemma_obj_of_get(entries, 2);
    lemma_obj_of_get(entries, 3);
    assert forall|i: int|
        0 <= i < entries.len() implies (#[trigger] entries[i].1 matches Some(x) ==> wf_json(x)
            && jdepth(x) <= 0) by {
        assert(entries[0].1 == opt_text_json(v.client_id));
        assert(entries[1].1 == opt_text_json(v.client_name));
        assert(entries[2].1 == Some(JsonView::Str(v.adapter_id)));
        assert(entries[3].1 == opt_text_json(v.locale));
    }
    lemma_obj_of_wf(entries);
    lemma_obj_of_depth(entries, 0);
    let fields = obj_of(entries);
    assert(de_opt_text(jget(fields, "clientID"@)) == Some(v.client_id)) by {
        assert(jget(fields, "clientID"@) == entries[0].1);
    }
    assert(de_opt_text(jget(fields, "clientName"@)) == Some(v.client_name)) by {
        assert(jget(fields, "clientName"@) == entries[1].1);
    }
    assert(de_text(jget(fields, "adapterID"@)) == Some(v.adapter_id)) by {
        assert(jget(fields, "adapterID"@) == entries[2].1);
    }
    assert(de_opt_text(jget(fields, "locale"@)) == Some(v.locale)) by {
        assert(jget(fields, "locale"@) == entries[3].1);
    }
}

pub open spec fn next_args_entries(v: NextArguments) -> Seq<(Seq<char>, Option<JsonView>)> {
    seq![
        ("threadId"@, Some(JsonView::Num(v.thread_id))),
        ("singleThread"@, opt_bool_json(v.single_thread)),
        (
            "steppingGranularity"@,
            match v.stepping_granularity {
                Some(g) => Some(JsonView::Str(granularity_name(g))),
                None => None,
            },
        ),
    ]
}

#[verifier::opaque]
pub open spec fn next_args_json(v: NextArguments) -> JsonView {
    JsonView::Obj(obj_of(next_args_entries(v)))
}

#[verifier::opaque]
pub open spec fn de_next_args(j: JsonView) -> Option<NextArguments> {
    match j {
        JsonView::Obj(fields) => {
            let tid = de_u64(jget(fields, "threadId"@));
            let st = de_opt_bool(jget(fields, "singleThread"@));
            let sg = de_opt(jget(fields, "steppingGranularity"@), de_granularity_fn());
            if tid is Some && st is Some && sg is Some {
                Some(
                    NextArguments {
                        thread_id: tid->Some_0,
                        single_thread: st->Some_0,
                        stepping_granularity: sg->Some_0,
                    },
                )
            } else {
                None
            }
        },
        _ => None,
    }
}

pub open spec fn de_granularity_fn() -> spec_fn(JsonView) -> Option<SteppingGranularity> {
    |jj: JsonView| de_granularity(jj)
}

impl NextArguments {
    pub fn to_json(self) -> (j: JsonValue)
        ensures
            jview(j) == next_args_json(self),
    {
        proof {
            reveal(crate::codec::next_args_json);
        }
        let mut b = ObjBuilder::new();
        b.add("threadId", Some(JsonValue::Num(self.thread_id)));
        b.add("singleThread", opt_bool_val(self.single_thread));
        let sg_val = match self.stepping_granularity {
            Some(g) => Some(g.to_json()),
            None => None,
        };
        b.add("steppingGranularity", sg_val);
        proof {
            assert(b.entries() =~= next_args_entries(self));
        }
        b.finish()
    }

    pub fn from_json(j: &JsonValue) -> (r: Option<Self>)
        ensures
            r == de_next_args(jview(*j)),
    {
        proof {
            reveal(crate::codec::de_next_args);
        }
        match j {
            JsonValue::Obj(fields) => {
                let tid = match ex_u64(obj_get(fields, "threadId")) {
                    Some(x) => x,
                    None => {
                        return None;
                    },
                };
                let st = match ex_opt_bool(obj_get(fields, "singleThread")) {
                    Some(x) => x,
                    None => {
                        return None;
                    },
                };
                let sg = match obj_get(fields, "steppingGranularity") {
                    None => None,
                    Some(JsonValue::Null) => None,
                    Some(x) => match SteppingGranularity::from_json(x) {
                        Some(g) => Some(g),
                        None => {
                            return None;
                        },
                    },
                };
                Some(NextArguments { thread_id: tid, single_thread: st, stepping_granularity: sg })
            },
            _ => None,
        }
    }
}

pub proof fn lemma_next_args_codec(v: NextArguments)
    ensures
        next_args_json(v) is Obj,
        wf_json(next_args_json(v)),
        jdepth(next_args_json(v)) <= 1,
        de_next_args(next_args_json(v)) == Some(v),
{
    broadcast use vstd::string::group_string_axioms;

    reveal(crate::codec::next_args_json);
    reveal(crate::codec::de_next_args);
    let entries = next_args_entries(v);
    reveal_strlit("threadId");
    reveal_strlit("singleThread");
    reveal_strlit("steppingGranularity");
    assert("threadId"@.len() == 8 && "singleThread"@.len() == 12 && "steppingGranularity"@.len()
        == 19);
    assert(forall|a: int, b: int|
        0 <= a < b < entries.len() ==> (#[trigger] entries[a].0) != (#[trigger] entries[b].0));
    lemma_obj_of_get(entries, 0);
    lemma_obj_of_get(entries, 1);
    lemma_obj_of_get(entries, 2);
    match v.stepping_granularity {
        Some(g) => {
            lemma_rt_granularity(g);
        },
        None => {},
    }
    assert forall|i: int|
        0 <= i < entries.len() implies (#[trigger] entries[i].1 matches Some(x) ==> wf_json(x)
            && jdepth(x) <= 0) by {
        assert(entries[0].1 == Some(JsonView::Num(v.thread_id)));
        assert(entries[1].1 == opt_bool_json(v.single_thread));
        match v.stepping_granularity {
            Some(g) => {
                assert(entries[2].1 == Some(JsonView::Str(granularity_name(g))));
            },
            None => {
                assert(entries[2].1 is None);
            },
        }
    }
    lemma_obj_of_wf(entries);
    lemma_obj_of_depth(entries, 0);
    let fields = obj_of(entries);
    assert(de_u64(jget(fields, "threadId"@)) == Some(v.thread_id)) by {
        assert(jget(fields, "threadId"@) == entries[0].1);
    }
    assert(de_opt_bool(jget(fields, "singleThread"@)) == Some(v.single_thread)) by {
        assert(jget(fields, "singleThread"@) == entries[1].1);
    }
    assert(de_opt(jget(fields, "steppingGranularity"@), de_granularity_fn()) == Some(
        v.stepping_granularity,
    )) by {
        assert(jget(fields, "steppingGranularity"@) == entries[2].1);
    }
}

pub open spec fn scopes_args_entries(v: ScopesArguments) -> Seq<(Seq<char>, Option<JsonView>)> {
    seq![("frameId"@, Some(JsonView::Num(v.frame_id)))]
}

#[verifier::opaque]
pub open spec fn scopes_args_json(v: ScopesArguments) -> JsonView {
    JsonView::Obj(obj_of(scopes_args_entries(v)))
}

#[verifier::opaque]
pub open spec fn de_scopes_args(j: JsonView) -> Option<ScopesArguments> {
    match j {
        JsonView::Obj(fields) => {
            let fid = de_u64(jget(fields, "frameId"@));
            if fid is Some {
                Some(ScopesArguments { frame_id: fid->Some_0 })
            } else {
                None
            }
        },
        _ => None,
    }
}

impl ScopesArguments {
    pub fn to_json(self) -> (j: JsonValue)
        ensures
            jview(j) == scopes_args_json(self),
    {
        proof {
            reveal(crate::codec::scopes_args_json);
        }
        let mut b = ObjBuilder::new();
        b.add("frameId", Some(JsonValue::Num(self.frame_id)));
        proof {
            assert(b.entries() =~= scopes_args_entries(self));
        }
        b.finish()
    }

    pub fn from_json(j: &JsonValue) -> (r: Option<Self>)
        ensures
            r == de_scopes_args(jview(*j)),
    {
        proof {
            reveal(crate::codec::de_scopes_args);
        }
        match j {
            JsonValue::Obj(fields) => {
                match ex_u64(obj_get(fields, "frameId")) {
                    Some(x) => Some(ScopesArguments { frame_id: x }),
                    None => None,
                }
            },
            _ => None,
        }
    }
}

pub proof fn lemma_scopes_args_codec(v: ScopesArguments)
    ensures
        scopes_args_json(v) is Obj,
        wf_json(scopes_args_json(v)),
        jdepth(scopes_args_json(v)) <= 1,
        de_scopes_args(scopes_args_json(v)) == Some(v),
{
    broadcast use vstd::string::group_string_axioms;

    reveal(crate::codec::scopes_args_json);
    reveal(crate::codec::de_scopes_args);
    let entries = scopes_args_entries(v);
    reveal_strlit("frameId");
    assert(forall|a: int, b: int|
        0 <= a < b < entries.len() ==> (#[trigger] entries[a].0) != (#[trigger] entries[b].0));
    lemma_obj_of_get(entries, 0);
    assert forall|i: int|
        0 <= i < entries.len() implies (#[trigger] entries[i].1 matches Some(x) ==> wf_json(x)
            && jdepth(x) <= 0) by {
        assert(entries[0].1 == Some(JsonView::Num(v.frame_id)));
    }
    lemma_obj_of_wf(entries);
    lemma_obj_of_depth(entries, 0);
    assert(de_u64(jget(obj_of(entries), "frameId"@)) == Some(v.frame_id)) by {
        assert(jget(obj_of(entries), "frameId"@) == entries[0].1);
    }
}

pub open spec fn variables_args_entries(v: VariablesArguments) -> Seq<
    (Seq<char>, Option<JsonView>),
> {
    seq![("variablesReference"@, Some(JsonView::Num(v.variables_reference)))]
}

#[verifier::opaque]
pub open spec fn variables_args_json(v: VariablesArguments) -> JsonView {
    JsonView::Obj(obj_of(variables_args_entries(v)))
}

#[verifier::opaque]
pub open spec fn de_variables_args(j: JsonView) -> Option<VariablesArguments> {
    match j {
        JsonView::Obj(fields) => {
            let vr = de_u64(jget(fields, "variablesReference"@));
            if vr is Some {
                Some(VariablesArguments { variables_reference: vr->Some_0 })
            } else {
                None
            }
        },
        _ => None,
    }
}

impl VariablesArguments {
    pub fn to_json(self) -> (j: JsonValue)
        ensures
            jview(j) == variables_args_json(self),
    {
        proof {
            reveal(crate::codec::variables_args_json);
        }
        let mut b = ObjBuilder::new();
        b.add("variablesReference", Some(JsonValue::Num(self.variables_reference)));
        proof {
            assert(b.entries() =~= variables_args_entries(self));
        }
        b.finish()
    }

    pub fn from_json(j: &JsonValue) -> (r: Option<Self>)
        ensures
            r == de_variables_args(jview(*j)),
    {
        proof {
            reveal(crate::codec::de_variables_args);
        }
        match j {
            JsonValue::Obj(fields) => {
                match ex_u64(obj_get(fields, "variablesReference")) {
                    Some(x) => Some(VariablesArguments { variables_reference: x }),
                    None => None,
                }
            },
            _ => None,
        }
    }
}

pub proof fn lemma_variables_args_codec(v: VariablesArguments)
    ensures
        variables_args_json(v) is Obj,
        wf_json(variables_args_json(v)),
        jdepth(variables_args_json(v)) <= 1,
        de_variables_args(variables_args_json(v)) == Some(v),
{
    broadcast use vstd::string::group_string_axioms;

    reveal(crate::codec::variables_args_json);
    reveal(crate::codec::de_variables_args);
    let entries = variables_args_entries(v);
    reveal_strlit("variablesReference");
    assert(forall|a: int, b: int|
        0 <= a < b < entries.len() ==> (#[trigger] entries[a].0) != (#[trigger] entries[b].0));
    lemma_obj_of_get(entries, 0);
    assert forall|i: int|
        0 <= i < entries.len() implies (#[trigger] entries[i].1 matches Some(x) ==> wf_json(x)
            && jdepth(x) <= 0) by {
        assert(entries[0].1 == Some(JsonView::Num(v.variables_reference)));
    }
    lemma_obj_of_wf(entries);
    lemma_obj_of_depth(entries, 0);
    assert(de_u64(jget(obj_of(entries), "variablesReference"@)) == Some(v.variables_reference))
        by {
        assert(jget(obj_of(entries), "variablesReference"@) == entries[0].1);
    }
}


// ---------------------------------------------------------------------------
// Breakpoint synchronization arguments and bodies
// ---------------------------------------------------------------------------

pub open spec fn wf_setbp_args(v: SetBreakpointsArgumentsView) -> bool {
    wf_source(v.source)
}

pub open spec fn setbp_args_entries(v: SetBreakpointsArgumentsView) -> Seq<
    (Seq<char>, Option<JsonView>),
> {
    seq![
        ("source"@, Some(source_json(v.source))),
        (
            "breakpoints"@,
            match v.breakpoints {
                Some(bs) => Some(source_bps_json(bs)),
                None => None,
            },
        ),
        ("sourceModified"@, opt_bool_json(v.source_modified)),
    ]
}

#[verifier::opaque]
pub open spec fn setbp_args_json(v: SetBreakpointsArgumentsView) -> JsonView {
    JsonView::Obj(obj_of(setbp_args_entries(v)))
}

pub open spec fn de_source_bps_fn() -> spec_fn(JsonView) -> Option<Seq<SourceBreakpointView>> {
    |jj: JsonView| de_source_bps(jj)
}

#[verifier::opaque]
pub open spec fn de_setbp_args(j: JsonView) -> Option<SetBreakpointsArgumentsView> {
    match j {
        JsonView::Obj(fields) => {
            let src = de_req(jget(fields, "source"@), de_source_fn());
            let bps = de_opt(jget(fields, "breakpoints"@), de_source_bps_fn());
            let sm = de_opt_bool(jget(fields, "sourceModified"@));
            if src is Some && bps is Some && sm is Some {
                Some(
                    SetBreakpointsArgumentsView {
                        source: src->Some_0,
                        breakpoints: bps->Some_0,
                        source_modified: sm->Some_0,
                    },
                )
            } else {
                None
            }
        },
        _ => None,
    }
}

pub open spec fn de_source_fn() -> spec_fn(JsonView) -> Option<SourceView> {
    |jj: JsonView| de_source(jj)
}

impl SetBreakpointsArguments {
    pub fn to_json(self) -> (j: JsonValue)
        ensures
            jview(j) == setbp_args_json(self@),
    {
        let ghost v = self@;
        proof {
            reveal(crate::codec::setbp_args_json);
        }
        let mut b = ObjBuilder::new();
        b.add("source", Some(self.source.to_json()));
        let bps_val = match self.breakpoints {
            Some(bs) => Some(source_bps_to_json(bs)),
            None => None,
        };
        b.add("breakpoints", bps_val);
        b.add("sourceModified", opt_bool_val(self.source_modified));
        proof {
            assert(b.entries() =~= setbp_args_entries(v));
        }
        b.finish()
    }

    pub fn from_json(j: &JsonValue) -> (r: Option<Self>)
        ensures
            ov(r) == de_setbp_args(jview(*j)),
    {
        proof {
            reveal(crate::codec::de_setbp_args);
        }
        match j {
            JsonValue::Obj(fields) => {
                let src = match obj_get(fields, "source") {
                    Some(x) => match Source::from_json(x) {
                        Some(sv) => sv,
                        None => {
                            return None;
                        },
                    },
                    None => {
                        return None;
                    },
                };
                let bps = match obj_get(fields, "breakpoints") {
                    None => None,
                    Some(JsonValue::Null) => None,
                    Some(x) => match json_to_source_bps(x) {
                        Some(bs) => Some(bs),
                        None => {
                            return None;
                        },
                    },
                };
                let sm = match ex_opt_bool(obj_get(fields, "sourceModified")) {
                    Some(x) => x,
                    None => {
                        return None;
                    },
                };
                Some(SetBreakpointsArguments { source: src, breakpoints: bps, source_modified: sm })
            },
            _ => None,
        }
    }
}

pub proof fn lemma_setbp_args_codec(v: SetBreakpointsArgumentsView)
    requires
        wf_setbp_args(v),
    ensures
        setbp_args_json(v) is Obj,
        wf_json(setbp_args_json(v)),
        jdepth(setbp_args_json(v)) <= PAYLOAD_DEPTH_LIMIT as nat + 3,
        de_setbp_args(setbp_args_json(v)) == Some(v),
{
    broadcast use vstd::string::group_string_axioms;

    reveal(crate::codec::setbp_args_json);
    reveal(crate::codec::de_setbp_args);
    let entries = setbp_args_entries(v);
    reveal_strlit("source");
    reveal_strlit("breakpoints");
    reveal_strlit("sourceModified");
    assert("source"@.len() == 6 && "breakpoints"@.len() == 11 && "sourceModified"@.len() == 14);
    assert(forall|a: int, b: int|
        0 <= a < b < entries.len() ==> (#[trigger] entries[a].0) != (#[trigger] entries[b].0));
    lemma_obj_of_get(entries, 0);
    lemma_obj_of_get(entries, 1);
    lemma_obj_of_get(entries, 2);
    lemma_source_codec(v.source);
    match v.breakpoints {
        Some(bs) => {
            lemma_source_bps_codec(bs);
        },
        None => {},
    }
    assert forall|i: int|
        0 <= i < entries.len() implies (#[trigger] entries[i].1 matches Some(x) ==> wf_json(x)
            && jdepth(x) <= PAYLOAD_DEPTH_LIMIT as nat + 2) by {
        assert(entries[0].1 == Some(source_json(v.source)));
        match v.breakpoints {
            Some(bs) => {
                assert(entries[1].1 == Some(source_bps_json(bs)));
            },
            None => {
                assert(entries[1].1 is None);
            },
        }
        assert(entries[2].1 == opt_bool_json(v.source_modified));
    }
    lemma_obj_of_wf(entries);
    lemma_obj_of_depth(entries, PAYLOAD_DEPTH_LIMIT as nat + 2);
    let fields = obj_of(entries);
    assert(de_req(jget(fields, "source"@), de_source_fn()) == Some(v.source)) by {
        assert(jget(fields, "source"@) == entries[0].1);
    }
    assert(de_opt(jget(fields, "breakpoints"@), de_source_bps_fn()) == Some(v.breakpoints)) by {
        assert(jget(fields, "breakpoints"@) == entries[1].1);
        match v.breakpoints {
            Some(bs) => {
                assert(source_bps_json(bs) is Arr);
            },
            None => {},
        }
    }
    assert(de_opt_bool(jget(fields, "sourceModified"@)) == Some(v.source_modified)) by {
        assert(jget(fields, "sourceModified"@) == entries[2].1);
    }
}

pub open spec fn scopes_body_entries(v: ScopesResponseBodyView) -> Seq<
    (Seq<char>, Option<JsonView>),
> {
    seq![("scopes"@, Some(scopes_json(v.scopes)))]
}

#[verifier::opaque]
pub open spec fn scopes_body_json(v: ScopesResponseBodyView) -> JsonView {
    JsonView::Obj(obj_of(scopes_body_entries(v)))
}

pub open spec fn de_scopes_fn() -> spec_fn(JsonView) -> Option<Seq<ScopeView>> {
    |jj: JsonView| de_scopes(jj)
}

#[verifier::opaque]
pub open spec fn de_scopes_body(j: JsonView) -> Option<ScopesResponseBodyView> {
    match j {
        JsonView::Obj(fields) => {
            let ss = de_req(jget(fields, "scopes"@), de_scopes_fn());
            if ss is Some {
                Some(ScopesResponseBodyView { scopes: ss->Some_0 })
            } else {
                None
            }
        },
        _ => None,
    }
}

pub open spec fn wf_scopes_body(v: ScopesResponseBodyView) -> bool {
    forall|i: int| 0 <= i < v.scopes.len() ==> wf_scope(#[trigger] v.scopes[i])
}

impl ScopesResponseBody {
    pub fn to_json(self) -> (j: JsonValue)
        ensures
            jview(j) == scopes_body_json(self@),
    {
        let ghost v = self@;
        proof {
            reveal(crate::codec::scopes_body_json);
        }
        let mut b = ObjBuilder::new();
        b.add("scopes", Some(scopes_to_json(self.scopes)));
        proof {
            assert(b.entries() =~= scopes_body_entries(v));
        }
        b.finish()
    }

    pub fn from_json(j: &JsonValue) -> (r: Option<Self>)
        ensures
            ov(r) == de_scopes_body(jview(*j)),
    {
        proof {
            reveal(crate::codec::de_scopes_body);
        }
        match j {
            JsonValue::Obj(fields) => {
                match obj_get(fields, "scopes") {
                    Some(x) => match json_to_scopes(x) {
                        Some(ss) => Some(ScopesResponseBody { scopes: ss }),
                        None => None,
                    },
                    None => None,
                }
            },
            _ => None,
        }
    }
}

pub proof fn lemma_scopes_body_codec(v: ScopesResponseBodyView)
    requires
        wf_scopes_body(v),
    ensures
        scopes_body_json(v) is Obj,
        wf_json(scopes_body_json(v)),
        jdepth(scopes_body_json(v)) <= PAYLOAD_DEPTH_LIMIT as nat + 4,
        de_scopes_body(scopes_body_json(v)) == Some(v),
{
    broadcast use vstd::string::group_string_axioms;

    reveal(crate::codec::scopes_body_json);
    reveal(crate::codec::de_scopes_body);
    let entries = scopes_body_entries(v);
    reveal_strlit("scopes");
    assert(forall|a: int, b: int|
        0 <= a < b < entries.len() ==> (#[trigger] entries[a].0) != (#[trigger] entries[b].0));
    lemma_obj_of_get(entries, 0);
    lemma_scopes_codec(v.scopes);
    assert forall|i: int|
        0 <= i < entries.len() implies (#[trigger] entries[i].1 matches Some(x) ==> wf_json(x)
            && jdepth(x) <= PAYLOAD_DEPTH_LIMIT as nat + 3) by {
        assert(entries[0].1 == Some(scopes_json(v.scopes)));
    }
    lemma_obj_of_wf(entries);
    lemma_obj_of_depth(entries, PAYLOAD_DEPTH_LIMIT as nat + 3);
    assert(de_req(jget(obj_of(entries), "scopes"@), de_scopes_fn()) == Some(v.scopes)) by {
        assert(jget(obj_of(entries), "scopes"@) == entries[0].1);
    }
}

pub open spec fn setbp_body_entries(v: SetBreakpointsResponseBodyView) -> Seq<
    (Seq<char>, Option<JsonView>),
> {
    seq![("breakpoints"@, Some(breakpoints_json(v.breakpoints)))]
}

#[verifier::opaque]
pub open spec fn setbp_body_json(v: SetBreakpointsResponseBodyView) -> JsonView {
    JsonView::Obj(obj_of(setbp_body_entries(v)))
}

pub open spec fn de_breakpoints_fn() -> spec_fn(JsonView) -> Option<Seq<BreakpointView>> {
    |jj: JsonView| de_breakpoints(jj)
}

#[verifier::opaque]
pub open spec fn de_setbp_body(j: JsonView) -> Option<SetBreakpointsResponseBodyView> {
    match j {
        JsonView::Obj(fields) => {
            let bs = de_req(jget(fields, "breakpoints"@), de_breakpoints_fn());
            if bs is Some {
                Some(SetBreakpointsResponseBodyView { breakpoints: bs->Some_0 })
            } else {
                None
            }
        },
        _ => None,
    }
}

pub open spec fn wf_setbp_body(v: SetBreakpointsResponseBodyView) -> bool {
    forall|i: int| 0 <= i < v.breakpoints.len() ==> wf_breakpoint(#[trigger] v.breakpoints[i])
}

impl SetBreakpointsResponseBody {
    pub fn to_json(self) -> (j: JsonValue)
        ensures
            jview(j) == setbp_body_json(self@),
    {
        let ghost v = self@;
        proof {
            reveal(crate::codec::setbp_body_json);
        }
        let mut b = ObjBuilder::new();
        b.add("breakpoints", Some(breakpoints_to_json(self.breakpoints)));
        proof {
            assert(b.entries() =~= setbp_body_entries(v));
        }
        b.finish()
    }

    pub fn from_json(j: &JsonValue) -> (r: Option<Self>)
        ensures
            ov(r) == de_setbp_body(jview(*j)),
    {
        proof {
            reveal(crate::codec::de_setbp_body);
        }
        match j {
            JsonValue::Obj(fields) => {
                match obj_get(fields, "breakpoints") {
                    Some(x) => match json_to_breakpoints(x) {
                        Some(bs) => Some(SetBreakpointsResponseBody { breakpoints: bs }),
                        None => None,
                    },
                    None => None,
                }
            },
            _ => None,
        }
    }
}

pub proof fn lemma_setbp_body_codec(v: SetBreakpointsResponseBodyView)
    requires
        wf_setbp_body(v),
    ensures
        setbp_body_json(v) is Obj,
        wf_json(setbp_body_json(v)),
        jdepth(setbp_body_json(v)) <= PAYLOAD_DEPTH_LIMIT as nat + 4,
        de_setbp_body(setbp_body_json(v)) == Some(v),
{
    broadcast use vstd::string::group_string_axioms;

    reveal(crate::codec::setbp_body_json);
    reveal(crate::codec::de_setbp_body);
    let entries = setbp_body_entries(v);
    reveal_strlit("breakpoints");
    assert(forall|a: int, b: int|
        0 <= a < b < entries.len() ==> (#[trigger] entries[a].0) != (#[trigger] entries[b].0));
    lemma_obj_of_get(entries, 0);
    lemma_breakpoints_codec(v.breakpoints);
    assert forall|i: int|
        0 <= i < entries.len() implies (#[trigger] entries[i].1 matches Some(x) ==> wf_json(x)
            && jdepth(x) <= PAYLOAD_DEPTH_LIMIT as nat + 3) by {
        assert(entries[0].1 == Some(breakpoints_json(v.breakpoints)));
    }
    lemma_obj_of_wf(entries);
    lemma_obj_of_depth(entries, PAYLOAD_DEPTH_LIMIT as nat + 3);
    assert(de_req(jget(obj_of(entries), "breakpoints"@), de_breakpoints_fn()) == Some(
        v.breakpoints,
    )) by {
        assert(jget(obj_of(entries), "breakpoints"@) == entries[0].1);
    }
}

pub open spec fn variables_body_entries(v: VariablesResponseBodyView) -> Seq<
    (Seq<char>, Option<JsonView>),
> {
    seq![("variables"@, Some(variables_json(v.variables)))]
}

#[verifier::opaque]
pub open spec fn variables_body_json(v: VariablesResponseBodyView) -> JsonView {
    JsonView::Obj(obj_of(variables_body_entries(v)))
}

pub open spec fn de_variables_fn() -> spec_fn(JsonView) -> Option<Seq<VariableView>> {
    |jj: JsonView| de_variables(jj)
}

#[verifier::opaque]
pub open spec fn de_variables_body(j: JsonView) -> Option<VariablesResponseBodyView> {
    match j {
        JsonView::Obj(fields) => {
            let vs = de_req(jget(fields, "variables"@), de_variables_fn());
            if vs is Some {
                Some(VariablesResponseBodyView { variables: vs->Some_0 })
            } else {
                None
            }
        },
        _ => None,
    }
}

impl VariablesResponseBody {
    pub fn to_json(self) -> (j: JsonValue)
        ensures
            jview(j) == variables_body_json(self@),
    {
        let ghost v = self@;
        proof {
            reveal(crate::codec::variables_body_json);
        }
        let mut b = ObjBuilder::new();
        b.add("variables", Some(variables_to_json(self.variables)));
        proof {
            assert(b.entries() =~= variables_body_entries(v));
        }
        b.finish()
    }

    pub fn from_json(j: &JsonValue) -> (r: Option<Self>)
        ensures
            ov(r) == de_variables_body(jview(*j)),
    {
        proof {
            reveal(crate::codec::de_variables_body);
        }
        match j {
            JsonValue::Obj(fields) => {
                match obj_get(fields, "variables") {
                    Some(x) => match json_to_variables(x) {
                        Some(vs) => Some(VariablesResponseBody { variables: vs }),
                        None => None,
                    },
                    None => None,
                }
            },
            _ => None,
        }
    }
}

pub proof fn lemma_variables_body_codec(v: VariablesResponseBodyView)
    ensures
        variables_body_json(v) is Obj,
        wf_json(variables_body_json(v)),
        jdepth(variables_body_json(v)) <= 3,
        de_variables_body(variables_body_json(v)) == Some(v),
{
    broadcast use vstd::string::group_string_axioms;

    reveal(crate::codec::variables_body_json);
    reveal(crate::codec::de_variables_body);
    let entries = variables_body_entries(v);
    reveal_strlit("variables");
    assert(forall|a: int, b: int|
        0 <= a < b < entries.len() ==> (#[trigger] entries[a].0) != (#[trigger] entries[b].0));
    lemma_obj_of_get(entries, 0);
    lemma_variables_codec(v.variables);
    assert forall|i: int|
        0 <= i < entries.len() implies (#[trigger] entries[i].1 matches Some(x) ==> wf_json(x)
            && jdepth(x) <= 2) by {
        assert(entries[0].1 == Some(variables_json(v.variables)));
    }
    lemma_obj_of_wf(entries);
    lemma_obj_of_depth(entries, 2);
    assert(de_req(jget(obj_of(entries), "variables"@), de_variables_fn()) == Some(v.variables))
        by {
        assert(jget(obj_of(entries), "variables"@) == entries[0].1);
    }
}

// ---------------------------------------------------------------------------
// Event bodies
// ---------------------------------------------------------------------------

pub open spec fn output_event_entries(v: OutputEventView) -> Seq<(Seq<char>, Option<JsonView>)> {
    seq![
        (
            "category"@,
            match v.category {
                Some(c) => Some(JsonView::Str(category_name(c))),
                None => None,
            },
        ),
        ("output"@, Some(JsonView::Str(v.output))),
    ]
}

#[verifier::opaque]
pub open spec fn output_event_json(v: OutputEventView) -> JsonView {
    JsonView::Obj(obj_of(output_event_entries(v)))
}

pub open spec fn de_category_fn() -> spec_fn(JsonView) -> Option<OutputEventCategory> {
    |jj: JsonView| de_category(jj)
}

#[verifier::opaque]
pub open spec fn de_output_event(j: JsonView) -> Option<OutputEventView> {
    match j {
        JsonView::Obj(fields) => {
            let cat = de_opt(jget(fields, "category"@), de_category_fn());
            let output = de_text(jget(fields, "output"@));
            if cat is Some && output is Some {
                Some(OutputEventView { category: cat->Some_0, output: output->Some_0 })
            } else {
                None
            }
        },
        _ => None,
    }
}

impl OutputEvent {
    pub fn to_json(self) -> (j: JsonValue)
        ensures
            jview(j) == output_event_json(self@),
    {
        let ghost v = self@;
        proof {
            reveal(crate::codec::output_event_json);
        }
        let mut b = ObjBuilder::new();
        let cat_val = match self.category {
            Some(c) => Some(c.to_json()),
            None => None,
        };
        b.add("category", cat_val);
        b.add("output", Some(JsonValue::Str(self.output)));
        proof {
            assert(b.entries() =~= output_event_entries(v));
        }
        b.finish()
    }

    pub fn from_json(j: &JsonValue) -> (r: Option<Self>)
        ensures
            ov(r) == de_output_event(jview(*j)),
    {
        proof {
            reveal(crate::codec::de_output_event);
        }
        match j {
            JsonValue::Obj(fields) => {
                let cat = match obj_get(fields, "category") {
                    None => None,
                    Some(JsonValue::Null) => None,
                    Some(x) => match OutputEventCategory::from_json(x) {
                        Some(c) => Some(c),
                        None => {
                            return None;
                        },
                    },
                };
                let output = match ex_text(obj_get(fields, "output")) {
                    Some(x) => x,
                    None => {
                        return None;
                    },
                };
                Some(OutputEvent { category: cat, output })
            },
            _ => None,
        }
    }
}

pub proof fn lemma_output_event_codec(v: OutputEventView)
    ensures
        output_event_json(v) is Obj,
        wf_json(output_event_json(v)),
        jdepth(output_event_json(v)) <= 1,
        de_output_event(output_event_json(v)) == Some(v),
{
    broadcast use vstd::string::group_string_axioms;

    reveal(crate::codec::output_event_json);
    reveal(crate::codec::de_output_event);
    let entries = output_event_entries(v);
    reveal_strlit("category");
    reveal_strlit("output");
    assert("category"@.len() == 8 && "output"@.len() == 6);
    assert(forall|a: int, b: int|
        0 <= a < b < entries.len() ==> (#[trigger] entries[a].0) != (#[trigger] entries[b].0));
    lemma_obj_of_get(entries, 0);
    lemma_obj_of_get(entries, 1);
    match v.category {
        Some(c) => {
            lemma_rt_category(c);
        },
        None => {},
    }
    assert forall|i: int|
        0 <= i < entries.len() implies (#[trigger] entries[i].1 matches Some(x) ==> wf_json(x)
            && jdepth(x) <= 0) by {
        match v.category {
            Some(c) => {
                assert(entries[0].1 == Some(JsonView::Str(category_name(c))));
            },
            None => {
                assert(entries[0].1 is None);
            },
        }
        assert(entries[1].1 == Some(JsonView::Str(v.output)));
    }
    lemma_obj_of_wf(entries);
    lemma_obj_of_depth(entries, 0);
    let fields = obj_of(entries);
    assert(de_opt(jget(fields, "category"@), de_category_fn()) == Some(v.category)) by {
        assert(jget(fields, "category"@) == entries[0].1);
    }
    assert(de_text(jget(fields, "output"@)) == Some(v.output)) by {
        assert(jget(fields, "output"@) == entries[1].1);
    }
}

pub open spec fn stopped_event_entries(v: StoppedEventView) -> Seq<(Seq<char>, Option<JsonView>)> {
    seq![
        ("reason"@, Some(JsonView::Str(stopped_reason_name(v.reason)))),
        ("description"@, opt_text_json(v.description)),
        ("threadId"@, opt_u64_json(v.thread_id)),
        ("preserveFocusHint"@, opt_bool_json(v.preserve_focus_hint)),
        ("text"@, opt_text_json(v.text)),
        ("allThreadsStopped"@, opt_bool_json(v.all_threads_stopped)),
        (
            "hitBreakpointIds"@,
            match v.hit_breakpoint_ids {
                Some(ids) => Some(ids_json(ids)),
                None => None,
            },
        ),
    ]
}

#[verifier::opaque]
pub open spec fn stopped_event_json(v: StoppedEventView) -> JsonView {
    JsonView::Obj(obj_of(stopped_event_entries(v)))
}

pub open spec fn de_ids_fn() -> spec_fn(JsonView) -> Option<Seq<u64>> {
    |jj: JsonView| de_ids(jj)
}

pub open spec fn de_stopped_reason_fn() -> spec_fn(JsonView) -> Option<StoppedEventReason> {
    |jj: JsonView| de_stopped_reason(jj)
}

#[verifier::opaque]
pub open spec fn de_stopped_event(j: JsonView) -> Option<StoppedEventView> {
    match j {
        JsonView::Obj(fields) => {
            let reason = de_req(jget(fields, "reason"@), de_stopped_reason_fn());
            let descr = de_opt_text(jget(fields, "description"@));
            let tid = de_opt_u64(jget(fields, "threadId"@));
            let pfh = de_opt_bool(jget(fields, "preserveFocusHint"@));
            let text = de_opt_text(jget(fields, "text"@));
            let ats = de_opt_bool(jget(fields, "allThreadsStopped"@));
            let ids = de_opt(jget(fields, "hitBreakpointIds"@), de_ids_fn());
            if reason is Some && descr is Some && tid is Some && pfh is Some && text is Some
                && ats is Some && ids is Some {
                Some(
                    StoppedEventView {
                        reason: reason->Some_0,
                        description: descr->Some_0,
                        thread_id: tid->Some_0,
                        preserve_focus_hint: pfh->Some_0,
                        text: text->Some_0,
                        all_threads_stopped: ats->Some_0,
                        hit_breakpoint_ids: ids->Some_0,
                    },
                )
            } else {
                None
            }
        },
        _ => None,
    }
}

impl StoppedEvent {
    pub fn to_json(self) -> (j: JsonValue)
        ensures
            jview(j) == stopped_event_json(self@),
    {
        let ghost v = self@;
        proof {
            reveal(crate::codec::stopped_event_json);
        }
        let mut b = ObjBuilder::new();
        b.add("reason", Some(self.reason.to_json()));
        b.add("description", opt_text_val(self.description));
        b.add("threadId", opt_num_val(self.thread_id));
        b.add("preserveFocusHint", opt_bool_val(self.preserve_focus_hint));
        b.add("text", opt_text_val(self.text));
        b.add("allThreadsStopped", opt_bool_val(self.all_threads_stopped));
        let ids_val = match &self.hit_breakpoint_ids {
            Some(ids) => Some(ids_to_json(ids)),
            None => None,
        };
        b.add("hitBreakpointIds", ids_val);
        proof {
            assert(b.entries() =~= stopped_event_entries(v));
        }
        b.finish()
    }

    pub fn from_json(j: &JsonValue) -> (r: Option<Self>)
        ensures
            ov(r) == de_stopped_event(jview(*j)),
    {
        proof {
            reveal(crate::codec::de_stopped_event);
        }
        match j {
            JsonValue::Obj(fields) => {
                let reason = match obj_get(fields, "reason") {
                    Some(x) => match StoppedEventReason::from_json(x) {
                        Some(rr) => rr,
                        None => {
                            return None;
                        },
                    },
                    None => {
                        return None;
                    },
                };
                let descr = match ex_opt_text(obj_get(fields, "description")) {
                    Some(x) => x,
                    None => {
                        return None;
                    },
                };
                let tid = match ex_opt_u64(obj_get(fields, "threadId")) {
                    Some(x) => x,
                    None => {
                        return None;
                    },
                };
                let pfh = match ex_opt_bool(obj_get(fields, "preserveFocusHint")) {
                    Some(x) => x,
                    None => {
                        return None;
                    },
                };
                let text = match ex_opt_text(obj_get(fields, "text")) {
                    Some(x) => x,
                    None => {
                        return None;
                    },
                };
                let ats = match ex_opt_bool(obj_get(fields, "allThreadsStopped")) {
                    Some(x) => x,
                    None => {
                        return None;
                    },
                };
                let ids = match obj_get(fields, "hitBreakpointIds") {
                    None => None,
                    Some(JsonValue::Null) => None,
                    Some(x) => match json_to_ids(x) {
                        Some(v2) => Some(v2),
                        None => {
                            return None;
                        },
                    },
                };
                Some(
                    StoppedEvent {
                        reason,
                        description: descr,
                        thread_id: tid,
                        preserve_focus_hint: pfh,
                        text,
                        all_threads_stopped: ats,
                        hit_breakpoint_ids: ids,
                    },
                )
            },
            _ => None,
        }
    }
}

pub proof fn lemma_stopped_event_codec(v: StoppedEventView)
    ensures
        stopped_event_json(v) is Obj,
        wf_json(stopped_event_json(v)),
        jdepth(stopped_event_json(v)) <= 2,
        de_stopped_event(stopped_event_json(v)) == Some(v),
{
    broadcast use vstd::string::group_string_axioms;

    reveal(crate::codec::stopped_event_json);
    reveal(crate::codec::de_stopped_event);
    let entries = stopped_event_entries(v);
    reveal_strlit("reason");
    reveal_strlit("description");
    reveal_strlit("threadId");
    reveal_strlit("preserveFocusHint");
    reveal_strlit("text");
    reveal_strlit("allThreadsStopped");
    reveal_strlit("hitBreakpointIds");
    assert("reason"@.len() == 6 && "description"@.len() == 11 && "threadId"@.len() == 8
        && "preserveFocusHint"@.len() == 17 && "text"@.len() == 4 && "allThreadsStopped"@.len()
        == 17 && "hitBreakpointIds"@.len() == 16);
    assert("preserveFocusHint"@[0] == 'p' && "allThreadsStopped"@[0] == 'a');
    assert(forall|a: int, b: int|
        0 <= a < b < entries.len() ==> (#[trigger] entries[a].0) != (#[trigger] entries[b].0));
    lemma_obj_of_get(entries, 0);
    lemma_obj_of_get(entries, 1);
    lemma_obj_of_get(entries, 2);
    lemma_obj_of_get(entries, 3);
    lemma_obj_of_get(entries, 4);
    lemma_obj_of_get(entries, 5);
    lemma_obj_of_get(entries, 6);
    lemma_rt_stopped_reason(v.reason);
    match v.hit_breakpoint_ids {
        Some(ids) => {
            lemma_ids_codec(ids);
        },
        None => {},
    }
    assert forall|i: int|
        0 <= i < entries.len() implies (#[trigger] entries[i].1 matches Some(x) ==> wf_json(x)
            && jdepth(x) <= 1) by {
        assert(entries[0].1 == Some(JsonView::Str(stopped_reason_name(v.reason))));
        assert(entries[1].1 == opt_text_json(v.description));
        assert(entries[2].1 == opt_u64_json(v.thread_id));
        assert(entries[3].1 == opt_bool_json(v.preserve_focus_hint));
        assert(entries[4].1 == opt_text_json(v.text));
        assert(entries[5].1 == opt_bool_json(v.all_threads_stopped));
        match v.hit_breakpoint_ids {
            Some(ids) => {
                assert(entries[6].1 == Some(ids_json(ids)));
            },
            None => {
                assert(entries[6].1 is None);
            },
        }
    }
    lemma_obj_of_wf(entries);
    lemma_obj_of_depth(entries, 1);
    let fields = obj_of(entries);
    assert(de_req(jget(fields, "reason"@), de_stopped_reason_fn()) == Some(v.reason)) by {
        assert(jget(fields, "reason"@) == entries[0].1);
    }
    assert(de_opt_text(jget(fields, "description"@)) == Some(v.description)) by {
        assert(jget(fields, "description"@) == entries[1].1);
    }
    assert(de_opt_u64(jget(fields, "threadId"@)) == Some(v.thread_id)) by {
        assert(jget(fields, "threadId"@) == entries[2].1);
    }
    assert(de_opt_bool(jget(fields, "preserveFocusHint"@)) == Some(v.preserve_focus_hint)) by {
        assert(jget(fields, "preserveFocusHint"@) == entries[3].1);
    }
    assert(de_opt_text(jget(fields, "text"@)) == Some(v.text)) by {
        assert(jget(fields, "text"@) == entries[4].1);
    }
    assert(de_opt_bool(jget(fields, "allThreadsStopped"@)) == Some(v.all_threads_stopped)) by {
        assert(jget(fields, "allThreadsStopped"@) == entries[5].1);
    }
    assert(de_opt(jget(fields, "hitBreakpointIds"@), de_ids_fn()) == Some(v.hit_breakpoint_ids))
        by {
        assert(jget(fields, "hitBreakpointIds"@) == entries[6].1);
        match v.hit_breakpoint_ids {
            Some(ids) => {
                assert(ids_json(ids) is Arr);
            },
            None => {},
        }
    }
}

pub open spec fn bp_event_entries(v: BreakpointEventView) -> Seq<(Seq<char>, Option<JsonView>)> {
    seq![
        ("reason"@, Some(JsonView::Str(bp_reason_name(v.reason)))),
        ("breakpoint"@, Some(breakpoint_json(v.breakpoint))),
    ]
}

#[verifier::opaque]
pub open spec fn bp_event_json(v: BreakpointEventView) -> JsonView {
    JsonView::Obj(obj_of(bp_event_entries(v)))
}

pub open spec fn de_bp_reason_fn() -> spec_fn(JsonView) -> Option<BreakpointEventReason> {
    |jj: JsonView| de_bp_reason(jj)
}

#[verifier::opaque]
pub open spec fn de_bp_event(j: JsonView) -> Option<BreakpointEventView> {
    match j {
        JsonView::Obj(fields) => {
            let reason = de_req(jget(fields, "reason"@), de_bp_reason_fn());
            let bp = de_req(jget(fields, "breakpoint"@), de_breakpoint_fn());
            if reason is Some && bp is Some {
                Some(BreakpointEventView { reason: reason->Some_0, breakpoint: bp->Some_0 })
            } else {
                None
            }
        },
        _ => None,
    }
}

pub open spec fn wf_bp_event(v: BreakpointEventView) -> bool {
    wf_breakpoint(v.breakpoint)
}

impl BreakpointEvent {
    pub fn to_json(self) -> (j: JsonValue)
        ensures
            jview(j) == bp_event_json(self@),
    {
        let ghost v = self@;
        proof {
            reveal(crate::codec::bp_event_json);
        }
        let mut b = ObjBuilder::new();
        b.add("reason", Some(self.reason.to_json()));
        b.add("breakpoint", Some(self.breakpoint.to_json()));
        proof {
            assert(b.entries() =~= bp_event_entries(v));
        }
        b.finish()
    }

    pub fn from_json(j: &JsonValue) -> (r: Option<Self>)
        ensures
            ov(r) == de_bp_event(jview(*j)),
    {
        proof {
            reveal(crate::codec::de_bp_event);
        }
        match j {
            JsonValue::Obj(fields) => {
                let reason = match obj_get(fields, "reason") {
                    Some(x) => match BreakpointEventReason::from_json(x) {
                        Some(rr) => rr,
                        None => {
                            return None;
                        },
                    },
                    None => {
                        return None;
                    },
                };
                let bp = match obj_get(fields, "breakpoint") {
                    Some(x) => match Breakpoint::from_json(x) {
                        Some(b2) => b2,
                        None => {
                            return None;
                        },
                    },
                    None => {
                        return None;
                    },
                };
                Some(BreakpointEvent { reason, breakpoint: bp })
            },
            _ => None,
        }
    }
}

pub proof fn lemma_bp_event_codec(v: BreakpointEventView)
    requires
        wf_bp_event(v),
    ensures
        bp_event_json(v) is Obj,
        wf_json(bp_event_json(v)),
        jdepth(bp_event_json(v)) <= PAYLOAD_DEPTH_LIMIT as nat + 3,
        de_bp_event(bp_event_json(v)) == Some(v),
{
    broadcast use vstd::string::group_string_axioms;

    reveal(crate::codec::bp_event_json);
    reveal(crate::codec::de_bp_event);
    let entries = bp_event_entries(v);
    reveal_strlit("reason");
    reveal_strlit("breakpoint");
    assert("reason"@.len() == 6 && "breakpoint"@.len() == 10);
    assert(forall|a: int, b: int|
        0 <= a < b < entries.len() ==> (#[trigger] entries[a].0) != (#[trigger] entries[b].0));
    lemma_obj_of_get(entries, 0);
    lemma_obj_of_get(entries, 1);
    lemma_rt_bp_reason(v.reason);
    lemma_breakpoint_codec(v.breakpoint);
    assert forall|i: int|
        0 <= i < entries.len() implies (#[trigger] entries[i].1 matches Some(x) ==> wf_json(x)
            && jdepth(x) <= PAYLOAD_DEPTH_LIMIT as nat + 2) by {
        assert(entries[0].1 == Some(JsonView::Str(bp_reason_name(v.reason))));
        assert(entries[1].1 == Some(breakpoint_json(v.breakpoint)));
    }
    lemma_obj_of_wf(entries);
    lemma_obj_of_depth(entries, PAYLOAD_DEPTH_LIMIT as nat + 2);
    let fields = obj_of(entries);
    assert(de_req(jget(fields, "reason"@), de_bp_reason_fn()) == Some(v.reason)) by {
        assert(jget(fields, "reason"@) == entries[0].1);
    }
    assert(de_req(jget(fields, "breakpoint"@), de_breakpoint_fn()) == Some(v.breakpoint)) by {
        assert(jget(fields, "breakpoint"@) == entries[1].1);
    }
}


// ---------------------------------------------------------------------------
// Whole messages
// ---------------------------------------------------------------------------

pub open spec fn de_any_fn() -> spec_fn(JsonView) -> Option<JsonView> {
    |jj: JsonView| Some(jj)
}

pub open spec fn de_cancel_args_fn() -> spec_fn(JsonView) -> Option<CancelArgumentsView> {
    |jj: JsonView| de_cancel_args(jj)
}

pub open spec fn de_capabilities_fn() -> spec_fn(JsonView) -> Option<Capabilities> {
    |jj: JsonView| de_capabilities(jj)
}

/// The fields of a request, after the top-level tag.
pub open spec fn req_entries(v: RequestMessageView) -> Seq<(Seq<char>, Option<JsonView>)> {
    match v {
        RequestMessageView::Cancel { seq, arguments } => seq![
            ("command"@, Some(JsonView::Str("cancel"@))),
            ("seq"@, Some(JsonView::Num(seq))),
            (
                "arguments"@,
                match arguments {
                    Some(a) => Some(cancel_args_json(a)),
                    None => None,
                },
            ),
        ],
        RequestMessageView::Initialize { seq, arguments } => seq![
            ("command"@, Some(JsonView::Str("initialize"@))),
            ("seq"@, Some(JsonView::Num(seq))),
            ("arguments"@, Some(init_args_json(arguments))),
        ],
        RequestMessageView::Attach { seq, arguments } => seq![
            ("command"@, Some(JsonView::Str("attach"@))),
            ("seq"@, Some(JsonView::Num(seq))),
            ("arguments"@, Some(arguments)),
        ],
        RequestMessageView::ConfigurationDone { seq, arguments } => seq![
            ("command"@, Some(JsonView::Str("configurationDone"@))),
            ("seq"@, Some(JsonView::Num(seq))),
            ("arguments"@, arguments),
        ],
        RequestMessageView::Launch { seq, arguments } => seq![
            ("command"@, Some(JsonView::Str("launch"@))),
            ("seq"@, Some(JsonView::Num(seq))),
            ("arguments"@, Some(arguments)),
        ],
        RequestMessageView::Next { seq, arguments } => seq![
            ("command"@, Some(JsonView::Str("next"@))),
            ("seq"@, Some(JsonView::Num(seq))),
            ("arguments"@, Some(next_args_json(arguments))),
        ],
        RequestMessageView::Scopes { seq, arguments } => seq![
            ("command"@, Some(JsonView::Str("scopes"@))),
            ("seq"@, Some(JsonView::Num(seq))),
            ("arguments"@, Some(scopes_args_json(arguments))),
        ],
        RequestMessageView::SetBreakpoints { seq, arguments } => seq![
            ("command"@, Some(JsonView::Str("setBreakpoints"@))),
            ("seq"@, Some(JsonView::Num(seq))),
            ("arguments"@, Some(setbp_args_json(arguments))),
        ],
        RequestMessageView::Variables { seq, arguments } => seq![
            ("command"@, Some(JsonView::Str("variables"@))),
            ("seq"@, Some(JsonView::Num(seq))),
            ("arguments"@, Some(variables_args_json(arguments))),
        ],
        RequestMessageView::Unknown => seq![("command"@, Some(JsonView::Str("Unknown"@)))],
    }
}

/// The fields of a response, after the top-level tag.
pub open spec fn resp_entries(v: ResponseMessageView) -> Seq<(Seq<char>, Option<JsonView>)> {
    match v {
        ResponseMessageView::Cancelled => seq![("command"@, Some(JsonView::Str("cancelled"@)))],
        ResponseMessageView::Initialize { seq, request_seq, success, body } => seq![
            ("command"@, Some(JsonView::Str("initialize"@))),
            ("seq"@, Some(JsonView::Num(seq))),
            ("request_seq"@, Some(JsonView::Num(request_seq))),
            ("success"@, Some(JsonView::Bool(success))),
            (
                "body"@,
                match body {
                    Some(c) => Some(capabilities_json(c)),
                    None => None,
                },
            ),
        ],
        ResponseMessageView::NotStopped => seq![("command"@, Some(JsonView::Str("notStopped"@)))],
        ResponseMessageView::Scopes { seq, request_req, success, body } => seq![
            ("command"@, Some(JsonView::Str("scopes"@))),
            ("seq"@, Some(JsonView::Num(seq))),
            ("request_req"@, Some(JsonView::Num(request_req))),
            ("success"@, Some(JsonView::Bool(success))),
            ("body"@, Some(scopes_body_json(body))),
        ],
        ResponseMessageView::Variables { seq, request_req, success, body } => seq![
            ("command"@, Some(JsonView::Str("variables"@))),
            ("seq"@, Some(JsonView::Num(seq))),
            ("request_req"@, Some(JsonView::Num(request_req))),
            ("success"@, Some(JsonView::Bool(success))),
            ("body"@, Some(variables_body_json(body))),
        ],
        ResponseMessageView::SetBreakpoints { seq, request_seq, success, body } => seq![
            ("command"@, Some(JsonView::Str("setBreakpoints"@))),
            ("seq"@, Some(JsonView::Num(seq))),
            ("request_seq"@, Some(JsonView::Num(request_seq))),
            ("success"@, Some(JsonView::Bool(success))),
            ("body"@, Some(setbp_body_json(body))),
        ],
        ResponseMessageView::Unknown => seq![("command"@, Some(JsonView::Str("Unknown"@)))],
    }
}

/// The fields of an event, after the top-level tag.
pub open spec fn event_entries(v: DapEventView) -> Seq<(Seq<char>, Option<JsonView>)> {
    match v {
        DapEventView::Breakpoint { seq, body } => seq![
            ("event"@, Some(JsonView::Str("breakpoint"@))),
            ("seq"@, Some(JsonView::Num(seq))),
            ("body"@, Some(bp_event_json(body))),
        ],
        DapEventView::Output { seq, body } => seq![
            ("event"@, Some(JsonView::Str("output"@))),
            ("seq"@, Some(JsonView::Num(seq))),
            ("body"@, Some(output_event_json(body))),
        ],
        DapEventView::Stopped { seq, body } => seq![
            ("event"@, Some(JsonView::Str("stopped"@))),
            ("seq"@, Some(JsonView::Num(seq))),
            ("body"@, Some(stopped_event_json(body))),
        ],
        DapEventView::Terminated { seq } => seq![
            ("event"@, Some(JsonView::Str("terminated"@))),
            ("seq"@, Some(JsonView::Num(seq))),
        ],
        DapEventView::Unknown => seq![("event"@, Some(JsonView::Str("Unknown"@)))],
    }
}

pub open spec fn msg_entries(m: ProtocolMessageView) -> Seq<(Seq<char>, Option<JsonView>)> {
    match m {
        ProtocolMessageView::Request(r) => seq![("type"@, Some(JsonView::Str("request"@)))]
            + req_entries(r),
        ProtocolMessageView::Response(r) => seq![("type"@, Some(JsonView::Str("response"@)))]
            + resp_entries(r),
        ProtocolMessageView::Event(e) => seq![("type"@, Some(JsonView::Str("event"@)))]
            + event_entries(e),
        ProtocolMessageView::Unknown => seq![("type"@, Some(JsonView::Str("Unknown"@)))],
    }
}

/// The one JSON object a message is carried as on the wire.
#[verifier::opaque]
pub open spec fn msg_json(m: ProtocolMessageView) -> JsonView {
    JsonView::Obj(obj_of(msg_entries(m)))
}

pub open spec fn de_req_fields(fields: Seq<(Seq<char>, JsonView)>) -> Option<RequestMessageView> {
    match de_text(jget(fields, "command"@)) {
        Some(c) => {
            if c == "cancel"@ {
                let seq = de_u64(jget(fields, "seq"@));
                let args = de_opt(jget(fields, "arguments"@), de_cancel_args_fn());
                if seq is Some && args is Some {
                    Some(RequestMessageView::Cancel { seq: seq->Some_0, arguments: args->Some_0 })
                } else {
                    None
                }
            } else if c == "initialize"@ {
                let seq = de_u64(jget(fields, "seq"@));
                let args = de_req(jget(fields, "arguments"@), de_init_args_fn());
                if seq is Some && args is Some {
                    Some(
                        RequestMessageView::Initialize {
                            seq: seq->Some_0,
                            arguments: args->Some_0,
                        },
                    )
                } else {
                    None
                }
            } else if c == "attach"@ {
                let seq = de_u64(jget(fields, "seq"@));
                let args = de_req(jget(fields, "arguments"@), de_any_fn());
                if seq is Some && args is Some {
                    Some(RequestMessageView::Attach { seq: seq->Some_0, arguments: args->Some_0 })
                } else {
                    None
                }
            } else if c == "configurationDone"@ {
                let seq = de_u64(jget(fields, "seq"@));
                let args = de_opt(jget(fields, "arguments"@), de_any_fn());
                if seq is Some && args is Some {
                    Some(
                        RequestMessageView::ConfigurationDone {
                            seq: seq->Some_0,
                            arguments: args->Some_0,
                        },
                    )
                } else {
                    None
                }
            } else if c == "launch"@ {
                let seq = de_u64(jget(fields, "seq"@));
                let args = de_req(jget(fields, "arguments"@), de_any_fn());
                if seq is Some && args is Some {
                    Some(RequestMessageView::Launch { seq: seq->Some_0, arguments: args->Some_0 })
                } else {
                    None
                }
            } else if c == "next"@ {
                let seq = de_u64(jget(fields, "seq"@));
                let args = de_req(jget(fields, "arguments"@), de_next_args_fn());
                if seq is Some && args is Some {
                    Some(RequestMessageView::Next { seq: seq->Some_0, arguments: args->Some_0 })
                } else {
                    None
                }
            } else if c == "scopes"@ {
                let seq = de_u64(jget(fields, "seq"@));
                let args = de_req(jget(fields, "arguments"@), de_scopes_args_fn());
                if seq is Some && args is Some {
                    Some(RequestMessageView::Scopes { seq: seq->Some_0, arguments: args->Some_0 })
                } else {
                    None
                }
            } else if c == "setBreakpoints"@ {
                let seq = de_u64(jget(fields, "seq"@));
                let args = de_req(jget(fields, "arguments"@), de_setbp_args_fn());
                if seq is Some && args is Some {
                    Some(
                        RequestMessageView::SetBreakpoints {
                            seq: seq->Some_0,
                            arguments: args->Some_0,
                        },
                    )
                } else {
                    None
                }
            } else if c == "variables"@ {
                let seq = de_u64(jget(fields, "seq"@));
                let args = de_req(jget(fields, "arguments"@), de_variables_args_fn());
                if seq is Some && args is Some {
                    Some(
                        RequestMessageView::Variables {
                            seq: seq->Some_0,
                            arguments: args->Some_0,
                        },
                    )
                } else {
                    None
                }
            } else {
                Some(RequestMessageView::Unknown)
            }
        },
        None => None,
    }
}

pub open spec fn de_init_args_fn() -> spec_fn(JsonView) -> Option<InitializeArgumentsView> {
    |jj: JsonView| de_init_args(jj)
}

pub open spec fn de_next_args_fn() -> spec_fn(JsonView) -> Option<NextArguments> {
    |jj: JsonView| de_next_args(jj)
}

pub open spec fn de_scopes_args_fn() -> spec_fn(JsonView) -> Option<ScopesArguments> {
    |jj: JsonView| de_scopes_args(jj)
}

pub open spec fn de_setbp_args_fn() -> spec_fn(JsonView) -> Option<SetBreakpointsArgumentsView> {
    |jj: JsonView| de_setbp_args(jj)
}

pub open spec fn de_variables_args_fn() -> spec_fn(JsonView) -> Option<VariablesArguments> {
    |jj: JsonView| de_variables_args(jj)
}

pub open spec fn de_scopes_body_fn() -> spec_fn(JsonView) -> Option<ScopesResponseBodyView> {
    |jj: JsonView| de_scopes_body(jj)
}

pub open spec fn de_setbp_body_fn() -> spec_fn(JsonView) -> Option<SetBreakpointsResponseBodyView> {
    |jj: JsonView| de_setbp_body(jj)
}

pub open spec fn de_variables_body_fn() -> spec_fn(JsonView) -> Option<VariablesResponseBodyView> {
    |jj: JsonView| de_variables_body(jj)
}

pub open spec fn de_output_event_fn() -> spec_fn(JsonView) -> Option<OutputEventView> {
    |jj: JsonView| de_output_event(jj)
}

pub open spec fn de_stopped_event_fn() -> spec_fn(JsonView) -> Option<StoppedEventView> {
    |jj: JsonView| de_stopped_event(jj)
}

pub open spec fn de_bp_event_fn() -> spec_fn(JsonView) -> Option<BreakpointEventView> {
    |jj: JsonView| de_bp_event(jj)
}

pub open spec fn de_resp_fields(fields: Seq<(Seq<char>, JsonView)>) -> Option<
    ResponseMessageView,
> {
    match de_text(jget(fields, "command"@)) {
        Some(c) => {
            if c == "cancelled"@ {
                Some(ResponseMessageView::Cancelled)
            } else if c == "initialize"@ {
                let seq = de_u64(jget(fields, "seq"@));
                let rs = de_u64(jget(fields, "request_seq"@));
                let success = de_bool(jget(fields, "success"@));
                let body = de_opt(jget(fields, "body"@), de_capabilities_fn());
                if seq is Some && rs is Some && success is Some && body is Some {
                    Some(
                        ResponseMessageView::Initialize {
                            seq: seq->Some_0,
                            request_seq: rs->Some_0,
                            success: success->Some_0,
                            body: body->Some_0,
                        },
                    )
                } else {
                    None
                }
            } else if c == "notStopped"@ {
                Some(ResponseMessageView::NotStopped)
            } else if c == "scopes"@ {
                let seq = de_u64(jget(fields, "seq"@));
                let rr = de_u64(jget(fields, "request_req"@));
                let success = de_bool(jget(fields, "success"@));
                let body = de_req(jget(fields, "body"@), de_scopes_body_fn());
                if seq is Some && rr is Some && success is Some && body is Some {
                    Some(
                        ResponseMessageView::Scopes {
                            seq: seq->Some_0,
                            request_req: rr->Some_0,
                            success: success->Some_0,
                            body: body->Some_0,
                        },
                    )
                } else {
                    None
                }
            } else if c == "variables"@ {
                let seq = de_u64(jget(fields, "seq"@));
                let rr = de_u64(jget(fields, "request_req"@));
                let success = de_bool(jget(fields, "success"@));
                let body = de_req(jget(fields, "body"@), de_variables_body_fn());
                if seq is Some && rr is Some && success is Some && body is Some {
                    Some(
                        ResponseMessageView::Variables {
                            seq: seq->Some_0,
                            request_req: rr->Some_0,
                            success: success->Some_0,
                            body: body->Some_0,
                        },
                    )
                } else {
                    None
                }
            } else if c == "setBreakpoints"@ {
                let seq = de_u64(jget(fields, "seq"@));
                let rs = de_u64(jget(fields, "request_seq"@));
                let success = de_bool(jget(fields, "success"@));
                let body = de_req(jget(fields, "body"@), de_setbp_body_fn());
                if seq is Some && rs is Some && success is Some && body is Some {
                    Some(
                        ResponseMessageView::SetBreakpoints {
                            seq: seq->Some_0,
                            request_seq: rs->Some_0,
                            success: success->Some_0,
                            body: body->Some_0,
                        },
                    )
                } else {
                    None
                }
            } else {
                Some(ResponseMessageView::Unknown)
            }
        },
        None => None,
    }
}

pub open spec fn de_event_fields(fields: Seq<(Seq<char>, JsonView)>) -> Option<DapEventView> {
    match de_text(jget(fields, "event"@)) {
        Some(c) => {
            if c == "breakpoint"@ {
                let seq = de_u64(jget(fields, "seq"@));
                let body = de_req(jget(fields, "body"@), de_bp_event_fn());
                if seq is Some && body is Some {
                    Some(DapEventView::Breakpoint { seq: seq->Some_0, body: body->Some_0 })
                } else {
                    None
                }
            } else if c == "output"@ {
                let seq = de_u64(jget(fields, "seq"@));
                let body = de_req(jget(fields, "body"@), de_output_event_fn());
                if seq is Some && body is Some {
                    Some(DapEventView::Output { seq: seq->Some_0, body: body->Some_0 })
                } else {
                    None
                }
            } else if c == "stopped"@ {
                let seq = de_u64(jget(fields, "seq"@));
                let body = de_req(jget(fields, "body"@), de_stopped_event_fn());
                if seq is Some && body is Some {
                    Some(DapEventView::Stopped { seq: seq->Some_0, body: body->Some_0 })
                } else {
                    None
                }
            } else if c == "terminated"@ {
                let seq = de_u64(jget(fields, "seq"@));
                if seq is Some {
                    Some(DapEventView::Terminated { seq: seq->Some_0 })
                } else {
                    None
                }
            } else {
                Some(DapEventView::Unknown)
            }
        },
        None => None,
    }
}

/// A message read from its JSON form; an unrecognized top-level tag gives
/// the explicit catch-all, a missing or mistyped one fails.
#[verifier::opaque]
pub open spec fn de_msg(j: JsonView) -> Option<ProtocolMessageView> {
    match j {
        JsonView::Obj(fields) => match de_text(jget(fields, "type"@)) {
            Some(t) => {
                if t == "request"@ {
                    match de_req_fields(fields) {
                        Some(r) => Some(ProtocolMessageView::Request(r)),
                        None => None,
                    }
                } else if t == "response"@ {
                    match de_resp_fields(fields) {
                        Some(r) => Some(ProtocolMessageView::Response(r)),
                        None => None,
                    }
                } else if t == "event"@ {
                    match de_event_fields(fields) {
                        Some(e) => Some(ProtocolMessageView::Event(e)),
                        None => None,
                    }
                } else {
                    Some(ProtocolMessageView::Unknown)
                }
            },
            None => None,
        },
        _ => None,
    }
}

/// Messages the engine can write out and read back unchanged.
pub open spec fn wf_msg(m: ProtocolMessageView) -> bool {
    match m {
        ProtocolMessageView::Request(r) => match r {
            RequestMessageView::Attach { arguments, .. } => wf_payload(arguments),
            RequestMessageView::ConfigurationDone { arguments, .. } => match arguments {
                Some(a) => wf_payload(a) && !(a is Null),
                None => true,
            },
            RequestMessageView::Launch { arguments, .. } => wf_payload(arguments),
            RequestMessageView::SetBreakpoints { arguments, .. } => wf_setbp_args(arguments),
            _ => true,
        },
        ProtocolMessageView::Response(r) => match r {
            ResponseMessageView::Scopes { body, .. } => wf_scopes_body(body),
            ResponseMessageView::SetBreakpoints { body, .. } => wf_setbp_body(body),
            _ => true,
        },
        ProtocolMessageView::Event(e) => match e {
            DapEventView::Breakpoint { body, .. } => wf_bp_event(body),
            _ => true,
        },
        ProtocolMessageView::Unknown => true,
    }
}


impl RequestMessage {
    /// The full wire object of this request.
    #[verifier::rlimit(100)]
    #[verifier::spinoff_prover]
    pub fn to_json(self) -> (j: JsonValue)
        ensures
            jview(j) == JsonView::Obj(
                obj_of(seq![("type"@, Some(JsonView::Str("request"@)))] + req_entries(self@)),
            ),
    {
        let ghost v = self@;
        let mut b = ObjBuilder::new();
        b.add("type", Some(JsonValue::Str(lit("request"))));
        match self {
            RequestMessage::Cancel { seq, arguments } => {
                b.add("command", Some(JsonValue::Str(lit("cancel"))));
                b.add("seq", Some(JsonValue::Num(seq)));
                let args_val = match arguments {
                    Some(a) => Some(a.to_json()),
                    None => None,
                };
                b.add("arguments", args_val);
            },
            RequestMessage::Initialize { seq, arguments } => {
                b.add("command", Some(JsonValue::Str(lit("initialize"))));
                b.add("seq", Some(JsonValue::Num(seq)));
                b.add("arguments", Some(arguments.to_json()));
            },
            RequestMessage::Attach { seq, arguments } => {
                b.add("command", Some(JsonValue::Str(lit("attach"))));
                b.add("seq", Some(JsonValue::Num(seq)));
                b.add("arguments", Some(arguments));
            },
            RequestMessage::ConfigurationDone { seq, arguments } => {
                b.add("command", Some(JsonValue::Str(lit("configurationDone"))));
                b.add("seq", Some(JsonValue::Num(seq)));
                b.add("arguments", arguments);
            },
            RequestMessage::Launch { seq, arguments } => {
                b.add("command", Some(JsonValue::Str(lit("launch"))));
                b.add("seq", Some(JsonValue::Num(seq)));
                b.add("arguments", Some(arguments));
            },
            RequestMessage::Next { seq, arguments } => {
                b.add("command", Some(JsonValue::Str(lit("next"))));
                b.add("seq", Some(JsonValue::Num(seq)));
                b.add("arguments", Some(arguments.to_json()));
            },
            RequestMessage::Scopes { seq, arguments } => {
                b.add("command", Some(JsonValue::Str(lit("scopes"))));
                b.add("seq", Some(JsonValue::Num(seq)));
                b.add("arguments", Some(arguments.to_json()));
            },
            RequestMessage::SetBreakpoints { seq, arguments } => {
                b.add("command", Some(JsonValue::Str(lit("setBreakpoints"))));
                b.add("seq", Some(JsonValue::Num(seq)));
                b.add("arguments", Some(arguments.to_json()));
            },
            RequestMessage::Variables { seq, arguments } => {
                b.add("command", Some(JsonValue::Str(lit("variables"))));
                b.add("seq", Some(JsonValue::Num(seq)));
                b.add("arguments", Some(arguments.to_json()));
            },
            RequestMessage::Unknown => {
                b.add("command", Some(JsonValue::Str(lit("Unknown"))));
            },
        }
        proof {
            assert(b.entries() =~= seq![("type"@, Some(JsonView::Str("request"@)))] + req_entries(
                v,
            ));
        }
        b.finish()
    }

    /// A request read from the fields of its wire object.
    #[verifier::rlimit(100)]
    #[verifier::spinoff_prover]
    pub fn from_fields(fields: &Vec<(Vec<char>, JsonValue)>) -> (r: Option<Self>)
        ensures
            ov(r) == de_req_fields(jview_fields(*fields, fields.len() as int)),
    {
        let cmd = match ex_text(obj_get(fields, "command")) {
            Some(x) => x,
            None => {
                return None;
            },
        };
        if text_eq_str(&cmd, "cancel") {
            let seq = match ex_u64(obj_get(fields, "seq")) {
                Some(x) => x,
                None => {
                    return None;
                },
            };
            let args = match obj_get(fields, "arguments") {
                None => None,
                Some(JsonValue::Null) => None,
                Some(x) => match CancelArguments::from_json(x) {
                    Some(a) => Some(a),
                    None => {
                        return None;
                    },
                },
            };
            Some(RequestMessage::Cancel { seq, arguments: args })
        } else if text_eq_str(&cmd, "initialize") {
            let seq = match ex_u64(obj_get(fields, "seq")) {
                Some(x) => x,
                None => {
                    return None;
                },
            };
            let args = match obj_get(fields, "arguments") {
                Some(x) => match InitializeArguments::from_json(x) {
                    Some(a) => a,
                    None => {
                        return None;
                    },
                },
                None => {
                    return None;
                },
            };
            Some(RequestMessage::Initialize { seq, arguments: args })
        } else if text_eq_str(&cmd, "attach") {
            let seq = match ex_u64(obj_get(fields, "seq")) {
                Some(x) => x,
                None => {
                    return None;
                },
            };
            let args = match obj_get(fields, "arguments") {
                Some(x) => x.duplicate(),
                None => {
                    return None;
                },
            };
            Some(RequestMessage::Attach { seq, arguments: args })
        } else if text_eq_str(&cmd, "configurationDone") {
            let seq = match ex_u64(obj_get(fields, "seq")) {
                Some(x) => x,
                None => {
                    return None;
                },
            };
            let args = match obj_get(fields, "arguments") {
                None => None,
                Some(JsonValue::Null) => None,
                Some(x) => Some(x.duplicate()),
            };
            Some(RequestMessage::ConfigurationDone { seq, arguments: args })
        } else if text_eq_str(&cmd, "launch") {
            let seq = match ex_u64(obj_get(fields, "seq")) {
                Some(x) => x,
                None => {
                    return None;
                },
            };
            let args = match obj_get(fields, "arguments") {
                Some(x) => x.duplicate(),
                None => {
                    return None;
                },
            };
            Some(RequestMessage::Launch { seq, arguments: args })
        } else if text_eq_str(&cmd, "next") {
            let seq = match ex_u64(obj_get(fields, "seq")) {
                Some(x) => x,
                None => {
                    return None;
                },
            };
            let args = match obj_get(fields, "arguments") {
                Some(x) => match NextArguments::from_json(x) {
                    Some(a) => a,
                    None => {
                        return None;
                    },
                },
                None => {
                    return None;
                },
            };
            Some(RequestMessage::Next { seq, arguments: args })
        } else if text_eq_str(&cmd, "scopes") {
            let seq = match ex_u64(obj_get(fields, "seq")) {
                Some(x) => x,
                None => {
                    return None;
                },
            };
            let args = match obj_get(fields, "arguments") {
                Some(x) => match ScopesArguments::from_json(x) {
                    Some(a) => a,
                    None => {
                        return None;
                    },
                },
                None => {
                    return None;
                },
            };
            Some(RequestMessage::Scopes { seq, arguments: args })
        } else if text_eq_str(&cmd, "setBreakpoints") {
            let seq = match ex_u64(obj_get(fields, "seq")) {
                Some(x) => x,
                None => {
                    return None;
                },
            };
            let args = match obj_get(fields, "arguments") {
                Some(x) => match SetBreakpointsArguments::from_json(x) {
                    Some(a) => a,
                    None => {
                        return None;
                    },
                },
                None => {
                    return None;
                },
            };
            Some(RequestMessage::SetBreakpoints { seq, arguments: args })
        } else if text_eq_str(&cmd, "variables") {
            let seq = match ex_u64(obj_get(fields, "seq")) {
                Some(x) => x,
                None => {
                    return None;
                },
            };
            let args = match obj_get(fields, "arguments") {
                Some(x) => match VariablesArguments::from_json(x) {
                    Some(a) => a,
                    None => {
                        return None;
                    },
                },
                None => {
                    return None;
                },
            };
            Some(RequestMessage::Variables { seq, arguments: args })
        } else {
            Some(RequestMessage::Unknown)
        }
    }
}

impl ResponseMessage {
    /// The full wire object of this response.
    #[verifier::rlimit(100)]
    #[verifier::spinoff_prover]
    pub fn to_json(self) -> (j: JsonValue)
        ensures
            jview(j) == JsonView::Obj(
                obj_of(seq![("type"@, Some(JsonView::Str("response"@)))] + resp_entries(self@)),
            ),
    {
        let ghost v = self@;
        let mut b = ObjBuilder::new();
        b.add("type", Some(JsonValue::Str(lit("response"))));
        match self {
            ResponseMessage::Cancelled => {
                b.add("command", Some(JsonValue::Str(lit("cancelled"))));
            },
            ResponseMessage::Initialize { seq, request_seq, success, body } => {
                b.add("command", Some(JsonValue::Str(lit("initialize"))));
                b.add("seq", Some(JsonValue::Num(seq)));
                b.add("request_seq", Some(JsonValue::Num(request_seq)));
                b.add("success", Some(JsonValue::Bool(success)));
                let body_val = match body {
                    Some(c) => Some(c.to_json()),
                    None => None,
                };
                b.add("body", body_val);
            },
            ResponseMessage::NotStopped => {
                b.add("command", Some(JsonValue::Str(lit("notStopped"))));
            },
            ResponseMessage::Scopes { seq, request_req, success, body } => {
                b.add("command", Some(JsonValue::Str(lit("scopes"))));
                b.add("seq", Some(JsonValue::Num(seq)));
                b.add("request_req", Some(JsonValue::Num(request_req)));
                b.add("success", Some(JsonValue::Bool(success)));
                b.add("body", Some(body.to_json()));
            },
            ResponseMessage::Variables { seq, request_req, success, body } => {
                b.add("command", Some(JsonValue::Str(lit("variables"))));
                b.add("seq", Some(JsonValue::Num(seq)));
                b.add("request_req", Some(JsonValue::Num(request_req)));
                b.add("success", Some(JsonValue::Bool(success)));
                b.add("body", Some(body.to_json()));
            },
            ResponseMessage::SetBreakpoints { seq, request_seq, success, body } => {
                b.add("command", Some(JsonValue::Str(lit("setBreakpoints"))));
                b.add("seq", Some(JsonValue::Num(seq)));
                b.add("request_seq", Some(JsonValue::Num(request_seq)));
                b.add("success", Some(JsonValue::Bool(success)));
                b.add("body", Some(body.to_json()));
            },
            ResponseMessage::Unknown => {
                b.add("command", Some(JsonValue::Str(lit("Unknown"))));
            },
        }
        proof {
            assert(b.entries() =~= seq![("type"@, Some(JsonView::Str("response"@)))]
                + resp_entries(v));
        }
        b.finish()
    }

    /// A response read from the fields of its wire object.
    #[verifier::rlimit(100)]
    #[verifier::spinoff_prover]
    pub fn from_fields(fields: &Vec<(Vec<char>, JsonValue)>) -> (r: Option<Self>)
        ensures
            ov(r) == de_resp_fields(jview_fields(*fields, fields.len() as int)),
    {
        let cmd = match ex_text(obj_get(fields, "command")) {
            Some(x) => x,
            None => {
                return None;
            },
        };
        if text_eq_str(&cmd, "cancelled") {
            Some(ResponseMessage::Cancelled)
        } else if text_eq_str(&cmd, "initialize") {
            let seq = match ex_u64(obj_get(fields, "seq")) {
                Some(x) => x,
                None => {
                    return None;
                },
            };
            let rs = match ex_u64(obj_get(fields, "request_seq")) {
                Some(x) => x,
                None => {
                    return None;
                },
            };
            let success = match ex_bool(obj_get(fields, "success")) {
                Some(x) => x,
                None => {
                    return None;
                },
            };
            let body = match obj_get(fields, "body") {
                None => None,
                Some(JsonValue::Null) => None,
                Some(x) => match Capabilities::from_json(x) {
                    Some(c) => Some(c),
                    None => {
                        return None;
                    },
                },
            };
            Some(ResponseMessage::Initialize { seq, request_seq: rs, success, body })
        } else if text_eq_str(&cmd, "notStopped") {
            Some(ResponseMessage::NotStopped)
        } else if text_eq_str(&cmd, "scopes") {
            let seq = match ex_u64(obj_get(fields, "seq")) {
                Some(x) => x,
                None => {
                    return None;
                },
            };
            let rr = match ex_u64(obj_get(fields, "request_req")) {
                Some(x) => x,
                None => {
                    return None;
                },
            };
            let success = match ex_bool(obj_get(fields, "success")) {
                Some(x) => x,
                None => {
                    return None;
                },
            };
            let body = match obj_get(fields, "body") {
                Some(x) => match ScopesResponseBody::from_json(x) {
                    Some(bb) => bb,
                    None => {
                        return None;
                    },
                },
                None => {
                    return None;
                },
            };
            Some(ResponseMessage::Scopes { seq, request_req: rr, success, body })
        } else if text_eq_str(&cmd, "variables") {
            let seq = match ex_u64(obj_get(fields, "seq")) {
                Some(x) => x,
                None => {
                    return None;
                },
            };
            let rr = match ex_u64(obj_get(fields, "request_req")) {
                Some(x) => x,
                None => {
                    return None;
                },
            };
            let success = match ex_bool(obj_get(fields, "success")) {
                Some(x) => x,
                None => {
                    return None;
                },
            };
            let body = match obj_get(fields, "body") {
                Some(x) => match VariablesResponseBody::from_json(x) {
                    Some(bb) => bb,
                    None => {
                        return None;
                    },
                },
                None => {
                    return None;
                },
            };
            Some(ResponseMessage::Variables { seq, request_req: rr, success, body })
        } else if text_eq_str(&cmd, "setBreakpoints") {
            let seq = match ex_u64(obj_get(fields, "seq")) {
                Some(x) => x,
                None => {
                    return None;
                },
            };
            let rs = match ex_u64(obj_get(fields, "request_seq")) {
                Some(x) => x,
                None => {
                    return None;
                },
            };
            let success = match ex_bool(obj_get(fields, "success")) {
                Some(x) => x,
                None => {
                    return None;
                },
            };
            let body = match obj_get(fields, "body") {
                Some(x) => match SetBreakpointsResponseBody::from_json(x) {
                    Some(bb) => bb,
                    None => {
                        return None;
                    },
                },
                None => {
                    return None;
                },
            };
            Some(ResponseMessage::SetBreakpoints { seq, request_seq: rs, success, body })
        } else {
            Some(ResponseMessage::Unknown)
        }
    }
}

impl DapEvent {
    /// The full wire object of this event.
    #[verifier::rlimit(100)]
    #[verifier::spinoff_prover]
    pub fn to_json(self) -> (j: JsonValue)
        ensures
            jview(j) == JsonView::Obj(
                obj_of(seq![("type"@, Some(JsonView::Str("event"@)))] + event_entries(self@)),
            ),
    {
        let ghost v = self@;
        let mut b = ObjBuilder::new();
        b.add("type", Some(JsonValue::Str(lit("event"))));
        match self {
            DapEvent::Breakpoint { seq, body } => {
                b.add("event", Some(JsonValue::Str(lit("breakpoint"))));
                b.add("seq", Some(JsonValue::Num(seq)));
                b.add("body", Some(body.to_json()));
            },
            DapEvent::Output { seq, body } => {
                b.add("event", Some(JsonValue::Str(lit("output"))));
                b.add("seq", Some(JsonValue::Num(seq)));
                b.add("body", Some(body.to_json()));
            },
            DapEvent::Stopped { seq, body } => {
                b.add("event", Some(JsonValue::Str(lit("stopped"))));
                b.add("seq", Some(JsonValue::Num(seq)));
                b.add("body", Some(body.to_json()));
            },
            DapEvent::Terminated { seq } => {
                b.add("event", Some(JsonValue::Str(lit("terminated"))));
                b.add("seq", Some(JsonValue::Num(seq)));
            },
            DapEvent::Unknown => {
                b.add("event", Some(JsonValue::Str(lit("Unknown"))));
            },
        }
        proof {
            assert(b.entries() =~= seq![("type"@, Some(JsonView::Str("event"@)))] + event_entries(
                v,
            ));
        }
        b.finish()
    }

    /// An event read from the fields of its wire object.
    #[verifier::rlimit(100)]
    #[verifier::spinoff_prover]
    pub fn from_fields(fields: &Vec<(Vec<char>, JsonValue)>) -> (r: Option<Self>)
        ensures
            ov(r) == de_event_fields(jview_fields(*fields, fields.len() as int)),
    {
        let name = match ex_text(obj_get(fields, "event")) {
            Some(x) => x,
            None => {
                return None;
            },
        };
        if text_eq_str(&name, "breakpoint") {
            let seq = match ex_u64(obj_get(fields, "seq")) {
                Some(x) => x,
                None => {
                    return None;
                },
            };
            let body = match obj_get(fields, "body") {
                Some(x) => match BreakpointEvent::from_json(x) {
                    Some(bb) => bb,
                    None => {
                        return None;
                    },
                },
                None => {
                    return None;
                },
            };
            Some(DapEvent::Breakpoint { seq, body })
        } else if text_eq_str(&name, "output") {
            let seq = match ex_u64(obj_get(fields, "seq")) {
                Some(x) => x,
                None => {
                    return None;
                },
            };
            let body = match obj_get(fields, "body") {
                Some(x) => match OutputEvent::from_json(x) {
                    Some(bb) => bb,
                    None => {
                        return None;
                    },
                },
                None => {
                    return None;
                },
            };
            Some(DapEvent::Output { seq, body })
        } else if text_eq_str(&name, "stopped") {
            let seq = match ex_u64(obj_get(fields, "seq")) {
                Some(x) => x,
                None => {
                    return None;
                },
            };
            let body = match obj_get(fields, "body") {
                Some(x) => match StoppedEvent::from_json(x) {
                    Some(bb) => bb,
                    None => {
                        return None;
                    },
                },
                None => {
                    return None;
                },
            };
            Some(DapEvent::Stopped { seq, body })
        } else if text_eq_str(&name, "terminated") {
            let seq = match ex_u64(obj_get(fields, "seq")) {
                Some(x) => x,
                None => {
                    return None;
                },
            };
            Some(DapEvent::Terminated { seq })
        } else {
            Some(DapEvent::Unknown)
        }
    }
}

impl ProtocolMessage {
    /// The JSON form of this message.
    pub fn to_json(self) -> (j: JsonValue)
        ensures
            jview(j) == msg_json(self@),
    {
        let ghost v = self@;
        proof {
            reveal(crate::codec::msg_json);
        }
        match self {
            ProtocolMessage::Request(r) => r.to_json(),
            ProtocolMessage::Response(r) => r.to_json(),
            ProtocolMessage::Event(e) => e.to_json(),
            ProtocolMessage::Unknown => {
                let mut b = ObjBuilder::new();
                b.add("type", Some(JsonValue::Str(lit("Unknown"))));
                proof {
                    assert(b.entries() =~= msg_entries(v));
                }
                b.finish()
            },
        }
    }

    /// A message read from its JSON form.
    pub fn from_json(j: &JsonValue) -> (r: Option<Self>)
        ensures
            ov(r) == de_msg(jview(*j)),
    {
        proof {
            reveal(crate::codec::de_msg);
        }
        match j {
            JsonValue::Obj(fields) => {
                let tag = match ex_text(obj_get(fields, "type")) {
                    Some(x) => x,
                    None => {
                        return None;
                    },
                };
                if text_eq_str(&tag, "request") {
                    match RequestMessage::from_fields(fields) {
                        Some(r) => Some(ProtocolMessage::Request(r)),
                        None => None,
                    }
                } else if text_eq_str(&tag, "response") {
                    match ResponseMessage::from_fields(fields) {
                        Some(r) => Some(ProtocolMessage::Response(r)),
                        None => None,
                    }
                } else if text_eq_str(&tag, "event") {
                    match DapEvent::from_fields(fields) {
                        Some(e) => Some(ProtocolMessage::Event(e)),
                        None => None,
                    }
                } else {
                    Some(ProtocolMessage::Unknown)
                }
            },
            _ => None,
        }
    }
}


// ---------------------------------------------------------------------------
// Reading a written message yields it back
// ---------------------------------------------------------------------------

proof fn lemma_msg_keys()
    ensures
        "type"@.len() == 4,
        "command"@.len() == 7,
        "event"@.len() == 5,
        "seq"@.len() == 3,
        "arguments"@.len() == 9,
        "request_seq"@.len() == 11,
        "request_req"@.len() == 11,
        "success"@.len() == 7,
        "body"@.len() == 4,
        "request"@.len() == 7,
        "response"@.len() == 8,
        "type"@ != "command"@,
        "type"@ != "seq"@,
        "type"@ != "arguments"@,
        "type"@ != "event"@,
        "type"@ != "body"@,
        "type"@ != "request_seq"@,
        "type"@ != "request_req"@,
        "type"@ != "success"@,
        "command"@ != "seq"@,
        "command"@ != "arguments"@,
        "command"@ != "body"@,
        "command"@ != "request_seq"@,
        "command"@ != "request_req"@,
        "command"@ != "success"@,
        "event"@ != "seq"@,
        "event"@ != "body"@,
        "seq"@ != "arguments"@,
        "seq"@ != "body"@,
        "seq"@ != "request_seq"@,
        "seq"@ != "request_req"@,
        "seq"@ != "success"@,
        "request_seq"@ != "success"@,
        "request_seq"@ != "body"@,
        "request_req"@ != "success"@,
        "request_req"@ != "body"@,
        "success"@ != "body"@,
{
    broadcast use vstd::string::group_string_axioms;

    reveal_strlit("type");
    reveal_strlit("command");
    reveal_strlit("event");
    reveal_strlit("seq");
    reveal_strlit("arguments");
    reveal_strlit("request_seq");
    reveal_strlit("request_req");
    reveal_strlit("success");
    reveal_strlit("body");
    reveal_strlit("request");
    reveal_strlit("response");
    assert("type"@[0] == 't' && "body"@[0] == 'b');
    assert("command"@[0] == 'c' && "success"@[0] == 's');
    assert("request_seq"@[8] == 's' && "request_req"@[8] == 'r');
}

proof fn lemma_tag_names()
    ensures
        "request"@ != "response"@,
        "request"@ != "event"@,
        "request"@ != "Unknown"@,
        "response"@ != "event"@,
        "response"@ != "Unknown"@,
        "event"@ != "Unknown"@,
{
    broadcast use vstd::string::group_string_axioms;

    reveal_strlit("request");
    reveal_strlit("response");
    reveal_strlit("event");
    reveal_strlit("Unknown");
    assert("request"@.len() == 7 && "response"@.len() == 8 && "event"@.len() == 5
        && "Unknown"@.len() == 7);
    assert("request"@[0] == 'r' && "Unknown"@[0] == 'U');
}

proof fn lemma_req_command_names()
    ensures
        "cancel"@.len() == 6,
        "initialize"@.len() == 10,
        "attach"@.len() == 6,
        "configurationDone"@.len() == 17,
        "launch"@.len() == 6,
        "next"@.len() == 4,
        "scopes"@.len() == 6,
        "setBreakpoints"@.len() == 14,
        "variables"@.len() == 9,
        "Unknown"@.len() == 7,
        "cancel"@[0] == 'c',
        "attach"@[0] == 'a',
        "launch"@[0] == 'l',
        "scopes"@[0] == 's',
{
    broadcast use vstd::string::group_string_axioms;

    reveal_strlit("cancel");
    reveal_strlit("initialize");
    reveal_strlit("attach");
    reveal_strlit("configurationDone");
    reveal_strlit("launch");
    reveal_strlit("next");
    reveal_strlit("scopes");
    reveal_strlit("setBreakpoints");
    reveal_strlit("variables");
    reveal_strlit("Unknown");
}

#[verifier::rlimit(100)]
#[verifier::spinoff_prover]
proof fn lemma_req_rt(r: RequestMessageView)
    requires
        wf_msg(ProtocolMessageView::Request(r)),
    ensures
        ({
            let m = ProtocolMessageView::Request(r);
            &&& msg_json(m) is Obj
            &&& wf_json(msg_json(m))
            &&& jdepth(msg_json(m)) <= PAYLOAD_DEPTH_LIMIT as nat + 4
            &&& de_msg(msg_json(m)) == Some(m)
        }),
{
    reveal(crate::codec::msg_json);
    reveal(crate::codec::de_msg);
    let m = ProtocolMessageView::Request(r);
    let entries = msg_entries(m);
    lemma_msg_keys();
    lemma_tag_names();
    lemma_req_command_names();
    assert(entries == seq![("type"@, Some(JsonView::Str("request"@)))] + req_entries(r));
    match r {
        RequestMessageView::Cancel { seq, arguments } => {
            assert(entries.len() == 4 && entries[0].0 == "type"@ && entries[1].0 == "command"@
                && entries[2].0 == "seq"@ && entries[3].0 == "arguments"@);
            assert(forall|a: int, b: int|
                0 <= a < b < entries.len() ==> (#[trigger] entries[a].0) != (
                #[trigger] entries[b].0));
            lemma_obj_of_get(entries, 0);
            lemma_obj_of_get(entries, 1);
            lemma_obj_of_get(entries, 2);
            lemma_obj_of_get(entries, 3);
            match arguments {
                Some(a) => {
                    lemma_cancel_args_codec(a);
                },
                None => {},
            }
            assert forall|i: int|
                0 <= i < entries.len() implies (#[trigger] entries[i].1 matches Some(x) ==> wf_json(
                x,
            ) && jdepth(x) <= PAYLOAD_DEPTH_LIMIT as nat + 3) by {
                assert(entries[0].1 == Some(JsonView::Str("request"@)));
                assert(entries[1].1 == Some(JsonView::Str("cancel"@)));
                assert(entries[2].1 == Some(JsonView::Num(seq)));
                match arguments {
                    Some(a) => {
                        assert(entries[3].1 == Some(cancel_args_json(a)));
                    },
                    None => {
                        assert(entries[3].1 is None);
                    },
                }
            }
            lemma_obj_of_wf(entries);
            lemma_obj_of_depth(entries, PAYLOAD_DEPTH_LIMIT as nat + 3);
            let fields = obj_of(entries);
            assert(jget(fields, "type"@) == entries[0].1);
            assert(jget(fields, "command"@) == entries[1].1);
            assert(jget(fields, "seq"@) == entries[2].1);
            assert(jget(fields, "arguments"@) == entries[3].1);
            assert(de_opt(jget(fields, "arguments"@), de_cancel_args_fn()) == Some(arguments));
            assert(de_msg(msg_json(m)) == Some(m));
        },
        RequestMessageView::Initialize { seq, arguments } => {
            assert(entries.len() == 4 && entries[0].0 == "type"@ && entries[1].0 == "command"@
                && entries[2].0 == "seq"@ && entries[3].0 == "arguments"@);
            assert(forall|a: int, b: int|
                0 <= a < b < entries.len() ==> (#[trigger] entries[a].0) != (
                #[trigger] entries[b].0));
            lemma_obj_of_get(entries, 0);
            lemma_obj_of_get(entries, 1);
            lemma_obj_of_get(entries, 2);
            lemma_obj_of_get(entries, 3);
            lemma_init_args_codec(arguments);
            assert forall|i: int|
                0 <= i < entries.len() implies (#[trigger] entries[i].1 matches Some(x) ==> wf_json(
                x,
            ) && jdepth(x) <= PAYLOAD_DEPTH_LIMIT as nat + 3) by {
                assert(entries[0].1 == Some(JsonView::Str("request"@)));
                assert(entries[1].1 == Some(JsonView::Str("initialize"@)));
                assert(entries[2].1 == Some(JsonView::Num(seq)));
                assert(entries[3].1 == Some(init_args_json(arguments)));
            }
            lemma_obj_of_wf(entries);
            lemma_obj_of_depth(entries, PAYLOAD_DEPTH_LIMIT as nat + 3);
            let fields = obj_of(entries);
            assert(jget(fields, "type"@) == entries[0].1);
            assert(jget(fields, "command"@) == entries[1].1);
            assert(jget(fields, "seq"@) == entries[2].1);
            assert(jget(fields, "arguments"@) == entries[3].1);
            assert(de_msg(msg_json(m)) == Some(m));
        },
        RequestMessageView::Attach { seq, arguments } => {
            assert(entries.len() == 4 && entries[0].0 == "type"@ && entries[1].0 == "command"@
                && entries[2].0 == "seq"@ && entries[3].0 == "arguments"@);
            assert(forall|a: int, b: int|
                0 <= a < b < entries.len() ==> (#[trigger] entries[a].0) != (
                #[trigger] entries[b].0));
            lemma_obj_of_get(entries, 0);
            lemma_obj_of_get(entries, 1);
            lemma_obj_of_get(entries, 2);
            lemma_obj_of_get(entries, 3);
            assert forall|i: int|
                0 <= i < entries.len() implies (#[trigger] entries[i].1 matches Some(x) ==> wf_json(
                x,
            ) && jdepth(x) <= PAYLOAD_DEPTH_LIMIT as nat + 3) by {
                assert(entries[0].1 == Some(JsonView::Str("request"@)));
                assert(entries[1].1 == Some(JsonView::Str("attach"@)));
                assert(entries[2].1 == Some(JsonView::Num(seq)));
                assert(entries[3].1 == Some(arguments));
            }
            lemma_obj_of_wf(entries);
            lemma_obj_of_depth(entries, PAYLOAD_DEPTH_LIMIT as nat + 3);
            let fields = obj_of(entries);
            assert(jget(fields, "type"@) == entries[0].1);
            assert(jget(fields, "command"@) == entries[1].1);
            assert(jget(fields, "seq"@) == entries[2].1);
            assert(jget(fields, "arguments"@) == entries[3].1);
            assert(de_msg(msg_json(m)) == Some(m));
        },
        RequestMessageView::ConfigurationDone { seq, arguments } => {
            assert(entries.len() == 4 && entries[0].0 == "type"@ && entries[1].0 == "command"@
                && entries[2].0 == "seq"@ && entries[3].0 == "arguments"@);
            assert(forall|a: int, b: int|
                0 <= a < b < entries.len() ==> (#[trigger] entries[a].0) != (
                #[trigger] entries[b].0));
            lemma_obj_of_get(entries, 0);
            lemma_obj_of_get(entries, 1);
            lemma_obj_of_get(entries, 2);
            lemma_obj_of_get(entries, 3);
            assert forall|i: int|
                0 <= i < entries.len() implies (#[trigger] entries[i].1 matches Some(x) ==> wf_json(
                x,
            ) && jdepth(x) <= PAYLOAD_DEPTH_LIMIT as nat + 3) by {
                assert(entries[0].1 == Some(JsonView::Str("request"@)));
                assert(entries[1].1 == Some(JsonView::Str("configurationDone"@)));
                assert(entries[2].1 == Some(JsonView::Num(seq)));
                match arguments {
                    Some(a) => {
                        assert(entries[3].1 == Some(a));
                    },
                    None => {
                        assert(entries[3].1 is None);
                    },
                }
            }
            lemma_obj_of_wf(entries);
            lemma_obj_of_depth(entries, PAYLOAD_DEPTH_LIMIT as nat + 3);
            let fields = obj_of(entries);
            assert(jget(fields, "type"@) == entries[0].1);
            assert(jget(fields, "command"@) == entries[1].1);
            assert(jget(fields, "seq"@) == entries[2].1);
            assert(jget(fields, "arguments"@) == entries[3].1);
            assert(de_msg(msg_json(m)) == Some(m));
        },
        RequestMessageView::Launch { seq, arguments } => {
            assert(entries.len() == 4 && entries[0].0 == "type"@ && entries[1].0 == "command"@
                && entries[2].0 == "seq"@ && entries[3].0 == "arguments"@);
            assert(forall|a: int, b: int|
                0 <= a < b < entries.len() ==> (#[trigger] entries[a].0) != (
                #[trigger] entries[b].0));
            lemma_obj_of_get(entries, 0);
            lemma_obj_of_get(entries, 1);
            lemma_obj_of_get(entries, 2);
            lemma_obj_of_get(entries, 3);
            assert forall|i: int|
                0 <= i < entries.len() implies (#[trigger] entries[i].1 matches Some(x) ==> wf_json(
                x,
            ) && jdepth(x) <= PAYLOAD_DEPTH_LIMIT as nat + 3) by {
                assert(entries[0].1 == Some(JsonView::Str("request"@)));
                assert(entries[1].1 == Some(JsonView::Str("launch"@)));
                assert(entries[2].1 == Some(JsonView::Num(seq)));
                assert(entries[3].1 == Some(arguments));
            }
            lemma_obj_of_wf(entries);
            lemma_obj_of_depth(entries, PAYLOAD_DEPTH_LIMIT as nat + 3);
            let fields = obj_of(entries);
            assert(jget(fields, "type"@) == entries[0].1);
            assert(jget(fields, "command"@) == entries[1].1);
            assert(jget(fields, "seq"@) == entries[2].1);
            assert(jget(fields, "arguments"@) == entries[3].1);
            assert(de_msg(msg_json(m)) == Some(m));
        },
        RequestMessageView::Next { seq, arguments } => {
            assert(entries.len() == 4 && entries[0].0 == "type"@ && entries[1].0 == "command"@
                && entries[2].0 == "seq"@ && entries[3].0 == "arguments"@);
            assert(forall|a: int, b: int|
                0 <= a < b < entries.len() ==> (#[trigger] entries[a].0) != (
                #[trigger] entries[b].0));
            lemma_obj_of_get(entries, 0);
            lemma_obj_of_get(entries, 1);
            lemma_obj_of_get(entries, 2);
            lemma_obj_of_get(entries, 3);
            lemma_next_args_codec(arguments);
            assert forall|i: int|
                0 <= i < entries.len() implies (#[trigger] entries[i].1 matches Some(x) ==> wf_json(
                x,
            ) && jdepth(x) <= PAYLOAD_DEPTH_LIMIT as nat + 3) by {
                assert(entries[0].1 == Some(JsonView::Str("request"@)));
                assert(entries[1].1 == Some(JsonView::Str("next"@)));
                assert(entries[2].1 == Some(JsonView::Num(seq)));
                assert(entries[3].1 == Some(next_args_json(arguments)));
            }
            lemma_obj_of_wf(entries);
            lemma_obj_of_depth(entries, PAYLOAD_DEPTH_LIMIT as nat + 3);
            let fields = obj_of(entries);
            assert(jget(fields, "type"@) == entries[0].1);
            assert(jget(fields, "command"@) == entries[1].1);
            assert(jget(fields, "seq"@) == entries[2].1);
            assert(jget(fields, "arguments"@) == entries[3].1);
            assert(de_msg(msg_json(m)) == Some(m));
        },
        RequestMessageView::Scopes { seq, arguments } => {
            assert(entries.len() == 4 && entries[0].0 == "type"@ && entries[1].0 == "command"@
                && entries[2].0 == "seq"@ && entries[3].0 == "arguments"@);
            assert(forall|a: int, b: int|
                0 <= a < b < entries.len() ==> (#[trigger] entries[a].0) != (
                #[trigger] entries[b].0));
            lemma_obj_of_get(entries, 0);
            lemma_obj_of_get(entries, 1);
            lemma_obj_of_get(entries, 2);
            lemma_obj_of_get(entries, 3);
            lemma_scopes_args_codec(arguments);
            assert forall|i: int|
                0 <= i < entries.len() implies (#[trigger] entries[i].1 matches Some(x) ==> wf_json(
                x,
            ) && jdepth(x) <= PAYLOAD_DEPTH_LIMIT as nat + 3) by {
                assert(entries[0].1 == Some(JsonView::Str("request"@)));
                assert(entries[1].1 == Some(JsonView::Str("scopes"@)));
                assert(entries[2].1 == Some(JsonView::Num(seq)));
                assert(entries[3].1 == Some(scopes_args_json(arguments)));
            }
            lemma_obj_of_wf(entries);
            lemma_obj_of_depth(entries, PAYLOAD_DEPTH_LIMIT as nat + 3);
            let fields = obj_of(entries);
            assert(jget(fields, "type"@) == entries[0].1);
            assert(jget(fields, "command"@) == entries[1].1);
            assert(jget(fields, "seq"@) == entries[2].1);
            assert(jget(fields, "arguments"@) == entries[3].1);
            assert(de_msg(msg_json(m)) == Some(m));
        },
        RequestMessageView::SetBreakpoints { seq, arguments } => {
            assert(entries.len() == 4 && entries[0].0 == "type"@ && entries[1].0 == "command"@
                && entries[2].0 == "seq"@ && entries[3].0 == "arguments"@);
            assert(forall|a: int, b: int|
                0 <= a < b < entries.len() ==> (#[trigger] entries[a].0) != (
                #[trigger] entries[b].0));
            lemma_obj_of_get(entries, 0);
            lemma_obj_of_get(entries, 1);
            lemma_obj_of_get(entries, 2);
            lemma_obj_of_get(entries, 3);
            lemma_setbp_args_codec(arguments);
            assert forall|i: int|
                0 <= i < entries.len() implies (#[trigger] entries[i].1 matches Some(x) ==> wf_json(
                x,
            ) && jdepth(x) <= PAYLOAD_DEPTH_LIMIT as nat + 3) by {
                assert(entries[0].1 == Some(JsonView::Str("request"@)));
                assert(entries[1].1 == Some(JsonView::Str("setBreakpoints"@)));
                assert(entries[2].1 == Some(JsonView::Num(seq)));
                assert(entries[3].1 == Some(setbp_args_json(arguments)));
            }
            lemma_obj_of_wf(entries);
            lemma_obj_of_depth(entries, PAYLOAD_DEPTH_LIMIT as nat + 3);
            let fields = obj_of(entries);
            assert(jget(fields, "type"@) == entries[0].1);
            assert(jget(fields, "command"@) == entries[1].1);
            assert(jget(fields, "seq"@) == entries[2].1);
            assert(jget(fields, "arguments"@) == entries[3].1);
            assert(de_msg(msg_json(m)) == Some(m));
        },
        RequestMessageView::Variables { seq, arguments } => {
            assert(entries.len() == 4 && entries[0].0 == "type"@ && entries[1].0 == "command"@
                && entries[2].0 == "seq"@ && entries[3].0 == "arguments"@);
            assert(forall|a: int, b: int|
                0 <= a < b < entries.len() ==> (#[trigger] entries[a].0) != (
                #[trigger] entries[b].0));
            lemma_obj_of_get(entries, 0);
            lemma_obj_of_get(entries, 1);
            lemma_obj_of_get(entries, 2);
            lemma_obj_of_get(entries, 3);
            lemma_variables_args_codec(arguments);
            assert forall|i: int|
                0 <= i < entries.len() implies (#[trigger] entries[i].1 matches Some(x) ==> wf_json(
                x,
            ) && jdepth(x) <= PAYLOAD_DEPTH_LIMIT as nat + 3) by {
                assert(entries[0].1 == Some(JsonView::Str("request"@)));
                assert(entries[1].1 == Some(JsonView::Str("variables"@)));
                assert(entries[2].1 == Some(JsonView::Num(seq)));
                assert(entries[3].1 == Some(variables_args_json(arguments)));
            }
            lemma_obj_of_wf(entries);
            lemma_obj_of_depth(entries, PAYLOAD_DEPTH_LIMIT as nat + 3);
            let fields = obj_of(entries);
            assert(jget(fields, "type"@) == entries[0].1);
            assert(jget(fields, "command"@) == entries[1].1);
            assert(jget(fields, "seq"@) == entries[2].1);
            assert(jget(fields, "arguments"@) == entries[3].1);
            assert(de_msg(msg_json(m)) == Some(m));
        },
        RequestMessageView::Unknown => {
            assert(entries.len() == 2 && entries[0].0 == "type"@ && entries[1].0 == "command"@);
            assert(forall|a: int, b: int|
                0 <= a < b < entries.len() ==> (#[trigger] entries[a].0) != (
                #[trigger] entries[b].0));
            lemma_obj_of_get(entries, 0);
            lemma_obj_of_get(entries, 1);
            assert forall|i: int|
                0 <= i < entries.len() implies (#[trigger] entries[i].1 matches Some(x) ==> wf_json(
                x,
            ) && jdepth(x) <= PAYLOAD_DEPTH_LIMIT as nat + 3) by {
                assert(entries[0].1 == Some(JsonView::Str("request"@)));
                assert(entries[1].1 == Some(JsonView::Str("Unknown"@)));
            }
            lemma_obj_of_wf(entries);
            lemma_obj_of_depth(entries, PAYLOAD_DEPTH_LIMIT as nat + 3);
            let fields = obj_of(entries);
            assert(jget(fields, "type"@) == entries[0].1);
            assert(jget(fields, "command"@) == entries[1].1);
            assert(de_msg(msg_json(m)) == Some(m));
        },
    }
}


proof fn lemma_resp_command_names()
    ensures
        "cancelled"@.len() == 9,
        "initialize"@.len() == 10,
        "notStopped"@.len() == 10,
        "scopes"@.len() == 6,
        "variables"@.len() == 9,
        "setBreakpoints"@.len() == 14,
        "Unknown"@.len() == 7,
        "initialize"@[0] == 'i',
        "notStopped"@[0] == 'n',
        "cancelled"@[0] == 'c',
        "variables"@[0] == 'v',
{
    broadcast use vstd::string::group_string_axioms;

    reveal_strlit("cancelled");
    reveal_strlit("initialize");
    reveal_strlit("notStopped");
    reveal_strlit("scopes");
    reveal_strlit("variables");
    reveal_strlit("setBreakpoints");
    reveal_strlit("Unknown");
}

#[verifier::rlimit(100)]
#[verifier::spinoff_prover]
proof fn lemma_resp_rt(r: ResponseMessageView)
    requires
        wf_msg(ProtocolMessageView::Response(r)),
    ensures
        ({
            let m = ProtocolMessageView::Response(r);
            &&& msg_json(m) is Obj
            &&& wf_json(msg_json(m))
            &&& jdepth(msg_json(m)) <= PAYLOAD_DEPTH_LIMIT as nat + 5
            &&& de_msg(msg_json(m)) == Some(m)
        }),
{
    reveal(crate::codec::msg_json);
    reveal(crate::codec::de_msg);
    let m = ProtocolMessageView::Response(r);
    let entries = msg_entries(m);
    lemma_msg_keys();
    lemma_tag_names();
    lemma_resp_command_names();
    assert(entries == seq![("type"@, Some(JsonView::Str("response"@)))] + resp_entries(r));
    match r {
        ResponseMessageView::Cancelled => {
            assert(entries.len() == 2 && entries[0].0 == "type"@ && entries[1].0 == "command"@);
            assert(forall|a: int, b: int|
                0 <= a < b < entries.len() ==> (#[trigger] entries[a].0) != (
                #[trigger] entries[b].0));
            lemma_obj_of_get(entries, 0);
            lemma_obj_of_get(entries, 1);
            assert forall|i: int|
                0 <= i < entries.len() implies (#[trigger] entries[i].1 matches Some(x) ==> wf_json(
                x,
            ) && jdepth(x) <= PAYLOAD_DEPTH_LIMIT as nat + 4) by {
                assert(entries[0].1 == Some(JsonView::Str("response"@)));
                assert(entries[1].1 == Some(JsonView::Str("cancelled"@)));
            }
            lemma_obj_of_wf(entries);
            lemma_obj_of_depth(entries, PAYLOAD_DEPTH_LIMIT as nat + 4);
            let fields = obj_of(entries);
            assert(jget(fields, "type"@) == entries[0].1);
            assert(jget(fields, "command"@) == entries[1].1);
            assert(de_msg(msg_json(m)) == Some(m));
        },
        ResponseMessageView::Initialize { seq, request_seq, success, body } => {
            assert(entries.len() == 6 && entries[0].0 == "type"@ && entries[1].0 == "command"@
                && entries[2].0 == "seq"@ && entries[3].0 == "request_seq"@ && entries[4].0
                == "success"@ && entries[5].0 == "body"@);
            assert(forall|a: int, b: int|
                0 <= a < b < entries.len() ==> (#[trigger] entries[a].0) != (
                #[trigger] entries[b].0));
            lemma_obj_of_get(entries, 0);
            lemma_obj_of_get(entries, 1);
            lemma_obj_of_get(entries, 2);
            lemma_obj_of_get(entries, 3);
            lemma_obj_of_get(entries, 4);
            lemma_obj_of_get(entries, 5);
            match body {
                Some(c) => {
                    lemma_capabilities_codec(c);
                },
                None => {},
            }
            assert forall|i: int|
                0 <= i < entries.len() implies (#[trigger] entries[i].1 matches Some(x) ==> wf_json(
                x,
            ) && jdepth(x) <= PAYLOAD_DEPTH_LIMIT as nat + 4) by {
                assert(entries[0].1 == Some(JsonView::Str("response"@)));
                assert(entries[1].1 == Some(JsonView::Str("initialize"@)));
                assert(entries[2].1 == Some(JsonView::Num(seq)));
                assert(entries[3].1 == Some(JsonView::Num(request_seq)));
                assert(entries[4].1 == Some(JsonView::Bool(success)));
                match body {
                    Some(c) => {
                        assert(entries[5].1 == Some(capabilities_json(c)));
                    },
                    None => {
                        assert(entries[5].1 is None);
                    },
                }
            }
            lemma_obj_of_wf(entries);
            lemma_obj_of_depth(entries, PAYLOAD_DEPTH_LIMIT as nat + 4);
            let fields = obj_of(entries);
            assert(jget(fields, "type"@) == entries[0].1);
            assert(jget(fields, "command"@) == entries[1].1);
            assert(jget(fields, "seq"@) == entries[2].1);
            assert(jget(fields, "request_seq"@) == entries[3].1);
            assert(jget(fields, "success"@) == entries[4].1);
            assert(jget(fields, "body"@) == entries[5].1);
            assert(de_opt(jget(fields, "body"@), de_capabilities_fn()) == Some(body));
            assert(de_msg(msg_json(m)) == Some(m));
        },
        ResponseMessageView::NotStopped => {
            assert(entries.len() == 2 && entries[0].0 == "type"@ && entries[1].0 == "command"@);
            assert(forall|a: int, b: int|
                0 <= a < b < entries.len() ==> (#[trigger] entries[a].0) != (
                #[trigger] entries[b].0));
            lemma_obj_of_get(entries, 0);
            lemma_obj_of_get(entries, 1);
            assert forall|i: int|
                0 <= i < entries.len() implies (#[trigger] entries[i].1 matches Some(x) ==> wf_json(
                x,
            ) && jdepth(x) <= PAYLOAD_DEPTH_LIMIT as nat + 4) by {
                assert(entries[0].1 == Some(JsonView::Str("response"@)));
                assert(entries[1].1 == Some(JsonView::Str("notStopped"@)));
            }
            lemma_obj_of_wf(entries);
            lemma_obj_of_depth(entries, PAYLOAD_DEPTH_LIMIT as nat + 4);
            let fields = obj_of(entries);
            assert(jget(fields, "type"@) == entries[0].1);
            assert(jget(fields, "command"@) == entries[1].1);
            assert(de_msg(msg_json(m)) == Some(m));
        },
        ResponseMessageView::Scopes { seq, request_req, success, body } => {
            assert(entries.len() == 6 && entries[0].0 == "type"@ && entries[1].0 == "command"@
                && entries[2].0 == "seq"@ && entries[3].0 == "request_req"@ && entries[4].0
                == "success"@ && entries[5].0 == "body"@);
            assert(forall|a: int, b: int|
                0 <= a < b < entries.len() ==> (#[trigger] entries[a].0) != (
                #[trigger] entries[b].0));
            lemma_obj_of_get(entries, 0);
            lemma_obj_of_get(entries, 1);
            lemma_obj_of_get(entries, 2);
            lemma_obj_of_get(entries, 3);
            lemma_obj_of_get(entries, 4);
            lemma_obj_of_get(entries, 5);
            lemma_scopes_body_codec(body);
            assert forall|i: int|
                0 <= i < entries.len() implies (#[trigger] entries[i].1 matches Some(x) ==> wf_json(
                x,
            ) && jdepth(x) <= PAYLOAD_DEPTH_LIMIT as nat + 4) by {
                assert(entries[0].1 == Some(JsonView::Str("response"@)));
                assert(entries[1].1 == Some(JsonView::Str("scopes"@)));
                assert(entries[2].1 == Some(JsonView::Num(seq)));
                assert(entries[3].1 == Some(JsonView::Num(request_req)));
                assert(entries[4].1 == Some(JsonView::Bool(success)));
                assert(entries[5].1 == Some(scopes_body_json(body)));
            }
            lemma_obj_of_wf(entries);
            lemma_obj_of_depth(entries, PAYLOAD_DEPTH_LIMIT as nat + 4);
            let fields = obj_of(entries);
            assert(jget(fields, "type"@) == entries[0].1);
            assert(jget(fields, "command"@) == entries[1].1);
            assert(jget(fields, "seq"@) == entries[2].1);
            assert(jget(fields, "request_req"@) == entries[3].1);
            assert(jget(fields, "success"@) == entries[4].1);
            assert(jget(fields, "body"@) == entries[5].1);
            assert(de_msg(msg_json(m)) == Some(m));
        },
        ResponseMessageView::Variables { seq, request_req, success, body } => {
            assert(entries.len() == 6 && entries[0].0 == "type"@ && entries[1].0 == "command"@
                && entries[2].0 == "seq"@ && entries[3].0 == "request_req"@ && entries[4].0
                == "success"@ && entries[5].0 == "body"@);
            assert(forall|a: int, b: int|
                0 <= a < b < entries.len() ==> (#[trigger] entries[a].0) != (
                #[trigger] entries[b].0));
            lemma_obj_of_get(entries, 0);
            lemma_obj_of_get(entries, 1);
            lemma_obj_of_get(entries, 2);
            lemma_obj_of_get(entries, 3);
            lemma_obj_of_get(entries, 4);
            lemma_obj_of_get(entries, 5);
            lemma_variables_body_codec(body);
            assert forall|i: int|
                0 <= i < entries.len() implies (#[trigger] entries[i].1 matches Some(x) ==> wf_json(
                x,
            ) && jdepth(x) <= PAYLOAD_DEPTH_LIMIT as nat + 4) by {
                assert(entries[0].1 == Some(JsonView::Str("response"@)));
                assert(entries[1].1 == Some(JsonView::Str("variables"@)));
                assert(entries[2].1 == Some(JsonView::Num(seq)));
                assert(entries[3].1 == Some(JsonView::Num(request_req)));
                assert(entries[4].1 == Some(JsonView::Bool(success)));
                assert(entries[5].1 == Some(variables_body_json(body)));
            }
            lemma_obj_of_wf(entries);
            lemma_obj_of_depth(entries, PAYLOAD_DEPTH_LIMIT as nat + 4);
            let fields = obj_of(entries);
            assert(jget(fields, "type"@) == entries[0].1);
            assert(jget(fields, "command"@) == entries[1].1);
            assert(jget(fields, "seq"@) == entries[2].1);
            assert(jget(fields, "request_req"@) == entries[3].1);
            assert(jget(fields, "success"@) == entries[4].1);
            assert(jget(fields, "body"@) == entries[5].1);
            assert(de_msg(msg_json(m)) == Some(m));
        },
        ResponseMessageView::SetBreakpoints { seq, request_seq, success, body } => {
            assert(entries.len() == 6 && entries[0].0 == "type"@ && entries[1].0 == "command"@
                && entries[2].0 == "seq"@ && entries[3].0 == "request_seq"@ && entries[4].0
                == "success"@ && entries[5].0 == "body"@);
            assert(forall|a: int, b: int|
                0 <= a < b < entries.len() ==> (#[trigger] entries[a].0) != (
                #[trigger] entries[b].0));
            lemma_obj_of_get(entries, 0);
            lemma_obj_of_get(entries, 1);
            lemma_obj_of_get(entries, 2);
            lemma_obj_of_get(entries, 3);
            lemma_obj_of_get(entries, 4);
            lemma_obj_of_get(entries, 5);
            lemma_setbp_body_codec(body);
            assert forall|i: int|
                0 <= i < entries.len() implies (#[trigger] entries[i].1 matches Some(x) ==> wf_json(
                x,
            ) && jdepth(x) <= PAYLOAD_DEPTH_LIMIT as nat + 4) by {
                assert(entries[0].1 == Some(JsonView::Str("response"@)));
                assert(entries[1].1 == Some(JsonView::Str("setBreakpoints"@)));
                assert(entries[2].1 == Some(JsonView::Num(seq)));
                assert(entries[3].1 == Some(JsonView::Num(request_seq)));
                assert(entries[4].1 == Some(JsonView::Bool(success)));
                assert(entries[5].1 == Some(setbp_body_json(body)));
            }
            lemma_obj_of_wf(entries);
            lemma_obj_of_depth(entries, PAYLOAD_DEPTH_LIMIT as nat + 4);
            let fields = obj_of(entries);
            assert(jget(fields, "type"@) == entries[0].1);
            assert(jget(fields, "command"@) == entries[1].1);
            assert(jget(fields, "seq"@) == entries[2].1);
            assert(jget(fields, "request_seq"@) == entries[3].1);
            assert(jget(fields, "success"@) == entries[4].1);
            assert(jget(fields, "body"@) == entries[5].1);
            assert(de_msg(msg_json(m)) == Some(m));
        },
        ResponseMessageView::Unknown => {
            assert(entries.len() == 2 && entries[0].0 == "type"@ && entries[1].0 == "command"@);
            assert(forall|a: int, b: int|
                0 <= a < b < entries.len() ==> (#[trigger] entries[a].0) != (
                #[trigger] entries[b].0));
            lemma_obj_of_get(entries, 0);
            lemma_obj_of_get(entries, 1);
            assert forall|i: int|
                0 <= i < entries.len() implies (#[trigger] entries[i].1 matches Some(x) ==> wf_json(
                x,
            ) && jdepth(x) <= PAYLOAD_DEPTH_LIMIT as nat + 4) by {
                assert(entries[0].1 == Some(JsonView::Str("response"@)));
                assert(entries[1].1 == Some(JsonView::Str("Unknown"@)));
            }
            lemma_obj_of_wf(entries);
            lemma_obj_of_depth(entries, PAYLOAD_DEPTH_LIMIT as nat + 4);
            let fields = obj_of(entries);
            assert(jget(fields, "type"@) == entries[0].1);
            assert(jget(fields, "command"@) == entries[1].1);
            assert(de_msg(msg_json(m)) == Some(m));
        },
    }
}

proof fn lemma_event_names()
    ensures
        "breakpoint"@.len() == 10,
        "output"@.len() == 6,
        "stopped"@.len() == 7,
        "terminated"@.len() == 10,
        "Unknown"@.len() == 7,
        "breakpoint"@[0] == 'b',
        "terminated"@[0] == 't',
        "stopped"@[0] == 's',
        "Unknown"@[0] == 'U',
{
    broadcast use vstd::string::group_string_axioms;

    reveal_strlit("breakpoint");
    reveal_strlit("output");
    reveal_strlit("stopped");
    reveal_strlit("terminated");
    reveal_strlit("Unknown");
}

#[verifier::rlimit(100)]
#[verifier::spinoff_prover]
proof fn lemma_event_rt(e: DapEventView)
    requires
        wf_msg(ProtocolMessageView::Event(e)),
    ensures
        ({
            let m = ProtocolMessageView::Event(e);
            &&& msg_json(m) is Obj
            &&& wf_json(msg_json(m))
            &&& jdepth(msg_json(m)) <= PAYLOAD_DEPTH_LIMIT as nat + 4
            &&& de_msg(msg_json(m)) == Some(m)
        }),
{
    reveal(crate::codec::msg_json);
    reveal(crate::codec::de_msg);
    let m = ProtocolMessageView::Event(e);
    let entries = msg_entries(m);
    lemma_msg_keys();
    lemma_tag_names();
    lemma_event_names();
    assert(entries == seq![("type"@, Some(JsonView::Str("event"@)))] + event_entries(e));
    match e {
        DapEventView::Breakpoint { seq, body } => {
            assert(entries.len() == 4 && entries[0].0 == "type"@ && entries[1].0 == "event"@
                && entries[2].0 == "seq"@ && entries[3].0 == "body"@);
            assert(forall|a: int, b: int|
                0 <= a < b < entries.len() ==> (#[trigger] entries[a].0) != (
                #[trigger] entries[b].0));
            lemma_obj_of_get(entries, 0);
            lemma_obj_of_get(entries, 1);
            lemma_obj_of_get(entries, 2);
            lemma_obj_of_get(entries, 3);
            lemma_bp_event_codec(body);
            assert forall|i: int|
                0 <= i < entries.len() implies (#[trigger] entries[i].1 matches Some(x) ==> wf_json(
                x,
            ) && jdepth(x) <= PAYLOAD_DEPTH_LIMIT as nat + 3) by {
                assert(entries[0].1 == Some(JsonView::Str("event"@)));
                assert(entries[1].1 == Some(JsonView::Str("breakpoint"@)));
                assert(entries[2].1 == Some(JsonView::Num(seq)));
                assert(entries[3].1 == Some(bp_event_json(body)));
            }
            lemma_obj_of_wf(entries);
            lemma_obj_of_depth(entries, PAYLOAD_DEPTH_LIMIT as nat + 3);
            let fields = obj_of(entries);
            assert(jget(fields, "type"@) == entries[0].1);
            assert(jget(fields, "event"@) == entries[1].1);
            assert(jget(fields, "seq"@) == entries[2].1);
            assert(jget(fields, "body"@) == entries[3].1);
            assert(de_msg(msg_json(m)) == Some(m));
        },
        DapEventView::Output { seq, body } => {
            assert(entries.len() == 4 && entries[0].0 == "type"@ && entries[1].0 == "event"@
                && entries[2].0 == "seq"@ && entries[3].0 == "body"@);
            assert(forall|a: int, b: int|
                0 <= a < b < entries.len() ==> (#[trigger] entries[a].0) != (
                #[trigger] entries[b].0));
            lemma_obj_of_get(entries, 0);
            lemma_obj_of_get(entries, 1);
            lemma_obj_of_get(entries, 2);
            lemma_obj_of_get(entries, 3);
            lemma_output_event_codec(body);
            assert forall|i: int|
                0 <= i < entries.len() implies (#[trigger] entries[i].1 matches Some(x) ==> wf_json(
                x,
            ) && jdepth(x) <= PAYLOAD_DEPTH_LIMIT as nat + 3) by {
                assert(entries[0].1 == Some(JsonView::Str("event"@)));
                assert(entries[1].1 == Some(JsonView::Str("output"@)));
                assert(entries[2].1 == Some(JsonView::Num(seq)));
                assert(entries[3].1 == Some(output_event_json(body)));
            }
            lemma_obj_of_wf(entries);
            lemma_obj_of_depth(entries, PAYLOAD_DEPTH_LIMIT as nat + 3);
            let fields = obj_of(entries);
            assert(jget(fields, "type"@) == entries[0].1);
            assert(jget(fields, "event"@) == entries[1].1);
            assert(jget(fields, "seq"@) == entries[2].1);
            assert(jget(fields, "body"@) == entries[3].1);
            assert(de_msg(msg_json(m)) == Some(m));
        },
        DapEventView::Stopped { seq, body } => {
            assert(entries.len() == 4 && entries[0].0 == "type"@ && entries[1].0 == "event"@
                && entries[2].0 == "seq"@ && entries[3].0 == "body"@);
            assert(forall|a: int, b: int|
                0 <= a < b < entries.len() ==> (#[trigger] entries[a].0) != (
                #[trigger] entries[b].0));
            lemma_obj_of_get(entries, 0);
            lemma_obj_of_get(entries, 1);
            lemma_obj_of_get(entries, 2);
            lemma_obj_of_get(entries, 3);
            lemma_stopped_event_codec(body);
            assert forall|i: int|
                0 <= i < entries.len() implies (#[trigger] entries[i].1 matches Some(x) ==> wf_json(
                x,
            ) && jdepth(x) <= PAYLOAD_DEPTH_LIMIT as nat + 3) by {
                assert(entries[0].1 == Some(JsonView::Str("event"@)));
                assert(entries[1].1 == Some(JsonView::Str("stopped"@)));
                assert(entries[2].1 == Some(JsonView::Num(seq)));
                assert(entries[3].1 == Some(stopped_event_json(body)));
            }
            lemma_obj_of_wf(entries);
            lemma_obj_of_depth(entries, PAYLOAD_DEPTH_LIMIT as nat + 3);
            let fields = obj_of(entries);
            assert(jget(fields, "type"@) == entries[0].1);
            assert(jget(fields, "event"@) == entries[1].1);
            assert(jget(fields, "seq"@) == entries[2].1);
            assert(jget(fields, "body"@) == entries[3].1);
            assert(de_msg(msg_json(m)) == Some(m));
        },
        DapEventView::Terminated { seq } => {
            assert(entries.len() == 3 && entries[0].0 == "type"@ && entries[1].0 == "event"@
                && entries[2].0 == "seq"@);
            assert(forall|a: int, b: int|
                0 <= a < b < entries.len() ==> (#[trigger] entries[a].0) != (
                #[trigger] entries[b].0));
            lemma_obj_of_get(entries, 0);
            lemma_obj_of_get(entries, 1);
            lemma_obj_of_get(entries, 2);
            assert forall|i: int|
                0 <= i < entries.len() implies (#[trigger] entries[i].1 matches Some(x) ==> wf_json(
                x,
            ) && jdepth(x) <= PAYLOAD_DEPTH_LIMIT as nat + 3) by {
                assert(entries[0].1 == Some(JsonView::Str("event"@)));
                assert(entries[1].1 == Some(JsonView::Str("terminated"@)));
                assert(entries[2].1 == Some(JsonView::Num(seq)));
            }
            lemma_obj_of_wf(entries);
            lemma_obj_of_depth(entries, PAYLOAD_DEPTH_LIMIT as nat + 3);
            let fields = obj_of(entries);
            assert(jget(fields, "type"@) == entries[0].1);
            assert(jget(fields, "event"@) == entries[1].1);
            assert(jget(fields, "seq"@) == entries[2].1);
            assert(de_msg(msg_json(m)) == Some(m));
        },
        DapEventView::Unknown => {
            assert(entries.len() == 2 && entries[0].0 == "type"@ && entries[1].0 == "event"@);
            assert(forall|a: int, b: int|
                0 <= a < b < entries.len() ==> (#[trigger] entries[a].0) != (
                #[trigger] entries[b].0));
            lemma_obj_of_get(entries, 0);
            lemma_obj_of_get(entries, 1);
            assert forall|i: int|
                0 <= i < entries.len() implies (#[trigger] entries[i].1 matches Some(x) ==> wf_json(
                x,
            ) && jdepth(x) <= PAYLOAD_DEPTH_LIMIT as nat + 3) by {
                assert(entries[0].1 == Some(JsonView::Str("event"@)));
                assert(entries[1].1 == Some(JsonView::Str("Unknown"@)));
            }
            lemma_obj_of_wf(entries);
            lemma_obj_of_depth(entries, PAYLOAD_DEPTH_LIMIT as nat + 3);
            let fields = obj_of(entries);
            assert(jget(fields, "type"@) == entries[0].1);
            assert(jget(fields, "event"@) == entries[1].1);
            assert(de_msg(msg_json(m)) == Some(m));
        },
    }
}

/// Reading a written message yields it back, at the level of JSON values.
pub proof fn lemma_msg_codec(m: ProtocolMessageView)
    requires
        wf_msg(m),
    ensures
        wf_json(msg_json(m)),
        jdepth(msg_json(m)) <= PAYLOAD_DEPTH_LIMIT as nat + 5,
        de_msg(msg_json(m)) == Some(m),
{
    match m {
        ProtocolMessageView::Request(r) => {
            lemma_req_rt(r);
        },
        ProtocolMessageView::Response(r) => {
            lemma_resp_rt(r);
        },
        ProtocolMessageView::Event(e) => {
            lemma_event_rt(e);
        },
        ProtocolMessageView::Unknown => {
            reveal(crate::codec::msg_json);
            reveal(crate::codec::de_msg);
            let entries = msg_entries(m);
            lemma_msg_keys();
            lemma_tag_names();
            assert(entries.len() == 1 && entries[0].0 == "type"@);
            assert(forall|a: int, b: int|
                0 <= a < b < entries.len() ==> (#[trigger] entries[a].0) != (
                #[trigger] entries[b].0));
            lemma_obj_of_get(entries, 0);
            assert forall|i: int|
                0 <= i < entries.len() implies (#[trigger] entries[i].1 matches Some(x) ==> wf_json(
                x,
            ) && jdepth(x) <= 0) by {
                assert(entries[0].1 == Some(JsonView::Str("Unknown"@)));
            }
            lemma_obj_of_wf(entries);
            lemma_obj_of_depth(entries, 0);
            assert(jget(obj_of(entries), "type"@) == entries[0].1);
            assert(de_msg(msg_json(m)) == Some(m));
        },
    }
}

// ---------------------------------------------------------------------------
// Messages as text
// ---------------------------------------------------------------------------

/// The JSON text of a message.
pub open spec fn msg_text(m: ProtocolMessageView) -> Seq<char> {
    crate::json::spec_ser(msg_json(m))
}

/// A message read from JSON text.
pub open spec fn de_msg_text(s: Seq<char>) -> Option<ProtocolMessageView> {
    match crate::json::sp_json(s) {
        Some(j) => de_msg(j),
        None => None,
    }
}

impl ProtocolMessage {
    /// The JSON text of this message.
    pub fn encode(self) -> (out: Vec<char>)
        ensures
            out@ == msg_text(self@),
    {
        self.to_json().print()
    }

    /// A message read from JSON text.
    pub fn decode(s: &Vec<char>) -> (r: Option<ProtocolMessage>)
        ensures
            ov(r) == de_msg_text(s@),
    {
        match crate::json::parse_json(s) {
            Some(j) => ProtocolMessage::from_json(&j),
            None => None,
        }
    }
}

/// Writing any well-formed message as text and reading the text back yields
/// the message unchanged.
pub proof fn lemma_message_round_trip(m: ProtocolMessageView)
    requires
        wf_msg(m),
    ensures
        de_msg_text(msg_text(m)) == Some(m),
{
    lemma_msg_codec(m);
    crate::json::lemma_json_round_trip(msg_json(m));
}


/// One complete JSON document within the payload nesting budget.
pub open spec fn sp_payload(s: Seq<char>) -> Option<JsonView> {
    match crate::json::sp_value(s, 0, PAYLOAD_DEPTH_LIMIT as nat) {
        Some((v, j)) => if crate::json::sp_ws(s, j) == s.len() {
            Some(v)
        } else {
            None
        },
        None => None,
    }
}

/// Reads a payload the application hands over, within the nesting budget.
pub fn parse_payload(s: &Vec<char>) -> (r: Option<JsonValue>)
    ensures
        ({
            match r {
                Some(v) => sp_payload(s@) == Some(jview(v)),
                None => sp_payload(s@) is None,
            }
        }),
{
    match crate::json::parse_value(s, 0, PAYLOAD_DEPTH_LIMIT) {
        Some((v, j)) => {
            let e = crate::json::skip_ws(s, j);
            if e == s.len() {
                Some(v)
            } else {
                None
            }
        },
        None => None,
    }
}

} // verus!
