//! The engine's cross-cutting guarantees, stated and proved once, on the
//! same models the functions' own contracts use.

use vstd::prelude::*;
use crate::breakpoints::insert_line;
use crate::breakpoints::lines_sorted;
use crate::dap_interface::ActionView;
use crate::dap_interface::out_actions;
use crate::message::ProtocolMessageView;

verus! {

/// The value the sequence allocator hands out on its `k`-th call after the
/// counter stood at `c0`: each call returns the counter plus one and
/// advances it, so the `k`-th call yields `c0 + k + 1`.
pub open spec fn allocated_seq(c0: u64, k: nat) -> int {
    c0 + k + 1
}

/// Sequence numbers are strictly increasing and never repeat: of any two
/// allocations from one session, the earlier one yields the strictly
/// smaller number.
pub proof fn lemma_sequence_monotonicity(c0: u64, i: nat, j: nat)
    requires
        i < j,
    ensures
        allocated_seq(c0, i) < allocated_seq(c0, j),
        allocated_seq(c0, i) != allocated_seq(c0, j),
{
}

/// Before a successful initialize response has been drained, a tick sends
/// nothing at all: everything drained from the adapter only mirrors output,
/// so in particular no launch request reaches the wire.
pub proof fn lemma_no_send_before_initialize(msgs: Seq<ProtocolMessageView>, n: int)
    ensures
        forall|k: int|
            0 <= k < out_actions(msgs, n).len() ==> !((#[trigger] out_actions(msgs, n)[k])
                is Send),
    decreases n,
{
    if n <= 0 || n > msgs.len() {
    } else {
        lemma_no_send_before_initialize(msgs, n - 1);
        let prev = out_actions(msgs, n - 1);
        let whole = out_actions(msgs, n);
        assert forall|k: int| 0 <= k < whole.len() implies !((#[trigger] whole[k]) is Send) by {
            if k < prev.len() {
                assert(whole[k] == prev[k]);
            }
        }
    }
}

/// Putting the same breakpoint in twice leaves exactly what one insertion
/// leaves: one entry for that line, everything else untouched.
pub proof fn lemma_breakpoint_add_idempotent(lines: Seq<u64>, line: u64)
    requires
        lines_sorted(lines),
    ensures
        insert_line(insert_line(lines, line), line) == insert_line(lines, line),
{
    crate::breakpoints::lemma_add_idempotent(lines, line);
}

/// The framing round trip: a message's frame is its byte-count header, a
/// blank line and its JSON text; the header line reads back as exactly the
/// body's byte count, and decoding the body yields the message unchanged.
pub proof fn lemma_framed_round_trip(m: ProtocolMessageView)
    requires
        crate::codec::wf_msg(m),
    ensures
        ({
            let body = crate::codec::msg_text(m);
            let n = vstd::utf8::encode_utf8(body).len();
            &&& crate::dap::msg_frame(m) == "Content-Length: "@ + crate::json::dec_digits(n)
                + "\r\n\r\n"@ + body
            &&& crate::codec::de_msg_text(body) == Some(m)
            &&& n <= usize::MAX ==> crate::dap_messenger::sp_content_length(
                "Content-Length: "@ + crate::json::dec_digits(n) + "\r\n"@,
            ) == Some(n as int)
        }),
{
    let body = crate::codec::msg_text(m);
    let n = vstd::utf8::encode_utf8(body).len();
    crate::codec::lemma_message_round_trip(m);
    if n <= usize::MAX {
        crate::dap_messenger::lemma_frame_header_round_trip(n);
    }
}

} // verus!
