//! Framing: each message travels as an ASCII `Content-Length` header line,
//! a blank line, and exactly that many bytes of JSON text.

use vstd::prelude::*;
use vstd::string::StringExecFns;
use vstd::string::StrSliceExecFns;
use crate::json::dec_digits;
use crate::json::dec_val;
use crate::json::is_digit;
use crate::json::all_digits;
use crate::json::is_ws;
use crate::json::write_u64;
use crate::json::copy_range;
use crate::json::lemma_dec_digits;
use crate::errors::DapError;

verus! {

broadcast use vstd::std_specs::vec::group_vec_axioms;

/// Relies on String's FromIterator for characters: collecting yields a
/// string holding exactly the given characters; a string that exists in
/// memory encodes to no more bytes than an allocation can hold.
#[verifier::external_body]
pub fn chars_to_string(v: &Vec<char>) -> (s: String)
    ensures
        s@ == v@,
        vstd::utf8::encode_utf8(s@).len() <= usize::MAX,
{
    v.iter().collect()
}

/// The full frame around a message body: the header states how many bytes
/// the body's UTF-8 encoding takes.
pub open spec fn frame_text(body: Seq<char>) -> Seq<char> {
    "Content-Length: "@ + dec_digits(vstd::utf8::encode_utf8(body).len()) + "\r\n\r\n"@ + body
}

/// Wraps a message body in its frame.
pub fn make_frame(body: &Vec<char>) -> (f: String)
    ensures
        f@ == frame_text(body@),
{
    let body_s = chars_to_string(body);
    let n: usize = body_s.as_str().len();
    let mut digits: Vec<char> = Vec::new();
    write_u64(n as u64, &mut digits);
    let mut f = String::from_str("Content-Length: ");
    let digits_s = chars_to_string(&digits);
    f.append(digits_s.as_str());
    f.append("\r\n\r\n");
    f.append(body_s.as_str());
    proof {
        assert(f@ =~= frame_text(body@));
    }
    f
}

/// Where a header line splits at its first space, if anywhere.
pub open spec fn sp_first_space(s: Seq<char>, i: int) -> Option<int>
    decreases s.len() - i,
{
    if i < 0 || i >= s.len() {
        None
    } else if s[i] == ' ' {
        Some(i)
    } else {
        sp_first_space(s, i + 1)
    }
}

/// A stretch of text with surrounding whitespace dropped.
pub open spec fn sp_trim(s: Seq<char>) -> Seq<char>
    decreases s.len(),
{
    if s.len() == 0 {
        s
    } else if is_ws(s[0]) {
        sp_trim(s.skip(1))
    } else if is_ws(s.last()) {
        sp_trim(s.drop_last())
    } else {
        s
    }
}

/// What a received header line means: it must read `Content-Length:`,
/// a space, and a decimal byte count.
pub open spec fn sp_content_length(line: Seq<char>) -> Option<int> {
    match sp_first_space(line, 0) {
        Some(sp) => {
            if sp_trim(line.take(sp)) == "Content-Length:"@ {
                let v = sp_trim(line.skip(sp + 1));
                if v.len() > 0 && all_digits(v) && dec_val(v) <= usize::MAX {
                    Some(dec_val(v) as int)
                } else {
                    None
                }
            } else {
                None
            }
        },
        None => None,
    }
}

/// The first index at or after `i` that holds no whitespace.
fn skip_ws_from(s: &Vec<char>, i: usize) -> (j: usize)
    requires
        i <= s.len(),
    ensures
        i <= j <= s.len(),
        forall|k: int| i <= k < j ==> is_ws(#[trigger] s@[k]),
        j < s.len() ==> !is_ws(s@[j as int]),
    decreases s.len() - i,
{
    let mut j = i;
    while j < s.len() && (s[j] == ' ' || s[j] == '\t' || s[j] == '\n' || s[j] == '\r')
        invariant
            i <= j <= s.len(),
            forall|k: int| i <= k < j ==> is_ws(#[trigger] s@[k]),
        decreases s.len() - j,
    {
        j = j + 1;
    }
    j
}

proof fn lemma_trim_all_ws(s: Seq<char>)
    requires
        forall|k: int| 0 <= k < s.len() ==> is_ws(#[trigger] s[k]),
    ensures
        sp_trim(s) == Seq::<char>::empty(),
    decreases s.len(),
{
    if s.len() == 0 {
        assert(sp_trim(s) =~= Seq::<char>::empty());
    } else {
        assert forall|k: int| 0 <= k < s.skip(1).len() implies is_ws(#[trigger] s.skip(1)[k]) by {
            assert(s.skip(1)[k] == s[k + 1]);
        }
        lemma_trim_all_ws(s.skip(1));
    }
}

proof fn lemma_trim_window(s: Seq<char>, a: int, b: int)
    requires
        0 <= a <= b <= s.len(),
        forall|k: int| 0 <= k < a ==> is_ws(#[trigger] s[k]),
        forall|k: int| b <= k < s.len() ==> is_ws(#[trigger] s[k]),
        a < b ==> !is_ws(s[a]) && !is_ws(s[b - 1]),
    ensures
        sp_trim(s) == s.subrange(a, b),
    decreases s.len(),
{
    if a == b {
        lemma_trim_all_ws(s);
        assert(s.subrange(a, b) =~= Seq::<char>::empty());
    } else if s.len() == 0 {
        assert(s.subrange(a, b) =~= s);
    } else if is_ws(s[0]) {
        assert(a > 0);
        assert forall|k: int| 0 <= k < a - 1 implies is_ws(#[trigger] s.skip(1)[k]) by {
            assert(s.skip(1)[k] == s[k + 1]);
        }
        assert forall|k: int| b - 1 <= k < s.skip(1).len() implies is_ws(
            #[trigger] s.skip(1)[k],
        ) by {
            assert(s.skip(1)[k] == s[k + 1]);
        }
        assert(s.skip(1)[a - 1] == s[a]);
        assert(s.skip(1)[b - 2] == s[b - 1]);
        lemma_trim_window(s.skip(1), a - 1, b - 1);
        assert(s.skip(1).subrange(a - 1, b - 1) =~= s.subrange(a, b));
    } else if is_ws(s.last()) {
        assert(b < s.len());
        assert forall|k: int| b <= k < s.drop_last().len() implies is_ws(
            #[trigger] s.drop_last()[k],
        ) by {
            assert(s.drop_last()[k] == s[k]);
        }
        assert(s.drop_last()[a] == s[a]);
        assert(s.drop_last()[b - 1] == s[b - 1]);
        lemma_trim_window(s.drop_last(), a, b);
        assert(s.drop_last().subrange(a, b) =~= s.subrange(a, b));
    } else {
        assert(a == 0 && b == s.len());
        assert(s.subrange(a, b) =~= s);
    }
}


/// The first space in a header line, if any.
fn find_space(line: &Vec<char>) -> (r: Option<usize>)
    ensures
        ({
            match r {
                Some(sp) => sp < line.len() && sp_first_space(line@, 0) == Some(sp as int),
                None => sp_first_space(line@, 0) is None,
            }
        }),
{
    let mut sp: usize = 0;
    while sp < line.len()
        invariant
            sp <= line.len(),
            sp_first_space(line@, 0) == sp_first_space(line@, sp as int),
        decreases line.len() - sp,
    {
        if line[sp] == ' ' {
            return Some(sp);
        }
        sp = sp + 1;
    }
    None
}

/// Reads a `Content-Length` header line; anything else is a framing error.
pub fn parse_content_length(line: &Vec<char>) -> (r: Result<usize, DapError>)
    ensures
        ({
            match r {
                Ok(n) => sp_content_length(line@) == Some(n as int),
                Err(e) => sp_content_length(line@) is None && (match sp_first_space(line@, 0) {
                    None => e is BadMessageHeader,
                    Some(sp) => if sp_trim(line@.take(sp)) != "Content-Length:"@ {
                        e is BadMessageHeader
                    } else {
                        e is InvalidContentLength
                    },
                }),
            }
        }),
{
    let sp = match find_space(line) {
        Some(x) => x,
        None => {
            return Err(DapError::BadMessageHeader(copy_range(line, 0, line.len())));
        },
    };

    // the header word, with whitespace trimmed
    let a = skip_ws_from_to(line, 0, sp);
    let mut b = sp;
    while b > a && (line[b - 1] == ' ' || line[b - 1] == '\t' || line[b - 1] == '\n' || line[b - 1]
        == '\r')
        invariant
            a <= b <= sp <= line.len(),
            forall|k: int| b <= k < sp ==> is_ws(#[trigger] line@[k]),
        decreases b,
    {
        b = b - 1;
    }
    let header = copy_range(line, a, b);
    proof {
        lemma_trim_window(line@.take(sp as int), a as int, b as int);
        assert(line@.take(sp as int).subrange(a as int, b as int) =~= line@.subrange(
            a as int,
            b as int,
        ));
    }
    if !crate::json::text_eq_str(&header, "Content-Length:") {
        return Err(DapError::BadMessageHeader(copy_range(line, 0, line.len())));
    }
    // the value, with whitespace trimmed
    let a2 = skip_ws_from(line, sp + 1);
    let mut b2 = line.len();
    while b2 > a2 && (line[b2 - 1] == ' ' || line[b2 - 1] == '\t' || line[b2 - 1] == '\n'
        || line[b2 - 1] == '\r')
        invariant
            a2 <= b2 <= line.len(),
            forall|k: int| b2 <= k < line.len() ==> is_ws(#[trigger] line@[k]),
        decreases b2,
    {
        b2 = b2 - 1;
    }
    let value = copy_range(line, a2, b2);
    proof {
        lemma_trim_window(line@.skip(sp as int + 1), a2 - (sp as int + 1), b2 - (sp as int + 1));
        assert(line@.skip(sp as int + 1).subrange(
            a2 - (sp as int + 1),
            b2 - (sp as int + 1),
        ) =~= line@.subrange(a2 as int, b2 as int));
    }
    match parse_decimal_usize(&value) {
        Some(n) => Ok(n),
        None => Err(DapError::InvalidContentLength(copy_range(line, a2, b2))),
    }
}

/// The first non-whitespace index in `[i, hi)`.
fn skip_ws_from_to(s: &Vec<char>, i: usize, hi: usize) -> (j: usize)
    requires
        i <= hi <= s.len(),
    ensures
        i <= j <= hi,
        forall|k: int| i <= k < j ==> is_ws(#[trigger] s@[k]),
        j < hi ==> !is_ws(s@[j as int]),
    decreases hi - i,
{
    let mut j = i;
    while j < hi && (s[j] == ' ' || s[j] == '\t' || s[j] == '\n' || s[j] == '\r')
        invariant
            i <= j <= hi <= s.len(),
            forall|k: int| i <= k < j ==> is_ws(#[trigger] s@[k]),
        decreases hi - j,
    {
        j = j + 1;
    }
    j
}

/// Reads a plain decimal number that fits an allocation size.
fn parse_decimal_usize(v: &Vec<char>) -> (r: Option<usize>)
    ensures
        ({
            let t = v@;
            match r {
                Some(n) => t.len() > 0 && all_digits(t) && dec_val(t) <= usize::MAX && n == dec_val(
                    t,
                ),
                None => !(t.len() > 0 && all_digits(t) && dec_val(t) <= usize::MAX),
            }
        }),
{
    if v.len() == 0 {
        return None;
    }
    let mut val: usize = 0;
    let mut i: usize = 0;
    while i < v.len()
        invariant
            0 <= i <= v.len(),
            forall|k: int| 0 <= k < i ==> is_digit(#[trigger] v@[k]),
            val == dec_val(v@.take(i as int)),
        decreases v.len() - i,
    {
        let c = v[i];
        if !('0' <= c && c <= '9') {
            assert(!all_digits(v@));
            return None;
        }
        let dv: usize = crate::json::digit_val_exec(c) as usize;
        if val > (usize::MAX - dv) / 10 {
            proof {
                assert(v@.take(i as int + 1).drop_last() =~= v@.take(i as int));
                assert(dec_val(v@.take(i as int + 1)) == val * 10 + dv);
                assert(val * 10 + dv > usize::MAX) by {
                    let q = (usize::MAX - dv) / 10;
                    assert(usize::MAX - dv == 10 * q + (usize::MAX - dv) % 10);
                };
                lemma_dec_val_grows_pub(v@, i as int + 1);
            }
            return None;
        }
        proof {
            let q = (usize::MAX - dv) / 10;
            assert(usize::MAX - dv == 10 * q + (usize::MAX - dv) % 10);
            assert(val * 10 <= q * 10);
        }
        val = val * 10 + dv;
        i = i + 1;
        proof {
            assert(v@.take(i as int).drop_last() =~= v@.take(i as int - 1));
            assert(v@.take(i as int).last() == v@[i as int - 1]);
        }
    }
    assert(v@.take(v.len() as int) =~= v@);
    Some(val)
}

proof fn lemma_dec_val_grows_pub(s: Seq<char>, i: int)
    requires
        0 <= i <= s.len(),
    ensures
        dec_val(s.take(i)) <= dec_val(s),
    decreases s.len() - i,
{
    if i < s.len() {
        lemma_dec_val_grows_pub(s, i + 1);
        assert(s.take(i + 1).drop_last() =~= s.take(i));
        assert(dec_val(s.take(i + 1)) == dec_val(s.take(i)) * 10 + crate::json::digit_val(
            s.take(i + 1).last(),
        ));
    } else {
        assert(s.take(i) =~= s);
    }
}

/// The header line a written frame starts with parses back to the body's
/// byte count.
pub proof fn lemma_frame_header_round_trip(n: nat)
    requires
        n <= usize::MAX,
    ensures
        sp_content_length("Content-Length: "@ + dec_digits(n) + "\r\n"@) == Some(n as int),
{
    broadcast use vstd::string::group_string_axioms;

    reveal_strlit("Content-Length: ");
    reveal_strlit("Content-Length:");
    reveal_strlit("\r\n");
    lemma_dec_digits(n);
    let line = "Content-Length: "@ + dec_digits(n) + "\r\n"@;
    assert("Content-Length: "@.len() == 16);
    assert("Content-Length: "@[15] == ' ');
    assert forall|k: int| 0 <= k < 15 implies line[k] != ' ' by {
        assert(line[k] == "Content-Length: "@[k]);
    }
    lemma_first_space_exact(line, 0, 15);
    assert(sp_first_space(line, 0) == Some(15int));
    let head = line.take(15);
    assert(head =~= "Content-Length:"@);
    assert(!is_ws(head[0]) && !is_ws(head.last()));
    lemma_trim_window(head, 0, head.len() as int);
    assert(head.subrange(0, head.len() as int) =~= head);
    let tailp = line.skip(16);
    assert(tailp =~= dec_digits(n) + "\r\n"@);
    let d = dec_digits(n);
    assert forall|k: int| d.len() <= k < tailp.len() implies is_ws(#[trigger] tailp[k]) by {
        assert(tailp[k] == "\r\n"@[k - d.len()]);
    }
    assert(!is_ws(tailp[0])) by {
        assert(tailp[0] == d[0]);
        assert(is_digit(d[0]));
    }
    assert(!is_ws(tailp[d.len() - 1])) by {
        assert(tailp[d.len() - 1] == d[d.len() - 1]);
        assert(is_digit(d[d.len() - 1]));
    }
    lemma_trim_window(tailp, 0, d.len() as int);
    assert(tailp.subrange(0, d.len() as int) =~= d);
    assert(sp_trim(tailp) == d);
}

proof fn lemma_first_space_exact(s: Seq<char>, i: int, e: int)
    requires
        0 <= i <= e < s.len(),
        forall|k: int| i <= k < e ==> s[k] != ' ',
        s[e] == ' ',
    ensures
        sp_first_space(s, i) == Some(e),
    decreases e - i,
{
    if i < e {
        lemma_first_space_exact(s, i + 1, e);
    }
}

} // verus!
