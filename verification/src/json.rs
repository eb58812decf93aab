//! The engine's own JSON representation: a value tree, a printer and a
//! tolerant parser, together with a proof that parsing inverts printing.
//!
//! Numbers the engine does not interpret are kept as their spelling on the
//! wire (a lexeme) rather than as floating point, so that they pass through
//! unchanged; the only numbers the engine reads or writes itself are
//! unsigned integers.

use vstd::prelude::*;

verus! {

broadcast use vstd::std_specs::vec::group_vec_axioms;

/// A JSON value as the engine holds it in memory.
///
/// `Num` carries an integer the engine interprets; `NumRaw` carries the
/// spelling of any other number, kept verbatim. Object fields keep their
/// order of appearance.
#[derive(Debug)]
pub enum JsonValue {
    Null,
    Bool(bool),
    Num(u64),
    NumRaw(Vec<char>),
    Str(Vec<char>),
    Arr(Vec<JsonValue>),
    Obj(Vec<(Vec<char>, JsonValue)>),
}

/// The mathematical shadow of [`JsonValue`], used in every contract.
pub enum JsonView {
    Null,
    Bool(bool),
    Num(u64),
    NumRaw(Seq<char>),
    Str(Seq<char>),
    Arr(Seq<JsonView>),
    Obj(Seq<(Seq<char>, JsonView)>),
}

pub open spec fn jview(v: JsonValue) -> JsonView
    decreases v,
{
    match v {
        JsonValue::Null => JsonView::Null,
        JsonValue::Bool(b) => JsonView::Bool(b),
        JsonValue::Num(n) => JsonView::Num(n),
        JsonValue::NumRaw(lex) => JsonView::NumRaw(lex@),
        JsonValue::Str(s) => JsonView::Str(s@),
        JsonValue::Arr(elems) => JsonView::Arr(jview_elems(elems, elems.len() as int)),
        JsonValue::Obj(fields) => JsonView::Obj(jview_fields(fields, fields.len() as int)),
    }
}

pub open spec fn jview_elems(elems: Vec<JsonValue>, n: int) -> Seq<JsonView>
    decreases elems, n,
{
    if n <= 0 || n > elems.len() {
        Seq::empty()
    } else {
        jview_elems(elems, n - 1).push(jview(elems[n - 1]))
    }
}

pub open spec fn jview_fields(fields: Vec<(Vec<char>, JsonValue)>, n: int) -> Seq<
    (Seq<char>, JsonView),
>
    decreases fields, n,
{
    if n <= 0 || n > fields.len() {
        Seq::empty()
    } else {
        jview_fields(fields, n - 1).push((fields[n - 1].0@, jview(fields[n - 1].1)))
    }
}

impl View for JsonValue {
    type V = JsonView;

    open spec fn view(&self) -> JsonView {
        jview(*self)
    }
}

// ---------------------------------------------------------------------------
// Character classes and decimal digits
// ---------------------------------------------------------------------------

pub open spec fn is_digit(c: char) -> bool {
    '0' <= c && c <= '9'
}

pub open spec fn digit_val(c: char) -> nat {
    (c as nat - '0' as nat) as nat
}

pub open spec fn digit_char(d: nat) -> char {
    if d == 0 {
        '0'
    } else if d == 1 {
        '1'
    } else if d == 2 {
        '2'
    } else if d == 3 {
        '3'
    } else if d == 4 {
        '4'
    } else if d == 5 {
        '5'
    } else if d == 6 {
        '6'
    } else if d == 7 {
        '7'
    } else if d == 8 {
        '8'
    } else {
        '9'
    }
}

/// The characters a number's spelling may consist of.
pub open spec fn is_num_char(c: char) -> bool {
    is_digit(c) || c == '-' || c == '+' || c == '.' || c == 'e' || c == 'E'
}

/// The characters a number's spelling may start with.
pub open spec fn is_num_start(c: char) -> bool {
    is_digit(c) || c == '-'
}

pub open spec fn all_digits(s: Seq<char>) -> bool {
    forall|i: int| 0 <= i < s.len() ==> is_digit(#[trigger] s[i])
}

/// The value of a string of decimal digits.
pub open spec fn dec_val(s: Seq<char>) -> nat
    decreases s.len(),
{
    if s.len() == 0 {
        0
    } else {
        dec_val(s.drop_last()) * 10 + digit_val(s.last())
    }
}

/// The decimal spelling of `n`, with no leading zero.
pub open spec fn dec_digits(n: nat) -> Seq<char>
    decreases n,
{
    if n < 10 {
        seq![digit_char(n)]
    } else {
        dec_digits(n / 10).push(digit_char(n % 10))
    }
}

/// Whether `s` is exactly how the printer spells some `u64`: digits only,
/// no leading zero, and a value in range.
pub open spec fn is_canonical_u64(s: Seq<char>) -> bool {
    s.len() > 0 && all_digits(s) && (s.len() == 1 || s[0] != '0') && dec_val(s) <= u64::MAX
}

// ---------------------------------------------------------------------------
// Well-formedness
// ---------------------------------------------------------------------------

/// A kept number spelling: scannable as one number token, and not a spelling
/// the printer would produce for a `Num`, so that parsing is unambiguous.
pub open spec fn wf_num_raw(lex: Seq<char>) -> bool {
    &&& lex.len() > 0
    &&& is_num_start(lex[0])
    &&& forall|i: int| 0 <= i < lex.len() ==> is_num_char(#[trigger] lex[i])
    &&& !is_canonical_u64(lex)
}

/// Values the printer can emit and the parser will read back unchanged.
pub open spec fn wf_json(v: JsonView) -> bool
    decreases v,
{
    match v {
        JsonView::Null => true,
        JsonView::Bool(_) => true,
        JsonView::Num(_) => true,
        JsonView::NumRaw(lex) => wf_num_raw(lex),
        JsonView::Str(_) => true,
        JsonView::Arr(elems) => forall|i: int|
            0 <= i < elems.len() ==> wf_json(#[trigger] elems[i]),
        JsonView::Obj(fields) => forall|i: int|
            0 <= i < fields.len() ==> wf_json(#[trigger] fields[i].1),
    }
}

/// Nesting depth of a value; containers count one level each.
pub open spec fn jdepth(v: JsonView) -> nat
    decreases v,
{
    match v {
        JsonView::Arr(elems) => 1 + jdepth_elems(elems, elems.len() as int),
        JsonView::Obj(fields) => 1 + jdepth_fields(fields, fields.len() as int),
        _ => 0,
    }
}

pub open spec fn jdepth_elems(elems: Seq<JsonView>, n: int) -> nat
    decreases elems, n,
{
    if n <= 0 || n > elems.len() {
        0
    } else {
        vstd::math::max(jdepth_elems(elems, n - 1) as int, jdepth(elems[n - 1]) as int) as nat
    }
}

pub open spec fn jdepth_fields(fields: Seq<(Seq<char>, JsonView)>, n: int) -> nat
    decreases fields, n,
{
    if n <= 0 || n > fields.len() {
        0
    } else {
        vstd::math::max(jdepth_fields(fields, n - 1) as int, jdepth(fields[n - 1].1) as int) as nat
    }
}

// ---------------------------------------------------------------------------
// Printing, at the specification level
// ---------------------------------------------------------------------------

/// How one character of string content appears on the wire: quotes and
/// backslashes are escaped, control characters become `\u00XX`.
pub open spec fn esc_char(c: char) -> Seq<char> {
    if c == '"' {
        seq!['\\', '"']
    } else if c == '\\' {
        seq!['\\', '\\']
    } else if (c as u32) < 0x20 {
        seq!['\\', 'u', '0', '0', digit_char16((c as u32 / 16) as nat), digit_char16(
            (c as u32 % 16) as nat,
        )]
    } else {
        seq![c]
    }
}

pub open spec fn digit_char16(d: nat) -> char {
    if d < 10 {
        digit_char(d)
    } else if d == 10 {
        'a'
    } else if d == 11 {
        'b'
    } else if d == 12 {
        'c'
    } else if d == 13 {
        'd'
    } else if d == 14 {
        'e'
    } else {
        'f'
    }
}

pub open spec fn esc_string(s: Seq<char>) -> Seq<char>
    decreases s.len(),
{
    if s.len() == 0 {
        Seq::empty()
    } else {
        esc_string(s.drop_last()) + esc_char(s.last())
    }
}

/// The wire text of a value.
pub open spec fn spec_ser(v: JsonView) -> Seq<char>
    decreases v,
{
    match v {
        JsonView::Null => seq!['n', 'u', 'l', 'l'],
        JsonView::Bool(b) => if b {
            seq!['t', 'r', 'u', 'e']
        } else {
            seq!['f', 'a', 'l', 's', 'e']
        },
        JsonView::Num(n) => dec_digits(n as nat),
        JsonView::NumRaw(lex) => lex,
        JsonView::Str(s) => seq!['"'] + esc_string(s) + seq!['"'],
        JsonView::Arr(elems) => seq!['['] + spec_ser_elems(elems, 0) + seq![']'],
        JsonView::Obj(fields) => seq!['{'] + spec_ser_fields(fields, 0) + seq!['}'],
    }
}

/// The wire text of the elements of an array from index `k` on, comma
/// separated.
pub open spec fn spec_ser_elems(elems: Seq<JsonView>, k: int) -> Seq<char>
    decreases elems, elems.len() - k,
{
    if k < 0 || k >= elems.len() {
        Seq::empty()
    } else if k == elems.len() - 1 {
        spec_ser(elems[k])
    } else {
        spec_ser(elems[k]) + seq![','] + spec_ser_elems(elems, k + 1)
    }
}

pub open spec fn spec_ser_field(f: (Seq<char>, JsonView)) -> Seq<char>
    decreases f,
{
    seq!['"'] + esc_string(f.0) + seq!['"', ':'] + spec_ser(f.1)
}

/// The wire text of the fields of an object from index `k` on, comma
/// separated.
pub open spec fn spec_ser_fields(fields: Seq<(Seq<char>, JsonView)>, k: int) -> Seq<char>
    decreases fields, fields.len() - k,
{
    if k < 0 || k >= fields.len() {
        Seq::empty()
    } else if k == fields.len() - 1 {
        spec_ser_field(fields[k])
    } else {
        spec_ser_field(fields[k]) + seq![','] + spec_ser_fields(fields, k + 1)
    }
}

// ---------------------------------------------------------------------------
// View lemmas
// ---------------------------------------------------------------------------

pub proof fn lemma_jview_elems(elems: Vec<JsonValue>, n: int)
    requires
        0 <= n <= elems.len(),
    ensures
        jview_elems(elems, n).len() == n,
        forall|i: int| 0 <= i < n ==> #[trigger] jview_elems(elems, n)[i] == jview(elems[i]),
    decreases n,
{
    if n > 0 {
        lemma_jview_elems(elems, n - 1);
    }
}

pub proof fn lemma_jview_fields(fields: Vec<(Vec<char>, JsonValue)>, n: int)
    requires
        0 <= n <= fields.len(),
    ensures
        jview_fields(fields, n).len() == n,
        forall|i: int|
            0 <= i < n ==> #[trigger] jview_fields(fields, n)[i] == (
                fields[i].0@,
                jview(fields[i].1),
            ),
    decreases n,
{
    if n > 0 {
        lemma_jview_fields(fields, n - 1);
    }
}

// ---------------------------------------------------------------------------
// Printing, executable
// ---------------------------------------------------------------------------

fn digit_char_exec(d: u64) -> (c: char)
    requires
        d < 10,
    ensures
        c == digit_char(d as nat),
{
    match d {
        0 => '0',
        1 => '1',
        2 => '2',
        3 => '3',
        4 => '4',
        5 => '5',
        6 => '6',
        7 => '7',
        8 => '8',
        _ => '9',
    }
}

pub fn digit_char16_exec(d: u32) -> (c: char)
    requires
        d < 16,
    ensures
        c == digit_char16(d as nat),
{
    match d {
        0 => '0',
        1 => '1',
        2 => '2',
        3 => '3',
        4 => '4',
        5 => '5',
        6 => '6',
        7 => '7',
        8 => '8',
        9 => '9',
        10 => 'a',
        11 => 'b',
        12 => 'c',
        13 => 'd',
        14 => 'e',
        _ => 'f',
    }
}

/// Appends the decimal spelling of `n` to `out`.
pub fn write_u64(n: u64, out: &mut Vec<char>)
    ensures
        final(out)@ == old(out)@ + dec_digits(n as nat),
    decreases n,
{
    if n < 10 {
        out.push(digit_char_exec(n));
        assert(out@ =~= old(out)@ + dec_digits(n as nat));
    } else {
        write_u64(n / 10, out);
        out.push(digit_char_exec(n % 10));
        assert(out@ =~= old(out)@ + dec_digits(n as nat));
    }
}

/// Appends the characters of `s` to `out` unchanged.
fn write_chars(s: &Vec<char>, out: &mut Vec<char>)
    ensures
        final(out)@ == old(out)@ + s@,
{
    let mut i: usize = 0;
    while i < s.len()
        invariant
            i <= s.len(),
            out@ == old(out)@ + s@.take(i as int),
        decreases s.len() - i,
    {
        out.push(s[i]);
        i = i + 1;
        assert(out@ =~= old(out)@ + s@.take(i as int));
    }
    assert(s@.take(s.len() as int) =~= s@);
}

/// Appends the escaped wire form of the string content `s` to `out`.
fn write_escaped(s: &Vec<char>, out: &mut Vec<char>)
    ensures
        final(out)@ == old(out)@ + esc_string(s@),
{
    let mut i: usize = 0;
    while i < s.len()
        invariant
            i <= s.len(),
            out@ == old(out)@ + esc_string(s@.take(i as int)),
        decreases s.len() - i,
    {
        let c = s[i];
        if c == '"' {
            out.push('\\');
            out.push('"');
        } else if c == '\\' {
            out.push('\\');
            out.push('\\');
        } else if (c as u32) < 0x20 {
            out.push('\\');
            out.push('u');
            out.push('0');
            out.push('0');
            out.push(digit_char16_exec((c as u32) / 16));
            out.push(digit_char16_exec((c as u32) % 16));
        } else {
            out.push(c);
        }
        i = i + 1;
        proof {
            assert(s@.take(i as int).drop_last() =~= s@.take(i as int - 1));
            assert(s@.take(i as int).last() == s@[i as int - 1]);
            assert(out@ =~= old(out)@ + esc_string(s@.take(i as int)));
        }
    }
    assert(s@.take(s.len() as int) =~= s@);
}

impl JsonValue {
    /// Appends the wire text of `self` to `out`.
    #[verifier::loop_isolation(false)]
    #[verifier::rlimit(50)]
    pub fn write(&self, out: &mut Vec<char>)
        ensures
            final(out)@ == old(out)@ + spec_ser(self@),
        decreases *self,
    {
        match self {
            JsonValue::Null => {
                out.push('n');
                out.push('u');
                out.push('l');
                out.push('l');
                assert(out@ =~= old(out)@ + spec_ser(self@));
            },
            JsonValue::Bool(b) => {
                if *b {
                    out.push('t');
                    out.push('r');
                    out.push('u');
                    out.push('e');
                } else {
                    out.push('f');
                    out.push('a');
                    out.push('l');
                    out.push('s');
                    out.push('e');
                }
                assert(out@ =~= old(out)@ + spec_ser(self@));
            },
            JsonValue::Num(n) => {
                write_u64(*n, out);
            },
            JsonValue::NumRaw(lex) => {
                write_chars(lex, out);
            },
            JsonValue::Str(s) => {
                out.push('"');
                write_escaped(s, out);
                out.push('"');
                assert(out@ =~= old(out)@ + spec_ser(self@));
            },
            JsonValue::Arr(elems) => {
                let ghost ev = jview_elems(*elems, elems.len() as int);
                proof {
                    lemma_jview_elems(*elems, elems.len() as int);
                }
                out.push('[');
                let mut i: usize = 0;
                while i < elems.len()
                    invariant
                        i <= elems.len(),
                        out@ + spec_ser_elems(ev, i as int) == old(out)@ + seq!['[']
                            + spec_ser_elems(ev, 0),
                    decreases elems.len() - i,
                {
                    proof {
                        assert(decreases_to!(*self => (*self)->Arr_0));
                        assert(decreases_to!(*elems => elems[i as int]));
                    }
                    elems[i].write(out);
                    if i + 1 < elems.len() {
                        out.push(',');
                    }
                    i = i + 1;
                    assert(out@ + spec_ser_elems(ev, i as int) =~= old(out)@ + seq!['[']
                        + spec_ser_elems(ev, 0));
                }
                out.push(']');
                assert(out@ =~= old(out)@ + spec_ser(self@));
            },
            JsonValue::Obj(fields) => {
                let ghost fv = jview_fields(*fields, fields.len() as int);
                proof {
                    lemma_jview_fields(*fields, fields.len() as int);
                }
                out.push('{');
                let mut i: usize = 0;
                while i < fields.len()
                    invariant
                        i <= fields.len(),
                        out@ + spec_ser_fields(fv, i as int) == old(out)@ + seq!['{']
                            + spec_ser_fields(fv, 0),
                    decreases fields.len() - i,
                {
                    out.push('"');
                    write_escaped(&fields[i].0, out);
                    out.push('"');
                    out.push(':');
                    proof {
                        assert(decreases_to!(*self => (*self)->Obj_0));
                        assert(decreases_to!(*fields => fields[i as int]));
                        assert(decreases_to!(fields[i as int] => fields[i as int].1));
                        assert(fv[i as int] == (fields[i as int].0@, jview(fields[i as int].1)));
                    }
                    fields[i].1.write(out);
                    if i + 1 < fields.len() {
                        out.push(',');
                    }
                    i = i + 1;
                    proof {
                        let iold = i as int - 1;
                        let f = fv[iold];
                        assert(spec_ser_field(f) == seq!['"'] + esc_string(f.0) + seq!['"', ':']
                            + spec_ser(f.1));
                        if iold == fv.len() - 1 {
                            assert(spec_ser_fields(fv, iold) == spec_ser_field(f));
                        } else {
                            assert(spec_ser_fields(fv, iold) == spec_ser_field(f) + seq![',']
                                + spec_ser_fields(fv, iold + 1));
                        }
                        assert(out@ + spec_ser_fields(fv, i as int) =~= old(out)@ + seq!['{']
                            + spec_ser_fields(fv, 0));
                    }
                }
                out.push('}');
                assert(out@ =~= old(out)@ + spec_ser(self@));
            },
        }
    }

    /// The wire text of `self`, as a fresh character vector.
    pub fn print(&self) -> (out: Vec<char>)
        ensures
            out@ == spec_ser(self@),
    {
        let mut out: Vec<char> = Vec::new();
        self.write(&mut out);
        out
    }
}


// ---------------------------------------------------------------------------
// Parsing, at the specification level
// ---------------------------------------------------------------------------

pub open spec fn is_ws(c: char) -> bool {
    c == ' ' || c == '\t' || c == '\n' || c == '\r'
}

/// The first index at or after `i` that does not hold whitespace.
pub open spec fn sp_ws(s: Seq<char>, i: int) -> int
    decreases s.len() - i,
{
    if 0 <= i < s.len() && is_ws(s[i]) {
        sp_ws(s, i + 1)
    } else {
        i
    }
}

/// The first index at or after `i` that does not hold a number character.
pub open spec fn sp_num_end(s: Seq<char>, i: int) -> int
    decreases s.len() - i,
{
    if 0 <= i < s.len() && is_num_char(s[i]) {
        sp_num_end(s, i + 1)
    } else {
        i
    }
}

pub open spec fn is_hex(c: char) -> bool {
    is_digit(c) || ('a' <= c && c <= 'f') || ('A' <= c && c <= 'F')
}

pub open spec fn hex_val(c: char) -> nat {
    if is_digit(c) {
        digit_val(c)
    } else if 'a' <= c && c <= 'f' {
        (c as nat - 'a' as nat + 10) as nat
    } else {
        (c as nat - 'A' as nat + 10) as nat
    }
}

/// What a single-character escape stands for; `None` when the character is
/// no escape code.
pub open spec fn esc_code(e: char) -> Option<char> {
    if e == '"' {
        Some('"')
    } else if e == '\\' {
        Some('\\')
    } else if e == '/' {
        Some('/')
    } else if e == 'b' {
        Some('\u{8}')
    } else if e == 'f' {
        Some('\u{c}')
    } else if e == 'n' {
        Some('\n')
    } else if e == 'r' {
        Some('\r')
    } else if e == 't' {
        Some('\t')
    } else {
        None
    }
}

/// Reads string content from `i` (just after the opening quote) up to and
/// including the closing quote; yields the content and the index after the
/// quote. Unicode escapes for surrogate code points are rejected.
pub open spec fn sp_string(s: Seq<char>, i: int) -> Option<(Seq<char>, int)>
    decreases s.len() - i,
{
    if i < 0 || i >= s.len() {
        None
    } else if s[i] == '"' {
        Some((Seq::empty(), i + 1))
    } else if s[i] == '\\' {
        if i + 2 > s.len() {
            None
        } else if s[i + 1] == 'u' {
            if i + 6 > s.len() {
                None
            } else if is_hex(s[i + 2]) && is_hex(s[i + 3]) && is_hex(s[i + 4]) && is_hex(
                s[i + 5],
            ) {
                let cp = hex_val(s[i + 2]) * 0x1000 + hex_val(s[i + 3]) * 0x100 + hex_val(
                    s[i + 4],
                ) * 0x10 + hex_val(s[i + 5]);
                if 0xD800 <= cp < 0xE000 {
                    None
                } else {
                    match sp_string(s, i + 6) {
                        Some((rest, j)) => Some((seq![(cp as u32) as char] + rest, j)),
                        None => None,
                    }
                }
            } else {
                None
            }
        } else {
            match esc_code(s[i + 1]) {
                Some(c) => match sp_string(s, i + 2) {
                    Some((rest, j)) => Some((seq![c] + rest, j)),
                    None => None,
                },
                None => None,
            }
        }
    } else if (s[i] as u32) < 0x20 {
        None
    } else {
        match sp_string(s, i + 1) {
            Some((rest, j)) => Some((seq![s[i]] + rest, j)),
            None => None,
        }
    }
}

/// Reads one value starting at `i`, leading whitespace allowed; `d` bounds
/// how deeply arrays and objects may nest. Yields the value and the index
/// just after it.
pub open spec fn sp_value(s: Seq<char>, i: int, d: nat) -> Option<(JsonView, int)>
    decreases s.len() - i, d, 0int,
{
    let j = sp_ws(s, i);
    if j < i || j >= s.len() {
        None
    } else if s[j] == 'n' {
        if j + 4 <= s.len() && s[j + 1] == 'u' && s[j + 2] == 'l' && s[j + 3] == 'l' {
            Some((JsonView::Null, j + 4))
        } else {
            None
        }
    } else if s[j] == 't' {
        if j + 4 <= s.len() && s[j + 1] == 'r' && s[j + 2] == 'u' && s[j + 3] == 'e' {
            Some((JsonView::Bool(true), j + 4))
        } else {
            None
        }
    } else if s[j] == 'f' {
        if j + 5 <= s.len() && s[j + 1] == 'a' && s[j + 2] == 'l' && s[j + 3] == 's' && s[j + 4]
            == 'e' {
            Some((JsonView::Bool(false), j + 5))
        } else {
            None
        }
    } else if s[j] == '"' {
        match sp_string(s, j + 1) {
            Some((content, a)) => Some((JsonView::Str(content), a)),
            None => None,
        }
    } else if s[j] == '[' {
        if d == 0 {
            None
        } else {
            match sp_arr_elems(s, j + 1, (d - 1) as nat) {
                Some((elems, a)) => Some((JsonView::Arr(elems), a)),
                None => None,
            }
        }
    } else if s[j] == '{' {
        if d == 0 {
            None
        } else {
            match sp_obj_fields(s, j + 1, (d - 1) as nat) {
                Some((fields, a)) => Some((JsonView::Obj(fields), a)),
                None => None,
            }
        }
    } else if is_num_start(s[j]) {
        let e = sp_num_end(s, j);
        if e <= j || e > s.len() {
            None
        } else {
            let lex = s.subrange(j, e);
            if is_canonical_u64(lex) {
                Some((JsonView::Num(dec_val(lex) as u64), e))
            } else {
                Some((JsonView::NumRaw(lex), e))
            }
        }
    } else {
        None
    }
}

/// Reads the elements of an array from `i` (just after `[` or a comma) up to
/// and including the closing bracket.
pub open spec fn sp_arr_elems(s: Seq<char>, i: int, d: nat) -> Option<(Seq<JsonView>, int)>
    decreases s.len() - i, d, 1int,
{
    let j = sp_ws(s, i);
    if j < i || j >= s.len() {
        None
    } else if s[j] == ']' {
        Some((Seq::empty(), j + 1))
    } else {
        match sp_value(s, j, d) {
            Some((val, a)) => if a <= j || a > s.len() {
                None
            } else {
                let b = sp_ws(s, a);
                if b < a || b >= s.len() {
                    None
                } else if s[b] == ',' {
                    match sp_arr_elems(s, b + 1, d) {
                        Some((rest, f)) => Some((seq![val] + rest, f)),
                        None => None,
                    }
                } else if s[b] == ']' {
                    Some((seq![val], b + 1))
                } else {
                    None
                }
            },
            None => None,
        }
    }
}

/// Reads the fields of an object from `i` (just after `{` or a comma) up to
/// and including the closing brace.
pub open spec fn sp_obj_fields(s: Seq<char>, i: int, d: nat) -> Option<
    (Seq<(Seq<char>, JsonView)>, int),
>
    decreases s.len() - i, d, 1int,
{
    let j = sp_ws(s, i);
    if j < i || j >= s.len() {
        None
    } else if s[j] == '}' {
        Some((Seq::empty(), j + 1))
    } else if s[j] == '"' {
        match sp_string(s, j + 1) {
            Some((key, a)) => if a <= j + 1 || a > s.len() {
                None
            } else {
                let b = sp_ws(s, a);
                if b < a || b >= s.len() || s[b] != ':' {
                    None
                } else {
                    match sp_value(s, b + 1, d) {
                        Some((val, c)) => if c <= b || c > s.len() {
                            None
                        } else {
                            let e = sp_ws(s, c);
                            if e < c || e >= s.len() {
                                None
                            } else if s[e] == ',' {
                                match sp_obj_fields(s, e + 1, d) {
                                    Some((rest, f)) => Some((seq![(key, val)] + rest, f)),
                                    None => None,
                                }
                            } else if s[e] == '}' {
                                Some((seq![(key, val)], e + 1))
                            } else {
                                None
                            }
                        },
                        None => None,
                    }
                }
            },
            None => None,
        }
    } else {
        None
    }
}


// ---------------------------------------------------------------------------
// Parsing, executable: scanning
// ---------------------------------------------------------------------------

/// The first index at or after `i` that does not hold whitespace.
pub fn skip_ws(s: &Vec<char>, i: usize) -> (j: usize)
    requires
        i <= s.len(),
    ensures
        j == sp_ws(s@, i as int),
        i <= j <= s.len(),
{
    let mut j = i;
    while j < s.len() && (s[j] == ' ' || s[j] == '\t' || s[j] == '\n' || s[j] == '\r')
        invariant
            i <= j <= s.len(),
            sp_ws(s@, i as int) == sp_ws(s@, j as int),
        decreases s.len() - j,
    {
        j = j + 1;
    }
    j
}

/// The first index at or after `i` that does not hold a number character.
fn scan_num_end(s: &Vec<char>, i: usize) -> (e: usize)
    requires
        i <= s.len(),
    ensures
        e == sp_num_end(s@, i as int),
        i <= e <= s.len(),
{
    let mut j = i;
    while j < s.len() && (('0' <= s[j] && s[j] <= '9') || s[j] == '-' || s[j] == '+' || s[j]
        == '.' || s[j] == 'e' || s[j] == 'E')
        invariant
            i <= j <= s.len(),
            sp_num_end(s@, i as int) == sp_num_end(s@, j as int),
        decreases s.len() - j,
    {
        j = j + 1;
    }
    j
}

/// Copies `s[from..to]` into a fresh vector.
pub fn copy_range(s: &Vec<char>, from: usize, to: usize) -> (out: Vec<char>)
    requires
        from <= to <= s.len(),
    ensures
        out@ == s@.subrange(from as int, to as int),
{
    let mut out: Vec<char> = Vec::new();
    let mut j = from;
    while j < to
        invariant
            from <= j <= to <= s.len(),
            out@ == s@.subrange(from as int, j as int),
        decreases to - j,
    {
        out.push(s[j]);
        j = j + 1;
        assert(out@ =~= s@.subrange(from as int, j as int));
    }
    out
}

/// The digit read from a decimal digit character.
pub fn digit_val_exec(c: char) -> (d: u64)
    requires
        is_digit(c),
    ensures
        d == digit_val(c),
        d < 10,
{
    match c {
        '0' => 0,
        '1' => 1,
        '2' => 2,
        '3' => 3,
        '4' => 4,
        '5' => 5,
        '6' => 6,
        '7' => 7,
        '8' => 8,
        _ => 9,
    }
}

pub proof fn lemma_sp_num_end_lb(s: Seq<char>, i: int)
    requires
        0 <= i <= s.len(),
    ensures
        i <= sp_num_end(s, i) <= s.len(),
    decreases s.len() - i,
{
    if i < s.len() && is_num_char(s[i]) {
        lemma_sp_num_end_lb(s, i + 1);
    }
}

/// Digit strings only grow in value as more digits are appended.
proof fn lemma_dec_val_grows(s: Seq<char>, i: int)
    requires
        0 <= i <= s.len(),
    ensures
        dec_val(s.take(i)) <= dec_val(s),
    decreases s.len() - i,
{
    if i < s.len() {
        lemma_dec_val_grows(s, i + 1);
        assert(s.take(i + 1).drop_last() =~= s.take(i));
        assert(dec_val(s.take(i + 1)) == dec_val(s.take(i)) * 10 + digit_val(s.take(i + 1).last()));
    } else {
        assert(s.take(i) =~= s);
    }
}

/// Decides whether `lex` is the printer's spelling of some `u64` and, if so,
/// which one.
pub fn check_canonical(lex: &Vec<char>) -> (r: Option<u64>)
    ensures
        match r {
            Some(n) => is_canonical_u64(lex@) && n == dec_val(lex@),
            None => !is_canonical_u64(lex@),
        },
{
    if lex.len() == 0 {
        return None;
    }
    if lex.len() > 1 && lex[0] == '0' {
        return None;
    }
    let mut val: u64 = 0;
    let mut i: usize = 0;
    while i < lex.len()
        invariant
            0 <= i <= lex.len(),
            forall|k: int| 0 <= k < i ==> is_digit(#[trigger] lex@[k]),
            val == dec_val(lex@.take(i as int)),
        decreases lex.len() - i,
    {
        let c = lex[i];
        if !('0' <= c && c <= '9') {
            assert(!all_digits(lex@));
            return None;
        }
        let dv = digit_val_exec(c);
        if val > (u64::MAX - dv) / 10 {
            proof {
                assert(lex@.take(i as int + 1).drop_last() =~= lex@.take(i as int));
                assert(dec_val(lex@.take(i as int + 1)) == val * 10 + dv);
                assert(val * 10 + dv > u64::MAX) by {
                    let q = (u64::MAX - dv) / 10;
                    assert(u64::MAX - dv == 10 * q + (u64::MAX - dv) % 10);
                };
                lemma_dec_val_grows(lex@, i as int + 1);
            }
            return None;
        }
        proof {
            let q = (u64::MAX - dv) / 10;
            assert(u64::MAX - dv == 10 * q + (u64::MAX - dv) % 10);
            assert(val * 10 <= q * 10);
        }
        val = val * 10 + dv;
        i = i + 1;
        proof {
            assert(lex@.take(i as int).drop_last() =~= lex@.take(i as int - 1));
            assert(lex@.take(i as int).last() == lex@[i as int - 1]);
        }
    }
    assert(lex@.take(lex.len() as int) =~= lex@);
    Some(val)
}

// ---------------------------------------------------------------------------
// Parsing, executable: strings
// ---------------------------------------------------------------------------

/// Relies on char::from_u32, which its documentation states yields `Some`
/// exactly for codes that are no surrogates and lie within the code-point
/// range, and then the character with that code.
pub assume_specification[ char::from_u32 ](v: u32) -> (r: Option<char>)
    ensures
        r matches Some(c) ==> c as u32 == v,
        r is Some <==> (v < 0xD800 || (0xE000 <= v && v <= 0x10FFFF)),
;

/// The character with code `cp`.
fn char_of_codepoint(cp: u32) -> (c: char)
    requires
        cp < 0xD800 || (0xE000 <= cp && cp <= 0x10FFFF),
    ensures
        (c as u32) == cp,
{
    char::from_u32(cp).unwrap()
}

/// What a single-character escape stands for.
fn esc_code_exec(e: char) -> (r: Option<char>)
    ensures
        r == esc_code(e),
{
    match e {
        '"' => Some('"'),
        '\\' => Some('\\'),
        '/' => Some('/'),
        'b' => Some('\u{8}'),
        'f' => Some('\u{c}'),
        'n' => Some('\n'),
        'r' => Some('\r'),
        't' => Some('\t'),
        _ => None,
    }
}

pub fn is_hex_exec(c: char) -> (r: bool)
    ensures
        r == is_hex(c),
{
    ('0' <= c && c <= '9') || ('a' <= c && c <= 'f') || ('A' <= c && c <= 'F')
}

pub fn hex_val_exec(c: char) -> (d: u32)
    requires
        is_hex(c),
    ensures
        d == hex_val(c),
        d < 16,
{
    if '0' <= c && c <= '9' {
        digit_val_exec(c) as u32
    } else if 'a' <= c && c <= 'f' {
        (c as u32) - ('a' as u32) + 10
    } else {
        (c as u32) - ('A' as u32) + 10
    }
}

/// Reads string content from `i` (just after the opening quote) up to and
/// including the closing quote.
fn parse_string_content(s: &Vec<char>, i: usize) -> (r: Option<(Vec<char>, usize)>)
    requires
        i <= s.len(),
    ensures
        match r {
            Some(p) => sp_string(s@, i as int) == Some((p.0@, p.1 as int)) && i < p.1 <= s.len(),
            None => sp_string(s@, i as int) is None,
        },
{
    let mut acc: Vec<char> = Vec::new();
    let mut cur = i;
    loop
        invariant
            i <= cur <= s.len(),
            sp_string(s@, i as int) is Some <==> sp_string(s@, cur as int) is Some,
            sp_string(s@, cur as int) matches Some((rest, j)) ==> sp_string(s@, i as int) == Some(
                (acc@ + rest, j),
            ),
        decreases s.len() - cur,
    {
        if cur >= s.len() {
            return None;
        }
        let c = s[cur];
        if c == '"' {
            proof {
                assert(sp_string(s@, cur as int) == Some((Seq::<char>::empty(), cur as int + 1)));
                assert(acc@ + Seq::<char>::empty() =~= acc@);
            }
            return Some((acc, cur + 1));
        }
        let ghost prev = cur as int;
        let ghost acc0 = acc@;
        if c == '\\' {
            if s.len() - cur < 2 {
                return None;
            }
            let e = s[cur + 1];
            if e == 'u' {
                if s.len() - cur < 6 {
                    return None;
                }
                if !(is_hex_exec(s[cur + 2]) && is_hex_exec(s[cur + 3]) && is_hex_exec(s[cur + 4])
                    && is_hex_exec(s[cur + 5])) {
                    return None;
                }
                let cp: u32 = hex_val_exec(s[cur + 2]) * 0x1000 + hex_val_exec(s[cur + 3]) * 0x100
                    + hex_val_exec(s[cur + 4]) * 0x10 + hex_val_exec(s[cur + 5]);
                if 0xD800 <= cp && cp < 0xE000 {
                    return None;
                }
                let ch = char_of_codepoint(cp);
                acc.push(ch);
                cur = cur + 6;
                proof {
                    let cpn = hex_val(s@[prev + 2]) * 0x1000 + hex_val(s@[prev + 3]) * 0x100
                        + hex_val(s@[prev + 4]) * 0x10 + hex_val(s@[prev + 5]);
                    assert(cp == cpn);
                    vstd::utf8::char_u32_cast(ch, cp);
                    assert(((cpn as u32) as char) == ch);
                    assert(acc@ =~= acc0 + seq![ch]);
                    let r2 = sp_string(s@, cur as int);
                    if r2 is Some {
                        let rest = r2->Some_0.0;
                        assert(sp_string(s@, prev) == Some((seq![ch] + rest, r2->Some_0.1)));
                        assert(acc0 + (seq![ch] + rest) =~= acc@ + rest);
                    }
                }
            } else {
                match esc_code_exec(e) {
                    Some(c2) => {
                        acc.push(c2);
                        cur = cur + 2;
                        proof {
                            assert(acc@ =~= acc0 + seq![c2]);
                            let r2 = sp_string(s@, cur as int);
                            if r2 is Some {
                                let rest = r2->Some_0.0;
                                assert(sp_string(s@, prev) == Some(
                                    (seq![c2] + rest, r2->Some_0.1),
                                ));
                                assert(acc0 + (seq![c2] + rest) =~= acc@ + rest);
                            }
                        }
                    },
                    None => {
                        return None;
                    },
                }
            }
        } else if (c as u32) < 0x20 {
            return None;
        } else {
            acc.push(c);
            cur = cur + 1;
            proof {
                assert(acc@ =~= acc0 + seq![c]);
                let r2 = sp_string(s@, cur as int);
                if r2 is Some {
                    let rest = r2->Some_0.0;
                    assert(sp_string(s@, prev) == Some((seq![c] + rest, r2->Some_0.1)));
                    assert(acc0 + (seq![c] + rest) =~= acc@ + rest);
                }
            }
        }
    }
}


// ---------------------------------------------------------------------------
// Parsing, executable: values
// ---------------------------------------------------------------------------

/// Reads one value starting at `i`; `d` bounds how deeply containers may
/// nest. Yields the value and the index just after it.
#[verifier::loop_isolation(false)]
#[verifier::rlimit(80)]
pub fn parse_value(s: &Vec<char>, i: usize, d: u32) -> (r: Option<(JsonValue, usize)>)
    requires
        i <= s.len(),
    ensures
        match r {
            Some(p) => sp_value(s@, i as int, d as nat) == Some((p.0@, p.1 as int)) && i < p.1
                <= s.len(),
            None => sp_value(s@, i as int, d as nat) is None,
        },
    decreases d,
{
    let j = skip_ws(s, i);
    if j >= s.len() {
        return None;
    }
    let c = s[j];
    if c == 'n' {
        if s.len() - j >= 4 && s[j + 1] == 'u' && s[j + 2] == 'l' && s[j + 3] == 'l' {
            Some((JsonValue::Null, j + 4))
        } else {
            None
        }
    } else if c == 't' {
        if s.len() - j >= 4 && s[j + 1] == 'r' && s[j + 2] == 'u' && s[j + 3] == 'e' {
            Some((JsonValue::Bool(true), j + 4))
        } else {
            None
        }
    } else if c == 'f' {
        if s.len() - j >= 5 && s[j + 1] == 'a' && s[j + 2] == 'l' && s[j + 3] == 's' && s[j + 4]
            == 'e' {
            Some((JsonValue::Bool(false), j + 5))
        } else {
            None
        }
    } else if c == '"' {
        match parse_string_content(s, j + 1) {
            Some((content, a)) => Some((JsonValue::Str(content), a)),
            None => None,
        }
    } else if c == '[' {
        if d == 0 {
            return None;
        }
        let ghost start = j as int + 1;
        let ghost dm = (d - 1) as nat;
        let mut elems: Vec<JsonValue> = Vec::new();
        let mut cur = j + 1;
        loop
            invariant
                start <= cur <= s.len(),
                sp_arr_elems(s@, start, dm) is Some <==> sp_arr_elems(s@, cur as int, dm)
                    is Some,
                sp_arr_elems(s@, cur as int, dm) matches Some(p) ==> sp_arr_elems(
                    s@,
                    start,
                    dm,
                ) == Some((jview_elems(elems, elems.len() as int) + p.0, p.1)),
            decreases s.len() - cur,
        {
            let k = skip_ws(s, cur);
            if k >= s.len() {
                return None;
            }
            if s[k] == ']' {
                proof {
                    assert(sp_arr_elems(s@, cur as int, dm) == Some(
                        (Seq::<JsonView>::empty(), k as int + 1),
                    ));
                    let ev = jview_elems(elems, elems.len() as int);
                    assert(ev + Seq::<JsonView>::empty() =~= ev);
                }
                return Some((JsonValue::Arr(elems), k + 1));
            }
            match parse_value(s, k, d - 1) {
                None => {
                    return None;
                },
                Some((val, a)) => {
                    let b = skip_ws(s, a);
                    if b >= s.len() {
                        return None;
                    }
                    let ghost prev = cur as int;
                    let ghost elems0 = elems;
                    let ghost vv = jview(val);
                    if s[b] == ',' {
                        elems.push(val);
                        cur = b + 1;
                        proof {
                            lemma_jview_elems(elems0, elems0.len() as int);
                            lemma_jview_elems(elems, elems.len() as int);
                            let ev0 = jview_elems(elems0, elems0.len() as int);
                            let ev = jview_elems(elems, elems.len() as int);
                            assert(ev =~= ev0 + seq![vv]);
                            let r2 = sp_arr_elems(s@, cur as int, dm);
                            if r2 is Some {
                                let rest = r2->Some_0.0;
                                assert(sp_arr_elems(s@, prev, dm) == Some(
                                    (seq![vv] + rest, r2->Some_0.1),
                                ));
                                assert(ev0 + (seq![vv] + rest) =~= ev + rest);
                            } else {
                                assert(sp_arr_elems(s@, prev, dm) is None);
                            }
                        }
                    } else if s[b] == ']' {
                        elems.push(val);
                        proof {
                            lemma_jview_elems(elems0, elems0.len() as int);
                            lemma_jview_elems(elems, elems.len() as int);
                            let ev0 = jview_elems(elems0, elems0.len() as int);
                            let ev = jview_elems(elems, elems.len() as int);
                            assert(ev =~= ev0 + seq![vv]);
                            assert(sp_arr_elems(s@, prev, dm) == Some((seq![vv], b as int + 1)));
                            assert(ev0 + seq![vv] =~= ev);
                        }
                        return Some((JsonValue::Arr(elems), b + 1));
                    } else {
                        return None;
                    }
                },
            }
        }
    } else if c == '{' {
        if d == 0 {
            return None;
        }
        let ghost start = j as int + 1;
        let ghost dm = (d - 1) as nat;
        let mut fields: Vec<(Vec<char>, JsonValue)> = Vec::new();
        let mut cur = j + 1;
        loop
            invariant
                start <= cur <= s.len(),
                sp_obj_fields(s@, start, dm) is Some <==> sp_obj_fields(s@, cur as int, dm)
                    is Some,
                sp_obj_fields(s@, cur as int, dm) matches Some(p) ==> sp_obj_fields(
                    s@,
                    start,
                    dm,
                ) == Some((jview_fields(fields, fields.len() as int) + p.0, p.1)),
            decreases s.len() - cur,
        {
            let k = skip_ws(s, cur);
            if k >= s.len() {
                return None;
            }
            if s[k] == '}' {
                proof {
                    assert(sp_obj_fields(s@, cur as int, dm) == Some(
                        (Seq::<(Seq<char>, JsonView)>::empty(), k as int + 1),
                    ));
                    let fv = jview_fields(fields, fields.len() as int);
                    assert(fv + Seq::<(Seq<char>, JsonView)>::empty() =~= fv);
                }
                return Some((JsonValue::Obj(fields), k + 1));
            }
            if s[k] != '"' {
                return None;
            }
            match parse_string_content(s, k + 1) {
                None => {
                    return None;
                },
                Some((key, a)) => {
                    let b = skip_ws(s, a);
                    if b >= s.len() || s[b] != ':' {
                        return None;
                    }
                    match parse_value(s, b + 1, d - 1) {
                        None => {
                            return None;
                        },
                        Some((val, cc)) => {
                            let e = skip_ws(s, cc);
                            if e >= s.len() {
                                return None;
                            }
                            let ghost prev = cur as int;
                            let ghost fields0 = fields;
                            let ghost kv = (key@, jview(val));
                            if s[e] == ',' {
                                fields.push((key, val));
                                cur = e + 1;
                                proof {
                                    lemma_jview_fields(fields0, fields0.len() as int);
                                    lemma_jview_fields(fields, fields.len() as int);
                                    let fv0 = jview_fields(fields0, fields0.len() as int);
                                    let fv = jview_fields(fields, fields.len() as int);
                                    assert(fv =~= fv0 + seq![kv]);
                                    let r2 = sp_obj_fields(s@, cur as int, dm);
                                    if r2 is Some {
                                        let rest = r2->Some_0.0;
                                        assert(sp_obj_fields(s@, prev, dm) == Some(
                                            (seq![kv] + rest, r2->Some_0.1),
                                        ));
                                        assert(fv0 + (seq![kv] + rest) =~= fv + rest);
                                    } else {
                                        assert(sp_obj_fields(s@, prev, dm) is None);
                                    }
                                }
                            } else if s[e] == '}' {
                                fields.push((key, val));
                                proof {
                                    lemma_jview_fields(fields0, fields0.len() as int);
                                    lemma_jview_fields(fields, fields.len() as int);
                                    let fv0 = jview_fields(fields0, fields0.len() as int);
                                    let fv = jview_fields(fields, fields.len() as int);
                                    assert(fv =~= fv0 + seq![kv]);
                                    assert(sp_obj_fields(s@, prev, dm) == Some(
                                        (seq![kv], e as int + 1),
                                    ));
                                }
                                return Some((JsonValue::Obj(fields), e + 1));
                            } else {
                                return None;
                            }
                        },
                    }
                },
            }
        }
    } else if c == '-' || ('0' <= c && c <= '9') {
        let e = scan_num_end(s, j);
        proof {
            assert(is_num_char(s@[j as int]));
            lemma_sp_num_end_lb(s@, j as int + 1);
            assert(sp_num_end(s@, j as int) == sp_num_end(s@, j as int + 1));
        }
        assert(e > j);
        let lex = copy_range(s, j, e);
        match check_canonical(&lex) {
            Some(n) => Some((JsonValue::Num(n), e)),
            None => Some((JsonValue::NumRaw(lex), e)),
        }
    } else {
        None
    }
}


/// Depth budget the reader applies to nested containers.
pub const JSON_DEPTH_LIMIT: u32 = 128;

/// One complete document: a single value, possibly surrounded by
/// whitespace, and nothing else.
pub open spec fn sp_json(s: Seq<char>) -> Option<JsonView> {
    match sp_value(s, 0, JSON_DEPTH_LIMIT as nat) {
        Some((v, j)) => if sp_ws(s, j) == s.len() {
            Some(v)
        } else {
            None
        },
        None => None,
    }
}

/// Reads one complete JSON document.
pub fn parse_json(s: &Vec<char>) -> (r: Option<JsonValue>)
    ensures
        match r {
            Some(v) => sp_json(s@) == Some(v@),
            None => sp_json(s@) is None,
        },
{
    match parse_value(s, 0, JSON_DEPTH_LIMIT) {
        Some((v, j)) => {
            let e = skip_ws(s, j);
            if e == s.len() {
                Some(v)
            } else {
                None
            }
        },
        None => None,
    }
}

// ---------------------------------------------------------------------------
// Parsing inverts printing: supporting lemmas
// ---------------------------------------------------------------------------

/// Characters that may legally follow a value inside a container.
pub open spec fn is_sep(c: char) -> bool {
    c == ',' || c == ']' || c == '}'
}

proof fn lemma_esc_string_front(s: Seq<char>)
    requires
        s.len() > 0,
    ensures
        esc_string(s) == esc_char(s[0]) + esc_string(s.skip(1)),
    decreases s.len(),
{
    if s.len() == 1 {
        assert(s.drop_last() =~= Seq::<char>::empty());
        assert(s.skip(1) =~= Seq::<char>::empty());
        assert(esc_string(s) =~= esc_char(s[0]) + esc_string(s.skip(1)));
    } else {
        lemma_esc_string_front(s.drop_last());
        assert(s.drop_last()[0] == s[0]);
        assert(s.skip(1).drop_last() =~= s.drop_last().skip(1));
        assert(s.skip(1).last() == s.last());
        assert(esc_string(s.skip(1)) == esc_string(s.drop_last().skip(1)) + esc_char(s.last()));
        assert(esc_string(s) =~= esc_char(s[0]) + esc_string(s.skip(1)));
    }
}

proof fn lemma_digit_char(d: nat)
    requires
        d < 10,
    ensures
        is_digit(digit_char(d)),
        digit_val(digit_char(d)) == d,
        is_num_char(digit_char(d)),
{
}

pub proof fn lemma_digit_char16(d: nat)
    requires
        d < 16,
    ensures
        is_hex(digit_char16(d)),
        hex_val(digit_char16(d)) == d,
{
}

pub proof fn lemma_dec_digits(n: nat)
    ensures
        dec_digits(n).len() >= 1,
        all_digits(dec_digits(n)),
        dec_digits(n).len() == 1 || dec_digits(n)[0] != '0',
        dec_val(dec_digits(n)) == n,
        n >= 10 ==> dec_digits(n).len() >= 2,
    decreases n,
{
    if n < 10 {
        lemma_digit_char(n);
        assert(dec_digits(n) == seq![digit_char(n)]);
        assert(dec_digits(n).drop_last() =~= Seq::<char>::empty());
        assert(dec_val(Seq::<char>::empty()) == 0);
        assert(dec_digits(n).last() == digit_char(n));
        assert(dec_val(dec_digits(n)) == n);
    } else {
        lemma_dec_digits(n / 10);
        lemma_digit_char(n % 10);
        let h = dec_digits(n / 10);
        let w = dec_digits(n);
        assert(w == h.push(digit_char(n % 10)));
        assert(w.drop_last() =~= h);
        assert(w.last() == digit_char(n % 10));
        assert(dec_val(w) == dec_val(h) * 10 + (n % 10));
        vstd::arithmetic::div_mod::lemma_fundamental_div_mod(n as int, 10);
        assert(dec_val(w) == n);
        assert(w[0] == h[0]);
        assert forall|i: int| 0 <= i < w.len() implies is_digit(#[trigger] w[i]) by {
            if i < h.len() {
                assert(w[i] == h[i]);
            }
        }
    }
}

/// Where a scan for number characters stops, when the stretch from `i` to
/// `e` holds only such characters and `e` holds none.
proof fn lemma_sp_num_end_exact(s: Seq<char>, i: int, e: int)
    requires
        0 <= i <= e <= s.len(),
        forall|k: int| i <= k < e ==> is_num_char(#[trigger] s[k]),
        e == s.len() || !is_num_char(s[e]),
    ensures
        sp_num_end(s, i) == e,
    decreases e - i,
{
    if i < e {
        lemma_sp_num_end_exact(s, i + 1, e);
    }
}

/// A non-whitespace character stops whitespace skipping at once.
proof fn lemma_sp_ws_stop(s: Seq<char>, i: int)
    requires
        0 <= i,
        i >= s.len() || !is_ws(s[i]),
    ensures
        sp_ws(s, i) == i,
{
}

proof fn lemma_jdepth_elems_bound(elems: Seq<JsonView>, n: int)
    requires
        0 <= n <= elems.len(),
    ensures
        forall|i: int| 0 <= i < n ==> jdepth(#[trigger] elems[i]) <= jdepth_elems(elems, n),
    decreases n,
{
    if n > 0 {
        lemma_jdepth_elems_bound(elems, n - 1);
        assert forall|i: int| 0 <= i < n implies jdepth(#[trigger] elems[i]) <= jdepth_elems(
            elems,
            n,
        ) by {
            if i < n - 1 {
                assert(jdepth(elems[i]) <= jdepth_elems(elems, n - 1));
            }
        }
    }
}

proof fn lemma_jdepth_fields_bound(fields: Seq<(Seq<char>, JsonView)>, n: int)
    requires
        0 <= n <= fields.len(),
    ensures
        forall|i: int| 0 <= i < n ==> jdepth(#[trigger] fields[i].1) <= jdepth_fields(fields, n),
    decreases n,
{
    if n > 0 {
        lemma_jdepth_fields_bound(fields, n - 1);
        assert forall|i: int| 0 <= i < n implies jdepth(#[trigger] fields[i].1) <= jdepth_fields(
            fields,
            n,
        ) by {
            if i < n - 1 {
                assert(jdepth(fields[i].1) <= jdepth_fields(fields, n - 1));
            }
        }
    }
}

/// The first character of a printed value: never whitespace, never a
/// separator.
proof fn lemma_ser_first(v: JsonView)
    requires
        wf_json(v),
    ensures
        spec_ser(v).len() > 0,
        !is_ws(spec_ser(v)[0]),
        !is_sep(spec_ser(v)[0]),
        spec_ser(v)[0] != ':',
    decreases v,
{
    match v {
        JsonView::Num(n) => {
            lemma_dec_digits(n as nat);
            assert(is_digit(spec_ser(v)[0]));
        },
        JsonView::NumRaw(lex) => {
            assert(is_num_start(lex[0]));
        },
        _ => {},
    }
}


/// Reading escaped string content back yields the content unchanged.
#[verifier::rlimit(60)]
proof fn lemma_sp_string_escaped(content: Seq<char>, pre: Seq<char>, rest: Seq<char>)
    ensures
        ({
            let s = pre + esc_string(content) + seq!['"'] + rest;
            sp_string(s, pre.len() as int) == Some(
                (content, pre.len() as int + esc_string(content).len() + 1),
            )
        }),
    decreases content.len(),
{
    let s = pre + esc_string(content) + seq!['"'] + rest;
    let p = pre.len() as int;
    if content.len() == 0 {
        assert(esc_string(content) =~= Seq::<char>::empty());
        assert(s[p] == '"');
        assert(content =~= Seq::<char>::empty());
    } else {
        let c = content[0];
        lemma_esc_string_front(content);
        let ec = esc_char(c);
        let tail = esc_string(content.skip(1));
        let pre2 = pre + ec;
        lemma_sp_string_escaped(content.skip(1), pre2, rest);
        assert(pre2 + tail + seq!['"'] + rest =~= s);
        assert(sp_string(s, pre2.len() as int) == Some(
            (content.skip(1), pre2.len() as int + tail.len() + 1),
        ));
        assert(esc_string(content).len() == ec.len() + tail.len());
        if c == '"' {
            assert(s[p] == '\\' && s[p + 1] == '"');
            assert(esc_code(s[p + 1]) == Some('"'));
            assert(pre2.len() == p + 2);
            assert(sp_string(s, p) == Some((seq![c] + content.skip(1), pre2.len() as int + tail.len() + 1)));
            assert(seq![c] + content.skip(1) =~= content);
        } else if c == '\\' {
            assert(s[p] == '\\' && s[p + 1] == '\\');
            assert(esc_code(s[p + 1]) == Some('\\'));
            assert(pre2.len() == p + 2);
            assert(sp_string(s, p) == Some((seq![c] + content.skip(1), pre2.len() as int + tail.len() + 1)));
            assert(seq![c] + content.skip(1) =~= content);
        } else if (c as u32) < 0x20 {
            let cu = c as u32;
            let h1 = digit_char16((cu / 16) as nat);
            let h2 = digit_char16((cu % 16) as nat);
            assert(ec == seq!['\\', 'u', '0', '0', h1, h2]);
            assert(s[p] == '\\' && s[p + 1] == 'u' && s[p + 2] == '0' && s[p + 3] == '0' && s[p + 4]
                == h1 && s[p + 5] == h2);
            lemma_digit_char16((cu / 16) as nat);
            lemma_digit_char16((cu % 16) as nat);
            assert(is_hex('0') && hex_val('0') == 0);
            let cp = hex_val(s[p + 2]) * 0x1000 + hex_val(s[p + 3]) * 0x100 + hex_val(s[p + 4])
                * 0x10 + hex_val(s[p + 5]);
            vstd::arithmetic::div_mod::lemma_fundamental_div_mod(cu as int, 16);
            assert(cp == cu);
            assert(!(0xD800 <= cp < 0xE000));
            vstd::utf8::char_u32_cast(c, cu);
            assert(((cp as u32) as char) == c);
            assert(pre2.len() == p + 6);
            assert(sp_string(s, p) == Some((seq![c] + content.skip(1), pre2.len() as int + tail.len() + 1)));
            assert(seq![c] + content.skip(1) =~= content);
        } else {
            assert(ec == seq![c]);
            assert(s[p] == c);
            assert(pre2.len() == p + 1);
            assert(sp_string(s, p) == Some((seq![c] + content.skip(1), pre2.len() as int + tail.len() + 1)));
            assert(seq![c] + content.skip(1) =~= content);
        }
    }
}


// ---------------------------------------------------------------------------
// Parsing inverts printing
// ---------------------------------------------------------------------------

/// Reading a printed value back yields that value.
#[verifier::rlimit(100)]
pub proof fn lemma_round_trip_value(v: JsonView, pre: Seq<char>, rest: Seq<char>, d: nat)
    requires
        wf_json(v),
        jdepth(v) <= d,
        rest.len() == 0 || is_sep(rest[0]),
    ensures
        ({
            let s = pre + spec_ser(v) + rest;
            sp_value(s, pre.len() as int, d) == Some((v, pre.len() as int + spec_ser(v).len()))
        }),
    decreases v, 1int,
{
    let s = pre + spec_ser(v) + rest;
    let p = pre.len() as int;
    lemma_ser_first(v);
    assert(s[p] == spec_ser(v)[0]);
    lemma_sp_ws_stop(s, p);
    match v {
        JsonView::Null => {
            assert(s[p] == 'n' && s[p + 1] == 'u' && s[p + 2] == 'l' && s[p + 3] == 'l');
        },
        JsonView::Bool(b) => {
            if b {
                assert(s[p] == 't' && s[p + 1] == 'r' && s[p + 2] == 'u' && s[p + 3] == 'e');
            } else {
                assert(s[p] == 'f' && s[p + 1] == 'a' && s[p + 2] == 'l' && s[p + 3] == 's' && s[p
                    + 4] == 'e');
            }
        },
        JsonView::Num(n) => {
            lemma_dec_digits(n as nat);
            let lex = dec_digits(n as nat);
            assert(is_digit(s[p]));
            assert forall|t: int| p <= t < p + lex.len() implies is_num_char(#[trigger] s[t]) by {
                assert(s[t] == lex[t - p]);
                assert(is_digit(lex[t - p]));
            }
            assert(p + lex.len() == s.len() || !is_num_char(s[p + lex.len()]));
            lemma_sp_num_end_exact(s, p, p + lex.len());
            assert(s.subrange(p, p + lex.len()) =~= lex);
            assert(is_canonical_u64(lex));
            assert(dec_val(lex) as u64 == n);
        },
        JsonView::NumRaw(lex) => {
            assert(is_num_start(s[p]));
            assert forall|t: int| p <= t < p + lex.len() implies is_num_char(#[trigger] s[t]) by {
                assert(s[t] == lex[t - p]);
            }
            assert(p + lex.len() == s.len() || !is_num_char(s[p + lex.len()]));
            lemma_sp_num_end_exact(s, p, p + lex.len());
            assert(s.subrange(p, p + lex.len()) =~= lex);
            assert(!is_canonical_u64(lex));
        },
        JsonView::Str(content) => {
            assert(s[p] == '"');
            lemma_sp_string_escaped(content, pre + seq!['"'], rest);
            assert((pre + seq!['"']) + esc_string(content) + seq!['"'] + rest =~= s);
            assert(sp_string(s, p + 1) == Some(
                (content, p + 1 + esc_string(content).len() + 1),
            ));
            assert(spec_ser(v).len() == esc_string(content).len() + 2);
        },
        JsonView::Arr(elems) => {
            lemma_rtv_arr(v, elems, pre, rest, d);
        },
        JsonView::Obj(fields) => {
            lemma_rtv_obj(v, fields, pre, rest, d);
        },
    }
}


#[verifier::rlimit(100)]
proof fn lemma_rtv_arr(v: JsonView, elems: Seq<JsonView>, pre: Seq<char>, rest: Seq<char>, d: nat)
    requires
        v == JsonView::Arr(elems),
        wf_json(v),
        jdepth(v) <= d,
        rest.len() == 0 || is_sep(rest[0]),
    ensures
        ({
            let s = pre + spec_ser(v) + rest;
            sp_value(s, pre.len() as int, d) == Some((v, pre.len() as int + spec_ser(v).len()))
        }),
    decreases v, 0int,
{
    let s = pre + spec_ser(v) + rest;
    let p = pre.len() as int;
    lemma_ser_first(v);
    assert(s[p] == spec_ser(v)[0]);
    lemma_sp_ws_stop(s, p);

            assert(s[p] == '[');
            assert(d >= 1);
            let dm = (d - 1) as nat;
            let sse = spec_ser_elems(elems, 0);
            if elems.len() == 0 {
                assert(sse =~= Seq::<char>::empty());
                assert(s[p + 1] == ']');
                lemma_sp_ws_stop(s, p + 1);
                assert(sp_arr_elems(s, p + 1, dm) == Some((Seq::<JsonView>::empty(), p + 2)));
                assert(elems =~= Seq::<JsonView>::empty());
            } else {
                lemma_jdepth_elems_bound(elems, elems.len() as int);
                lemma_round_trip_elems(elems, 0, pre + seq!['['], rest, dm);
                assert((pre + seq!['[']) + sse + seq![']'] + rest =~= s);
                assert(sp_arr_elems(s, p + 1, dm) == Some(
                    (elems.skip(0), p + 1 + sse.len() + 1),
                ));
                assert(elems.skip(0) =~= elems);
                assert(spec_ser(v).len() == sse.len() + 2);
            }
        
}

#[verifier::rlimit(100)]
proof fn lemma_rtv_obj(
    v: JsonView,
    fields: Seq<(Seq<char>, JsonView)>,
    pre: Seq<char>,
    rest: Seq<char>,
    d: nat,
)
    requires
        v == JsonView::Obj(fields),
        wf_json(v),
        jdepth(v) <= d,
        rest.len() == 0 || is_sep(rest[0]),
    ensures
        ({
            let s = pre + spec_ser(v) + rest;
            sp_value(s, pre.len() as int, d) == Some((v, pre.len() as int + spec_ser(v).len()))
        }),
    decreases v, 0int,
{
    let s = pre + spec_ser(v) + rest;
    let p = pre.len() as int;
    lemma_ser_first(v);
    assert(s[p] == spec_ser(v)[0]);
    lemma_sp_ws_stop(s, p);

            assert(s[p] == '{');
            assert(d >= 1);
            let dm = (d - 1) as nat;
            let ssf = spec_ser_fields(fields, 0);
            if fields.len() == 0 {
                assert(ssf =~= Seq::<char>::empty());
                assert(s[p + 1] == '}');
                lemma_sp_ws_stop(s, p + 1);
                assert(sp_obj_fields(s, p + 1, dm) == Some(
                    (Seq::<(Seq<char>, JsonView)>::empty(), p + 2),
                ));
                assert(fields =~= Seq::<(Seq<char>, JsonView)>::empty());
            } else {
                lemma_jdepth_fields_bound(fields, fields.len() as int);
                lemma_round_trip_fields(fields, 0, pre + seq!['{'], rest, dm);
                assert((pre + seq!['{']) + ssf + seq!['}'] + rest =~= s);
                assert(sp_obj_fields(s, p + 1, dm) == Some(
                    (fields.skip(0), p + 1 + ssf.len() + 1),
                ));
                assert(fields.skip(0) =~= fields);
                assert(spec_ser(v).len() == ssf.len() + 2);
            }
        
}

/// Reading printed array elements back yields those elements.
#[verifier::rlimit(100)]
pub proof fn lemma_round_trip_elems(
    elems: Seq<JsonView>,
    k: int,
    pre: Seq<char>,
    rest: Seq<char>,
    d: nat,
)
    requires
        0 <= k < elems.len(),
        forall|i: int|
            0 <= i < elems.len() ==> wf_json(#[trigger] elems[i]) && jdepth(elems[i]) <= d,
        rest.len() == 0 || is_sep(rest[0]),
    ensures
        ({
            let s = pre + spec_ser_elems(elems, k) + seq![']'] + rest;
            sp_arr_elems(s, pre.len() as int, d) == Some(
                (elems.skip(k), pre.len() as int + spec_ser_elems(elems, k).len() + 1),
            )
        }),
    decreases elems, elems.len() - k,
{
    let s = pre + spec_ser_elems(elems, k) + seq![']'] + rest;
    let p = pre.len() as int;
    let e0 = elems[k];
    lemma_ser_first(e0);
    assert(s[p] == spec_ser(e0)[0]);
    lemma_sp_ws_stop(s, p);
    assert(s[p] != ']');
    if k == elems.len() - 1 {
        assert(spec_ser_elems(elems, k) == spec_ser(e0));
        lemma_round_trip_value(e0, pre, seq![']'] + rest, d);
        assert(pre + spec_ser(e0) + (seq![']'] + rest) =~= s);
        let a = p + spec_ser(e0).len();
        assert(sp_value(s, p, d) == Some((e0, a)));
        assert(s[a] == ']');
        lemma_sp_ws_stop(s, a);
        assert(sp_arr_elems(s, p, d) == Some((seq![e0], a + 1)));
        assert(elems.skip(k) =~= seq![e0]);
    } else {
        let tail_txt = spec_ser_elems(elems, k + 1);
        assert(spec_ser_elems(elems, k) == spec_ser(e0) + seq![','] + tail_txt);
        lemma_round_trip_value(e0, pre, seq![','] + tail_txt + seq![']'] + rest, d);
        assert(pre + spec_ser(e0) + (seq![','] + tail_txt + seq![']'] + rest) =~= s);
        let a = p + spec_ser(e0).len();
        assert(sp_value(s, p, d) == Some((e0, a)));
        assert(s[a] == ',');
        lemma_sp_ws_stop(s, a);
        let pre2 = pre + spec_ser(e0) + seq![','];
        lemma_round_trip_elems(elems, k + 1, pre2, rest, d);
        assert(pre2 + tail_txt + seq![']'] + rest =~= s);
        assert(sp_arr_elems(s, a + 1, d) == Some(
            (elems.skip(k + 1), pre2.len() as int + tail_txt.len() + 1),
        ));
        assert(seq![e0] + elems.skip(k + 1) =~= elems.skip(k));
        assert(pre2.len() as int + tail_txt.len() + 1 == p + spec_ser_elems(elems, k).len() + 1);
    }
}

/// Reading one printed field back: the key string, the colon, and the value.
#[verifier::rlimit(100)]
proof fn lemma_round_trip_field_one(
    f0: (Seq<char>, JsonView),
    pre: Seq<char>,
    valtail: Seq<char>,
    d: nat,
)
    requires
        wf_json(f0.1),
        jdepth(f0.1) <= d,
        valtail.len() > 0 && is_sep(valtail[0]),
    ensures
        ({
            let s = pre + spec_ser_field(f0) + valtail;
            let p = pre.len() as int;
            let a = p + 1 + esc_string(f0.0).len() + 1;
            let c = p + spec_ser_field(f0).len();
            &&& s[p] == '"'
            &&& sp_string(s, p + 1) == Some((f0.0, a))
            &&& s[a] == ':'
            &&& sp_value(s, a + 1, d) == Some((f0.1, c))
        }),
    decreases f0, 0int,
{
    let s = pre + spec_ser_field(f0) + valtail;
    let p = pre.len() as int;
    let key = f0.0;
    let esc = esc_string(key);
    let sf = spec_ser_field(f0);
    assert(sf == seq!['"'] + esc + seq!['"', ':'] + spec_ser(f0.1));
    assert(s[p] == '"');
    assert((pre + seq!['"']) + esc + seq!['"'] + (seq![':'] + spec_ser(f0.1) + valtail) =~= s);
    lemma_sp_string_escaped(key, pre + seq!['"'], seq![':'] + spec_ser(f0.1) + valtail);
    let a = p + 1 + esc.len() + 1;
    assert(sp_string(s, p + 1) == Some((key, a)));
    assert(s[a] == ':');
    let pre3 = pre + seq!['"'] + esc + seq!['"', ':'];
    assert(pre3.len() == a + 1);
    assert(pre3 + spec_ser(f0.1) + valtail =~= s);
    lemma_round_trip_value(f0.1, pre3, valtail, d);
    assert(sp_value(s, a + 1, d) == Some((f0.1, p + sf.len())));
}

/// Reading printed object fields back yields those fields.
pub proof fn lemma_round_trip_fields(
    fields: Seq<(Seq<char>, JsonView)>,
    k: int,
    pre: Seq<char>,
    rest: Seq<char>,
    d: nat,
)
    requires
        0 <= k < fields.len(),
        forall|i: int|
            0 <= i < fields.len() ==> wf_json(#[trigger] fields[i].1) && jdepth(fields[i].1) <= d,
        rest.len() == 0 || is_sep(rest[0]),
    ensures
        ({
            let s = pre + spec_ser_fields(fields, k) + seq!['}'] + rest;
            sp_obj_fields(s, pre.len() as int, d) == Some(
                (fields.skip(k), pre.len() as int + spec_ser_fields(fields, k).len() + 1),
            )
        }),
    decreases fields, fields.len() - k, 1int,
{
    if k == fields.len() - 1 {
        lemma_round_trip_fields_last(fields, k, pre, rest, d);
    } else {
        lemma_round_trip_fields_more(fields, k, pre, rest, d);
    }
}

#[verifier::rlimit(100)]
#[verifier::spinoff_prover]
proof fn lemma_round_trip_fields_last(
    fields: Seq<(Seq<char>, JsonView)>,
    k: int,
    pre: Seq<char>,
    rest: Seq<char>,
    d: nat,
)
    requires
        0 <= k == fields.len() - 1,
        forall|i: int|
            0 <= i < fields.len() ==> wf_json(#[trigger] fields[i].1) && jdepth(fields[i].1) <= d,
        rest.len() == 0 || is_sep(rest[0]),
    ensures
        ({
            let s = pre + spec_ser_fields(fields, k) + seq!['}'] + rest;
            sp_obj_fields(s, pre.len() as int, d) == Some(
                (fields.skip(k), pre.len() as int + spec_ser_fields(fields, k).len() + 1),
            )
        }),
    decreases fields, fields.len() - k, 0int,
{
    let s = pre + spec_ser_fields(fields, k) + seq!['}'] + rest;
    let p = pre.len() as int;
    let f0 = fields[k];
    let sf = spec_ser_field(f0);
    let valtail: Seq<char> = seq!['}'] + rest;
    assert(spec_ser_fields(fields, k) == sf);
    assert(pre + sf + valtail =~= s);
    lemma_round_trip_field_one(f0, pre, valtail, d);
    let a = p + 1 + esc_string(f0.0).len() + 1;
    let c = p + sf.len();
    lemma_sp_ws_stop(s, p);
    lemma_sp_ws_stop(s, a);
    lemma_sp_ws_stop(s, c);
    assert(s[c] == '}');
    assert(sp_obj_fields(s, p, d) == Some((seq![(f0.0, f0.1)], c + 1)));
    assert(seq![(f0.0, f0.1)] =~= fields.skip(k)) by {
        assert(f0 == (f0.0, f0.1));
    }
}

#[verifier::rlimit(100)]
#[verifier::spinoff_prover]
proof fn lemma_round_trip_fields_more(
    fields: Seq<(Seq<char>, JsonView)>,
    k: int,
    pre: Seq<char>,
    rest: Seq<char>,
    d: nat,
)
    requires
        0 <= k < fields.len() - 1,
        forall|i: int|
            0 <= i < fields.len() ==> wf_json(#[trigger] fields[i].1) && jdepth(fields[i].1) <= d,
        rest.len() == 0 || is_sep(rest[0]),
    ensures
        ({
            let s = pre + spec_ser_fields(fields, k) + seq!['}'] + rest;
            sp_obj_fields(s, pre.len() as int, d) == Some(
                (fields.skip(k), pre.len() as int + spec_ser_fields(fields, k).len() + 1),
            )
        }),
    decreases fields, fields.len() - k, 0int,
{
    let s = pre + spec_ser_fields(fields, k) + seq!['}'] + rest;
    let p = pre.len() as int;
    let f0 = fields[k];
    let sf = spec_ser_field(f0);
    let tail_txt = spec_ser_fields(fields, k + 1);
    let valtail: Seq<char> = seq![','] + tail_txt + seq!['}'] + rest;
    assert(spec_ser_fields(fields, k) == sf + seq![','] + tail_txt);
    assert(pre + sf + valtail =~= s);
    lemma_round_trip_field_one(f0, pre, valtail, d);
    let a = p + 1 + esc_string(f0.0).len() + 1;
    let c = p + sf.len();
    lemma_sp_ws_stop(s, p);
    lemma_sp_ws_stop(s, a);
    lemma_sp_ws_stop(s, c);
    assert(s[c] == ',');
    let pre2 = pre + sf + seq![','];
    assert(pre2.len() == c + 1);
    lemma_round_trip_fields(fields, k + 1, pre2, rest, d);
    assert(pre2 + tail_txt + seq!['}'] + rest =~= s);
    assert(sp_obj_fields(s, c + 1, d) == Some(
        (fields.skip(k + 1), pre2.len() as int + tail_txt.len() + 1),
    ));
    assert(seq![(f0.0, f0.1)] + fields.skip(k + 1) =~= fields.skip(k)) by {
        assert(f0 == (f0.0, f0.1));
    }
    assert(sp_obj_fields(s, p, d) == Some(
        (fields.skip(k), pre2.len() as int + tail_txt.len() + 1),
    ));
    assert(pre2.len() as int + tail_txt.len() + 1 == p + spec_ser_fields(fields, k).len() + 1);
}

/// Printing a well-formed value and reading the text back yields the value
/// unchanged.
pub proof fn lemma_json_round_trip(v: JsonView)
    requires
        wf_json(v),
        jdepth(v) <= JSON_DEPTH_LIMIT as nat,
    ensures
        sp_json(spec_ser(v)) == Some(v),
{
    lemma_round_trip_value(v, Seq::empty(), Seq::empty(), JSON_DEPTH_LIMIT as nat);
    assert(Seq::<char>::empty() + spec_ser(v) + Seq::<char>::empty() =~= spec_ser(v));
    let n = spec_ser(v).len() as int;
    lemma_sp_ws_stop(spec_ser(v), n);
}


// ---------------------------------------------------------------------------
// Objects as records: lookup and construction
// ---------------------------------------------------------------------------

/// The value of the first field named `key`, if any.
pub open spec fn jget(fields: Seq<(Seq<char>, JsonView)>, key: Seq<char>) -> Option<JsonView>
    decreases fields.len(),
{
    if fields.len() == 0 {
        None
    } else if fields[0].0 == key {
        Some(fields[0].1)
    } else {
        jget(fields.skip(1), key)
    }
}

/// The field list that a record with the given optional entries serializes
/// to: entries whose value is absent are left out, order is kept.
pub open spec fn obj_of(entries: Seq<(Seq<char>, Option<JsonView>)>) -> Seq<
    (Seq<char>, JsonView),
>
    decreases entries.len(),
{
    if entries.len() == 0 {
        Seq::empty()
    } else {
        (match entries[0].1 {
            Some(v) => seq![(entries[0].0, v)],
            None => Seq::empty(),
        }) + obj_of(entries.skip(1))
    }
}

pub proof fn lemma_obj_of_push(entries: Seq<(Seq<char>, Option<JsonView>)>, e: (Seq<char>, Option<JsonView>))
    ensures
        obj_of(entries.push(e)) == obj_of(entries) + (match e.1 {
            Some(v) => seq![(e.0, v)],
            None => Seq::empty(),
        }),
    decreases entries.len(),
{
    if entries.len() == 0 {
        assert(entries.push(e)[0] == e);
        assert(entries.push(e).skip(1) =~= Seq::<(Seq<char>, Option<JsonView>)>::empty());
        assert(obj_of(Seq::<(Seq<char>, Option<JsonView>)>::empty()) =~= Seq::<
            (Seq<char>, JsonView),
        >::empty());
        assert(entries =~= Seq::<(Seq<char>, Option<JsonView>)>::empty());
        assert(obj_of(entries.push(e)) =~= obj_of(entries) + (match e.1 {
            Some(v) => seq![(e.0, v)],
            None => Seq::<(Seq<char>, JsonView)>::empty(),
        }));
    } else {
        lemma_obj_of_push(entries.skip(1), e);
        assert(entries.push(e).skip(1) =~= entries.skip(1).push(e));
        assert(entries.push(e)[0] == entries[0]);
        assert(obj_of(entries.push(e)) == (match entries[0].1 {
            Some(v) => seq![(entries[0].0, v)],
            None => Seq::<(Seq<char>, JsonView)>::empty(),
        }) + obj_of(entries.skip(1).push(e)));
        assert(obj_of(entries) == (match entries[0].1 {
            Some(v) => seq![(entries[0].0, v)],
            None => Seq::<(Seq<char>, JsonView)>::empty(),
        }) + obj_of(entries.skip(1)));
        assert(obj_of(entries.push(e)) =~= obj_of(entries) + (match e.1 {
            Some(v) => seq![(e.0, v)],
            None => Seq::<(Seq<char>, JsonView)>::empty(),
        }));
    }
}

pub proof fn lemma_jget_absent(entries: Seq<(Seq<char>, Option<JsonView>)>, key: Seq<char>)
    requires
        forall|j: int| 0 <= j < entries.len() ==> #[trigger] entries[j].0 != key,
    ensures
        jget(obj_of(entries), key) == None::<JsonView>,
    decreases entries.len(),
{
    if entries.len() > 0 {
        lemma_jget_absent(entries.skip(1), key);
        match entries[0].1 {
            Some(v) => {
                assert(obj_of(entries) == seq![(entries[0].0, v)] + obj_of(entries.skip(1)));
                assert(obj_of(entries)[0] == (entries[0].0, v));
                assert(obj_of(entries).skip(1) =~= obj_of(entries.skip(1)));
            },
            None => {
                assert(obj_of(entries) =~= obj_of(entries.skip(1)));
            },
        }
    }
}

/// Looking a key up in a serialized record yields that entry's value, as
/// long as the record's keys are pairwise distinct.
pub proof fn lemma_obj_of_get(entries: Seq<(Seq<char>, Option<JsonView>)>, i: int)
    requires
        0 <= i < entries.len(),
        forall|a: int, b: int|
            0 <= a < b < entries.len() ==> (#[trigger] entries[a].0) != (#[trigger] entries[b].0),
    ensures
        jget(obj_of(entries), entries[i].0) == entries[i].1,
    decreases entries.len(),
{
    let key = entries[i].0;
    if i == 0 {
        match entries[0].1 {
            Some(v) => {
                assert(obj_of(entries) == seq![(key, v)] + obj_of(entries.skip(1)));
                assert(obj_of(entries)[0] == (key, v));
            },
            None => {
                assert(obj_of(entries) =~= obj_of(entries.skip(1)));
                assert forall|j: int| 0 <= j < entries.skip(1).len() implies #[trigger] entries.skip(
                    1,
                )[j].0 != key by {
                    assert(entries.skip(1)[j] == entries[j + 1]);
                }
                lemma_jget_absent(entries.skip(1), key);
            },
        }
    } else {
        assert forall|a: int, b: int|
            0 <= a < b < entries.skip(1).len() implies (#[trigger] entries.skip(1)[a].0) != (
        #[trigger] entries.skip(1)[b].0) by {
            assert(entries.skip(1)[a] == entries[a + 1]);
            assert(entries.skip(1)[b] == entries[b + 1]);
        }
        lemma_obj_of_get(entries.skip(1), i - 1);
        assert(entries.skip(1)[i - 1] == entries[i]);
        match entries[0].1 {
            Some(v) => {
                assert(entries[0].0 != key);
                assert(obj_of(entries) == seq![(entries[0].0, v)] + obj_of(entries.skip(1)));
                assert(obj_of(entries)[0] == (entries[0].0, v));
                assert(obj_of(entries).skip(1) =~= obj_of(entries.skip(1)));
            },
            None => {
                assert(obj_of(entries) =~= obj_of(entries.skip(1)));
            },
        }
    }
}

// ---------------------------------------------------------------------------
// Text helpers
// ---------------------------------------------------------------------------

/// The characters of a string slice, as a fresh vector.
pub fn lit(s: &str) -> (r: Vec<char>)
    ensures
        r@ == s@,
{
    let n = s.unicode_len();
    let mut r: Vec<char> = Vec::new();
    let mut i: usize = 0;
    while i < n
        invariant
            i <= n,
            n == s@.len(),
            r@ == s@.take(i as int),
        decreases n - i,
    {
        r.push(s.get_char(i));
        i = i + 1;
        assert(r@ =~= s@.take(i as int));
    }
    assert(s@.take(n as int) =~= s@);
    r
}

/// A fresh copy of a character vector.
pub fn copy_text(t: &Vec<char>) -> (r: Vec<char>)
    ensures
        r@ == t@,
{
    copy_range(t, 0, t.len())
}

/// Whether two character vectors spell the same text.
pub fn text_eq(a: &Vec<char>, b: &Vec<char>) -> (r: bool)
    ensures
        r == (a@ == b@),
{
    if a.len() != b.len() {
        return false;
    }
    let mut i: usize = 0;
    while i < a.len()
        invariant
            i <= a.len(),
            a@.len() == b@.len(),
            forall|k: int| 0 <= k < i ==> a@[k] == b@[k],
        decreases a.len() - i,
    {
        if a[i] != b[i] {
            return false;
        }
        i = i + 1;
    }
    proof {
        assert(a@ =~= b@);
    }
    true
}

/// Whether a character vector spells the same text as a string slice.
pub fn text_eq_str(a: &Vec<char>, s: &str) -> (r: bool)
    ensures
        r == (a@ == s@),
{
    let n = s.unicode_len();
    if a.len() != n {
        return false;
    }
    let mut i: usize = 0;
    while i < n
        invariant
            i <= n,
            n == s@.len() == a@.len(),
            forall|k: int| 0 <= k < i ==> a@[k] == s@[k],
        decreases n - i,
    {
        if a[i] != s.get_char(i) {
            return false;
        }
        i = i + 1;
    }
    proof {
        assert(a@ =~= s@);
    }
    true
}

/// The view of an optional value.
pub open spec fn optv(v: Option<JsonValue>) -> Option<JsonView> {
    match v {
        Some(j) => Some(jview(j)),
        None => None,
    }
}

/// The view of an optional reference.
pub open spec fn orefv(v: Option<&JsonValue>) -> Option<JsonView> {
    match v {
        Some(j) => Some(jview(*j)),
        None => None,
    }
}

/// The value of the first field named `key`, if any.
pub fn obj_get<'a>(fields: &'a Vec<(Vec<char>, JsonValue)>, key: &str) -> (r: Option<
    &'a JsonValue,
>)
    ensures
        orefv(r) == jget(jview_fields(*fields, fields.len() as int), key@),
{
    let ghost fv = jview_fields(*fields, fields.len() as int);
    proof {
        lemma_jview_fields(*fields, fields.len() as int);
    }
    let mut i: usize = 0;
    proof {
        assert(fv.skip(0) =~= fv);
    }
    while i < fields.len()
        invariant
            i <= fields.len(),
            fv == jview_fields(*fields, fields.len() as int),
            fv.len() == fields.len(),
            forall|k: int|
                0 <= k < fields.len() ==> #[trigger] fv[k] == (fields[k].0@, jview(fields[k].1)),
            jget(fv, key@) == jget(fv.skip(i as int), key@),
        decreases fields.len() - i,
    {
        if text_eq_str(&fields[i].0, key) {
            proof {
                assert(fv.skip(i as int)[0] == fv[i as int]);
            }
            return Some(&fields[i].1);
        }
        i = i + 1;
        proof {
            assert(fv.skip(i as int - 1)[0] == fv[i as int - 1]);
            assert(fv.skip(i as int - 1).skip(1) =~= fv.skip(i as int));
        }
    }
    proof {
        assert(fv.skip(i as int) =~= Seq::<(Seq<char>, JsonView)>::empty());
    }
    None
}

/// Builds an object value field by field; fields given as absent are left
/// out.
pub struct ObjBuilder {
    fields: Vec<(Vec<char>, JsonValue)>,
    entries: Ghost<Seq<(Seq<char>, Option<JsonView>)>>,
}

impl ObjBuilder {
    pub closed spec fn wf(self) -> bool {
        jview_fields(self.fields, self.fields.len() as int) == obj_of(self.entries@)
    }

    pub closed spec fn entries(self) -> Seq<(Seq<char>, Option<JsonView>)> {
        self.entries@
    }

    pub fn new() -> (r: Self)
        ensures
            r.wf(),
            r.entries() == Seq::<(Seq<char>, Option<JsonView>)>::empty(),
    {
        let r = ObjBuilder { fields: Vec::new(), entries: Ghost(Seq::empty()) };
        proof {
            assert(jview_fields(r.fields, 0) =~= obj_of(r.entries@));
        }
        r
    }

    /// Appends one optional field.
    pub fn add(&mut self, key: &str, v: Option<JsonValue>)
        requires
            old(self).wf(),
        ensures
            final(self).wf(),
            final(self).entries() == old(self).entries().push((key@, optv(v))),
    {
        let ghost entries0 = self.entries@;
        let ghost fields0 = self.fields;
        proof {
            self.entries@ = entries0.push((key@, optv(v)));
        }
        match v {
            Some(j) => {
                let ghost jv = jview(j);
                self.fields.push((lit(key), j));
                proof {
                    lemma_obj_of_push(entries0, (key@, Some(jv)));
                    lemma_jview_fields(fields0, fields0.len() as int);
                    lemma_jview_fields(self.fields, self.fields.len() as int);
                    assert(jview_fields(self.fields, self.fields.len() as int) =~= jview_fields(
                        fields0,
                        fields0.len() as int,
                    ) + seq![(key@, jv)]);
                }
            },
            None => {
                proof {
                    lemma_obj_of_push(entries0, (key@, None));
                    assert(obj_of(self.entries@) =~= obj_of(entries0));
                }
            },
        }
    }

    /// The finished object.
    pub fn finish(self) -> (r: JsonValue)
        requires
            self.wf(),
        ensures
            jview(r) == JsonView::Obj(obj_of(self.entries())),
    {
        JsonValue::Obj(self.fields)
    }
}


impl JsonValue {
    /// A deep copy.
    #[verifier::loop_isolation(false)]
    pub fn duplicate(&self) -> (r: JsonValue)
        ensures
            jview(r) == jview(*self),
        decreases *self,
    {
        match self {
            JsonValue::Null => JsonValue::Null,
            JsonValue::Bool(b) => JsonValue::Bool(*b),
            JsonValue::Num(n) => JsonValue::Num(*n),
            JsonValue::NumRaw(lex) => JsonValue::NumRaw(copy_text(lex)),
            JsonValue::Str(s) => JsonValue::Str(copy_text(s)),
            JsonValue::Arr(elems) => {
                let mut out: Vec<JsonValue> = Vec::new();
                let mut i: usize = 0;
                while i < elems.len()
                    invariant
                        i <= elems.len(),
                        out.len() == i,
                        forall|k: int| 0 <= k < i ==> jview(#[trigger] out[k]) == jview(elems[k]),
                    decreases elems.len() - i,
                {
                    proof {
                        assert(decreases_to!(*self => (*self)->Arr_0));
                        assert(decreases_to!(*elems => elems[i as int]));
                    }
                    out.push(elems[i].duplicate());
                    i = i + 1;
                }
                proof {
                    lemma_jview_elems(out, out.len() as int);
                    lemma_jview_elems(*elems, elems.len() as int);
                    assert(jview_elems(out, out.len() as int) =~= jview_elems(
                        *elems,
                        elems.len() as int,
                    ));
                }
                JsonValue::Arr(out)
            },
            JsonValue::Obj(fields) => {
                let mut out: Vec<(Vec<char>, JsonValue)> = Vec::new();
                let mut i: usize = 0;
                while i < fields.len()
                    invariant
                        i <= fields.len(),
                        out.len() == i,
                        forall|k: int|
                            0 <= k < i ==> (#[trigger] out[k]).0@ == fields[k].0@ && jview(
                                out[k].1,
                            ) == jview(fields[k].1),
                    decreases fields.len() - i,
                {
                    proof {
                        assert(decreases_to!(*self => (*self)->Obj_0));
                        assert(decreases_to!(*fields => fields[i as int]));
                        assert(decreases_to!(fields[i as int] => fields[i as int].1));
                    }
                    out.push((copy_text(&fields[i].0), fields[i].1.duplicate()));
                    i = i + 1;
                }
                proof {
                    lemma_jview_fields(out, out.len() as int);
                    lemma_jview_fields(*fields, fields.len() as int);
                    assert(jview_fields(out, out.len() as int) =~= jview_fields(
                        *fields,
                        fields.len() as int,
                    ));
                }
                JsonValue::Obj(out)
            },
        }
    }
}

} // verus!
