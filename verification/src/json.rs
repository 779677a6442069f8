//! The JSON data model of the gateway and its line codec.
//!
//! Wire messages are single-line JSON records: the encoder writes them
//! whitespace-free, and the decoder additionally accepts whitespace
//! between tokens. The codec here is the library's own: values are
//! modelled by [`JsonValue`] (numbers are 64-bit integers; fractional
//! numbers are not representable and are rejected as malformed), encoding
//! is total over representable values, and decoding rejects malformed
//! text without panicking.

use vstd::prelude::*;

verus! {

/// A JSON value as carried in task inputs, event payloads and results.
#[derive(Debug, PartialEq)]
pub enum JsonValue {
    Null,
    Bool(bool),
    Int(i64),
    Str(String),
    Arr(Vec<JsonValue>),
    Obj(Vec<(String, JsonValue)>),
}

/// The mathematical model of a JSON value.
#[verifier::ext_equal]
pub enum JVal {
    Null,
    Bool(bool),
    Int(int),
    Str(Seq<char>),
    Arr(Seq<JVal>),
    Obj(Seq<(Seq<char>, JVal)>),
}

/// The model of an executable JSON value.
pub open spec fn view_of(v: JsonValue) -> JVal
    decreases v,
{
    match v {
        JsonValue::Null => JVal::Null,
        JsonValue::Bool(b) => JVal::Bool(b),
        JsonValue::Int(i) => JVal::Int(i as int),
        JsonValue::Str(s) => JVal::Str(s@),
        JsonValue::Arr(a) => JVal::Arr(view_of_elems(a@)),
        JsonValue::Obj(o) => JVal::Obj(view_of_members(o@)),
    }
}

/// The models of the elements of an array, in order.
pub open spec fn view_of_elems(s: Seq<JsonValue>) -> Seq<JVal>
    decreases s,
{
    if s.len() == 0 {
        Seq::empty()
    } else {
        seq![view_of(s[0])] + view_of_elems(s.drop_first())
    }
}

/// The models of the members of an object, in order.
pub open spec fn view_of_members(s: Seq<(String, JsonValue)>) -> Seq<(Seq<char>, JVal)>
    decreases s,
{
    if s.len() == 0 {
        Seq::empty()
    } else {
        seq![(s[0].0@, view_of(s[0].1))] + view_of_members(s.drop_first())
    }
}

/// Element-wise reading of [`view_of_elems`].
pub proof fn lemma_view_of_elems(s: Seq<JsonValue>)
    ensures
        view_of_elems(s).len() == s.len(),
        forall|i: int| 0 <= i < s.len() ==> view_of_elems(s)[i] == view_of(s[i]),
    decreases s.len(),
{
    if s.len() > 0 {
        lemma_view_of_elems(s.drop_first());
    }
}

/// Element-wise reading of [`view_of_members`].
pub proof fn lemma_view_of_members(s: Seq<(String, JsonValue)>)
    ensures
        view_of_members(s).len() == s.len(),
        forall|i: int| 0 <= i < s.len() ==> view_of_members(s)[i] == (s[i].0@, view_of(
            s[i].1,
        )),
    decreases s.len(),
{
    if s.len() > 0 {
        lemma_view_of_members(s.drop_first());
    }
}

impl View for JsonValue {
    type V = JVal;

    open spec fn view(&self) -> JVal {
        view_of(*self)
    }
}

/// Well-formedness of a model value: every integer fits in 64 signed bits,
/// so the value is representable as a [`JsonValue`].
pub open spec fn wf_val(v: JVal) -> bool
    decreases v,
{
    match v {
        JVal::Null => true,
        JVal::Bool(_) => true,
        JVal::Int(i) => i64::MIN <= i <= i64::MAX,
        JVal::Str(_) => true,
        JVal::Arr(es) => wf_elems(es),
        JVal::Obj(ms) => wf_members(ms),
    }
}

/// Well-formedness of every element of an array model.
pub open spec fn wf_elems(es: Seq<JVal>) -> bool
    decreases es,
{
    if es.len() == 0 {
        true
    } else {
        wf_val(es[0]) && wf_elems(es.drop_first())
    }
}

/// Well-formedness of every member value of an object model.
pub open spec fn wf_members(ms: Seq<(Seq<char>, JVal)>) -> bool
    decreases ms,
{
    if ms.len() == 0 {
        true
    } else {
        wf_val(ms[0].1) && wf_members(ms.drop_first())
    }
}

/// The model of an executable value is always well formed.
pub proof fn lemma_view_wf(v: JsonValue)
    ensures
        wf_val(view_of(v)),
    decreases v,
{
    match v {
        JsonValue::Arr(a) => {
            lemma_view_wf_elems(a@);
        },
        JsonValue::Obj(o) => {
            lemma_view_wf_members(o@);
        },
        _ => {},
    }
}

proof fn lemma_view_wf_elems(s: Seq<JsonValue>)
    ensures
        wf_elems(view_of_elems(s)),
    decreases s,
{
    if s.len() > 0 {
        lemma_view_wf(s[0]);
        lemma_view_wf_elems(s.drop_first());
        assert(view_of_elems(s).drop_first() =~= view_of_elems(s.drop_first()));
    }
}

proof fn lemma_view_wf_members(s: Seq<(String, JsonValue)>)
    ensures
        wf_members(view_of_members(s)),
    decreases s,
{
    if s.len() > 0 {
        lemma_view_wf(s[0].1);
        lemma_view_wf_members(s.drop_first());
        assert(view_of_members(s).drop_first() =~= view_of_members(s.drop_first()));
    }
}

// ------------------------------------------------------------------
// Character-level helpers
// ------------------------------------------------------------------

/// Whether `c` is a decimal digit.
pub open spec fn is_digit(c: char) -> bool {
    ('0' as u32) <= (c as u32) && (c as u32) <= ('9' as u32)
}

/// The numeric value of a decimal digit.
pub open spec fn digit_val(c: char) -> int {
    (c as u32) - ('0' as u32)
}

/// Whether `c` is a hexadecimal digit (either case).
pub open spec fn is_hex_digit(c: char) -> bool {
    is_digit(c) || (('a' as u32) <= (c as u32) && (c as u32) <= ('f' as u32)) || (('A' as u32)
        <= (c as u32) && (c as u32) <= ('F' as u32))
}

/// The numeric value of a hexadecimal digit.
pub open spec fn hex_val(c: char) -> int {
    if is_digit(c) {
        digit_val(c)
    } else if ('a' as u32) <= (c as u32) && (c as u32) <= ('f' as u32) {
        (c as u32) - ('a' as u32) + 10
    } else {
        (c as u32) - ('A' as u32) + 10
    }
}

/// The lower-case hexadecimal digit for a value below 16.
pub open spec fn hex_char(n: int) -> char {
    if n == 0 {
        '0'
    } else if n == 1 {
        '1'
    } else if n == 2 {
        '2'
    } else if n == 3 {
        '3'
    } else if n == 4 {
        '4'
    } else if n == 5 {
        '5'
    } else if n == 6 {
        '6'
    } else if n == 7 {
        '7'
    } else if n == 8 {
        '8'
    } else if n == 9 {
        '9'
    } else if n == 10 {
        'a'
    } else if n == 11 {
        'b'
    } else if n == 12 {
        'c'
    } else if n == 13 {
        'd'
    } else if n == 14 {
        'e'
    } else {
        'f'
    }
}

// ------------------------------------------------------------------
// Encoding (specification)
// ------------------------------------------------------------------

/// How one character of a string is written: quote and backslash get a
/// two-character escape, control characters a `\u00XX` escape, and every
/// other character stands for itself.
pub open spec fn esc_char(c: char) -> Seq<char> {
    if c == '"' {
        seq!['\\', '"']
    } else if c == '\\' {
        seq!['\\', '\\']
    } else if (c as u32) < 0x20 {
        seq!['\\', 'u', '0', '0', hex_char((c as u32) as int / 16), hex_char((c as u32) as int % 16)]
    } else {
        seq![c]
    }
}

/// The escaped body of a string (without the surrounding quotes).
pub open spec fn enc_str_body(s: Seq<char>) -> Seq<char>
    decreases s.len(),
{
    if s.len() == 0 {
        Seq::empty()
    } else {
        esc_char(s[0]) + enc_str_body(s.drop_first())
    }
}

/// A complete encoded string, quotes included.
pub open spec fn enc_string(s: Seq<char>) -> Seq<char> {
    seq!['"'] + enc_str_body(s) + seq!['"']
}

/// The decimal digits of a natural number, most significant first.
pub open spec fn dec_digits_of(n: nat) -> Seq<char>
    decreases n,
{
    if n < 10 {
        seq![hex_char(n as int)]
    } else {
        dec_digits_of(n / 10) + seq![hex_char((n % 10) as int)]
    }
}

/// An encoded integer: an optional minus sign and decimal digits.
pub open spec fn enc_int(n: int) -> Seq<char> {
    if n < 0 {
        seq!['-'] + dec_digits_of((-n) as nat)
    } else {
        dec_digits_of(n as nat)
    }
}

/// The encoding of a value: single-line, whitespace-free JSON text.
pub open spec fn enc_val(v: JVal) -> Seq<char>
    decreases v,
{
    match v {
        JVal::Null => seq!['n', 'u', 'l', 'l'],
        JVal::Bool(b) => if b {
            seq!['t', 'r', 'u', 'e']
        } else {
            seq!['f', 'a', 'l', 's', 'e']
        },
        JVal::Int(i) => enc_int(i),
        JVal::Str(s) => enc_string(s),
        JVal::Arr(es) => seq!['['] + enc_elems(es) + seq![']'],
        JVal::Obj(ms) => seq!['{'] + enc_members(ms) + seq!['}'],
    }
}

/// The comma-separated encodings of array elements.
pub open spec fn enc_elems(es: Seq<JVal>) -> Seq<char>
    decreases es,
{
    if es.len() == 0 {
        Seq::empty()
    } else if es.len() == 1 {
        enc_val(es[0])
    } else {
        enc_val(es[0]) + seq![','] + enc_elems(es.drop_first())
    }
}

/// The comma-separated encodings of object members (`"key":value`).
pub open spec fn enc_members(ms: Seq<(Seq<char>, JVal)>) -> Seq<char>
    decreases ms,
{
    if ms.len() == 0 {
        Seq::empty()
    } else if ms.len() == 1 {
        enc_string(ms[0].0) + seq![':'] + enc_val(ms[0].1)
    } else {
        enc_string(ms[0].0) + seq![':'] + enc_val(ms[0].1) + seq![','] + enc_members(
            ms.drop_first(),
        )
    }
}

// ------------------------------------------------------------------
// Decoding (specification)
// ------------------------------------------------------------------

/// Whether `c` is insignificant whitespace between tokens.
pub open spec fn is_ws(c: char) -> bool {
    c == ' ' || c == '\t' || c == '\n' || c == '\r'
}

/// `s` without its leading whitespace.
pub open spec fn skip_ws(s: Seq<char>) -> Seq<char>
    decreases s.len(),
{
    if s.len() > 0 && is_ws(s[0]) {
        skip_ws(s.drop_first())
    } else {
        s
    }
}

/// Skipping whitespace never lengthens the input.
pub proof fn lemma_skip_ws_len(s: Seq<char>)
    ensures
        skip_ws(s).len() <= s.len(),
    decreases s.len(),
{
    if s.len() > 0 && is_ws(s[0]) {
        lemma_skip_ws_len(s.drop_first());
    }
}

/// Skipping whitespace does nothing when none leads.
pub proof fn lemma_skip_ws_noop(s: Seq<char>)
    requires
        s.len() == 0 || !is_ws(s[0]),
    ensures
        skip_ws(s) == s,
{
}

/// How many leading decimal digits `s` has.
pub open spec fn digits_prefix(s: Seq<char>) -> nat
    decreases s.len(),
{
    if s.len() == 0 || !is_digit(s[0]) {
        0
    } else {
        1 + digits_prefix(s.drop_first())
    }
}

/// The value of an all-digit sequence, most significant digit first.
pub open spec fn digits_value(s: Seq<char>) -> int
    decreases s.len(),
{
    if s.len() == 0 {
        0
    } else {
        digits_value(s.take(s.len() - 1)) * 10 + digit_val(s[s.len() - 1])
    }
}

/// Decoding of an integer at the head of `s`: an optional minus sign and a
/// non-empty digit run, rejected when the value does not fit in 64 signed
/// bits (in particular, fractional numbers are malformed: a `.` after the
/// digits is not consumed and makes the surrounding value malformed).
pub open spec fn dec_int(s: Seq<char>) -> Option<(JVal, Seq<char>)> {
    let neg = s.len() > 0 && s[0] == '-';
    let t = if neg {
        s.drop_first()
    } else {
        s
    };
    let k = digits_prefix(t);
    if k == 0 {
        None
    } else {
        let m = digits_value(t.take(k as int));
        let val = if neg {
            -m
        } else {
            m
        };
        if val < i64::MIN as int || val > i64::MAX as int {
            None
        } else {
            Some((JVal::Int(val), t.skip(k as int)))
        }
    }
}

/// Decoding of a string body after the opening quote: plain characters up
/// to the closing quote, with the short escapes `\" \\ \/ \b \f \n \r \t`,
/// `\uXXXX` escapes, and surrogate pairs for characters beyond the basic
/// plane. Unescaped control characters are malformed.
pub open spec fn dec_str_body(s: Seq<char>) -> Option<(Seq<char>, Seq<char>)>
    decreases s.len(),
{
    if s.len() == 0 {
        None
    } else if s[0] == '"' {
        Some((Seq::empty(), s.skip(1)))
    } else if s[0] == '\\' {
        if s.len() < 2 {
            None
        } else if s[1] == 'u' {
            if s.len() < 6 || !is_hex_digit(s[2]) || !is_hex_digit(s[3]) || !is_hex_digit(s[4])
                || !is_hex_digit(s[5]) {
                None
            } else {
                let code = hex_val(s[2]) * 4096 + hex_val(s[3]) * 256 + hex_val(s[4]) * 16
                    + hex_val(s[5]);
                if 0xD800 <= code < 0xDC00 {
                    if s.len() < 12 || s[6] != '\\' || s[7] != 'u' || !is_hex_digit(s[8])
                        || !is_hex_digit(s[9]) || !is_hex_digit(s[10]) || !is_hex_digit(s[11]) {
                        None
                    } else {
                        let low = hex_val(s[8]) * 4096 + hex_val(s[9]) * 256 + hex_val(s[10]) * 16
                            + hex_val(s[11]);
                        if !(0xDC00 <= low < 0xE000) {
                            None
                        } else {
                            let scalar = 0x10000 + (code - 0xD800) * 1024 + (low - 0xDC00);
                            match dec_str_body(s.skip(12)) {
                                Some((t, r)) => Some((seq![((scalar as u32) as char)] + t, r)),
                                None => None,
                            }
                        }
                    }
                } else if 0xDC00 <= code < 0xE000 {
                    None
                } else {
                    match dec_str_body(s.skip(6)) {
                        Some((t, r)) => Some((seq![((code as u32) as char)] + t, r)),
                        None => None,
                    }
                }
            }
        } else {
            let unescaped = if s[1] == '"' {
                Some('"')
            } else if s[1] == '\\' {
                Some('\\')
            } else if s[1] == '/' {
                Some('/')
            } else if s[1] == 'b' {
                Some('\u{8}')
            } else if s[1] == 'f' {
                Some('\u{c}')
            } else if s[1] == 'n' {
                Some('\n')
            } else if s[1] == 'r' {
                Some('\r')
            } else if s[1] == 't' {
                Some('\t')
            } else {
                None
            };
            match unescaped {
                None => None,
                Some(c) => match dec_str_body(s.skip(2)) {
                    Some((t, r)) => Some((seq![c] + t, r)),
                    None => None,
                },
            }
        }
    } else if (s[0] as u32) < 0x20 {
        None
    } else {
        match dec_str_body(s.skip(1)) {
            Some((t, r)) => Some((seq![s[0]] + t, r)),
            None => None,
        }
    }
}

/// Decoding of a value at the head of `s` (leading whitespace skipped),
/// returning the value and the unconsumed remainder. The grammar is
/// single-line JSON: whitespace between tokens is accepted, and the
/// encoder never writes any.
pub open spec fn dec_val(s: Seq<char>) -> Option<(JVal, Seq<char>)>
    decreases s.len(), 0int,
{
    proof {
        lemma_skip_ws_len(s);
    }
    let t = skip_ws(s);
    if t.len() == 0 {
        None
    } else if t[0] == 'n' {
        if t.len() >= 4 && t[1] == 'u' && t[2] == 'l' && t[3] == 'l' {
            Some((JVal::Null, t.skip(4)))
        } else {
            None
        }
    } else if t[0] == 't' {
        if t.len() >= 4 && t[1] == 'r' && t[2] == 'u' && t[3] == 'e' {
            Some((JVal::Bool(true), t.skip(4)))
        } else {
            None
        }
    } else if t[0] == 'f' {
        if t.len() >= 5 && t[1] == 'a' && t[2] == 'l' && t[3] == 's' && t[4] == 'e' {
            Some((JVal::Bool(false), t.skip(5)))
        } else {
            None
        }
    } else if t[0] == '"' {
        match dec_str_body(t.skip(1)) {
            Some((body, r)) => Some((JVal::Str(body), r)),
            None => None,
        }
    } else if t[0] == '[' {
        proof {
            lemma_skip_ws_len(t.skip(1));
        }
        let u = skip_ws(t.skip(1));
        if u.len() >= 1 && u[0] == ']' {
            Some((JVal::Arr(Seq::empty()), u.skip(1)))
        } else {
            match dec_elems(t.skip(1)) {
                Some((vs, r)) => Some((JVal::Arr(vs), r)),
                None => None,
            }
        }
    } else if t[0] == '{' {
        proof {
            lemma_skip_ws_len(t.skip(1));
        }
        let u = skip_ws(t.skip(1));
        if u.len() >= 1 && u[0] == '}' {
            Some((JVal::Obj(Seq::empty()), u.skip(1)))
        } else {
            match dec_members(t.skip(1)) {
                Some((ms, r)) => Some((JVal::Obj(ms), r)),
                None => None,
            }
        }
    } else if t[0] == '-' || is_digit(t[0]) {
        dec_int(t)
    } else {
        None
    }
}

/// Decoding of one or more comma-separated elements followed by the
/// closing bracket, as found after the `[` of a non-empty array.
pub open spec fn dec_elems(s: Seq<char>) -> Option<(Seq<JVal>, Seq<char>)>
    decreases s.len(), 1int,
{
    match dec_val(s) {
        None => None,
        Some((v, r)) => if r.len() >= s.len() {
            None
        } else {
            proof {
                lemma_skip_ws_len(r);
            }
            let rs = skip_ws(r);
            if rs.len() >= 1 && rs[0] == ',' {
                match dec_elems(rs.skip(1)) {
                    None => None,
                    Some((vs, r2)) => Some((seq![v] + vs, r2)),
                }
            } else if rs.len() >= 1 && rs[0] == ']' {
                Some((seq![v], rs.skip(1)))
            } else {
                None
            }
        },
    }
}

/// Decoding of one or more comma-separated members followed by the
/// closing brace, as found after the `{` of a non-empty object.
pub open spec fn dec_members(s: Seq<char>) -> Option<(Seq<(Seq<char>, JVal)>, Seq<char>)>
    decreases s.len(), 1int,
{
    proof {
        lemma_skip_ws_len(s);
    }
    let t = skip_ws(s);
    if t.len() == 0 || t[0] != '"' {
        None
    } else {
        match dec_str_body(t.skip(1)) {
            None => None,
            Some((key, rk)) => if rk.len() >= s.len() {
                None
            } else {
                proof {
                    lemma_skip_ws_len(rk);
                }
                let rks = skip_ws(rk);
                if rks.len() < 1 || rks[0] != ':' {
                    None
                } else {
                    match dec_val(rks.skip(1)) {
                        None => None,
                        Some((v, rv)) => if rv.len() >= s.len() {
                            None
                        } else {
                            proof {
                                lemma_skip_ws_len(rv);
                            }
                            let rvs = skip_ws(rv);
                            if rvs.len() >= 1 && rvs[0] == ',' {
                                match dec_members(rvs.skip(1)) {
                                    None => None,
                                    Some((ms, r2)) => Some((seq![(key, v)] + ms, r2)),
                                }
                            } else if rvs.len() >= 1 && rvs[0] == '}' {
                                Some((seq![(key, v)], rvs.skip(1)))
                            } else {
                                None
                            }
                        },
                    }
                }
            },
        }
    }
}

// ------------------------------------------------------------------
// The codec round trip
// ------------------------------------------------------------------

/// Whether `s` is empty or starts with a separator, i.e. with a character
/// that can follow a complete value inside a line.
pub open spec fn sep_start(s: Seq<char>) -> bool {
    s.len() == 0 || s[0] == ',' || s[0] == ']' || s[0] == '}'
}

/// Whether `c` can start an encoded value.
pub open spec fn value_start(c: char) -> bool {
    c == 'n' || c == 't' || c == 'f' || c == '"' || c == '[' || c == '{' || c == '-' || is_digit(
        c,
    )
}

proof fn lemma_hex_char_val(x: int)
    requires
        0 <= x < 16,
    ensures
        is_hex_digit(hex_char(x)),
        hex_val(hex_char(x)) == x,
        x < 10 ==> is_digit(hex_char(x)) && digit_val(hex_char(x)) == x,
{
}

proof fn lemma_digits_of_shape(n: nat)
    ensures
        dec_digits_of(n).len() >= 1,
        forall|i: int| 0 <= i < dec_digits_of(n).len() ==> is_digit(#[trigger] dec_digits_of(n)[i]),
    decreases n,
{
    if n < 10 {
        lemma_hex_char_val(n as int);
    } else {
        lemma_digits_of_shape(n / 10);
        lemma_hex_char_val((n % 10) as int);
    }
}

proof fn lemma_digits_prefix_exact(d: Seq<char>, rest: Seq<char>)
    requires
        forall|i: int| 0 <= i < d.len() ==> is_digit(#[trigger] d[i]),
        rest.len() == 0 || !is_digit(rest[0]),
    ensures
        digits_prefix(d + rest) == d.len(),
    decreases d.len(),
{
    if d.len() == 0 {
        assert(d + rest =~= rest);
    } else {
        assert((d + rest)[0] == d[0]);
        assert((d + rest).drop_first() =~= d.drop_first() + rest);
        lemma_digits_prefix_exact(d.drop_first(), rest);
    }
}

proof fn lemma_digits_value_rt(n: nat)
    ensures
        digits_value(dec_digits_of(n)) == n,
    decreases n,
{
    reveal_with_fuel(digits_value, 3);
    if n < 10 {
        lemma_hex_char_val(n as int);
        assert(dec_digits_of(n).take(0) =~= Seq::<char>::empty());
    } else {
        lemma_digits_value_rt(n / 10);
        lemma_hex_char_val((n % 10) as int);
        let d = dec_digits_of(n);
        assert(d.take(d.len() - 1) =~= dec_digits_of(n / 10));
        assert(d[d.len() - 1] == hex_char((n % 10) as int));
        vstd::arithmetic::div_mod::lemma_fundamental_div_mod(n as int, 10);
    }
}

/// An encoded value is never empty and starts with a value-start character.
proof fn lemma_enc_val_shape(v: JVal)
    ensures
        enc_val(v).len() >= 1,
        value_start(enc_val(v)[0]),
    decreases v,
{
    match v {
        JVal::Int(i) => {
            if i < 0 {
                lemma_digits_of_shape((-i) as nat);
            } else {
                lemma_digits_of_shape(i as nat);
                assert(enc_val(v)[0] == dec_digits_of(i as nat)[0]);
            }
        },
        _ => {},
    }
}

proof fn lemma_rt_int(i: int, rest: Seq<char>)
    requires
        i64::MIN <= i <= i64::MAX,
        rest.len() == 0 || !is_digit(rest[0]),
    ensures
        dec_int(enc_int(i) + rest) == Some((JVal::Int(i), rest)),
{
    let s = enc_int(i) + rest;
    if i < 0 {
        let m = (-i) as nat;
        lemma_digits_of_shape(m);
        assert(s[0] == '-');
        assert(s.drop_first() =~= dec_digits_of(m) + rest);
        lemma_digits_prefix_exact(dec_digits_of(m), rest);
        let t = s.drop_first();
        let k = digits_prefix(t);
        assert(k == dec_digits_of(m).len());
        assert(t.take(k as int) =~= dec_digits_of(m));
        lemma_digits_value_rt(m);
        assert(t.skip(k as int) =~= rest);
    } else {
        let m = i as nat;
        lemma_digits_of_shape(m);
        assert(s[0] == dec_digits_of(m)[0]);
        assert(is_digit(s[0]));
        assert(s[0] != '-');
        lemma_digits_prefix_exact(dec_digits_of(m), rest);
        let k = digits_prefix(s);
        assert(k == dec_digits_of(m).len());
        assert(s.take(k as int) =~= dec_digits_of(m));
        lemma_digits_value_rt(m);
        assert(s.skip(k as int) =~= rest);
    }
}

#[verifier::rlimit(80)]
proof fn lemma_rt_str_body(sv: Seq<char>, rest: Seq<char>)
    ensures
        dec_str_body(enc_str_body(sv) + seq!['"'] + rest) == Some((sv, rest)),
    decreases sv.len(),
{
    let s = enc_str_body(sv) + seq!['"'] + rest;
    if sv.len() == 0 {
        assert(s =~= seq!['"'] + rest);
        assert(s[0] == '"');
        assert(s.skip(1) =~= rest);
    } else {
        let c = sv[0];
        let s2 = enc_str_body(sv.drop_first()) + seq!['"'] + rest;
        assert(s =~= esc_char(c) + s2);
        lemma_rt_str_body(sv.drop_first(), rest);
        assert(s2.len() >= 1);
        if c == '"' {
            assert(s[0] == '\\' && s[1] == '"');
            assert(s.skip(2) =~= s2);
            assert(seq!['"'] + sv.drop_first() =~= sv);
        } else if c == '\\' {
            assert(s[0] == '\\' && s[1] == '\\');
            assert(s.skip(2) =~= s2);
            assert(seq!['\\'] + sv.drop_first() =~= sv);
        } else if (c as u32) < 0x20 {
            let cu = (c as u32) as int;
            lemma_hex_char_val(cu / 16);
            lemma_hex_char_val(cu % 16);
            assert(s[0] == '\\' && s[1] == 'u' && s[2] == '0' && s[3] == '0');
            assert(s[4] == hex_char(cu / 16) && s[5] == hex_char(cu % 16));
            assert(s.len() >= 7);
            let code = hex_val(s[2]) * 4096 + hex_val(s[3]) * 256 + hex_val(s[4]) * 16 + hex_val(
                s[5],
            );
            assert(code == (cu / 16) * 16 + cu % 16);
            assert(code == cu);
            assert(!(0xD800 <= code < 0xDC00) && !(0xDC00 <= code < 0xE000));
            assert(s.skip(6) =~= s2);
            vstd::utf8::char_u32_cast(c, c as u32);
            assert(((code as u32) as char) == c);
            assert(seq![c] + sv.drop_first() =~= sv);
        } else {
            assert(esc_char(c) =~= seq![c]);
            assert(s[0] == c);
            assert(s[0] != '"' && s[0] != '\\' && !((s[0] as u32) < 0x20));
            assert(s.skip(1) =~= s2);
            assert(seq![c] + sv.drop_first() =~= sv);
        }
    }
}

/// Decoding inverts encoding: a well-formed value written by [`enc_val`]
/// and followed by a separator (or nothing) is read back exactly, with the
/// suffix untouched.
#[verifier::rlimit(100)]
#[verifier::spinoff_prover]
pub proof fn lemma_rt_val(v: JVal, rest: Seq<char>)
    requires
        wf_val(v),
        sep_start(rest),
    ensures
        dec_val(enc_val(v) + rest) == Some((v, rest)),
    decreases v, 0int,
{
    let s = enc_val(v) + rest;
    lemma_enc_val_shape(v);
    assert(s[0] == enc_val(v)[0]);
    assert(!is_ws(s[0]));
    lemma_skip_ws_noop(s);
    match v {
        JVal::Null => {
            assert(s[0] == 'n' && s[1] == 'u' && s[2] == 'l' && s[3] == 'l');
            assert(s.skip(4) =~= rest);
            assert(dec_val(s) =~~= Some((v, rest)));
        },
        JVal::Bool(b) => {
            if b {
                assert(s[0] == 't' && s[1] == 'r' && s[2] == 'u' && s[3] == 'e');
                assert(s.skip(4) =~= rest);
            } else {
                assert(s[0] == 'f' && s[1] == 'a' && s[2] == 'l' && s[3] == 's' && s[4] == 'e');
                assert(s.skip(5) =~= rest);
            }
            assert(dec_val(s) =~~= Some((v, rest)));
        },
        JVal::Int(i) => {
            lemma_rt_int(i, rest);
            if i < 0 {
                assert(s[0] == '-');
            } else {
                lemma_digits_of_shape(i as nat);
                assert(s[0] == dec_digits_of(i as nat)[0]);
                assert(is_digit(s[0]));
            }
            assert(dec_val(s) =~~= Some((v, rest)));
        },
        JVal::Str(sv) => {
            assert(s[0] == '"');
            assert(s.skip(1) =~= enc_str_body(sv) + seq!['"'] + rest);
            lemma_rt_str_body(sv, rest);
            assert(dec_val(s) =~~= Some((v, rest)));
        },
        JVal::Arr(es) => {
            lemma_rt_val_arr(es, rest);
        },
        JVal::Obj(ms) => {
            lemma_rt_val_obj(ms, rest);
        },
    }
}

/// The array case of the round trip.
#[verifier::rlimit(100)]
#[verifier::spinoff_prover]
proof fn lemma_rt_val_arr(es: Seq<JVal>, rest: Seq<char>)
    requires
        wf_elems(es),
        sep_start(rest),
    ensures
        dec_val(enc_val(JVal::Arr(es)) + rest) == Some((JVal::Arr(es), rest)),
    decreases es, 2int,
{
    let v = JVal::Arr(es);
    let s = enc_val(v) + rest;
    lemma_enc_val_shape(v);
    assert(s[0] == enc_val(v)[0]);
    assert(!is_ws(s[0]));
    lemma_skip_ws_noop(s);
    assert(s[0] == '[');
    if es.len() == 0 {
        assert(enc_elems(es) =~= Seq::<char>::empty());
        assert(s =~= seq!['[', ']'] + rest);
        assert(s[1] == ']');
        assert(s.skip(1)[0] == ']');
        lemma_skip_ws_noop(s.skip(1));
        assert(skip_ws(s.skip(1)).skip(1) =~= s.skip(2));
        assert(s.skip(2) =~= rest);
        assert(es =~= Seq::<JVal>::empty());
    } else {
        lemma_enc_val_shape(es[0]);
        assert(enc_elems(es)[0] == enc_val(es[0])[0]);
        assert(s[1] == enc_elems(es)[0]);
        assert(value_start(s[1]));
        assert(s[1] != ']');
        assert(s.skip(1)[0] == s[1]);
        assert(!is_ws(s[1]));
        lemma_skip_ws_noop(s.skip(1));
        assert(s.skip(1) =~= enc_elems(es) + seq![']'] + rest);
        lemma_rt_elems(es, rest);
    }
    assert(dec_val(s) =~~= Some((v, rest)));
}

/// The object case of the round trip.
#[verifier::rlimit(100)]
#[verifier::spinoff_prover]
proof fn lemma_rt_val_obj(ms: Seq<(Seq<char>, JVal)>, rest: Seq<char>)
    requires
        wf_members(ms),
        sep_start(rest),
    ensures
        dec_val(enc_val(JVal::Obj(ms)) + rest) == Some((JVal::Obj(ms), rest)),
    decreases ms, 2int,
{
    let v = JVal::Obj(ms);
    let s = enc_val(v) + rest;
    lemma_enc_val_shape(v);
    assert(s[0] == enc_val(v)[0]);
    assert(!is_ws(s[0]));
    lemma_skip_ws_noop(s);
    assert(s[0] == '{');
    if ms.len() == 0 {
        assert(enc_members(ms) =~= Seq::<char>::empty());
        assert(s =~= seq!['{', '}'] + rest);
        assert(s[1] == '}');
        assert(s.skip(1)[0] == '}');
        lemma_skip_ws_noop(s.skip(1));
        assert(skip_ws(s.skip(1)).skip(1) =~= s.skip(2));
        assert(s.skip(2) =~= rest);
        assert(ms =~= Seq::<(Seq<char>, JVal)>::empty());
    } else {
        assert(enc_members(ms)[0] == '"');
        assert(s[1] == '"');
        assert(s[1] != '}');
        assert(s.skip(1)[0] == '"');
        lemma_skip_ws_noop(s.skip(1));
        assert(s.skip(1) =~= enc_members(ms) + seq!['}'] + rest);
        lemma_rt_members(ms, rest);
    }
    assert(dec_val(s) =~~= Some((v, rest)));
}

/// Decoding inverts encoding for a non-empty element list followed by its
/// closing bracket.
proof fn lemma_rt_elems(es: Seq<JVal>, rest: Seq<char>)
    requires
        es.len() >= 1,
        wf_elems(es),
    ensures
        dec_elems(enc_elems(es) + seq![']'] + rest) == Some((es, rest)),
    decreases es, 1int,
{
    if es.len() == 1 {
        lemma_rt_elems_one(es, rest);
    } else {
        lemma_rt_elems(es.drop_first(), rest);
        lemma_rt_elems_more(es, rest);
    }
}

#[verifier::rlimit(80)]
#[verifier::spinoff_prover]
proof fn lemma_rt_elems_one(es: Seq<JVal>, rest: Seq<char>)
    requires
        es.len() == 1,
        wf_elems(es),
    ensures
        dec_elems(enc_elems(es) + seq![']'] + rest) == Some((es, rest)),
    decreases es, 0int,
{
    let s = enc_elems(es) + seq![']'] + rest;
    lemma_enc_val_shape(es[0]);
    let r = seq![']'] + rest;
    assert(s =~= enc_val(es[0]) + r);
    lemma_rt_val(es[0], r);
    assert(r.len() < s.len());
    assert(r[0] == ']');
    lemma_skip_ws_noop(r);
    assert(r.skip(1) =~= rest);
    assert(seq![es[0]] =~= es);
    assert(dec_elems(s) =~~= Some((es, rest)));
}

/// The step case: with more than one element, decoding consumes the first
/// `value,` and continues as the decoding of the remaining elements.
#[verifier::rlimit(100)]
#[verifier::spinoff_prover]
proof fn lemma_rt_elems_more(es: Seq<JVal>, rest: Seq<char>)
    requires
        es.len() > 1,
        wf_elems(es),
        dec_elems(enc_elems(es.drop_first()) + seq![']'] + rest) == Some(
            (es.drop_first(), rest),
        ),
    ensures
        dec_elems(enc_elems(es) + seq![']'] + rest) == Some((es, rest)),
    decreases es, 0int,
{
    let s = enc_elems(es) + seq![']'] + rest;
    lemma_enc_val_shape(es[0]);
    let tail = es.drop_first();
    let r = seq![','] + enc_elems(tail) + seq![']'] + rest;
    assert(s =~= enc_val(es[0]) + r);
    lemma_rt_val(es[0], r);
    assert(r.len() < s.len());
    assert(r[0] == ',');
    lemma_skip_ws_noop(r);
    assert(r.skip(1) =~= enc_elems(tail) + seq![']'] + rest);
    assert(seq![es[0]] + tail =~= es);
    assert(dec_elems(s) =~~= Some((es, rest)));
}

/// Decoding inverts encoding for a non-empty member list followed by its
/// closing brace.
#[verifier::rlimit(80)]
proof fn lemma_rt_members(ms: Seq<(Seq<char>, JVal)>, rest: Seq<char>)
    requires
        ms.len() >= 1,
        wf_members(ms),
    ensures
        dec_members(enc_members(ms) + seq!['}'] + rest) == Some((ms, rest)),
    decreases ms, 1int,
{
    if ms.len() == 1 {
        lemma_rt_members_one(ms, rest);
    } else {
        lemma_rt_members(ms.drop_first(), rest);
        lemma_rt_members_more(ms, rest);
    }
}

#[verifier::rlimit(80)]
#[verifier::spinoff_prover]
proof fn lemma_rt_members_one(ms: Seq<(Seq<char>, JVal)>, rest: Seq<char>)
    requires
        ms.len() == 1,
        wf_members(ms),
    ensures
        dec_members(enc_members(ms) + seq!['}'] + rest) == Some((ms, rest)),
    decreases ms, 0int,
{
    let s = enc_members(ms) + seq!['}'] + rest;
    let key = ms[0].0;
    let v0 = ms[0].1;
    lemma_enc_val_shape(v0);
    assert(s[0] == '"');
    lemma_skip_ws_noop(s);
    let after_key = seq![':'] + enc_val(v0) + seq!['}'] + rest;
    assert(s.skip(1) =~= enc_str_body(key) + seq!['"'] + after_key);
    lemma_rt_str_body(key, after_key);
    assert(after_key.len() < s.len());
    assert(after_key[0] == ':');
    lemma_skip_ws_noop(after_key);
    let after_colon = after_key.skip(1);
    let r = seq!['}'] + rest;
    assert(after_colon =~= enc_val(v0) + r);
    lemma_rt_val(v0, r);
    assert(r.len() < s.len());
    assert(r[0] == '}');
    lemma_skip_ws_noop(r);
    assert(r.skip(1) =~= rest);
    assert(seq![(key, v0)] =~= ms);
    assert(dec_members(s) =~~= Some((ms, rest)));
}

/// The step case: with more than one member, decoding consumes the first
/// `"key":value,` and continues as the decoding of the remaining members.
#[verifier::rlimit(80)]
#[verifier::spinoff_prover]
proof fn lemma_rt_members_more(ms: Seq<(Seq<char>, JVal)>, rest: Seq<char>)
    requires
        ms.len() > 1,
        wf_members(ms),
        dec_members(enc_members(ms.drop_first()) + seq!['}'] + rest) == Some(
            (ms.drop_first(), rest),
        ),
    ensures
        dec_members(enc_members(ms) + seq!['}'] + rest) == Some((ms, rest)),
    decreases ms, 0int,
{
    let s = enc_members(ms) + seq!['}'] + rest;
    let key = ms[0].0;
    let v0 = ms[0].1;
    lemma_enc_val_shape(v0);
    assert(s[0] == '"');
    lemma_skip_ws_noop(s);
    let tail = ms.drop_first();
    let cont = seq![','] + enc_members(tail) + seq!['}'] + rest;
    let after_key = seq![':'] + enc_val(v0) + cont;
    assert(s.skip(1) =~= enc_str_body(key) + seq!['"'] + after_key);
    lemma_rt_str_body(key, after_key);
    assert(after_key.len() < s.len());
    assert(after_key[0] == ':');
    lemma_skip_ws_noop(after_key);
    let after_colon = after_key.skip(1);
    assert(after_colon =~= enc_val(v0) + cont);
    lemma_rt_val(v0, cont);
    assert(cont.len() < s.len());
    assert(cont[0] == ',');
    lemma_skip_ws_noop(cont);
    assert(cont.skip(1) =~= enc_members(tail) + seq!['}'] + rest);
    assert(seq![(key, v0)] + tail =~= ms);
    assert(dec_members(s) =~~= Some((ms, rest)));
}

/// The codec round trip: decoding an encoded well-formed value yields the
/// value back.
pub proof fn lemma_codec_round_trip(v: JVal)
    requires
        wf_val(v),
    ensures
        dec_line(enc_val(v)) == Some(v),
{
    lemma_rt_val(v, Seq::empty());
    assert(enc_val(v) + Seq::<char>::empty() =~= enc_val(v));
}

/// Decoding of a complete line: one value consuming the whole input, up
/// to trailing whitespace.
pub open spec fn dec_line(s: Seq<char>) -> Option<JVal> {
    match dec_val(s) {
        Some((v, r)) => if skip_ws(r).len() == 0 {
            Some(v)
        } else {
            None
        },
        None => None,
    }
}

// ------------------------------------------------------------------
// Trusted items
// ------------------------------------------------------------------

/// Relies on String::push: appends exactly the given character to the end
/// of the string.
#[verifier::external_body]
fn push_char(s: &mut String, c: char)
    ensures
        final(s)@ == old(s)@.push(c),
{
    s.push(c);
}

/// Relies on char::from_u32: returns `Some` exactly for valid Unicode
/// scalar values (not a surrogate, not above the maximum code point), and
/// the returned character has the given scalar value.
pub assume_specification[ char::from_u32 ](v: u32) -> (r: Option<char>)
    ensures
        r is Some <==> (v < 0xD800 || (0xE000 <= v && v <= 0x10FFFF)),
        r matches Some(c) ==> (c as u32) == v,
;

// ------------------------------------------------------------------
// Encoding (executable)
// ------------------------------------------------------------------

/// A string made of exactly the given characters.
fn chars_to_string(cs: &Vec<char>) -> (r: String)
    ensures
        r@ == cs@,
{
    let mut r = String::new();
    let n = cs.len();
    let mut i: usize = 0;
    while i < n
        invariant
            n == cs@.len(),
            i <= n,
            r@ == cs@.take(i as int),
        decreases n - i,
    {
        push_char(&mut r, cs[i]);
        proof {
            assert(cs@.take(i + 1 as int) =~= cs@.take(i as int).push(cs@[i as int]));
        }
        i = i + 1;
    }
    proof {
        assert(cs@.take(n as int) =~= cs@);
    }
    r
}

/// The characters of a string, in order.
fn str_to_chars(s: &str) -> (v: Vec<char>)
    ensures
        v@ == s@,
{
    let n = s.unicode_len();
    let mut v: Vec<char> = Vec::new();
    let mut i: usize = 0;
    while i < n
        invariant
            n == s@.len(),
            i <= n,
            v@ == s@.take(i as int),
        decreases n - i,
    {
        let c = s.get_char(i);
        v.push(c);
        proof {
            assert(s@.take(i + 1 as int) =~= s@.take(i as int).push(s@[i as int]));
        }
        i = i + 1;
    }
    proof {
        assert(s@.take(n as int) =~= s@);
    }
    v
}

/// The lower-case hexadecimal digit character for a value below 16.
fn hex_digit_char(n: u32) -> (r: char)
    requires
        n < 16,
    ensures
        r == hex_char(n as int),
{
    match n {
        0 => '0',
        1 => '1',
        2 => '2',
        3 => '3',
        4 => '4',
        5 => '5',
        6 => '6',
        7 => '7',
        8 => '8',
        9 => '9',
        10 => 'a',
        11 => 'b',
        12 => 'c',
        13 => 'd',
        14 => 'e',
        _ => 'f',
    }
}

/// Appending two strings escapes as the concatenation of the escapes.
proof fn lemma_enc_str_body_app(a: Seq<char>, b: Seq<char>)
    ensures
        enc_str_body(a + b) == enc_str_body(a) + enc_str_body(b),
    decreases a.len(),
{
    if a.len() == 0 {
        assert(a + b =~= b);
        assert(enc_str_body(a) + enc_str_body(b) =~= enc_str_body(b));
    } else {
        assert((a + b)[0] == a[0]);
        assert((a + b).drop_first() =~= a.drop_first() + b);
        lemma_enc_str_body_app(a.drop_first(), b);
        assert(enc_str_body(a + b) =~= enc_str_body(a) + enc_str_body(b));
    }
}

/// With both sides non-empty, element encodings concatenate with a comma.
proof fn lemma_enc_elems_app(a: Seq<JVal>, b: Seq<JVal>)
    requires
        a.len() >= 1,
        b.len() >= 1,
    ensures
        enc_elems(a + b) == enc_elems(a) + seq![','] + enc_elems(b),
    decreases a.len(),
{
    if a.len() == 1 {
        assert((a + b)[0] == a[0]);
        assert((a + b).drop_first() =~= b);
        assert(enc_elems(a + b) =~= enc_val(a[0]) + seq![','] + enc_elems(b));
    } else {
        assert((a + b)[0] == a[0]);
        assert((a + b).drop_first() =~= a.drop_first() + b);
        lemma_enc_elems_app(a.drop_first(), b);
        assert(enc_elems(a + b) =~= enc_elems(a) + seq![','] + enc_elems(b));
    }
}

/// With both sides non-empty, member encodings concatenate with a comma.
proof fn lemma_enc_members_app(a: Seq<(Seq<char>, JVal)>, b: Seq<(Seq<char>, JVal)>)
    requires
        a.len() >= 1,
        b.len() >= 1,
    ensures
        enc_members(a + b) == enc_members(a) + seq![','] + enc_members(b),
    decreases a.len(),
{
    if a.len() == 1 {
        assert((a + b)[0] == a[0]);
        assert((a + b).drop_first() =~= b);
        assert(enc_members(a + b) =~= enc_members(a) + seq![','] + enc_members(b));
    } else {
        assert((a + b)[0] == a[0]);
        assert((a + b).drop_first() =~= a.drop_first() + b);
        lemma_enc_members_app(a.drop_first(), b);
        assert(enc_members(a + b) =~= enc_members(a) + seq![','] + enc_members(b));
    }
}

/// Writes the decimal digits of `n`, most significant first.
fn push_digits(n: u64, out: &mut Vec<char>)
    ensures
        final(out)@ == old(out)@ + dec_digits_of(n as nat),
    decreases n,
{
    if n < 10 {
        out.push(hex_digit_char(n as u32));
        proof {
            assert(final(out)@ =~= old(out)@ + dec_digits_of(n as nat));
        }
    } else {
        proof {
            vstd::arithmetic::div_mod::lemma_fundamental_div_mod(n as int, 10);
        }
        push_digits(n / 10, out);
        out.push(hex_digit_char((n % 10) as u32));
        proof {
            assert(final(out)@ =~= old(out)@ + dec_digits_of(n as nat));
        }
    }
}

/// Writes the escape of one string character.
fn push_escaped(c: char, out: &mut Vec<char>)
    ensures
        final(out)@ == old(out)@ + esc_char(c),
{
    if c == '"' {
        out.push('\\');
        out.push('"');
    } else if c == '\\' {
        out.push('\\');
        out.push('\\');
    } else if (c as u32) < 0x20 {
        out.push('\\');
        out.push('u');
        out.push('0');
        out.push('0');
        out.push(hex_digit_char((c as u32) / 16));
        out.push(hex_digit_char((c as u32) % 16));
    } else {
        out.push(c);
    }
    proof {
        assert(final(out)@ =~= old(out)@ + esc_char(c));
    }
}

/// Writes a complete encoded string, quotes and escapes included.
fn push_string(s: &String, out: &mut Vec<char>)
    ensures
        final(out)@ == old(out)@ + enc_string(s@),
{
    out.push('"');
    let ghost base = out@;
    let chars = str_to_chars(s.as_str());
    let n = chars.len();
    let mut i: usize = 0;
    while i < n
        invariant
            n == s@.len(),
            chars@ == s@,
            i <= n,
            out@ == base + enc_str_body(s@.take(i as int)),
        decreases n - i,
    {
        push_escaped(chars[i], out);
        proof {
            assert(s@.take(i + 1 as int) =~= s@.take(i as int) + seq![s@[i as int]]);
            lemma_enc_str_body_app(s@.take(i as int), seq![s@[i as int]]);
            assert(seq![s@[i as int]].drop_first() =~= Seq::<char>::empty());
            assert(enc_str_body(Seq::<char>::empty()) =~= Seq::<char>::empty());
            assert(enc_str_body(seq![s@[i as int]]) =~= esc_char(s@[i as int]));
        }
        i = i + 1;
    }
    out.push('"');
    proof {
        assert(s@.take(n as int) =~= s@);
        assert(final(out)@ =~= old(out)@ + enc_string(s@));
    }
}

/// Writes the encoding of a value after whatever `out` already holds.
#[verifier::loop_isolation(false)]
#[verifier::rlimit(100)]
fn encode_push(v: &JsonValue, out: &mut Vec<char>)
    ensures
        final(out)@ == old(out)@ + enc_val(v@),
    decreases v,
{
    match v {
        JsonValue::Null => {
            out.push('n');
            out.push('u');
            out.push('l');
            out.push('l');
            proof {
                assert(final(out)@ =~= old(out)@ + enc_val(v@));
            }
        },
        JsonValue::Bool(b) => {
            if *b {
                out.push('t');
                out.push('r');
                out.push('u');
                out.push('e');
            } else {
                out.push('f');
                out.push('a');
                out.push('l');
                out.push('s');
                out.push('e');
            }
            proof {
                assert(final(out)@ =~= old(out)@ + enc_val(v@));
            }
        },
        JsonValue::Int(i) => {
            let iv = *i;
            if iv < 0 {
                out.push('-');
                let m: u64 = if iv == i64::MIN {
                    9223372036854775808u64
                } else {
                    (-iv) as u64
                };
                proof {
                    assert(m as int == -(iv as int));
                }
                push_digits(m, out);
                proof {
                    assert(final(out)@ =~= old(out)@ + enc_val(v@));
                }
            } else {
                push_digits(iv as u64, out);
                proof {
                    assert(final(out)@ =~= old(out)@ + enc_val(v@));
                }
            }
        },
        JsonValue::Str(s) => {
            push_string(s, out);
            proof {
                assert(final(out)@ =~= old(out)@ + enc_val(v@));
            }
        },
        JsonValue::Arr(a) => {
            out.push('[');
            let ghost base = out@;
            let ghost ves = view_of_elems(a@);
            proof {
                lemma_view_of_elems(a@);
            }
            let n = a.len();
            let mut i: usize = 0;
            while i < n
                invariant
                    n == a@.len(),
                    ves == view_of_elems(a@),
                    ves.len() == n,
                    forall|j: int| 0 <= j < n ==> ves[j] == view_of(a@[j]),
                    i <= n,
                    out@ == base + enc_elems(ves.take(i as int)),
                decreases n - i,
            {
                proof {
                    assert(v->Arr_0 == *a);
                    assert(decreases_to!(*v => v->Arr_0));
                    assert(decreases_to!(*a => a@));
                    assert(decreases_to!(a@ => a@[i as int]));
                    assert(decreases_to!(*v => a@[i as int]));
                }
                if i > 0 {
                    out.push(',');
                    encode_push(&a[i], out);
                    proof {
                        assert(ves.take(i + 1 as int) =~= ves.take(i as int) + seq![ves[i as int]]);
                        lemma_enc_elems_app(ves.take(i as int), seq![ves[i as int]]);
                        assert(enc_elems(seq![ves[i as int]]) =~= enc_val(ves[i as int]));
                        assert(out@ =~= base + enc_elems(ves.take(i + 1 as int)));
                    }
                } else {
                    encode_push(&a[i], out);
                    proof {
                        assert(ves.take(1) =~= seq![ves[0]]);
                        assert(enc_elems(seq![ves[0]]) =~= enc_val(ves[0]));
                        assert(out@ =~= base + enc_elems(ves.take(i + 1 as int)));
                    }
                }
                i = i + 1;
            }
            out.push(']');
            proof {
                assert(ves.take(n as int) =~= ves);
                assert(final(out)@ =~= old(out)@ + enc_val(v@));
            }
        },
        JsonValue::Obj(o) => {
            out.push('{');
            let ghost base = out@;
            let ghost vms = view_of_members(o@);
            proof {
                lemma_view_of_members(o@);
            }
            let n = o.len();
            let mut i: usize = 0;
            while i < n
                invariant
                    n == o@.len(),
                    vms == view_of_members(o@),
                    vms.len() == n,
                    forall|j: int| 0 <= j < n ==> vms[j] == (o@[j].0@, view_of(o@[j].1)),
                    i <= n,
                    out@ == base + enc_members(vms.take(i as int)),
                decreases n - i,
            {
                proof {
                    assert(v->Obj_0 == *o);
                    assert(decreases_to!(*v => v->Obj_0));
                    assert(decreases_to!(*o => o@));
                    assert(decreases_to!(o@ => o@[i as int]));
                    assert(decreases_to!(o@[i as int] => o@[i as int].1));
                    assert(decreases_to!(*v => o@[i as int].1));
                }
                if i > 0 {
                    out.push(',');
                }
                push_string(&o[i].0, out);
                out.push(':');
                encode_push(&o[i].1, out);
                proof {
                    assert(vms.take(i + 1 as int) =~= vms.take(i as int) + seq![vms[i as int]]);
                    if i > 0 {
                        lemma_enc_members_app(vms.take(i as int), seq![vms[i as int]]);
                    } else {
                        assert(vms.take(0int) =~= Seq::<(Seq<char>, JVal)>::empty());
                    }
                    assert(enc_members(seq![vms[i as int]]) =~= enc_string(vms[i as int].0)
                        + seq![':'] + enc_val(vms[i as int].1));
                    assert(out@ =~= base + enc_members(vms.take(i + 1 as int)));
                }
                i = i + 1;
            }
            out.push('}');
            proof {
                assert(vms.take(n as int) =~= vms);
                assert(final(out)@ =~= old(out)@ + enc_val(v@));
            }
        },
    }
}

/// The single-line encoding of a value: total over all values, exactly
/// [`enc_val`] of the value's model.
pub fn encode_value(v: &JsonValue) -> (r: String)
    ensures
        r@ == enc_val(v@),
{
    let mut out: Vec<char> = Vec::new();
    encode_push(v, &mut out);
    proof {
        assert(out@ =~= enc_val(v@));
    }
    chars_to_string(&out)
}

// ------------------------------------------------------------------
// Decoding (executable)
// ------------------------------------------------------------------

/// An already-decoded prefix put in front of a string-body decoding.
pub open spec fn prepend_str(
    pre: Seq<char>,
    o: Option<(Seq<char>, Seq<char>)>,
) -> Option<(Seq<char>, Seq<char>)> {
    match o {
        Some((t, r)) => Some((pre + t, r)),
        None => None,
    }
}

/// Already-decoded elements put in front of an element-list decoding.
pub open spec fn prepend_elems(
    pre: Seq<JVal>,
    o: Option<(Seq<JVal>, Seq<char>)>,
) -> Option<(Seq<JVal>, Seq<char>)> {
    match o {
        Some((vs, r)) => Some((pre + vs, r)),
        None => None,
    }
}

/// Already-decoded members put in front of a member-list decoding.
pub open spec fn prepend_members(
    pre: Seq<(Seq<char>, JVal)>,
    o: Option<(Seq<(Seq<char>, JVal)>, Seq<char>)>,
) -> Option<(Seq<(Seq<char>, JVal)>, Seq<char>)> {
    match o {
        Some((ms, r)) => Some((pre + ms, r)),
        None => None,
    }
}

/// The value of a decimal digit character.
fn digit_value(c: char) -> (r: u32)
    requires
        is_digit(c),
    ensures
        r == digit_val(c),
{
    match c {
        '0' => 0,
        '1' => 1,
        '2' => 2,
        '3' => 3,
        '4' => 4,
        '5' => 5,
        '6' => 6,
        '7' => 7,
        '8' => 8,
        _ => 9,
    }
}

/// The value of a hexadecimal digit character, or `None`.
fn hex_digit_value(c: char) -> (r: Option<u32>)
    ensures
        r is Some <==> is_hex_digit(c),
        r matches Some(x) ==> x == hex_val(c) && x < 16,
{
    match c {
        '0' => Some(0),
        '1' => Some(1),
        '2' => Some(2),
        '3' => Some(3),
        '4' => Some(4),
        '5' => Some(5),
        '6' => Some(6),
        '7' => Some(7),
        '8' => Some(8),
        '9' => Some(9),
        'a' => Some(10),
        'b' => Some(11),
        'c' => Some(12),
        'd' => Some(13),
        'e' => Some(14),
        'f' => Some(15),
        'A' => Some(10),
        'B' => Some(11),
        'C' => Some(12),
        'D' => Some(13),
        'E' => Some(14),
        'F' => Some(15),
        _ => None,
    }
}

/// Whether the character at `j` is whitespace.
fn ws_at(s: &Vec<char>, j: usize) -> (r: bool)
    requires
        j < s@.len(),
    ensures
        r == is_ws(s@[j as int]),
{
    let c = s[j];
    c == ' ' || c == '\t' || c == '\n' || c == '\r'
}

/// The position after any whitespace at `pos`.
#[verifier::loop_isolation(false)]
fn skip_ws_at(s: &Vec<char>, pos: usize) -> (r: usize)
    requires
        pos <= s@.len(),
    ensures
        pos <= r <= s@.len(),
        s@.skip(r as int) == skip_ws(s@.skip(pos as int)),
        r < s@.len() ==> !is_ws(s@[r as int]),
{
    let len = s.len();
    let mut p = pos;
    while p < len && ws_at(s, p)
        invariant
            pos <= p <= len,
            skip_ws(s@.skip(pos as int)) == skip_ws(s@.skip(p as int)),
        decreases len - p,
    {
        proof {
            assert(s@.skip(p as int)[0] == s@[p as int]);
            assert(s@.skip(p as int).drop_first() =~= s@.skip(p + 1 as int));
        }
        p = p + 1;
    }
    proof {
        if p < len {
            assert(s@.skip(p as int)[0] == s@[p as int]);
        }
        lemma_skip_ws_noop(s@.skip(p as int));
    }
    p
}

/// Whether the character at `j` is a decimal digit.
fn digit_at(s: &Vec<char>, j: usize) -> (r: bool)
    requires
        j < s@.len(),
    ensures
        r == is_digit(s@[j as int]),
{
    let c = s[j];
    ('0' as u32) <= (c as u32) && (c as u32) <= ('9' as u32)
}

/// An all-digit sequence has a non-negative value.
proof fn lemma_digits_value_nonneg(t: Seq<char>)
    requires
        forall|i: int| 0 <= i < t.len() ==> is_digit(#[trigger] t[i]),
    ensures
        digits_value(t) >= 0,
    decreases t.len(),
{
    if t.len() > 0 {
        assert(t.take(t.len() - 1) =~= t.drop_last());
        lemma_digits_value_nonneg(t.drop_last());
        assert(digits_value(t) == digits_value(t.drop_last()) * 10 + digit_val(t[t.len() - 1]));
    }
}

/// Reads the string body after an opening quote, mirroring
/// [`dec_str_body`] on the suffix of `s` starting at `pos`.
#[verifier::loop_isolation(false)]
#[verifier::rlimit(100)]
fn parse_string_body(s: &Vec<char>, pos: usize) -> (r: Option<(String, usize)>)
    requires
        pos <= s@.len(),
    ensures
        match r {
            Some(sp) => pos <= sp.1 <= s@.len() && dec_str_body(s@.skip(pos as int)) == Some(
                (sp.0@, s@.skip(sp.1 as int)),
            ),
            None => dec_str_body(s@.skip(pos as int)) is None,
        },
{
    let len = s.len();
    let mut acc = String::new();
    let mut p = pos;
    loop
        invariant
            pos <= p <= len,
            dec_str_body(s@.skip(pos as int)) == prepend_str(acc@, dec_str_body(s@.skip(p as int))),
        decreases len - p,
    {
        if p == len {
            return None;
        }
        let c = s[p];
        proof {
            assert(s@.skip(p as int)[0] == c);
        }
        if c == '"' {
            proof {
                assert(s@.skip(p as int).skip(1) =~= s@.skip(p + 1 as int));
                assert(acc@ + Seq::<char>::empty() =~= acc@);
            }
            return Some((acc, p + 1));
        } else if c == '\\' {
            if len - p < 2 {
                return None;
            }
            let e = s[p + 1];
            proof {
                assert(s@.skip(p as int)[1] == e);
            }
            if e == 'u' {
                if len - p < 6 {
                    return None;
                }
                let h2 = hex_digit_value(s[p + 2]);
                let h3 = hex_digit_value(s[p + 3]);
                let h4 = hex_digit_value(s[p + 4]);
                let h5 = hex_digit_value(s[p + 5]);
                proof {
                    assert(s@.skip(p as int)[2] == s@[p + 2]);
                    assert(s@.skip(p as int)[3] == s@[p + 3]);
                    assert(s@.skip(p as int)[4] == s@[p + 4]);
                    assert(s@.skip(p as int)[5] == s@[p + 5]);
                }
                let (x2, x3, x4, x5) = match (h2, h3, h4, h5) {
                    (Some(x2), Some(x3), Some(x4), Some(x5)) => (x2, x3, x4, x5),
                    _ => {
                        return None;
                    },
                };
                let code: u32 = x2 * 4096 + x3 * 256 + x4 * 16 + x5;
                if 0xD800 <= code && code < 0xDC00 {
                    if len - p < 12 {
                        return None;
                    }
                    if s[p + 6] != '\\' || s[p + 7] != 'u' {
                        proof {
                            assert(s@.skip(p as int)[6] == s@[p + 6]);
                            assert(s@.skip(p as int)[7] == s@[p + 7]);
                        }
                        return None;
                    }
                    let l2 = hex_digit_value(s[p + 8]);
                    let l3 = hex_digit_value(s[p + 9]);
                    let l4 = hex_digit_value(s[p + 10]);
                    let l5 = hex_digit_value(s[p + 11]);
                    proof {
                        assert(s@.skip(p as int)[6] == s@[p + 6]);
                        assert(s@.skip(p as int)[7] == s@[p + 7]);
                        assert(s@.skip(p as int)[8] == s@[p + 8]);
                        assert(s@.skip(p as int)[9] == s@[p + 9]);
                        assert(s@.skip(p as int)[10] == s@[p + 10]);
                        assert(s@.skip(p as int)[11] == s@[p + 11]);
                    }
                    let (y2, y3, y4, y5) = match (l2, l3, l4, l5) {
                        (Some(y2), Some(y3), Some(y4), Some(y5)) => (y2, y3, y4, y5),
                        _ => {
                            return None;
                        },
                    };
                    let low: u32 = y2 * 4096 + y3 * 256 + y4 * 16 + y5;
                    if !(0xDC00 <= low && low < 0xE000) {
                        return None;
                    }
                    let scalar: u32 = 0x10000 + (code - 0xD800) * 1024 + (low - 0xDC00);
                    let ch = match char::from_u32(scalar) {
                        Some(ch) => ch,
                        None => {
                            proof {
                                assert(false);
                            }
                            return None;
                        },
                    };
                    let ghost pre = acc@;
                    push_char(&mut acc, ch);
                    proof {
                        vstd::utf8::char_u32_cast(ch, scalar);
                        assert(s@.skip(p as int).skip(12) =~= s@.skip(p + 12 as int));
                        lemma_prepend_str_step(
                            pre,
                            ch,
                            s@.skip(pos as int),
                            s@.skip(p as int),
                            s@.skip(p + 12 as int),
                        );
                        assert(acc@ == pre.push(ch));
                    }
                    p = p + 12;
                } else if 0xDC00 <= code && code < 0xE000 {
                    return None;
                } else {
                    let ch = match char::from_u32(code) {
                        Some(ch) => ch,
                        None => {
                            proof {
                                assert(false);
                            }
                            return None;
                        },
                    };
                    let ghost pre = acc@;
                    push_char(&mut acc, ch);
                    proof {
                        vstd::utf8::char_u32_cast(ch, code);
                        assert(s@.skip(p as int).skip(6) =~= s@.skip(p + 6 as int));
                        lemma_prepend_str_step(
                            pre,
                            ch,
                            s@.skip(pos as int),
                            s@.skip(p as int),
                            s@.skip(p + 6 as int),
                        );
                        assert(acc@ == pre.push(ch));
                    }
                    p = p + 6;
                }
            } else {
                let ch = if e == '"' {
                    '"'
                } else if e == '\\' {
                    '\\'
                } else if e == '/' {
                    '/'
                } else if e == 'b' {
                    '\u{8}'
                } else if e == 'f' {
                    '\u{c}'
                } else if e == 'n' {
                    '\n'
                } else if e == 'r' {
                    '\r'
                } else if e == 't' {
                    '\t'
                } else {
                    return None;
                };
                let ghost pre = acc@;
                push_char(&mut acc, ch);
                proof {
                    assert(s@.skip(p as int).skip(2) =~= s@.skip(p + 2 as int));
                    lemma_prepend_str_step(
                        pre,
                        ch,
                        s@.skip(pos as int),
                        s@.skip(p as int),
                        s@.skip(p + 2 as int),
                    );
                    assert(acc@ == pre.push(ch));
                }
                p = p + 2;
            }
        } else if (c as u32) < 0x20 {
            return None;
        } else {
            let ghost pre = acc@;
            push_char(&mut acc, c);
            proof {
                assert(s@.skip(p as int).skip(1) =~= s@.skip(p + 1 as int));
                lemma_prepend_str_step(
                    pre,
                    c,
                    s@.skip(pos as int),
                    s@.skip(p as int),
                    s@.skip(p + 1 as int),
                );
                assert(acc@ == pre.push(c));
            }
            p = p + 1;
        }
    }
}

/// One decoding step folded into the accumulated prefix: if decoding `cur`
/// prepends `ch` to the decoding of `next`, the whole-prefix equation moves
/// from `cur` to `next` with `ch` appended to the prefix.
proof fn lemma_prepend_str_step(
    pre: Seq<char>,
    ch: char,
    whole: Seq<char>,
    cur: Seq<char>,
    next: Seq<char>,
)
    requires
        dec_str_body(whole) == prepend_str(pre, dec_str_body(cur)),
        dec_str_body(cur) == (match dec_str_body(next) {
            Some((t, r)) => Some((seq![ch] + t, r)),
            None => None::<(Seq<char>, Seq<char>)>,
        }),
    ensures
        dec_str_body(whole) == prepend_str(pre.push(ch), dec_str_body(next)),
{
    match dec_str_body(next) {
        Some((t, r)) => {
            assert(pre + (seq![ch] + t) =~= pre.push(ch) + t);
        },
        None => {},
    }
}

/// Reads an integer, mirroring [`dec_int`] on the suffix of `s` starting
/// at `pos`.
#[verifier::loop_isolation(false)]
#[verifier::rlimit(100)]
fn parse_int(s: &Vec<char>, pos: usize) -> (r: Option<(JsonValue, usize)>)
    requires
        pos < s@.len(),
        s@[pos as int] == '-' || is_digit(s@[pos as int]),
    ensures
        match r {
            Some(vp) => pos < vp.1 <= s@.len() && dec_int(s@.skip(pos as int)) == Some(
                (vp.0@, s@.skip(vp.1 as int)),
            ),
            None => dec_int(s@.skip(pos as int)) is None,
        },
{
    let len = s.len();
    let neg = s[pos] == '-';
    let dstart = if neg {
        pos + 1
    } else {
        pos
    };
    let ghost u = s@.skip(dstart as int);
    proof {
        if neg {
            assert(s@.skip(pos as int).drop_first() =~= u);
        }
    }
    let mut j = dstart;
    let mut acc: u128 = 0;
    let mut over = false;
    while j < len && digit_at(s, j)
        invariant
            dstart <= j <= len,
            u == s@.skip(dstart as int),
            forall|i: int| 0 <= i < j - dstart ==> is_digit(#[trigger] u[i]),
            !over ==> acc == digits_value(u.take(j - dstart)) && acc
                <= 0x10000000000000000u128,
            over ==> digits_value(u.take(j - dstart)) > 0x10000000000000000u128,
        decreases len - j,
    {
        let c = s[j];
        let d = digit_value(c);
        proof {
            assert(u[j - dstart] == c);
            assert(u.take(j - dstart + 1).take(j - dstart) =~= u.take(j - dstart));
            assert(u.take(j - dstart + 1)[j - dstart] == c);
            assert(digits_value(u.take(j - dstart + 1)) == digits_value(u.take(j - dstart)) * 10
                + digit_val(c));
            lemma_digits_value_nonneg(u.take(j - dstart));
        }
        if !over {
            let nxt: u128 = acc * 10 + (d as u128);
            if nxt > 0x10000000000000000u128 {
                over = true;
            } else {
                acc = nxt;
            }
        }
        j = j + 1;
    }
    let k = j - dstart;
    proof {
        assert(u.take(k as int) + u.skip(k as int) =~= u);
        if j < len {
            assert(u.skip(k as int)[0] == s@[j as int]);
        }
        lemma_digits_prefix_exact(u.take(k as int), u.skip(k as int));
        assert(digits_prefix(u) == k);
    }
    if k == 0 {
        return None;
    }
    let ghost m = digits_value(u.take(k as int));
    proof {
        lemma_digits_value_nonneg(u.take(k as int));
        assert(u.skip(k as int) =~= s@.skip(j as int));
    }
    if over {
        return None;
    }
    if neg {
        if acc > 9223372036854775808u128 {
            return None;
        }
        let val: i64 = if acc == 9223372036854775808u128 {
            i64::MIN
        } else {
            -((acc as u64) as i64)
        };
        Some((JsonValue::Int(val), j))
    } else {
        if acc > 9223372036854775807u128 {
            return None;
        }
        let val: i64 = (acc as u64) as i64;
        Some((JsonValue::Int(val), j))
    }
}

/// Reads one value, mirroring [`dec_val`] on the suffix of `s` starting at
/// `pos`.
#[verifier::loop_isolation(false)]
#[verifier::rlimit(100)]
pub fn parse_value(s: &Vec<char>, pos: usize) -> (r: Option<(JsonValue, usize)>)
    requires
        pos <= s@.len(),
    ensures
        match r {
            Some(vp) => pos < vp.1 <= s@.len() && dec_val(s@.skip(pos as int)) == Some(
                (vp.0@, s@.skip(vp.1 as int)),
            ),
            None => dec_val(s@.skip(pos as int)) is None,
        },
    decreases s@.len() - pos, 0int,
{
    let len = s.len();
    let p1 = skip_ws_at(s, pos);
    let ghost t = skip_ws(s@.skip(pos as int));
    proof {
        assert(t == s@.skip(p1 as int));
    }
    if p1 == len {
        return None;
    }
    let c = s[p1];
    proof {
        assert(t[0] == c);
    }
    if c == 'n' {
        if len - p1 >= 4 && s[p1 + 1] == 'u' && s[p1 + 2] == 'l' && s[p1 + 3] == 'l' {
            proof {
                assert(t[1] == 'u' && t[2] == 'l' && t[3] == 'l');
                assert(t.skip(4) =~= s@.skip(p1 + 4 as int));
            }
            Some((JsonValue::Null, p1 + 4))
        } else {
            proof {
                if len - p1 >= 4 {
                    assert(t[1] == s@[p1 + 1]);
                    assert(t[2] == s@[p1 + 2]);
                    assert(t[3] == s@[p1 + 3]);
                }
            }
            None
        }
    } else if c == 't' {
        if len - p1 >= 4 && s[p1 + 1] == 'r' && s[p1 + 2] == 'u' && s[p1 + 3] == 'e' {
            proof {
                assert(t[1] == 'r' && t[2] == 'u' && t[3] == 'e');
                assert(t.skip(4) =~= s@.skip(p1 + 4 as int));
            }
            Some((JsonValue::Bool(true), p1 + 4))
        } else {
            proof {
                if len - p1 >= 4 {
                    assert(t[1] == s@[p1 + 1]);
                    assert(t[2] == s@[p1 + 2]);
                    assert(t[3] == s@[p1 + 3]);
                }
            }
            None
        }
    } else if c == 'f' {
        if len - p1 >= 5 && s[p1 + 1] == 'a' && s[p1 + 2] == 'l' && s[p1 + 3] == 's' && s[p1 + 4]
            == 'e' {
            proof {
                assert(t[1] == 'a' && t[2] == 'l' && t[3] == 's' && t[4] == 'e');
                assert(t.skip(5) =~= s@.skip(p1 + 5 as int));
            }
            Some((JsonValue::Bool(false), p1 + 5))
        } else {
            proof {
                if len - p1 >= 5 {
                    assert(t[1] == s@[p1 + 1]);
                    assert(t[2] == s@[p1 + 2]);
                    assert(t[3] == s@[p1 + 3]);
                    assert(t[4] == s@[p1 + 4]);
                }
            }
            None
        }
    } else if c == '"' {
        proof {
            assert(t.skip(1) =~= s@.skip(p1 + 1 as int));
        }
        match parse_string_body(s, p1 + 1) {
            Some((st, p)) => Some((JsonValue::Str(st), p)),
            None => None,
        }
    } else if c == '[' {
        proof {
            assert(t.skip(1) =~= s@.skip(p1 + 1 as int));
        }
        let q = skip_ws_at(s, p1 + 1);
        let ghost u = skip_ws(t.skip(1));
        proof {
            assert(u == s@.skip(q as int));
        }
        if q < len && s[q] == ']' {
            proof {
                assert(u[0] == ']');
                assert(u.skip(1) =~= s@.skip(q + 1 as int));
                assert(view_of_elems(Seq::<JsonValue>::empty()) =~= Seq::<JVal>::empty());
            }
            let empty: Vec<JsonValue> = Vec::new();
            proof {
                assert(empty@ =~= Seq::<JsonValue>::empty());
                assert(dec_val(s@.skip(pos as int)) =~~= Some(
                    (view_of(JsonValue::Arr(empty)), s@.skip(q + 1 as int)),
                ));
            }
            Some((JsonValue::Arr(empty), q + 1))
        } else {
            proof {
                if q < len {
                    assert(u[0] == s@[q as int]);
                }
            }
            match parse_elems(s, p1 + 1) {
                Some((vs, p)) => Some((JsonValue::Arr(vs), p)),
                None => None,
            }
        }
    } else if c == '{' {
        proof {
            assert(t.skip(1) =~= s@.skip(p1 + 1 as int));
        }
        let q = skip_ws_at(s, p1 + 1);
        let ghost u = skip_ws(t.skip(1));
        proof {
            assert(u == s@.skip(q as int));
        }
        if q < len && s[q] == '}' {
            proof {
                assert(u[0] == '}');
                assert(u.skip(1) =~= s@.skip(q + 1 as int));
                assert(view_of_members(Seq::<(String, JsonValue)>::empty())
                    =~= Seq::<(Seq<char>, JVal)>::empty());
            }
            let empty: Vec<(String, JsonValue)> = Vec::new();
            proof {
                assert(empty@ =~= Seq::<(String, JsonValue)>::empty());
                assert(dec_val(s@.skip(pos as int)) =~~= Some(
                    (view_of(JsonValue::Obj(empty)), s@.skip(q + 1 as int)),
                ));
            }
            Some((JsonValue::Obj(empty), q + 1))
        } else {
            proof {
                if q < len {
                    assert(u[0] == s@[q as int]);
                }
            }
            match parse_members(s, p1 + 1) {
                Some((ms, p)) => Some((JsonValue::Obj(ms), p)),
                None => None,
            }
        }
    } else if c == '-' || digit_at(s, p1) {
        parse_int(s, p1)
    } else {
        None
    }
}

/// Reads comma-separated elements up to the closing bracket, mirroring
/// [`dec_elems`] on the suffix of `s` starting at `pos`.
#[verifier::loop_isolation(false)]
#[verifier::rlimit(100)]
fn parse_elems(s: &Vec<char>, pos: usize) -> (r: Option<(Vec<JsonValue>, usize)>)
    requires
        pos <= s@.len(),
    ensures
        match r {
            Some(vp) => pos < vp.1 <= s@.len() && dec_elems(s@.skip(pos as int)) == Some(
                (view_of_elems(vp.0@), s@.skip(vp.1 as int)),
            ),
            None => dec_elems(s@.skip(pos as int)) is None,
        },
    decreases s@.len() - pos, 1int,
{
    let len = s.len();
    let mut acc: Vec<JsonValue> = Vec::new();
    let mut cur = pos;
    proof {
        assert(view_of_elems(acc@) =~= Seq::<JVal>::empty());
    }
    loop
        invariant
            pos <= cur <= len,
            dec_elems(s@.skip(pos as int)) == prepend_elems(
                view_of_elems(acc@),
                dec_elems(s@.skip(cur as int)),
            ),
        decreases len - cur,
    {
        let vp = match parse_value(s, cur) {
            Some(vp) => vp,
            None => {
                return None;
            },
        };
        let v = vp.0;
        let p2 = vp.1;
        proof {
            assert(s@.skip(p2 as int).len() < s@.skip(cur as int).len());
        }
        let p3 = skip_ws_at(s, p2);
        let ghost rs = skip_ws(s@.skip(p2 as int));
        proof {
            assert(rs == s@.skip(p3 as int));
        }
        if p3 == len {
            return None;
        }
        let c2 = s[p3];
        proof {
            assert(rs[0] == c2);
            lemma_view_of_elems_snoc(acc@, v);
        }
        if c2 == ',' {
            proof {
                assert(rs.skip(1) =~= s@.skip(p3 + 1 as int));
                let inner = dec_elems(s@.skip(p3 + 1 as int));
                match inner {
                    Some((vs, r2)) => {
                        assert(view_of_elems(acc@) + (seq![v@] + vs) =~= view_of_elems(
                            acc@.push(v),
                        ) + vs);
                    },
                    None => {},
                }
            }
            acc.push(v);
            cur = p3 + 1;
        } else if c2 == ']' {
            proof {
                assert(rs.skip(1) =~= s@.skip(p3 + 1 as int));
                assert(view_of_elems(acc@) + seq![v@] =~= view_of_elems(acc@.push(v)));
            }
            acc.push(v);
            return Some((acc, p3 + 1));
        } else {
            return None;
        }
    }
}

/// Appending one element appends its model.
proof fn lemma_view_of_elems_snoc(s: Seq<JsonValue>, v: JsonValue)
    ensures
        view_of_elems(s.push(v)) == view_of_elems(s) + seq![view_of(v)],
{
    lemma_view_of_elems(s.push(v));
    lemma_view_of_elems(s);
    assert(view_of_elems(s.push(v)) =~= view_of_elems(s) + seq![view_of(v)]);
}

/// Appending one member appends its model.
proof fn lemma_view_of_members_snoc(s: Seq<(String, JsonValue)>, k: String, v: JsonValue)
    ensures
        view_of_members(s.push((k, v))) == view_of_members(s) + seq![(k@, view_of(v))],
{
    lemma_view_of_members(s.push((k, v)));
    lemma_view_of_members(s);
    assert(view_of_members(s.push((k, v))) =~= view_of_members(s) + seq![(k@, view_of(v))]);
}

/// Reads comma-separated members up to the closing brace, mirroring
/// [`dec_members`] on the suffix of `s` starting at `pos`.
#[verifier::loop_isolation(false)]
#[verifier::rlimit(100)]
fn parse_members(s: &Vec<char>, pos: usize) -> (r: Option<(Vec<(String, JsonValue)>, usize)>)
    requires
        pos <= s@.len(),
    ensures
        match r {
            Some(vp) => pos < vp.1 <= s@.len() && dec_members(s@.skip(pos as int)) == Some(
                (view_of_members(vp.0@), s@.skip(vp.1 as int)),
            ),
            None => dec_members(s@.skip(pos as int)) is None,
        },
    decreases s@.len() - pos, 1int,
{
    let len = s.len();
    let mut acc: Vec<(String, JsonValue)> = Vec::new();
    let mut cur = pos;
    proof {
        assert(view_of_members(acc@) =~= Seq::<(Seq<char>, JVal)>::empty());
    }
    loop
        invariant
            pos <= cur <= len,
            dec_members(s@.skip(pos as int)) == prepend_members(
                view_of_members(acc@),
                dec_members(s@.skip(cur as int)),
            ),
        decreases len - cur,
    {
        let c0 = skip_ws_at(s, cur);
        let ghost ts = skip_ws(s@.skip(cur as int));
        proof {
            assert(ts == s@.skip(c0 as int));
        }
        if c0 == len {
            return None;
        }
        if s[c0] != '"' {
            proof {
                assert(ts[0] == s@[c0 as int]);
            }
            return None;
        }
        proof {
            assert(ts[0] == '"');
            assert(ts.skip(1) =~= s@.skip(c0 + 1 as int));
        }
        let kp = match parse_string_body(s, c0 + 1) {
            Some(kp) => kp,
            None => {
                return None;
            },
        };
        let key = kp.0;
        let pk = kp.1;
        proof {
            assert(s@.skip(pk as int).len() < s@.skip(cur as int).len());
        }
        let pk2 = skip_ws_at(s, pk);
        let ghost rks = skip_ws(s@.skip(pk as int));
        proof {
            assert(rks == s@.skip(pk2 as int));
        }
        if pk2 == len {
            return None;
        }
        if s[pk2] != ':' {
            proof {
                assert(rks[0] == s@[pk2 as int]);
            }
            return None;
        }
        proof {
            assert(rks[0] == ':');
            assert(rks.skip(1) =~= s@.skip(pk2 + 1 as int));
        }
        let vp = match parse_value(s, pk2 + 1) {
            Some(vp) => vp,
            None => {
                return None;
            },
        };
        let v = vp.0;
        let p2 = vp.1;
        proof {
            assert(s@.skip(p2 as int).len() < s@.skip(cur as int).len());
        }
        let p3 = skip_ws_at(s, p2);
        let ghost rvs = skip_ws(s@.skip(p2 as int));
        proof {
            assert(rvs == s@.skip(p3 as int));
        }
        if p3 == len {
            return None;
        }
        let c2 = s[p3];
        proof {
            assert(rvs[0] == c2);
            lemma_view_of_members_snoc(acc@, key, v);
        }
        if c2 == ',' {
            proof {
                assert(rvs.skip(1) =~= s@.skip(p3 + 1 as int));
                let inner = dec_members(s@.skip(p3 + 1 as int));
                match inner {
                    Some((ms, r2)) => {
                        assert(view_of_members(acc@) + (seq![(key@, v@)] + ms) =~= view_of_members(
                            acc@.push((key, v)),
                        ) + ms);
                    },
                    None => {},
                }
            }
            acc.push((key, v));
            cur = p3 + 1;
        } else if c2 == '}' {
            proof {
                assert(rvs.skip(1) =~= s@.skip(p3 + 1 as int));
                assert(view_of_members(acc@) + seq![(key@, v@)] =~= view_of_members(
                    acc@.push((key, v)),
                ));
            }
            acc.push((key, v));
            return Some((acc, p3 + 1));
        } else {
            return None;
        }
    }
}

/// Decoding of one complete line of text: `Some` exactly when the whole
/// line is one well-formed record, [`dec_line`] of the line's characters.
pub fn decode_line(line: &str) -> (r: Option<JsonValue>)
    ensures
        match r {
            Some(v) => dec_line(line@) == Some(v@),
            None => dec_line(line@) is None,
        },
{
    let chars = str_to_chars(line);
    proof {
        assert(chars@.skip(0) =~= line@);
    }
    match parse_value(&chars, 0) {
        Some((v, p)) => {
            let q = skip_ws_at(&chars, p);
            if q == chars.len() {
                proof {
                    assert(skip_ws(chars@.skip(p as int)).len() == 0);
                }
                Some(v)
            } else {
                proof {
                    assert(skip_ws(chars@.skip(p as int)).len() > 0);
                }
                None
            }
        },
        None => None,
    }
}

// ------------------------------------------------------------------
// Value utilities
// ------------------------------------------------------------------

/// The value of the first member named `key` in a member list.
pub open spec fn jval_get(ms: Seq<(Seq<char>, JVal)>, key: Seq<char>) -> Option<JVal>
    decreases ms,
{
    if ms.len() == 0 {
        None
    } else if ms[0].0 == key {
        Some(ms[0].1)
    } else {
        jval_get(ms.drop_first(), key)
    }
}

/// Member lookup on a model value: `None` on anything but an object.
pub open spec fn spec_get(v: JVal, key: Seq<char>) -> Option<JVal> {
    match v {
        JVal::Obj(ms) => jval_get(ms, key),
        _ => None,
    }
}

impl JsonValue {
    /// A deep copy of this value.
    #[verifier::loop_isolation(false)]
    pub fn duplicate(&self) -> (r: JsonValue)
        ensures
            r@ == self@,
        decreases self,
    {
        match self {
            JsonValue::Null => JsonValue::Null,
            JsonValue::Bool(b) => JsonValue::Bool(*b),
            JsonValue::Int(i) => JsonValue::Int(*i),
            JsonValue::Str(s) => JsonValue::Str(s.clone()),
            JsonValue::Arr(a) => {
                let mut out: Vec<JsonValue> = Vec::new();
                let n = a.len();
                let mut i: usize = 0;
                while i < n
                    invariant
                        n == a@.len(),
                        i <= n,
                        out@.len() == i,
                        forall|j: int| 0 <= j < i ==> view_of(#[trigger] out@[j]) == view_of(
                            a@[j],
                        ),
                    decreases n - i,
                {
                    proof {
                        assert(self->Arr_0 == *a);
                        assert(decreases_to!(*self => self->Arr_0));
                        assert(decreases_to!(*a => a@));
                        assert(decreases_to!(a@ => a@[i as int]));
                        assert(decreases_to!(*self => a@[i as int]));
                    }
                    let d = a[i].duplicate();
                    out.push(d);
                    i = i + 1;
                }
                proof {
                    lemma_view_of_elems(out@);
                    lemma_view_of_elems(a@);
                    assert(view_of_elems(out@) =~= view_of_elems(a@));
                }
                JsonValue::Arr(out)
            },
            JsonValue::Obj(o) => {
                let mut out: Vec<(String, JsonValue)> = Vec::new();
                let n = o.len();
                let mut i: usize = 0;
                while i < n
                    invariant
                        n == o@.len(),
                        i <= n,
                        out@.len() == i,
                        forall|j: int|
                            0 <= j < i ==> (#[trigger] out@[j]).0@ == o@[j].0@ && view_of(
                                out@[j].1,
                            ) == view_of(o@[j].1),
                    decreases n - i,
                {
                    proof {
                        assert(self->Obj_0 == *o);
                        assert(decreases_to!(*self => self->Obj_0));
                        assert(decreases_to!(*o => o@));
                        assert(decreases_to!(o@ => o@[i as int]));
                        assert(decreases_to!(o@[i as int] => o@[i as int].1));
                        assert(decreases_to!(*self => o@[i as int].1));
                    }
                    let d = o[i].1.duplicate();
                    let k = o[i].0.clone();
                    out.push((k, d));
                    i = i + 1;
                }
                proof {
                    lemma_view_of_members(out@);
                    lemma_view_of_members(o@);
                    assert(view_of_members(out@) =~= view_of_members(o@));
                }
                JsonValue::Obj(out)
            },
        }
    }

    /// The value of the first member named `key`, when this value is an
    /// object that has one; `None` otherwise.
    #[verifier::loop_isolation(false)]
    pub fn get(&self, key: &str) -> (r: Option<&JsonValue>)
        ensures
            match r {
                Some(x) => spec_get(self@, key@) == Some(x@),
                None => spec_get(self@, key@) is None,
            },
    {
        match self {
            JsonValue::Obj(o) => {
                let k: String = key.to_owned();
                let ghost vms = view_of_members(o@);
                proof {
                    lemma_view_of_members(o@);
                    assert(vms.skip(0) =~= vms);
                }
                let n = o.len();
                let mut i: usize = 0;
                while i < n
                    invariant
                        n == o@.len(),
                        i <= n,
                        jval_get(vms, key@) == jval_get(vms.skip(i as int), key@),
                    decreases n - i,
                {
                    proof {
                        assert(vms.skip(i as int)[0] == vms[i as int]);
                    }
                    if o[i].0 == k {
                        return Some(&o[i].1);
                    }
                    proof {
                        assert(vms.skip(i as int).drop_first() =~= vms.skip(i + 1 as int));
                    }
                    i = i + 1;
                }
                proof {
                    assert(vms.skip(n as int).len() == 0);
                }
                None
            },
            _ => None,
        }
    }
}

} // verus!
