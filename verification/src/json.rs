//! JSON values and a verified line codec for them.
//!
//! Wire lines are UTF-8 JSON texts, one value per line. A number that is an
//! integer fitting a 64-bit signed word is carried as one — that covers every
//! number the protocol itself reads (ids, error codes) — and any other
//! number (fractional, with an exponent, or a wider integer) is carried
//! opaquely by its own spelling, written back verbatim. The serializer emits
//! no insignificant whitespace and escapes only what JSON forces it to:
//! quotes, backslashes, and control characters.

use vstd::prelude::*;

verus! {

/// The mathematical shape of a JSON value, used by every contract here.
pub enum JsonV {
    Null,
    Bool(bool),
    Int(int),
    /// A number other than a 64-bit integer, kept as its spelling.
    Num(Seq<char>),
    Str(Seq<char>),
    Arr(Seq<JsonV>),
    Obj(Seq<(Seq<char>, JsonV)>),
}

/// An executable JSON value.
#[derive(Debug, PartialEq)]
pub enum Json {
    Null,
    Bool(bool),
    Int(i64),
    /// A number other than a 64-bit integer — fractional, with an exponent,
    /// or too wide — kept as the token's spelling and written back verbatim.
    /// The parser only ever produces complete non-integer number tokens here
    /// ([`num_lexeme_wf`]); the wire line is valid JSON exactly when any
    /// hand-built spelling is such a token too.
    Num(String),
    Str(String),
    Arr(Vec<Json>),
    Obj(Vec<(String, Json)>),
}

pub open spec fn view_json(j: Json) -> JsonV
    decreases j, 1int,
{
    match j {
        Json::Null => JsonV::Null,
        Json::Bool(b) => JsonV::Bool(b),
        Json::Int(n) => JsonV::Int(n as int),
        Json::Num(s) => JsonV::Num(s@),
        Json::Str(s) => JsonV::Str(s@),
        Json::Arr(v) => JsonV::Arr(view_json_seq(v@)),
        Json::Obj(v) => JsonV::Obj(view_json_pairs(v@)),
    }
}

pub open spec fn view_json_seq(v: Seq<Json>) -> Seq<JsonV>
    decreases v, 0int,
{
    if v.len() == 0 {
        Seq::empty()
    } else {
        seq![view_json(v[0])] + view_json_seq(v.drop_first())
    }
}

pub open spec fn view_json_pairs(v: Seq<(String, Json)>) -> Seq<(Seq<char>, JsonV)>
    decreases v, 0int,
{
    if v.len() == 0 {
        Seq::empty()
    } else {
        seq![(v[0].0@, view_json(v[0].1))] + view_json_pairs(v.drop_first())
    }
}

/// Pointwise reading of [`view_json_seq`].
pub proof fn lemma_view_json_seq(v: Seq<Json>)
    ensures
        view_json_seq(v).len() == v.len(),
        forall|i: int| 0 <= i < v.len() ==> #[trigger] view_json_seq(v)[i] == view_json(v[i]),
    decreases v.len(),
{
    if v.len() > 0 {
        lemma_view_json_seq(v.drop_first());
        assert forall|i: int| 0 <= i < v.len() implies #[trigger] view_json_seq(v)[i]
            == view_json(v[i]) by {
            if i > 0 {
                assert(v.drop_first()[i - 1] == v[i]);
                assert(view_json_seq(v)[i] == view_json_seq(v.drop_first())[i - 1]);
            }
        }
    }
}

/// Pointwise reading of [`view_json_pairs`].
pub proof fn lemma_view_json_pairs(v: Seq<(String, Json)>)
    ensures
        view_json_pairs(v).len() == v.len(),
        forall|i: int| 0 <= i < v.len() ==> #[trigger] view_json_pairs(v)[i] == (v[i].0@,
            view_json(v[i].1)),
    decreases v.len(),
{
    if v.len() > 0 {
        lemma_view_json_pairs(v.drop_first());
        assert forall|i: int| 0 <= i < v.len() implies #[trigger] view_json_pairs(v)[i] == (
        v[i].0@, view_json(v[i].1)) by {
            if i > 0 {
                assert(v.drop_first()[i - 1] == v[i]);
                assert(view_json_pairs(v)[i] == view_json_pairs(v.drop_first())[i - 1]);
            }
        }
    }
}

impl View for Json {
    type V = JsonV;

    open spec fn view(&self) -> JsonV {
        view_json(*self)
    }
}

impl JsonV {
    /// Every number in the value is well formed: integers fit a 64-bit
    /// signed word, and every kept spelling is a complete number token that
    /// is not such an integer — exactly the split the parser produces.
    pub open spec fn nums_wf(self) -> bool
        decreases self, 1int,
    {
        match self {
            JsonV::Null => true,
            JsonV::Bool(_) => true,
            JsonV::Int(n) => i64::MIN <= n <= i64::MAX,
            JsonV::Num(lex) => num_lexeme_wf(lex),
            JsonV::Str(_) => true,
            JsonV::Arr(es) => nums_wf_seq(es),
            JsonV::Obj(ms) => nums_wf_pairs(ms),
        }
    }
}

pub open spec fn nums_wf_seq(es: Seq<JsonV>) -> bool
    decreases es, 0int,
{
    es.len() == 0 || (es[0].nums_wf() && nums_wf_seq(es.drop_first()))
}

pub open spec fn nums_wf_pairs(ms: Seq<(Seq<char>, JsonV)>) -> bool
    decreases ms, 0int,
{
    ms.len() == 0 || (ms[0].1.nums_wf() && nums_wf_pairs(ms.drop_first()))
}

pub open spec fn digit_char(d: int) -> char {
    (48 + d) as char
}

/// Decimal digits of a nonnegative integer, most significant first.
pub open spec fn ser_nat(n: int) -> Seq<char>
    decreases n,
{
    if n < 10 {
        seq![digit_char(if n < 0 { 0int } else { n })]
    } else {
        ser_nat(n / 10) + seq![digit_char(n % 10)]
    }
}

pub open spec fn ser_int(n: int) -> Seq<char> {
    if n < 0 {
        seq!['-'] + ser_nat(-n)
    } else {
        ser_nat(n)
    }
}

pub open spec fn hex_char(d: int) -> char {
    if d < 10 {
        (48 + d) as char
    } else {
        (87 + d) as char
    }
}

/// How one character appears inside a serialized JSON string.
pub open spec fn esc(c: char) -> Seq<char> {
    if c == '"' {
        seq!['\\', '"']
    } else if c == '\\' {
        seq!['\\', '\\']
    } else if (c as int) < 32 {
        seq!['\\', 'u', '0', '0', hex_char(c as int / 16), hex_char(c as int % 16)]
    } else {
        seq![c]
    }
}

pub open spec fn ser_str_body(s: Seq<char>) -> Seq<char>
    decreases s.len(),
{
    if s.len() == 0 {
        Seq::empty()
    } else {
        esc(s[0]) + ser_str_body(s.drop_first())
    }
}

/// The serialized form of a value: one JSON text with no insignificant
/// whitespace.
pub open spec fn ser(v: JsonV) -> Seq<char>
    decreases v, 1int,
{
    match v {
        JsonV::Null => seq!['n', 'u', 'l', 'l'],
        JsonV::Bool(b) => if b {
            seq!['t', 'r', 'u', 'e']
        } else {
            seq!['f', 'a', 'l', 's', 'e']
        },
        JsonV::Int(n) => ser_int(n),
        JsonV::Num(lex) => lex,
        JsonV::Str(s) => seq!['"'] + ser_str_body(s) + seq!['"'],
        JsonV::Arr(es) => seq!['['] + ser_elems(es) + seq![']'],
        JsonV::Obj(ms) => seq!['{'] + ser_members(ms) + seq!['}'],
    }
}

pub open spec fn ser_elems(es: Seq<JsonV>) -> Seq<char>
    decreases es, 0int,
{
    if es.len() == 0 {
        Seq::empty()
    } else if es.len() == 1 {
        ser(es[0])
    } else {
        ser(es[0]) + seq![','] + ser_elems(es.drop_first())
    }
}

pub open spec fn ser_member(m: (Seq<char>, JsonV)) -> Seq<char>
    decreases m, 1int,
{
    seq!['"'] + ser_str_body(m.0) + seq!['"', ':'] + ser(m.1)
}

pub open spec fn ser_members(ms: Seq<(Seq<char>, JsonV)>) -> Seq<char>
    decreases ms, 0int,
{
    if ms.len() == 0 {
        Seq::empty()
    } else if ms.len() == 1 {
        ser_member(ms[0])
    } else {
        ser_member(ms[0]) + seq![','] + ser_members(ms.drop_first())
    }
}

fn digit_to_char(d: u64) -> (c: char)
    requires
        d < 10,
    ensures
        c == digit_char(d as int),
{
    (48 + d as u8) as char
}

fn hex_to_char(d: u32) -> (c: char)
    requires
        d < 16,
    ensures
        c == hex_char(d as int),
{
    if d < 10 {
        (48 + d as u8) as char
    } else {
        (87 + d as u8) as char
    }
}

fn write_nat(m: u64, out: &mut Vec<char>)
    ensures
        final(out)@ == old(out)@ + ser_nat(m as int),
    decreases m,
{
    if m < 10 {
        out.push(digit_to_char(m));
    } else {
        write_nat(m / 10, out);
        out.push(digit_to_char(m % 10));
    }
}

fn write_int(n: i64, out: &mut Vec<char>)
    ensures
        final(out)@ == old(out)@ + ser_int(n as int),
{
    if n >= 0 {
        write_nat(n as u64, out);
    } else {
        out.push('-');
        let m: u64 = ((-(n + 1)) as u64) + 1;
        assert(m as int == -(n as int));
        write_nat(m, out);
    }
}

fn push_esc(c: char, out: &mut Vec<char>)
    ensures
        final(out)@ == old(out)@ + esc(c),
{
    if c == '"' {
        out.push('\\');
        out.push('"');
    } else if c == '\\' {
        out.push('\\');
        out.push('\\');
    } else if (c as u32) < 32 {
        out.push('\\');
        out.push('u');
        out.push('0');
        out.push('0');
        out.push(hex_to_char((c as u32) / 16));
        out.push(hex_to_char((c as u32) % 16));
    } else {
        out.push(c);
    }
}

fn write_str_body(s: &str, i: usize, out: &mut Vec<char>)
    requires
        i <= s@.len(),
    ensures
        final(out)@ == old(out)@ + ser_str_body(s@.skip(i as int)),
    decreases s@.len() - i,
{
    let n = s.unicode_len();
    if i < n {
        push_esc(s.get_char(i), out);
        write_str_body(s, i + 1, out);
        proof {
            assert(s@.skip(i as int)[0] == s@[i as int]);
            assert(s@.skip(i as int).drop_first() =~= s@.skip(i + 1));
        }
    } else {
        assert(s@.skip(i as int) =~= Seq::<char>::empty());
    }
}

fn write_raw(s: &str, i: usize, out: &mut Vec<char>)
    requires
        i <= s@.len(),
    ensures
        final(out)@ == old(out)@ + s@.skip(i as int),
    decreases s@.len() - i,
{
    let n = s.unicode_len();
    if i < n {
        out.push(s.get_char(i));
        write_raw(s, i + 1, out);
        proof {
            assert(s@.skip(i as int) =~= seq![s@[i as int]] + s@.skip(i + 1));
        }
    } else {
        assert(s@.skip(i as int) =~= Seq::<char>::empty());
    }
}

/// Appends the serialized form of `j` to `out`.
pub fn write_json(j: &Json, out: &mut Vec<char>)
    ensures
        final(out)@ == old(out)@ + ser(j@),
    decreases j, 0int, 0int,
{
    match j {
        Json::Null => {
            out.push('n');
            out.push('u');
            out.push('l');
            out.push('l');
        },
        Json::Bool(b) => {
            if *b {
                out.push('t');
                out.push('r');
                out.push('u');
                out.push('e');
            } else {
                out.push('f');
                out.push('a');
                out.push('l');
                out.push('s');
                out.push('e');
            }
        },
        Json::Int(n) => {
            write_int(*n, out);
        },
        Json::Num(lex) => {
            write_raw(lex.as_str(), 0, out);
            proof {
                assert(lex@.skip(0) =~= lex@);
            }
        },
        Json::Str(s) => {
            out.push('"');
            write_str_body(s.as_str(), 0, out);
            out.push('"');
            proof {
                assert(s@.skip(0) =~= s@);
            }
        },
        Json::Arr(v) => {
            out.push('[');
            write_elems(v, 0, out);
            out.push(']');
            proof {
                assert(view_json_seq(v@).skip(0) =~= view_json_seq(v@));
            }
        },
        Json::Obj(v) => {
            out.push('{');
            write_members(v, 0, out);
            out.push('}');
            proof {
                assert(view_json_pairs(v@).skip(0) =~= view_json_pairs(v@));
            }
        },
    }
}

fn write_elems(v: &Vec<Json>, k: usize, out: &mut Vec<char>)
    requires
        k <= v@.len(),
    ensures
        final(out)@ == old(out)@ + ser_elems(view_json_seq(v@).skip(k as int)),
    decreases v, 1int, v@.len() - k,
{
    proof {
        lemma_view_json_seq(v@);
        assert(view_json_seq(v@).skip(k as int).len() == v@.len() - k);
    }
    if k < v.len() {
        proof {
            assert(decreases_to!(v => v@[k as int]));
            assert(view_json_seq(v@).skip(k as int)[0] == view_json(v@[k as int]));
        }
        write_json(&v[k], out);
        if k + 1 < v.len() {
            out.push(',');
            write_elems(v, k + 1, out);
            proof {
                assert(view_json_seq(v@).skip(k as int).drop_first() =~= view_json_seq(v@).skip(
                    k + 1,
                ));
            }
        }
    }
}

fn write_members(v: &Vec<(String, Json)>, k: usize, out: &mut Vec<char>)
    requires
        k <= v@.len(),
    ensures
        final(out)@ == old(out)@ + ser_members(view_json_pairs(v@).skip(k as int)),
    decreases v, 1int, v@.len() - k,
{
    proof {
        lemma_view_json_pairs(v@);
        assert(view_json_pairs(v@).skip(k as int).len() == v@.len() - k);
    }
    if k < v.len() {
        let ghost ms = view_json_pairs(v@).skip(k as int);
        let ghost m = (v@[k as int].0@, view_json(v@[k as int].1));
        proof {
            assert(decreases_to!(v => v@[k as int].1));
            assert(ms[0] == m);
        }
        out.push('"');
        write_str_body(v[k].0.as_str(), 0, out);
        out.push('"');
        out.push(':');
        write_json(&v[k].1, out);
        proof {
            assert(v@[k as int].0@.skip(0) =~= v@[k as int].0@);
            assert(out@ =~= old(out)@ + ser_member(m));
        }
        if k + 1 < v.len() {
            out.push(',');
            write_members(v, k + 1, out);
            proof {
                assert(ms.drop_first() =~= view_json_pairs(v@).skip(k + 1));
                assert(ser_members(ms) == ser_member(ms[0]) + seq![','] + ser_members(
                    ms.drop_first(),
                ));
                assert(out@ =~= old(out)@ + ser_members(ms));
            }
        } else {
            proof {
                assert(ms.len() == 1);
                assert(ser_members(ms) == ser_member(ms[0]));
            }
        }
    }
}

pub open spec fn is_ws(c: char) -> bool {
    c == ' ' || c == '\t' || c == '\n' || c == '\r'
}

pub open spec fn is_digit(c: char) -> bool {
    48 <= c as int <= 57
}

pub open spec fn digit_val(c: char) -> int {
    c as int - 48
}

pub open spec fn is_hex(c: char) -> bool {
    48 <= c as int <= 57 || 97 <= c as int <= 102 || 65 <= c as int <= 70
}

pub open spec fn hex_val(c: char) -> int {
    if 48 <= c as int <= 57 {
        c as int - 48
    } else if 97 <= c as int <= 102 {
        c as int - 87
    } else {
        c as int - 55
    }
}

/// Index of the first character at or after `i` that is not JSON whitespace.
pub open spec fn skip_ws(s: Seq<char>, i: int) -> int
    decreases s.len() - i,
{
    if 0 <= i < s.len() && is_ws(s[i]) {
        skip_ws(s, i + 1)
    } else {
        i
    }
}

pub proof fn lemma_skip_ws_bounds(s: Seq<char>, i: int)
    requires
        0 <= i <= s.len(),
    ensures
        i <= skip_ws(s, i) <= s.len(),
        skip_ws(s, i) == s.len() || !is_ws(s[skip_ws(s, i)]),
    decreases s.len() - i,
{
    if i < s.len() && is_ws(s[i]) {
        lemma_skip_ws_bounds(s, i + 1);
    }
}

/// One escape sequence, after its backslash. Unicode escapes are accepted for
/// code points up to 255, which covers everything the serializer emits.
pub open spec fn p_escape(s: Seq<char>, i: int) -> Option<(char, int)> {
    if i < 0 || i >= s.len() {
        None
    } else {
        let c = s[i];
        if c == '"' {
            Some(('"', i + 1))
        } else if c == '\\' {
            Some(('\\', i + 1))
        } else if c == '/' {
            Some(('/', i + 1))
        } else if c == 'b' {
            Some((8 as char, i + 1))
        } else if c == 'f' {
            Some((12 as char, i + 1))
        } else if c == 'n' {
            Some(('\n', i + 1))
        } else if c == 'r' {
            Some(('\r', i + 1))
        } else if c == 't' {
            Some(('\t', i + 1))
        } else if c == 'u' {
            if i + 5 <= s.len() && is_hex(s[i + 1]) && is_hex(s[i + 2]) && is_hex(s[i + 3])
                && is_hex(s[i + 4]) {
                let code = hex_val(s[i + 1]) * 4096 + hex_val(s[i + 2]) * 256 + hex_val(s[i + 3])
                    * 16 + hex_val(s[i + 4]);
                if code <= 255 {
                    Some((code as char, i + 5))
                } else {
                    None
                }
            } else {
                None
            }
        } else {
            None
        }
    }
}

/// The characters of a string literal, starting just after the opening quote;
/// returns the index just after the closing quote.
pub open spec fn p_string(s: Seq<char>, i: int) -> Option<(Seq<char>, int)>
    decreases s.len() - i, 0int,
{
    if i < 0 || i >= s.len() {
        None
    } else {
        let c = s[i];
        if c == '"' {
            Some((Seq::empty(), i + 1))
        } else if c == '\\' {
            match p_escape(s, i + 1) {
                Some((e, k)) => if i + 1 < k <= s.len() {
                    match p_string(s, k) {
                        Some((rest, k2)) => Some((seq![e] + rest, k2)),
                        None => None,
                    }
                } else {
                    None
                },
                None => None,
            }
        } else {
            match p_string(s, i + 1) {
                Some((rest, k2)) => Some((seq![c] + rest, k2)),
                None => None,
            }
        }
    }
}

/// Decimal digits continuing a number whose digits so far read `acc`.
/// Accumulation stops once `acc` can no longer be the magnitude of a 64-bit
/// signed integer; the number is then kept by its spelling instead.
pub open spec fn p_digits(s: Seq<char>, i: int, acc: int) -> Option<(int, int)>
    decreases s.len() - i,
{
    if acc > 0x8000_0000_0000_0000 {
        None
    } else if 0 <= i < s.len() && is_digit(s[i]) {
        p_digits(s, i + 1, acc * 10 + digit_val(s[i]))
    } else {
        Some((acc, i))
    }
}

/// Index of the first character at or after `i` that is not a digit.
pub open spec fn scan_digits(s: Seq<char>, i: int) -> int
    decreases s.len() - i,
{
    if 0 <= i < s.len() && is_digit(s[i]) {
        scan_digits(s, i + 1)
    } else {
        i
    }
}

pub proof fn lemma_scan_digits_bounds(s: Seq<char>, i: int)
    requires
        0 <= i <= s.len(),
    ensures
        i <= scan_digits(s, i) <= s.len(),
        scan_digits(s, i) == s.len() || !is_digit(s[scan_digits(s, i)]),
        forall|q: int| i <= q < scan_digits(s, i) ==> is_digit(#[trigger] s[q]),
    decreases s.len() - i,
{
    if i < s.len() && is_digit(s[i]) {
        lemma_scan_digits_bounds(s, i + 1);
    }
}

pub proof fn lemma_scan_digits_exact(s: Seq<char>, a: int, b: int)
    requires
        0 <= a <= b <= s.len(),
        forall|q: int| a <= q < b ==> is_digit(#[trigger] s[q]),
        b == s.len() || !is_digit(s[b]),
    ensures
        scan_digits(s, a) == b,
    decreases b - a,
{
    if a < b {
        lemma_scan_digits_exact(s, a + 1, b);
    }
}

/// End of the optional fraction part starting at `j1`; negative on a bare
/// decimal point.
pub open spec fn frac_end(s: Seq<char>, j1: int) -> int {
    if 0 <= j1 < s.len() && s[j1] == '.' {
        if j1 + 1 < s.len() && is_digit(s[j1 + 1]) {
            scan_digits(s, j1 + 1)
        } else {
            -1
        }
    } else {
        j1
    }
}

/// End of the optional exponent part starting at `j2`; negative on a bare
/// exponent marker.
pub open spec fn exp_end(s: Seq<char>, j2: int) -> int {
    if j2 < 0 {
        -1
    } else if j2 < s.len() && (s[j2] == 'e' || s[j2] == 'E') {
        let k = if j2 + 1 < s.len() && (s[j2 + 1] == '+' || s[j2 + 1] == '-') {
            j2 + 2
        } else {
            j2 + 1
        };
        if k < s.len() && is_digit(s[k]) {
            scan_digits(s, k)
        } else {
            -1
        }
    } else {
        j2
    }
}

/// A spelling the codec keeps whole: one complete JSON number token that is
/// not an integer fitting a 64-bit signed word — exactly the tokens the
/// parser reads back as [`JsonV::Num`].
pub open spec fn num_lexeme_wf(lex: Seq<char>) -> bool {
    let neg = lex.len() > 0 && lex[0] == '-';
    let j0: int = if neg {
        1
    } else {
        0
    };
    &&& j0 < lex.len()
    &&& is_digit(lex[j0])
    &&& {
        let j1 = scan_digits(lex, j0);
        let j2 = frac_end(lex, j1);
        let j3 = exp_end(lex, j2);
        &&& j2 >= 0
        &&& j3 == lex.len()
        &&& (j3 == j1 ==> (if neg {
            blockval(0, lex, j0, j1) > 0x8000_0000_0000_0000
        } else {
            blockval(0, lex, j0, j1) > 0x7fff_ffff_ffff_ffff
        }))
    }
}

/// A JSON number at `i` (no leading whitespace): an integer fitting 64 bits
/// becomes [`JsonV::Int`]; any other number token is kept as its spelling.
pub open spec fn p_num(s: Seq<char>, i: int) -> Option<(JsonV, int)> {
    if i < 0 || i >= s.len() {
        None
    } else {
        let neg = s[i] == '-';
        let j0 = if neg {
            i + 1
        } else {
            i
        };
        if j0 >= s.len() || !is_digit(s[j0]) {
            None
        } else {
            let j1 = scan_digits(s, j0);
            let j2 = frac_end(s, j1);
            let j3 = exp_end(s, j2);
            if j2 < 0 || j3 < 0 {
                None
            } else if j3 == j1 {
                let m = blockval(0, s, j0, j1);
                if neg && m <= 0x8000_0000_0000_0000 {
                    Some((JsonV::Int(-m), j1))
                } else if !neg && m <= 0x7fff_ffff_ffff_ffff {
                    Some((JsonV::Int(m), j1))
                } else {
                    Some((JsonV::Num(s.subrange(i, j1)), j1))
                }
            } else {
                Some((JsonV::Num(s.subrange(i, j3)), j3))
            }
        }
    }
}

pub proof fn lemma_p_num_bounds(s: Seq<char>, i: int)
    requires
        0 <= i <= s.len(),
    ensures
        match p_num(s, i) {
            Some((_, k)) => i < k <= s.len(),
            None => true,
        },
{
    if i < s.len() {
        let neg = s[i] == '-';
        let j0: int = if neg {
            i + 1
        } else {
            i
        };
        if j0 < s.len() && is_digit(s[j0]) {
            lemma_scan_digits_bounds(s, j0);
            let j1 = scan_digits(s, j0);
            assert(j1 > j0);
            let j2 = frac_end(s, j1);
            if j1 < s.len() && s[j1] == '.' && j1 + 1 < s.len() && is_digit(s[j1 + 1]) {
                lemma_scan_digits_bounds(s, j1 + 1);
            }
            if j2 >= 0 {
                assert(j1 <= j2 <= s.len());
                if j2 < s.len() && (s[j2] == 'e' || s[j2] == 'E') {
                    let k: int = if j2 + 1 < s.len() && (s[j2 + 1] == '+' || s[j2 + 1] == '-') {
                        j2 + 2
                    } else {
                        j2 + 1
                    };
                    if k < s.len() && is_digit(s[k]) {
                        lemma_scan_digits_bounds(s, k);
                    }
                }
            }
        }
    }
}

/// A JSON value, allowing leading whitespace; returns the index just after it.
pub open spec fn p_value(s: Seq<char>, i: int) -> Option<(JsonV, int)>
    decreases s.len() - i, 2int,
{
    let j = skip_ws(s, i);
    if j < i || j >= s.len() {
        None
    } else {
        let c = s[j];
        if c == 'n' {
            if j + 4 <= s.len() && s[j + 1] == 'u' && s[j + 2] == 'l' && s[j + 3] == 'l' {
                Some((JsonV::Null, j + 4))
            } else {
                None
            }
        } else if c == 't' {
            if j + 4 <= s.len() && s[j + 1] == 'r' && s[j + 2] == 'u' && s[j + 3] == 'e' {
                Some((JsonV::Bool(true), j + 4))
            } else {
                None
            }
        } else if c == 'f' {
            if j + 5 <= s.len() && s[j + 1] == 'a' && s[j + 2] == 'l' && s[j + 3] == 's' && s[j + 4]
                == 'e' {
                Some((JsonV::Bool(false), j + 5))
            } else {
                None
            }
        } else if c == '"' {
            match p_string(s, j + 1) {
                Some((cs, k)) => Some((JsonV::Str(cs), k)),
                None => None,
            }
        } else if c == '[' {
            match p_elems(s, j + 1, true) {
                Some((es, k)) => Some((JsonV::Arr(es), k)),
                None => None,
            }
        } else if c == '{' {
            match p_members(s, j + 1, true) {
                Some((ms, k)) => Some((JsonV::Obj(ms), k)),
                None => None,
            }
        } else if c == '-' || is_digit(c) {
            p_num(s, j)
        } else {
            None
        }
    }
}

/// The elements of an array, starting just after `[` or after a comma.
/// `allow_close` admits `]` immediately, which is only legal before the first
/// element.
pub open spec fn p_elems(s: Seq<char>, i: int, allow_close: bool) -> Option<(Seq<JsonV>, int)>
    decreases s.len() - i, 3int,
{
    let j = skip_ws(s, i);
    if j < i || j >= s.len() {
        None
    } else if s[j] == ']' && allow_close {
        Some((Seq::empty(), j + 1))
    } else {
        match p_value(s, j) {
            Some((v, k)) => if j < k <= s.len() {
                let j2 = skip_ws(s, k);
                if j2 < k || j2 >= s.len() {
                    None
                } else if s[j2] == ']' {
                    Some((seq![v], j2 + 1))
                } else if s[j2] == ',' {
                    match p_elems(s, j2 + 1, false) {
                        Some((rest, k2)) => Some((seq![v] + rest, k2)),
                        None => None,
                    }
                } else {
                    None
                }
            } else {
                None
            },
            None => None,
        }
    }
}

/// The members of an object, starting just after `{` or after a comma.
pub open spec fn p_members(s: Seq<char>, i: int, allow_close: bool) -> Option<
    (Seq<(Seq<char>, JsonV)>, int),
>
    decreases s.len() - i, 3int,
{
    let j = skip_ws(s, i);
    if j < i || j >= s.len() {
        None
    } else if s[j] == '}' && allow_close {
        Some((Seq::empty(), j + 1))
    } else if s[j] != '"' {
        None
    } else {
        match p_string(s, j + 1) {
            Some((key, k)) => if j + 1 < k <= s.len() {
                let j2 = skip_ws(s, k);
                if j2 < k || j2 >= s.len() || s[j2] != ':' {
                    None
                } else {
                    match p_value(s, j2 + 1) {
                        Some((v, k2)) => if j2 < k2 <= s.len() {
                            let j3 = skip_ws(s, k2);
                            if j3 < k2 || j3 >= s.len() {
                                None
                            } else if s[j3] == '}' {
                                Some((seq![(key, v)], j3 + 1))
                            } else if s[j3] == ',' {
                                match p_members(s, j3 + 1, false) {
                                    Some((rest, k3)) => Some((seq![(key, v)] + rest, k3)),
                                    None => None,
                                }
                            } else {
                                None
                            }
                        } else {
                            None
                        },
                        None => None,
                    }
                }
            } else {
                None
            },
            None => None,
        }
    }
}

pub proof fn lemma_p_string_bounds(s: Seq<char>, i: int)
    requires
        0 <= i <= s.len() + 1,
    ensures
        match p_string(s, i) {
            Some((_, k)) => i < k <= s.len(),
            None => true,
        },
    decreases s.len() - i, 0int,
{
    if 0 <= i < s.len() {
        if s[i] == '\\' {
            if let Some((e, k)) = p_escape(s, i + 1) {
                if i + 1 < k <= s.len() {
                    lemma_p_string_bounds(s, k);
                }
            }
        } else if s[i] != '"' {
            lemma_p_string_bounds(s, i + 1);
        }
    }
}


pub proof fn lemma_p_value_bounds(s: Seq<char>, i: int)
    requires
        0 <= i <= s.len() + 1,
    ensures
        match p_value(s, i) {
            Some((_, k)) => i < k <= s.len(),
            None => true,
        },
    decreases s.len() - i, 2int,
{
    let j = skip_ws(s, i);
    if i <= j < s.len() {
        let c = s[j];
        if c == '"' {
            lemma_p_string_bounds(s, j + 1);
        } else if c == '[' {
            lemma_p_elems_bounds(s, j + 1, true);
        } else if c == '{' {
            lemma_p_members_bounds(s, j + 1, true);
        } else if c == '-' || is_digit(c) {
            lemma_p_num_bounds(s, j);
        }
    }
}

pub proof fn lemma_p_elems_bounds(s: Seq<char>, i: int, allow_close: bool)
    requires
        0 <= i <= s.len() + 1,
    ensures
        match p_elems(s, i, allow_close) {
            Some((_, k)) => i < k <= s.len(),
            None => true,
        },
    decreases s.len() - i, 3int,
{
    let j = skip_ws(s, i);
    if i <= j < s.len() && !(s[j] == ']' && allow_close) {
        lemma_p_value_bounds(s, j);
        if let Some((v, k)) = p_value(s, j) {
            if j < k <= s.len() {
                let j2 = skip_ws(s, k);
                if k <= j2 < s.len() && s[j2] == ',' {
                    lemma_p_elems_bounds(s, j2 + 1, false);
                }
            }
        }
    }
}

pub proof fn lemma_p_members_bounds(s: Seq<char>, i: int, allow_close: bool)
    requires
        0 <= i <= s.len() + 1,
    ensures
        match p_members(s, i, allow_close) {
            Some((_, k)) => i < k <= s.len(),
            None => true,
        },
    decreases s.len() - i, 3int,
{
    let j = skip_ws(s, i);
    if i <= j < s.len() && !(s[j] == '}' && allow_close) && s[j] == '"' {
        lemma_p_string_bounds(s, j + 1);
        if let Some((key, k)) = p_string(s, j + 1) {
            if j + 1 < k <= s.len() {
                let j2 = skip_ws(s, k);
                if k <= j2 < s.len() && s[j2] == ':' {
                    lemma_p_value_bounds(s, j2 + 1);
                    if let Some((v, k2)) = p_value(s, j2 + 1) {
                        if j2 < k2 <= s.len() {
                            let j3 = skip_ws(s, k2);
                            if k2 <= j3 < s.len() && s[j3] == ',' {
                                lemma_p_members_bounds(s, j3 + 1, false);
                            }
                        }
                    }
                }
            }
        }
    }
}

/// One whole JSON text: a single value with nothing but whitespace around it.
pub open spec fn p_text(s: Seq<char>) -> Option<JsonV> {
    match p_value(s, 0) {
        Some((v, k)) => if 0 <= k <= s.len() && skip_ws(s, k) == s.len() {
            Some(v)
        } else {
            None
        },
        None => None,
    }
}

/// Relies on `String`'s `FromIterator<char>` impl: collecting characters
/// yields a string of exactly those characters, in order.
#[verifier::external_body]
pub(crate) fn chars_to_string(v: &Vec<char>) -> (s: String)
    ensures
        s@ == v@,
{
    v.iter().collect()
}

/// The characters of a string, for handing text across the codec boundary.
pub fn string_to_chars(s: &str) -> (v: Vec<char>)
    ensures
        v@ == s@,
{
    let n = s.unicode_len();
    let mut v: Vec<char> = Vec::new();
    let mut i: usize = 0;
    while i < n
        invariant
            i <= n,
            n == s@.len(),
            v@ == s@.take(i as int),
        decreases n - i,
    {
        v.push(s.get_char(i));
        proof {
            assert(s@.take(i + 1) =~= s@.take(i as int).push(s@[i as int]));
        }
        i = i + 1;
    }
    proof {
        assert(s@.take(n as int) =~= s@);
    }
    v
}

fn is_ws_x(c: char) -> (r: bool)
    ensures
        r == is_ws(c),
{
    c == ' ' || c == '\t' || c == '\n' || c == '\r'
}

fn is_digit_x(c: char) -> (r: bool)
    ensures
        r == is_digit(c),
{
    let u = c as u32;
    48 <= u && u <= 57
}

fn is_hex_x(c: char) -> (r: bool)
    ensures
        r == is_hex(c),
{
    let u = c as u32;
    (48 <= u && u <= 57) || (97 <= u && u <= 102) || (65 <= u && u <= 70)
}

fn hex_val_x(c: char) -> (r: u32)
    requires
        is_hex(c),
    ensures
        r as int == hex_val(c),
        r < 16,
{
    let u = c as u32;
    if 48 <= u && u <= 57 {
        u - 48
    } else if 97 <= u && u <= 102 {
        u - 87
    } else {
        u - 55
    }
}

pub(crate) fn x_skip_ws(s: &Vec<char>, i: usize) -> (r: usize)
    requires
        i <= s@.len(),
    ensures
        r as int == skip_ws(s@, i as int),
        i <= r <= s@.len(),
{
    let mut j = i;
    while j < s.len() && is_ws_x(s[j])
        invariant
            i <= j <= s@.len(),
            skip_ws(s@, i as int) == skip_ws(s@, j as int),
        decreases s@.len() - j,
    {
        j = j + 1;
    }
    j
}

fn x_escape(s: &Vec<char>, i: usize) -> (r: Option<(char, usize)>)
    requires
        i <= s@.len(),
    ensures
        match (r, p_escape(s@, i as int)) {
            (Some((e, k)), Some((ev, kv))) => e == ev && k as int == kv && i < k <= s@.len(),
            (None, None) => true,
            _ => false,
        },
{
    if i >= s.len() {
        return None;
    }
    let c = s[i];
    if c == '"' {
        Some(('"', i + 1))
    } else if c == '\\' {
        Some(('\\', i + 1))
    } else if c == '/' {
        Some(('/', i + 1))
    } else if c == 'b' {
        Some((8u8 as char, i + 1))
    } else if c == 'f' {
        Some((12u8 as char, i + 1))
    } else if c == 'n' {
        Some(('\n', i + 1))
    } else if c == 'r' {
        Some(('\r', i + 1))
    } else if c == 't' {
        Some(('\t', i + 1))
    } else if c == 'u' {
        if s.len() - i >= 5 && is_hex_x(s[i + 1]) && is_hex_x(s[i + 2]) && is_hex_x(s[i + 3])
            && is_hex_x(s[i + 4]) {
            let code: u32 = hex_val_x(s[i + 1]) * 4096 + hex_val_x(s[i + 2]) * 256 + hex_val_x(
                s[i + 3],
            ) * 16 + hex_val_x(s[i + 4]);
            if code <= 255 {
                Some(((code as u8) as char, i + 5))
            } else {
                None
            }
        } else {
            None
        }
    } else {
        None
    }
}

fn x_string(s: &Vec<char>, i: usize) -> (r: Option<(String, usize)>)
    requires
        i <= s@.len(),
    ensures
        match (r, p_string(s@, i as int)) {
            (Some((out, k)), Some((sv, kv))) => out@ == sv && k as int == kv && i < k <= s@.len(),
            (None, None) => true,
            _ => false,
        },
{
    let mut buf: Vec<char> = Vec::new();
    let mut j = i;
    loop
        invariant
            i <= j <= s@.len(),
            match p_string(s@, j as int) {
                Some((sv, kv)) => p_string(s@, i as int) == Some((buf@ + sv, kv)),
                None => p_string(s@, i as int) is None,
            },
        decreases s@.len() - j,
    {
        proof {
            lemma_p_string_bounds(s@, i as int);
            lemma_p_string_bounds(s@, j as int);
        }
        if j >= s.len() {
            return None;
        }
        let c = s[j];
        if c == '"' {
            let out = chars_to_string(&buf);
            proof {
                assert(buf@ + Seq::<char>::empty() =~= buf@);
            }
            return Some((out, j + 1));
        } else if c == '\\' {
            match x_escape(s, j + 1) {
                Some((e, k)) => {
                    proof {
                        if let Some((rest, k2)) = p_string(s@, k as int) {
                            assert(buf@ + (seq![e] + rest) =~= buf@.push(e) + rest);
                        }
                    }
                    buf.push(e);
                    j = k;
                },
                None => {
                    return None;
                },
            }
        } else {
            proof {
                if let Some((rest, k2)) = p_string(s@, j + 1) {
                    assert(buf@ + (seq![c] + rest) =~= buf@.push(c) + rest);
                }
            }
            buf.push(c);
            j = j + 1;
        }
    }
}

fn x_digits(s: &Vec<char>, i: usize, acc: u128) -> (r: Option<(u128, usize)>)
    requires
        i <= s@.len(),
        acc <= 0x8000_0000_0000_0000,
    ensures
        match (r, p_digits(s@, i as int, acc as int)) {
            (Some((m, k)), Some((mv, kv))) => m as int == mv && k as int == kv && k <= s@.len()
                && m <= 0x8000_0000_0000_0000,
            (None, None) => true,
            _ => false,
        },
    decreases s@.len() - i,
{
    if i < s.len() && is_digit_x(s[i]) {
        let d: u128 = (s[i] as u32 - 48) as u128;
        let acc2: u128 = acc * 10 + d;
        if acc2 > 0x8000_0000_0000_0000 {
            proof {
                assert(p_digits(s@, i + 1, acc2 as int) is None);
            }
            None
        } else {
            x_digits(s, i + 1, acc2)
        }
    } else {
        Some((acc, i))
    }
}

fn x_scan_digits(s: &Vec<char>, i: usize) -> (r: usize)
    requires
        i <= s@.len(),
    ensures
        r as int == scan_digits(s@, i as int),
        i <= r <= s@.len(),
{
    let mut j = i;
    while j < s.len() && is_digit_x(s[j])
        invariant
            i <= j <= s@.len(),
            scan_digits(s@, i as int) == scan_digits(s@, j as int),
        decreases s@.len() - j,
    {
        j = j + 1;
    }
    j
}

fn chars_range_to_string(s: &Vec<char>, i: usize, j: usize) -> (r: String)
    requires
        i <= j <= s@.len(),
    ensures
        r@ == s@.subrange(i as int, j as int),
{
    let mut buf: Vec<char> = Vec::new();
    let mut q = i;
    while q < j
        invariant
            i <= q <= j <= s@.len(),
            buf@ == s@.subrange(i as int, q as int),
        decreases j - q,
    {
        buf.push(s[q]);
        proof {
            assert(s@.subrange(i as int, q + 1) =~= s@.subrange(i as int, q as int).push(
                s@[q as int],
            ));
        }
        q = q + 1;
    }
    chars_to_string(&buf)
}

fn x_num(s: &Vec<char>, i: usize) -> (r: Option<(Json, usize)>)
    requires
        i <= s@.len(),
    ensures
        match (r, p_num(s@, i as int)) {
            (Some((j, k)), Some((jv, kv))) => j@ == jv && k as int == kv && k <= s@.len(),
            (None, None) => true,
            _ => false,
        },
{
    if i >= s.len() {
        return None;
    }
    let neg = s[i] == '-';
    let j0 = if neg {
        i + 1
    } else {
        i
    };
    if j0 >= s.len() || !is_digit_x(s[j0]) {
        return None;
    }
    let j1 = x_scan_digits(s, j0);
    // fraction
    let j2 = if j1 < s.len() && s[j1] == '.' {
        if j1 + 1 < s.len() && is_digit_x(s[j1 + 1]) {
            x_scan_digits(s, j1 + 1)
        } else {
            return None;
        }
    } else {
        j1
    };
    // exponent
    let j3 = if j2 < s.len() && (s[j2] == 'e' || s[j2] == 'E') {
        let k = if j2 + 1 < s.len() && (s[j2 + 1] == '+' || s[j2 + 1] == '-') {
            j2 + 2
        } else {
            j2 + 1
        };
        if k < s.len() && is_digit_x(s[k]) {
            x_scan_digits(s, k)
        } else {
            return None;
        }
    } else {
        j2
    };
    if j3 == j1 {
        proof {
            lemma_scan_digits_bounds(s@, j0 as int);
            lemma_p_digits_block(s@, j0 + 1, j1 as int, digit_val(s@[j0 as int]));
            assert(blockval(0, s@, j0 as int, j1 as int) == blockval(
                digit_val(s@[j0 as int]),
                s@,
                j0 + 1,
                j1 as int,
            ));
        }
        let d0: u128 = (s[j0] as u32 - 48) as u128;
        match x_digits(s, j0 + 1, d0) {
            Some((m, _k)) => {
                if neg {
                    let n: i64 = if m == 0x8000_0000_0000_0000 {
                        i64::MIN
                    } else {
                        -(m as i64)
                    };
                    Some((Json::Int(n), j1))
                } else if m <= 0x7fff_ffff_ffff_ffff {
                    Some((Json::Int(m as i64), j1))
                } else {
                    Some((Json::Num(chars_range_to_string(s, i, j1)), j1))
                }
            },
            None => Some((Json::Num(chars_range_to_string(s, i, j1)), j1)),
        }
    } else {
        Some((Json::Num(chars_range_to_string(s, i, j3)), j3))
    }
}

/// Parses one JSON value beginning at `i`, allowing leading whitespace.
fn x_value(s: &Vec<char>, i: usize) -> (r: Option<(Json, usize)>)
    requires
        i <= s@.len(),
    ensures
        match (r, p_value(s@, i as int)) {
            (Some((j, k)), Some((jv, kv))) => j@ == jv && k as int == kv && i < k <= s@.len(),
            (None, None) => true,
            _ => false,
        },
    decreases s@.len() - i, 2int,
{
    proof {
        lemma_p_value_bounds(s@, i as int);
    }
    let j = x_skip_ws(s, i);
    if j >= s.len() {
        return None;
    }
    let c = s[j];
    if c == 'n' {
        if s.len() - j >= 4 && s[j + 1] == 'u' && s[j + 2] == 'l' && s[j + 3] == 'l' {
            Some((Json::Null, j + 4))
        } else {
            None
        }
    } else if c == 't' {
        if s.len() - j >= 4 && s[j + 1] == 'r' && s[j + 2] == 'u' && s[j + 3] == 'e' {
            Some((Json::Bool(true), j + 4))
        } else {
            None
        }
    } else if c == 'f' {
        if s.len() - j >= 5 && s[j + 1] == 'a' && s[j + 2] == 'l' && s[j + 3] == 's' && s[j + 4]
            == 'e' {
            Some((Json::Bool(false), j + 5))
        } else {
            None
        }
    } else if c == '"' {
        match x_string(s, j + 1) {
            Some((cs, k)) => Some((Json::Str(cs), k)),
            None => None,
        }
    } else if c == '[' {
        match x_elems(s, j + 1, true) {
            Some((es, k)) => Some((Json::Arr(es), k)),
            None => None,
        }
    } else if c == '{' {
        match x_members(s, j + 1, true) {
            Some((ms, k)) => Some((Json::Obj(ms), k)),
            None => None,
        }
    } else if c == '-' || is_digit_x(c) {
        x_num(s, j)
    } else {
        None
    }
}

fn x_elems(s: &Vec<char>, i: usize, allow_close: bool) -> (r: Option<(Vec<Json>, usize)>)
    requires
        i <= s@.len(),
    ensures
        match (r, p_elems(s@, i as int, allow_close)) {
            (Some((es, k)), Some((esv, kv))) => view_json_seq(es@) == esv && k as int == kv && i
                < k <= s@.len(),
            (None, None) => true,
            _ => false,
        },
    decreases s@.len() - i, 3int,
{
    proof {
        lemma_p_elems_bounds(s@, i as int, allow_close);
    }
    let j = x_skip_ws(s, i);
    if j >= s.len() {
        return None;
    }
    if s[j] == ']' && allow_close {
        let es: Vec<Json> = Vec::new();
        return Some((es, j + 1));
    }
    match x_value(s, j) {
        Some((v, k)) => {
            let j2 = x_skip_ws(s, k);
            if j2 >= s.len() {
                return None;
            }
            if s[j2] == ']' {
                let ghost vv = v@;
                let mut es: Vec<Json> = Vec::new();
                es.push(v);
                proof {
                    lemma_view_json_seq(es@);
                    assert(view_json_seq(es@) =~= seq![vv]);
                }
                Some((es, j2 + 1))
            } else if s[j2] == ',' {
                match x_elems(s, j2 + 1, false) {
                    Some((rest, k2)) => {
                        let ghost vv = v@;
                        let ghost restv = rest@;
                        let mut es: Vec<Json> = Vec::new();
                        es.push(v);
                        let mut rest = rest;
                        es.append(&mut rest);
                        proof {
                            lemma_view_json_seq(es@);
                            lemma_view_json_seq(restv);
                            assert(es@ =~= seq![es@[0]] + restv);
                            assert(view_json_seq(es@) =~= seq![vv] + view_json_seq(restv));
                        }
                        Some((es, k2))
                    },
                    None => None,
                }
            } else {
                None
            }
        },
        None => None,
    }
}

fn x_members(s: &Vec<char>, i: usize, allow_close: bool) -> (r: Option<
    (Vec<(String, Json)>, usize),
>)
    requires
        i <= s@.len(),
    ensures
        match (r, p_members(s@, i as int, allow_close)) {
            (Some((ms, k)), Some((msv, kv))) => view_json_pairs(ms@) == msv && k as int == kv && i
                < k <= s@.len(),
            (None, None) => true,
            _ => false,
        },
    decreases s@.len() - i, 3int,
{
    proof {
        lemma_p_members_bounds(s@, i as int, allow_close);
    }
    let j = x_skip_ws(s, i);
    if j >= s.len() {
        return None;
    }
    if s[j] == '}' && allow_close {
        let ms: Vec<(String, Json)> = Vec::new();
        return Some((ms, j + 1));
    }
    if s[j] != '"' {
        return None;
    }
    match x_string(s, j + 1) {
        Some((key, k)) => {
            let j2 = x_skip_ws(s, k);
            if j2 >= s.len() || s[j2] != ':' {
                return None;
            }
            match x_value(s, j2 + 1) {
                Some((v, k2)) => {
                    let j3 = x_skip_ws(s, k2);
                    if j3 >= s.len() {
                        return None;
                    }
                    if s[j3] == '}' {
                        let ghost kv0 = (key@, v@);
                        let mut ms: Vec<(String, Json)> = Vec::new();
                        ms.push((key, v));
                        proof {
                            lemma_view_json_pairs(ms@);
                            assert(view_json_pairs(ms@) =~= seq![kv0]);
                        }
                        Some((ms, j3 + 1))
                    } else if s[j3] == ',' {
                        match x_members(s, j3 + 1, false) {
                            Some((rest, k3)) => {
                                let ghost kv0 = (key@, v@);
                                let ghost restv = rest@;
                                let mut ms: Vec<(String, Json)> = Vec::new();
                                ms.push((key, v));
                                let mut rest = rest;
                                ms.append(&mut rest);
                                proof {
                                    lemma_view_json_pairs(ms@);
                                    lemma_view_json_pairs(restv);
                                    assert(ms@ =~= seq![ms@[0]] + restv);
                                    assert(view_json_pairs(ms@) =~= seq![kv0] + view_json_pairs(
                                        restv,
                                    ));
                                }
                                Some((ms, k3))
                            },
                            None => None,
                        }
                    } else {
                        None
                    }
                },
                None => None,
            }
        },
        None => None,
    }
}

/// Parses one whole JSON text.
pub fn parse_chars(s: &Vec<char>) -> (r: Option<Json>)
    ensures
        match (r, p_text(s@)) {
            (Some(j), Some(v)) => j@ == v,
            (None, None) => true,
            _ => false,
        },
{
    match x_value(s, 0) {
        Some((v, k)) => {
            let j = x_skip_ws(s, k);
            if j == s.len() {
                Some(v)
            } else {
                None
            }
        },
        None => None,
    }
}

/// Serializes a value as one JSON text.
pub fn to_chars(j: &Json) -> (out: Vec<char>)
    ensures
        out@ == ser(j@),
{
    let mut out: Vec<char> = Vec::new();
    write_json(j, &mut out);
    proof {
        assert(Seq::<char>::empty() + ser(j@) =~= ser(j@));
    }
    out
}

/// Character-by-character string equality, pinned to the views.
pub fn str_eq(a: &str, b: &str) -> (r: bool)
    ensures
        r == (a@ == b@),
{
    let na = a.unicode_len();
    let nb = b.unicode_len();
    if na != nb {
        proof {
            if a@ == b@ {
                assert(a@.len() == b@.len());
            }
        }
        return false;
    }
    let mut i: usize = 0;
    while i < na
        invariant
            i <= na,
            na == a@.len(),
            na == b@.len(),
            forall|q: int| 0 <= q < i ==> a@[q] == b@[q],
        decreases na - i,
    {
        if a.get_char(i) != b.get_char(i) {
            proof {
                if a@ == b@ {
                    assert(a@[i as int] == b@[i as int]);
                }
            }
            return false;
        }
        i = i + 1;
    }
    proof {
        assert(a@ =~= b@);
    }
    true
}

fn clone_json_vec(v: &Vec<Json>) -> (r: Vec<Json>)
    ensures
        view_json_seq(r@) == view_json_seq(v@),
    decreases v, 1int, 0int,
{
    let mut r: Vec<Json> = Vec::new();
    let mut i: usize = 0;
    while i < v.len()
        invariant
            i <= v@.len(),
            view_json_seq(r@) == view_json_seq(v@.take(i as int)),
        decreases v@.len() - i,
    {
        proof {
            assert(decreases_to!(v => v@[i as int]));
        }
        let ghost r0 = r@;
        let c = deep_clone_json(&v[i]);
        r.push(c);
        proof {
            lemma_view_json_seq(r@);
            lemma_view_json_seq(r0);
            lemma_view_json_seq(v@.take(i as int));
            lemma_view_json_seq(v@.take(i + 1));
            assert forall|q: int| 0 <= q < i + 1 implies view_json_seq(r@)[q] == view_json_seq(
                v@.take(i + 1),
            )[q] by {
                assert(v@.take(i + 1)[q] == v@[q]);
                assert(view_json_seq(v@.take(i + 1))[q] == view_json(v@.take(i + 1)[q]));
                if q < i {
                    assert(r@[q] == r0[q]);
                    assert(view_json_seq(r0)[q] == view_json(r0[q]));
                    assert(v@.take(i as int)[q] == v@[q]);
                    assert(view_json_seq(v@.take(i as int))[q] == view_json(
                        v@.take(i as int)[q],
                    ));
                } else {
                    assert(r@[q] == c);
                }
            }
            assert(view_json_seq(r@) =~= view_json_seq(v@.take(i + 1)));
        }
        i = i + 1;
    }
    proof {
        assert(v@.take(v@.len() as int) =~= v@);
    }
    r
}

fn clone_json_pairs(v: &Vec<(String, Json)>) -> (r: Vec<(String, Json)>)
    ensures
        view_json_pairs(r@) == view_json_pairs(v@),
    decreases v, 1int, 0int,
{
    let mut r: Vec<(String, Json)> = Vec::new();
    let mut i: usize = 0;
    while i < v.len()
        invariant
            i <= v@.len(),
            view_json_pairs(r@) == view_json_pairs(v@.take(i as int)),
        decreases v@.len() - i,
    {
        proof {
            assert(decreases_to!(v => v@[i as int].1));
        }
        let ghost r0 = r@;
        let k = v[i].0.clone();
        let c = deep_clone_json(&v[i].1);
        r.push((k, c));
        proof {
            lemma_view_json_pairs(r@);
            lemma_view_json_pairs(r0);
            lemma_view_json_pairs(v@.take(i as int));
            lemma_view_json_pairs(v@.take(i + 1));
            assert forall|q: int| 0 <= q < i + 1 implies view_json_pairs(r@)[q]
                == view_json_pairs(v@.take(i + 1))[q] by {
                assert(v@.take(i + 1)[q] == v@[q]);
                assert(view_json_pairs(v@.take(i + 1))[q] == (v@.take(i + 1)[q].0@, view_json(
                    v@.take(i + 1)[q].1,
                )));
                if q < i {
                    assert(r@[q] == r0[q]);
                    assert(view_json_pairs(r0)[q] == (r0[q].0@, view_json(r0[q].1)));
                    assert(v@.take(i as int)[q] == v@[q]);
                    assert(view_json_pairs(v@.take(i as int))[q] == (v@.take(i as int)[q].0@,
                        view_json(v@.take(i as int)[q].1)));
                } else {
                    assert(r@[q] == (k, c));
                }
            }
            assert(view_json_pairs(r@) =~= view_json_pairs(v@.take(i + 1)));
        }
        i = i + 1;
    }
    proof {
        assert(v@.take(v@.len() as int) =~= v@);
    }
    r
}

/// A structural copy whose mathematical value is the same.
pub fn deep_clone_json(j: &Json) -> (r: Json)
    ensures
        r@ == j@,
    decreases j, 0int, 0int,
{
    match j {
        Json::Null => Json::Null,
        Json::Bool(b) => Json::Bool(*b),
        Json::Int(n) => Json::Int(*n),
        Json::Num(s) => Json::Num(s.clone()),
        Json::Str(s) => Json::Str(s.clone()),
        Json::Arr(v) => Json::Arr(clone_json_vec(v)),
        Json::Obj(v) => Json::Obj(clone_json_pairs(v)),
    }
}

impl Clone for Json {
    /// A deep copy; the view is preserved.
    fn clone(&self) -> (r: Self)
        ensures
            r@ == self@,
    {
        deep_clone_json(self)
    }
}

pub proof fn lemma_ser_nat_digits(n: int)
    requires
        n >= 0,
    ensures
        ser_nat(n).len() >= 1,
        forall|q: int| 0 <= q < ser_nat(n).len() ==> is_digit(#[trigger] ser_nat(n)[q]),
    decreases n,
{
    if n < 10 {
        assert(is_digit(digit_char(n))) by {
            assert(48 <= 48 + n <= 57);
        }
    } else {
        lemma_ser_nat_digits(n / 10);
        assert(is_digit(digit_char(n % 10)));
        assert forall|q: int| 0 <= q < ser_nat(n).len() implies is_digit(
            #[trigger] ser_nat(n)[q],
        ) by {
            if q < ser_nat(n / 10).len() {
                assert(ser_nat(n)[q] == ser_nat(n / 10)[q]);
            } else {
                assert(ser_nat(n)[q] == digit_char(n % 10));
            }
        }
    }
}

/// The value of the digit block `s[i..j]` appended to digits already worth
/// `acc`.
pub open spec fn blockval(acc: int, s: Seq<char>, i: int, j: int) -> int
    decreases j - i,
{
    if i >= j {
        acc
    } else {
        blockval(acc * 10 + digit_val(s[i]), s, i + 1, j)
    }
}

pub proof fn lemma_blockval_snoc(acc: int, s: Seq<char>, i: int, j: int)
    requires
        i < j,
    ensures
        blockval(acc, s, i, j) == blockval(acc, s, i, j - 1) * 10 + digit_val(s[j - 1]),
    decreases j - i,
{
    if i + 1 < j {
        lemma_blockval_snoc(acc * 10 + digit_val(s[i]), s, i + 1, j);
        assert(blockval(acc, s, i, j - 1) == blockval(acc * 10 + digit_val(s[i]), s, i + 1, j - 1));
    } else {
        assert(blockval(acc, s, i, j) == blockval(acc * 10 + digit_val(s[i]), s, i + 1, j));
        assert(blockval(acc, s, i, j - 1) == acc);
    }
}

pub proof fn lemma_blockval_mono(acc: int, s: Seq<char>, i: int, j: int)
    requires
        acc >= 0,
        forall|q: int| i <= q < j ==> is_digit(#[trigger] s[q]),
    ensures
        blockval(acc, s, i, j) >= acc,
    decreases j - i,
{
    if i < j {
        lemma_blockval_mono(acc * 10 + digit_val(s[i]), s, i + 1, j);
    }
}

pub proof fn lemma_p_digits_block(s: Seq<char>, i: int, j: int, acc: int)
    requires
        0 <= i <= j <= s.len(),
        forall|q: int| i <= q < j ==> is_digit(#[trigger] s[q]),
        j == s.len() || !is_digit(s[j]),
        acc >= 0,
    ensures
        blockval(acc, s, i, j) <= 0x8000_0000_0000_0000 ==> p_digits(s, i, acc) == Some(
            (blockval(acc, s, i, j), j),
        ),
        blockval(acc, s, i, j) > 0x8000_0000_0000_0000 ==> p_digits(s, i, acc) is None,
    decreases j - i,
{
    if acc > 0x8000_0000_0000_0000 {
        lemma_blockval_mono(acc, s, i, j);
    } else if i < j {
        lemma_p_digits_block(s, i + 1, j, acc * 10 + digit_val(s[i]));
    }
}

pub proof fn lemma_blockval_ser_nat(n: int, s: Seq<char>, i: int)
    requires
        n >= 0,
        0 <= i,
        i + ser_nat(n).len() <= s.len(),
        forall|q: int| 0 <= q < ser_nat(n).len() ==> s[i + q] == #[trigger] ser_nat(n)[q],
    ensures
        blockval(0, s, i, i + ser_nat(n).len()) == n,
    decreases n,
{
    let len = ser_nat(n).len() as int;
    if n < 10 {
        assert(s[i + 0] == ser_nat(n)[0]);
        assert(ser_nat(n)[0] == digit_char(n));
        assert(digit_val(digit_char(n)) == n);
        assert(blockval(0, s, i, i + 1) == blockval(digit_val(s[i]), s, i + 1, i + 1));
    } else {
        let plen = ser_nat(n / 10).len() as int;
        lemma_ser_nat_digits(n / 10);
        assert(len == plen + 1);
        assert forall|q: int| 0 <= q < plen implies s[i + q] == #[trigger] ser_nat(n / 10)[q] by {
            assert(s[i + q] == ser_nat(n)[q]);
            assert(ser_nat(n)[q] == ser_nat(n / 10)[q]);
        }
        lemma_blockval_ser_nat(n / 10, s, i);
        lemma_blockval_snoc(0, s, i, i + len);
        assert(s[i + (len - 1)] == ser_nat(n)[len - 1]);
        assert(ser_nat(n)[len - 1] == digit_char(n % 10));
        assert(digit_val(digit_char(n % 10)) == n % 10);
        assert(blockval(0, s, i, i + len) == blockval(0, s, i, i + len - 1) * 10 + digit_val(
            s[i + len - 1],
        ));
    }
}

/// A character's code point is in the range Rust guarantees.
pub proof fn lemma_char_bounds(c: char)
    ensures
        0 <= c as int <= 0x10FFFF,
{
}

/// Characters that can open a serialized value.
pub open spec fn is_value_start(c: char) -> bool {
    c == 'n' || c == 't' || c == 'f' || c == '"' || c == '[' || c == '{' || c == '-' || is_digit(c)
}

/// A character that would extend a number token if it followed one.
pub open spec fn num_extender(c: char) -> bool {
    is_digit(c) || c == '.' || c == 'e' || c == 'E'
}

proof fn lemma_scan_digits_shift(lex: Seq<char>, s: Seq<char>, i: int, q: int)
    requires
        seq_at(s, i, lex),
        0 <= q <= lex.len(),
        i + lex.len() == s.len() || !is_digit(s[i + lex.len()]),
    ensures
        scan_digits(s, i + q) == i + scan_digits(lex, q),
    decreases lex.len() - q,
{
    if q < lex.len() {
        assert(s[i + q] == lex[q]);
        if is_digit(lex[q]) {
            lemma_scan_digits_shift(lex, s, i, q + 1);
            assert(scan_digits(s, i + q) == scan_digits(s, i + (q + 1)));
        }
    }
}

proof fn lemma_blockval_shift(lex: Seq<char>, s: Seq<char>, i: int, a: int, b: int, acc: int)
    requires
        seq_at(s, i, lex),
        0 <= a <= b <= lex.len(),
    ensures
        blockval(acc, s, i + a, i + b) == blockval(acc, lex, a, b),
    decreases b - a,
{
    if a < b {
        assert(s[i + a] == lex[a]);
        lemma_blockval_shift(lex, s, i, a + 1, b, acc * 10 + digit_val(lex[a]));
        assert(blockval(acc, s, i + a, i + b) == blockval(
            acc * 10 + digit_val(lex[a]),
            s,
            i + (a + 1),
            i + b,
        ));
    }
}

/// A well-formed kept spelling, placed in a larger text with nothing after
/// it that could extend the token, reads back as itself.
proof fn lemma_p_num_lexeme(lex: Seq<char>, s: Seq<char>, i: int)
    requires
        num_lexeme_wf(lex),
        seq_at(s, i, lex),
        i + lex.len() == s.len() || !num_extender(s[i + lex.len()]),
    ensures
        p_num(s, i) == Some((JsonV::Num(lex), i + lex.len())),
{
    let L = lex.len() as int;
    let neg = lex[0] == '-';
    let j0l: int = if neg {
        1
    } else {
        0
    };
    assert(j0l < L && is_digit(lex[j0l]));
    lemma_scan_digits_bounds(lex, j0l);
    let j1l = scan_digits(lex, j0l);
    let j2l = frac_end(lex, j1l);
    let j3l = exp_end(lex, j2l);
    assert(j2l >= 0 && j3l == L);
    assert(s[i + 0] == lex[0]);
    assert(s[i + j0l] == lex[j0l]);
    assert(i + L == s.len() || !is_digit(s[i + L]));
    lemma_scan_digits_shift(lex, s, i, j0l);
    assert(scan_digits(s, i + j0l) == i + j1l);
    // the fraction part lines up
    if j1l < L {
        assert(s[i + j1l] == lex[j1l]);
        if lex[j1l] == '.' {
            assert(j1l + 1 < L && is_digit(lex[j1l + 1]));
            assert(s[i + (j1l + 1)] == lex[j1l + 1]);
            lemma_scan_digits_shift(lex, s, i, j1l + 1);
            assert(frac_end(s, i + j1l) == i + j2l);
        } else {
            assert(j2l == j1l);
            assert(frac_end(s, i + j1l) == i + j1l);
        }
    } else {
        assert(j2l == j1l);
        assert(i + L == s.len() || s[i + L] != '.');
        assert(frac_end(s, i + L) == i + L);
    }
    // the exponent part lines up
    if j2l < L {
        assert(s[i + j2l] == lex[j2l]);
        if lex[j2l] == 'e' || lex[j2l] == 'E' {
            let kl: int = if j2l + 1 < L && (lex[j2l + 1] == '+' || lex[j2l + 1] == '-') {
                j2l + 2
            } else {
                j2l + 1
            };
            assert(kl < L && is_digit(lex[kl]));
            if j2l + 1 < L {
                assert(s[i + (j2l + 1)] == lex[j2l + 1]);
            }
            assert(s[i + kl] == lex[kl]);
            lemma_scan_digits_shift(lex, s, i, kl);
            assert(exp_end(s, i + j2l) == i + j3l);
        } else {
            assert(j3l == j2l);
            assert(exp_end(s, i + j2l) == i + j2l);
        }
    } else {
        assert(j2l == L && j3l == L);
        assert(i + L == s.len() || (s[i + L] != 'e' && s[i + L] != 'E'));
        assert(exp_end(s, i + L) == i + L);
    }
    if j3l == j1l {
        lemma_blockval_shift(lex, s, i, j0l, j1l, 0);
        assert(s.subrange(i, i + j1l) =~= lex);
        assert(p_num(s, i) == Some((JsonV::Num(lex), i + L)));
    } else {
        assert(s.subrange(i, i + j3l) =~= lex);
        assert(p_num(s, i) == Some((JsonV::Num(lex), i + L)));
    }
}

pub proof fn lemma_ser_first_char(v: JsonV)
    requires
        v.nums_wf(),
    ensures
        ser(v).len() >= 1,
        is_value_start(ser(v)[0]),
    decreases v,
{
    match v {
        JsonV::Int(n) => {
            if n < 0 {
                assert(ser(v)[0] == '-');
            } else {
                lemma_ser_nat_digits(n);
                assert(ser(v)[0] == ser_nat(n)[0]);
            }
        },
        JsonV::Num(lex) => {
            assert(ser(v) == lex);
            if lex[0] != '-' {
                assert(is_digit(lex[0]));
            }
        },
        _ => {},
    }
}

/// A block `t` sits in `s` at `i`, character for character.
pub open spec fn seq_at(s: Seq<char>, i: int, t: Seq<char>) -> bool {
    &&& 0 <= i
    &&& i + t.len() <= s.len()
    &&& forall|q: int| 0 <= q < t.len() ==> s[i + q] == #[trigger] t[q]
}

pub proof fn lemma_seq_at_shift(s: Seq<char>, i: int, a: Seq<char>, b: Seq<char>, off: int)
    requires
        seq_at(s, i, a),
        0 <= off,
        off + b.len() <= a.len(),
        forall|q: int| 0 <= q < b.len() ==> a[off + q] == #[trigger] b[q],
    ensures
        seq_at(s, i + off, b),
{
    assert forall|q: int| 0 <= q < b.len() implies s[i + off + q] == #[trigger] b[q] by {
        assert(s[i + (off + q)] == a[off + q]);
    }
}

/// Parsing what the serializer wrote for a string body, from just after the
/// opening quote, yields the original characters and stops at the closing
/// quote.
pub proof fn lemma_p_string_ser(cs: Seq<char>, s: Seq<char>, i: int)
    requires
        seq_at(s, i, ser_str_body(cs)),
        i + ser_str_body(cs).len() < s.len(),
        s[i + ser_str_body(cs).len()] == '"',
    ensures
        p_string(s, i) == Some((cs, i + ser_str_body(cs).len() + 1)),
    decreases cs.len(),
{
    let body = ser_str_body(cs);
    if cs.len() == 0 {
        assert(body.len() == 0);
        assert(s[i] == '"');
        assert(cs =~= Seq::<char>::empty());
    } else {
        let c0 = cs[0];
        let e = esc(c0);
        let rest = ser_str_body(cs.drop_first());
        assert(body == e + rest);
        assert forall|q: int| 0 <= q < e.len() implies s[i + q] == e[q] by {
            assert(s[i + q] == body[q]);
        }
        lemma_seq_at_shift(s, i, body, rest, e.len() as int);
        assert(s[(i + e.len()) + rest.len()] == '"') by {
            assert(i + e.len() + rest.len() == i + body.len());
        }
        lemma_p_string_ser(cs.drop_first(), s, i + e.len());
        if c0 == '"' {
            assert(s[i + 0] == '\\' && s[i + 1] == '"');
            assert(p_escape(s, i + 1) == Some(('"', i + 2)));
            assert(seq!['"'] + cs.drop_first() =~= cs);
        } else if c0 == '\\' {
            assert(s[i + 0] == '\\' && s[i + 1] == '\\');
            assert(p_escape(s, i + 1) == Some(('\\', i + 2)));
            assert(seq!['\\'] + cs.drop_first() =~= cs);
        } else if (c0 as int) < 32 {
            let hi = c0 as int / 16;
            let lo = c0 as int % 16;
            lemma_char_bounds(c0);
            assert(0 <= hi < 2 && 0 <= lo < 16);
            assert(s[i + 0] == '\\' && s[i + 1] == 'u' && s[i + 2] == '0' && s[i + 3] == '0' && s[i
                + 4] == hex_char(hi) && s[i + 5] == hex_char(lo));
            assert(is_hex('0') && hex_val('0') == 0);
            assert(is_hex(hex_char(hi)) && hex_val(hex_char(hi)) == hi) by {
                if hi < 10 {
                    assert(48 <= 48 + hi <= 57);
                } else {
                    assert(97 <= 87 + hi <= 102);
                }
            }
            assert(is_hex(hex_char(lo)) && hex_val(hex_char(lo)) == lo) by {
                if lo < 10 {
                    assert(48 <= 48 + lo <= 57);
                } else {
                    assert(97 <= 87 + lo <= 102);
                }
            }
            let code = hex_val(s[i + 2]) * 4096 + hex_val(s[i + 3]) * 256 + hex_val(s[i + 4]) * 16
                + hex_val(s[i + 5]);
            assert(code == c0 as int);
            assert(code <= 255);
            assert((code as char) == c0);
            assert(p_escape(s, i + 1) == Some((c0, i + 6)));
            assert(seq![c0] + cs.drop_first() =~= cs);
        } else {
            assert(e == seq![c0]);
            assert(e[0] == c0);
            assert(s[i + 0] == e[0]);
            assert(c0 != '"' && c0 != '\\');
            assert(seq![c0] + cs.drop_first() =~= cs);
        }
    }
}

proof fn lemma_value_start_not_delim(c: char)
    requires
        is_value_start(c),
    ensures
        !is_ws(c),
        c != ']',
        c != '}',
        c != ',',
        c != ':',
{
}

/// After the serializer's output for `v` at `i`, with nothing following
/// that could extend a number token, the parser reads back exactly `v` and
/// stops exactly at the end.
pub proof fn lemma_p_value_ser(v: JsonV, s: Seq<char>, i: int)
    requires
        v.nums_wf(),
        seq_at(s, i, ser(v)),
        i + ser(v).len() == s.len() || !num_extender(s[i + ser(v).len()]),
    ensures
        p_value(s, i) == Some((v, i + ser(v).len())),
    decreases v, 1int,
{
    let t = ser(v);
    assert(s[i + 0] == t[0]);
    lemma_ser_first_char(v);
    lemma_value_start_not_delim(t[0]);
    assert(skip_ws(s, i) == i);
    match v {
        JsonV::Null => {
            assert(s[i + 1] == t[1] && s[i + 2] == t[2] && s[i + 3] == t[3]);
        },
        JsonV::Bool(b) => {
            if b {
                assert(s[i + 1] == t[1] && s[i + 2] == t[2] && s[i + 3] == t[3]);
            } else {
                assert(s[i + 1] == t[1] && s[i + 2] == t[2] && s[i + 3] == t[3] && s[i + 4]
                    == t[4]);
            }
        },
        JsonV::Int(n) => {
            let m = if n < 0 {
                -n
            } else {
                n
            };
            let off = if n < 0 {
                1int
            } else {
                0int
            };
            let dl = ser_nat(m).len() as int;
            let j0 = i + off;
            let end = i + t.len();
            lemma_ser_nat_digits(m);
            assert forall|q: int| 0 <= q < dl implies s[j0 + q] == #[trigger] ser_nat(m)[q] by {
                assert(s[i + (off + q)] == t[off + q]);
                if n < 0 {
                    assert(t[off + q] == ser_nat(m)[q]);
                }
            }
            lemma_blockval_ser_nat(m, s, j0);
            assert(s[j0 + 0] == ser_nat(m)[0]);
            assert(is_digit(s[j0]));
            assert(end == j0 + dl);
            assert forall|q: int| j0 <= q < end implies is_digit(#[trigger] s[q]) by {
                assert(s[j0 + (q - j0)] == ser_nat(m)[q - j0]);
                assert(is_digit(ser_nat(m)[q - j0]));
            }
            assert(end == s.len() || !is_digit(s[end]));
            lemma_scan_digits_exact(s, j0, end);
            assert(end == s.len() || s[end] != '.');
            assert(frac_end(s, end) == end);
            assert(end == s.len() || (s[end] != 'e' && s[end] != 'E'));
            assert(exp_end(s, end) == end);
            assert(blockval(0, s, j0, end) == m);
            if n < 0 {
                assert(t[0] == '-');
                assert(s[i] == '-');
                assert(m <= 0x8000_0000_0000_0000);
                assert(p_num(s, i) == Some((JsonV::Int(n), end)));
            } else {
                assert(is_digit(s[i]));
                assert(s[i] != '-') by {
                    assert(45 < 48);
                }
                assert(m <= 0x7fff_ffff_ffff_ffff);
                assert(p_num(s, i) == Some((JsonV::Int(n), end)));
            }
        },
        JsonV::Num(lex) => {
            assert(t == lex);
            assert forall|q: int| 0 <= q < lex.len() implies s[i + q] == #[trigger] lex[q] by {
                assert(s[i + q] == t[q]);
            }
            lemma_p_num_lexeme(lex, s, i);
        },
        JsonV::Str(cs) => {
            let body = ser_str_body(cs);
            assert(t == seq!['"'] + body + seq!['"']);
            assert(t[0] == '"');
            assert forall|q: int| 0 <= q < body.len() implies s[i + 1 + q]
                == #[trigger] body[q] by {
                assert(s[i + (1 + q)] == t[1 + q]);
            }
            assert(s[i + (1 + body.len())] == t[1 + body.len() as int]);
            assert(t[1 + body.len() as int] == '"');
            lemma_p_string_ser(cs, s, i + 1);
            assert(p_string(s, i + 1) == Some((cs, i + t.len())));
        },
        JsonV::Arr(es) => {
            let inner = ser_elems(es);
            assert(t == seq!['['] + inner + seq![']']);
            assert(t[0] == '[');
            assert forall|q: int| 0 <= q < inner.len() implies s[i + 1 + q]
                == #[trigger] inner[q] by {
                assert(s[i + (1 + q)] == t[1 + q]);
            }
            assert(s[i + (1 + inner.len())] == t[1 + inner.len() as int]);
            assert(t[1 + inner.len() as int] == ']');
            assert(nums_wf_seq(es));
            lemma_p_elems_ser(es, s, i + 1, true);
            assert(p_elems(s, i + 1, true) == Some((es, i + t.len())));
        },
        JsonV::Obj(ms) => {
            let inner = ser_members(ms);
            assert(t == seq!['{'] + inner + seq!['}']);
            assert(t[0] == '{');
            assert forall|q: int| 0 <= q < inner.len() implies s[i + 1 + q]
                == #[trigger] inner[q] by {
                assert(s[i + (1 + q)] == t[1 + q]);
            }
            assert(s[i + (1 + inner.len())] == t[1 + inner.len() as int]);
            assert(t[1 + inner.len() as int] == '}');
            assert(nums_wf_pairs(ms));
            lemma_p_members_ser(ms, s, i + 1, true);
            assert(p_members(s, i + 1, true) == Some((ms, i + t.len())));
        },
    }
}

proof fn lemma_p_elems_ser(es: Seq<JsonV>, s: Seq<char>, i: int, allow_close: bool)
    requires
        nums_wf_seq(es),
        seq_at(s, i, ser_elems(es)),
        i + ser_elems(es).len() < s.len(),
        s[i + ser_elems(es).len()] == ']',
        es.len() == 0 ==> allow_close,
    ensures
        p_elems(s, i, allow_close) == Some((es, i + ser_elems(es).len() + 1)),
    decreases es, 0int,
{
    let t = ser_elems(es);
    if es.len() == 0 {
        assert(s[i] == ']');
        assert(skip_ws(s, i) == i);
        assert(es =~= Seq::<JsonV>::empty());
    } else {
        let e0 = es[0];
        let t0 = ser(e0);
        assert(e0.nums_wf() && nums_wf_seq(es.drop_first()));
        lemma_ser_first_char(e0);
        assert forall|q: int| 0 <= q < t0.len() implies s[i + q] == #[trigger] t0[q] by {
            assert(s[i + q] == t[q]);
            assert(t[q] == t0[q]);
        }
        assert(s[i + 0] == t0[0]);
        lemma_value_start_not_delim(t0[0]);
        assert(skip_ws(s, i) == i);
        assert(s[i] != ']');
        let k = i + t0.len();
        if es.len() == 1 {
            assert(i + t0.len() == i + t.len());
            assert(s[k] == ']');
            assert(!num_extender(']'));
            lemma_p_value_ser(e0, s, i);
            assert(skip_ws(s, k) == k);
            assert(seq![e0] =~= es);
        } else {
            let rest = es.drop_first();
            let tr = ser_elems(rest);
            assert(t == t0 + seq![','] + tr);
            assert(t[t0.len() as int] == ',');
            assert(s[i + t0.len()] == t[t0.len() as int]);
            assert(s[k] == ',');
            assert(!num_extender(','));
            lemma_p_value_ser(e0, s, i);
            assert(skip_ws(s, k) == k);
            assert(s[k] != ']');
            assert forall|q: int| 0 <= q < tr.len() implies s[k + 1 + q] == #[trigger] tr[q] by {
                assert(s[i + (t0.len() + 1 + q)] == t[t0.len() + 1 + q]);
                assert(t[t0.len() + 1 + q] == tr[q]);
            }
            assert((k + 1) + tr.len() == i + t.len());
            assert(s[(k + 1) + tr.len()] == ']');
            assert(rest.len() > 0);
            lemma_p_elems_ser(rest, s, k + 1, false);
            assert(seq![e0] + rest =~= es);
        }
    }
}

proof fn lemma_p_members_ser(ms: Seq<(Seq<char>, JsonV)>, s: Seq<char>, i: int, allow_close: bool)
    requires
        nums_wf_pairs(ms),
        seq_at(s, i, ser_members(ms)),
        i + ser_members(ms).len() < s.len(),
        s[i + ser_members(ms).len()] == '}',
        ms.len() == 0 ==> allow_close,
    ensures
        p_members(s, i, allow_close) == Some((ms, i + ser_members(ms).len() + 1)),
    decreases ms, 0int,
{
    let t = ser_members(ms);
    if ms.len() == 0 {
        assert(s[i] == '}');
        assert(skip_ws(s, i) == i);
        assert(ms =~= Seq::<(Seq<char>, JsonV)>::empty());
    } else {
        let m0 = ms[0];
        let t0 = ser_member(m0);
        let key = m0.0;
        let body = ser_str_body(key);
        let tv = ser(m0.1);
        assert(m0.1.nums_wf() && nums_wf_pairs(ms.drop_first()));
        assert(t0 == seq!['"'] + body + seq!['"', ':'] + tv);
        assert forall|q: int| 0 <= q < t0.len() implies s[i + q] == #[trigger] t0[q] by {
            assert(s[i + q] == t[q]);
            assert(t[q] == t0[q]);
        }
        assert(s[i + 0] == t0[0]);
        assert(t0[0] == '"');
        assert(skip_ws(s, i) == i);
        assert forall|q: int| 0 <= q < body.len() implies s[i + 1 + q] == #[trigger] body[q] by {
            assert(s[i + (1 + q)] == t0[1 + q]);
            assert(t0[1 + q] == body[q]);
        }
        let bq = i + 1 + body.len();
        assert(s[i + (1 + body.len())] == t0[1 + body.len() as int]);
        assert(t0[1 + body.len() as int] == '"');
        lemma_p_string_ser(key, s, i + 1);
        assert(p_string(s, i + 1) == Some((key, bq + 1)));
        assert(s[i + (2 + body.len())] == t0[2 + body.len() as int]);
        assert(t0[2 + body.len() as int] == ':');
        assert(s[bq + 1] == ':');
        assert(!is_ws(':'));
        assert(skip_ws(s, bq + 1) == bq + 1);
        let vstart = bq + 2;
        assert forall|q: int| 0 <= q < tv.len() implies s[vstart + q] == #[trigger] tv[q] by {
            assert(s[i + (3 + body.len() + q)] == t0[3 + body.len() + q]);
            assert(t0[3 + body.len() + q] == tv[q]);
        }
        let k2 = vstart + tv.len();
        assert(k2 == i + t0.len());
        if ms.len() == 1 {
            assert(i + t0.len() == i + t.len());
            assert(s[k2] == '}');
            assert(!num_extender('}'));
            lemma_p_value_ser(m0.1, s, vstart);
            assert(skip_ws(s, k2) == k2);
            assert(seq![m0] =~= ms);
        } else {
            let rest = ms.drop_first();
            let tr = ser_members(rest);
            assert(t == t0 + seq![','] + tr);
            assert(t[t0.len() as int] == ',');
            assert(s[i + t0.len()] == t[t0.len() as int]);
            assert(s[k2] == ',');
            assert(!num_extender(','));
            lemma_p_value_ser(m0.1, s, vstart);
            assert(skip_ws(s, k2) == k2);
            assert(s[k2] != '}');
            assert forall|q: int| 0 <= q < tr.len() implies s[k2 + 1 + q] == #[trigger] tr[q] by {
                assert(s[i + (t0.len() + 1 + q)] == t[t0.len() + 1 + q]);
                assert(t[t0.len() + 1 + q] == tr[q]);
            }
            assert((k2 + 1) + tr.len() == i + t.len());
            assert(s[(k2 + 1) + tr.len()] == '}');
            assert(rest.len() > 0);
            lemma_p_members_ser(rest, s, k2 + 1, false);
            assert(seq![m0] + rest =~= ms);
        }
    }
}

/// Serializing any value and parsing the text back yields that value: the
/// codec round-trips, for every value whose numbers are well formed —
/// integers 64-bit, kept spellings complete non-integer tokens, which is
/// exactly the split the parser itself produces.
pub proof fn lemma_text_round_trip(v: JsonV)
    requires
        v.nums_wf(),
    ensures
        p_text(ser(v)) == Some(v),
{
    let s = ser(v);
    assert(seq_at(s, 0, s));
    lemma_p_value_ser(v, s, 0);
    assert(skip_ws(s, s.len() as int) == s.len());
}

} // verus!
