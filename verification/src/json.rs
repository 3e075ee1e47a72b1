//! The JSON wire format of the template API, modelled and implemented here so
//! that every byte the client emits or accepts is covered by a contract.
//!
//! The document model is deliberately no wider than the API's own shapes:
//! values are null, booleans, unsigned 32-bit integers, strings, arrays and
//! objects. Numbers with a sign, a fraction, an exponent or a leading zero,
//! and numbers beyond the unsigned 32-bit range, are rejected by the parser;
//! the API's numeric fields (`active`, `user_id`) are all small non-negative
//! integers.

use vstd::prelude::*;

verus! {

use vstd::string::StringExecFns;

/// The mathematical model of a JSON document.
pub enum SpecJson {
    Null,
    Bool(bool),
    UInt(u32),
    Str(Seq<char>),
    Arr(Seq<SpecJson>),
    Obj(Seq<(Seq<char>, SpecJson)>),
}

/// An in-memory JSON document, viewed as a [`SpecJson`].
pub enum JsonValue {
    Null,
    Bool(bool),
    UInt(u32),
    Str(String),
    Arr(Vec<JsonValue>),
    Obj(Vec<(String, JsonValue)>),
}

/// The model of an in-memory document.
pub open spec fn jv_view(v: JsonValue) -> SpecJson
    decreases v,
    via jv_view_via
{
    match v {
        JsonValue::Null => SpecJson::Null,
        JsonValue::Bool(b) => SpecJson::Bool(b),
        JsonValue::UInt(n) => SpecJson::UInt(n),
        JsonValue::Str(s) => SpecJson::Str(s@),
        JsonValue::Arr(els) => SpecJson::Arr(jv_view_list(els@)),
        JsonValue::Obj(ms) => SpecJson::Obj(jv_view_members(ms@)),
    }
}

/// The models of a list of in-memory documents, in order.
pub open spec fn jv_view_list(els: Seq<JsonValue>) -> Seq<SpecJson>
    decreases els,
{
    if els.len() == 0 {
        Seq::empty()
    } else {
        seq![jv_view(els[0])] + jv_view_list(els.drop_first())
    }
}

/// The models of a list of in-memory object members, in order.
pub open spec fn jv_view_members(ms: Seq<(String, JsonValue)>) -> Seq<(Seq<char>, SpecJson)>
    decreases ms,
    via jv_view_members_via
{
    if ms.len() == 0 {
        Seq::empty()
    } else {
        seq![(ms[0].0@, jv_view(ms[0].1))] + jv_view_members(ms.drop_first())
    }
}

#[via_fn]
proof fn jv_view_via(v: JsonValue) {
    match v {
        JsonValue::Arr(els) => {
            assert(decreases_to!(els => els@));
        }
        JsonValue::Obj(ms) => {
            assert(decreases_to!(ms => ms@));
        }
        _ => {}
    }
}

#[via_fn]
proof fn jv_view_members_via(ms: Seq<(String, JsonValue)>) {
    if ms.len() > 0 {
        assert(decreases_to!(ms => ms[0]));
    }
}

impl View for JsonValue {
    type V = SpecJson;

    open spec fn view(&self) -> SpecJson {
        jv_view(*self)
    }
}

/// The digit character for a value below 16, lower case as the serializer
/// emits it.
pub open spec fn hex_digit(n: int) -> char {
    if n == 0 { '0' }
    else if n == 1 { '1' }
    else if n == 2 { '2' }
    else if n == 3 { '3' }
    else if n == 4 { '4' }
    else if n == 5 { '5' }
    else if n == 6 { '6' }
    else if n == 7 { '7' }
    else if n == 8 { '8' }
    else if n == 9 { '9' }
    else if n == 10 { 'a' }
    else if n == 11 { 'b' }
    else if n == 12 { 'c' }
    else if n == 13 { 'd' }
    else if n == 14 { 'e' }
    else { 'f' }
}

/// The numeric value of a hexadecimal digit character, either case; -1 for
/// any other character.
pub open spec fn hex_val(c: char) -> int {
    if c == '0' { 0 }
    else if c == '1' { 1 }
    else if c == '2' { 2 }
    else if c == '3' { 3 }
    else if c == '4' { 4 }
    else if c == '5' { 5 }
    else if c == '6' { 6 }
    else if c == '7' { 7 }
    else if c == '8' { 8 }
    else if c == '9' { 9 }
    else if c == 'a' || c == 'A' { 10 }
    else if c == 'b' || c == 'B' { 11 }
    else if c == 'c' || c == 'C' { 12 }
    else if c == 'd' || c == 'D' { 13 }
    else if c == 'e' || c == 'E' { 14 }
    else if c == 'f' || c == 'F' { 15 }
    else { -1 }
}

/// How one character appears inside a serialized JSON string: the two-character
/// short escapes of the JSON grammar, a `\u00..` escape for the remaining
/// control characters, and the character itself otherwise.
pub open spec fn escape_char(c: char) -> Seq<char> {
    if c == '"' { seq!['\\', '"'] }
    else if c == '\\' { seq!['\\', '\\'] }
    else if c == '\u{8}' { seq!['\\', 'b'] }
    else if c == '\u{c}' { seq!['\\', 'f'] }
    else if c == '\n' { seq!['\\', 'n'] }
    else if c == '\r' { seq!['\\', 'r'] }
    else if c == '\t' { seq!['\\', 't'] }
    else if (c as u32) < 0x20 {
        seq!['\\', 'u', '0', '0', hex_digit((c as u32 / 16) as int), hex_digit((c as u32 % 16) as int)]
    } else {
        seq![c]
    }
}

/// The body of a serialized JSON string: each character escaped as needed.
pub open spec fn escape(s: Seq<char>) -> Seq<char>
    decreases s.len(),
{
    if s.len() == 0 {
        Seq::empty()
    } else {
        escape_char(s[0]) + escape(s.drop_first())
    }
}

/// The shortest decimal form of a non-negative number.
pub open spec fn dec_of(n: nat) -> Seq<char>
    decreases n,
{
    if n < 10 {
        seq![hex_digit(n as int)]
    } else {
        dec_of(n / 10).push(hex_digit((n % 10) as int))
    }
}

/// The serialized form of a document: no whitespace, object members and array
/// elements in order, separated by single commas.
pub open spec fn jser(j: SpecJson) -> Seq<char>
    decreases j, 0int,
{
    match j {
        SpecJson::Null => "null"@,
        SpecJson::Bool(b) => if b { "true"@ } else { "false"@ },
        SpecJson::UInt(n) => dec_of(n as nat),
        SpecJson::Str(s) => seq!['"'] + escape(s) + seq!['"'],
        SpecJson::Arr(els) => seq!['['] + jser_elems(els) + seq![']'],
        SpecJson::Obj(ms) => seq!['{'] + jser_members(ms) + seq!['}'],
    }
}

/// The serialized elements of an array, comma separated.
pub open spec fn jser_elems(els: Seq<SpecJson>) -> Seq<char>
    decreases els, 1int,
{
    if els.len() == 0 {
        Seq::empty()
    } else if els.len() == 1 {
        jser(els[0])
    } else {
        jser(els[0]) + seq![','] + jser_elems(els.drop_first())
    }
}

/// The serialized members of an object: `"key":value`, comma separated.
pub open spec fn jser_members(ms: Seq<(Seq<char>, SpecJson)>) -> Seq<char>
    decreases ms, 1int,
{
    if ms.len() == 0 {
        Seq::empty()
    } else {
        let one = seq!['"'] + escape(ms[0].0) + seq!['"', ':'] + jser(ms[0].1);
        if ms.len() == 1 {
            one
        } else {
            one + seq![','] + jser_members(ms.drop_first())
        }
    }
}

/// JSON whitespace.
pub open spec fn is_ws(c: char) -> bool {
    c == ' ' || c == '\t' || c == '\n' || c == '\r'
}

/// A decimal digit.
pub open spec fn is_digit(c: char) -> bool {
    0 <= hex_val(c) && hex_val(c) <= 9
}

/// The input with its leading whitespace removed.
pub open spec fn skip_ws(s: Seq<char>) -> Seq<char>
    decreases s.len(),
{
    if s.len() > 0 && is_ws(s[0]) {
        skip_ws(s.drop_first())
    } else {
        s
    }
}

/// The character a two-character short escape stands for; the escapes are
/// exactly those of the JSON grammar.
pub open spec fn short_escape(e: char) -> Option<char> {
    if e == '"' { Some('"') }
    else if e == '\\' { Some('\\') }
    else if e == '/' { Some('/') }
    else if e == 'b' { Some('\u{8}') }
    else if e == 'f' { Some('\u{c}') }
    else if e == 'n' { Some('\n') }
    else if e == 'r' { Some('\r') }
    else if e == 't' { Some('\t') }
    else { None }
}

/// The value of four hexadecimal digit characters, or -1 if one is not a
/// hexadecimal digit.
pub open spec fn hex4(a: char, b: char, c: char, d: char) -> int {
    if hex_val(a) < 0 || hex_val(b) < 0 || hex_val(c) < 0 || hex_val(d) < 0 {
        -1
    } else {
        hex_val(a) * 0x1000 + hex_val(b) * 0x100 + hex_val(c) * 0x10 + hex_val(d)
    }
}

/// Parse the body of a string, after its opening quote: the decoded characters
/// and the input after the closing quote. Unescaped control characters,
/// malformed escapes, lone surrogates and a missing closing quote are errors.
pub open spec fn sp_str_body(s: Seq<char>) -> Option<(Seq<char>, Seq<char>)>
    decreases s.len(),
{
    if s.len() == 0 {
        None
    } else if s[0] == '"' {
        Some((Seq::empty(), s.drop_first()))
    } else if s[0] == '\\' {
        if s.len() < 2 {
            None
        } else if s[1] == 'u' {
            if s.len() < 6 {
                None
            } else {
                let h = hex4(s[2], s[3], s[4], s[5]);
                if h < 0 {
                    None
                } else if 0xD800 <= h < 0xDC00 {
                    if s.len() < 12 || s[6] != '\\' || s[7] != 'u' {
                        None
                    } else {
                        let l = hex4(s[8], s[9], s[10], s[11]);
                        if !(0xDC00 <= l < 0xE000) {
                            None
                        } else {
                            let code = 0x10000 + (h - 0xD800) * 0x400 + (l - 0xDC00);
                            match sp_str_body(s.skip(12)) {
                                Some((cs, r)) => Some((seq![(code as u32) as char] + cs, r)),
                                None => None,
                            }
                        }
                    }
                } else if 0xDC00 <= h < 0xE000 {
                    None
                } else {
                    match sp_str_body(s.skip(6)) {
                        Some((cs, r)) => Some((seq![(h as u32) as char] + cs, r)),
                        None => None,
                    }
                }
            }
        } else {
            match short_escape(s[1]) {
                Some(c) => match sp_str_body(s.skip(2)) {
                    Some((cs, r)) => Some((seq![c] + cs, r)),
                    None => None,
                },
                None => None,
            }
        }
    } else if (s[0] as u32) < 0x20 {
        None
    } else {
        match sp_str_body(s.drop_first()) {
            Some((cs, r)) => Some((seq![s[0]] + cs, r)),
            None => None,
        }
    }
}

/// Parse a string including its opening quote.
pub open spec fn sp_string(s: Seq<char>) -> Option<(Seq<char>, Seq<char>)> {
    if s.len() > 0 && s[0] == '"' {
        sp_str_body(s.drop_first())
    } else {
        None
    }
}

/// Consume a run of decimal digits, folding them onto `acc`.
pub open spec fn sp_digits(s: Seq<char>, acc: nat) -> (nat, Seq<char>)
    decreases s.len(),
{
    if s.len() > 0 && is_digit(s[0]) {
        sp_digits(s.drop_first(), acc * 10 + hex_val(s[0]) as nat)
    } else {
        (acc, s)
    }
}

/// Parse a number: a non-empty digit run whose value fits in 32 unsigned
/// bits. A leading zero followed by another digit is rejected, as the JSON
/// grammar requires.
pub open spec fn sp_number(s: Seq<char>) -> Option<(SpecJson, Seq<char>)> {
    if s.len() == 0 || !is_digit(s[0]) {
        None
    } else if s[0] == '0' && s.len() >= 2 && is_digit(s[1]) {
        None
    } else {
        let (n, r) = sp_digits(s, 0);
        if n > 0xFFFF_FFFFnat {
            None
        } else {
            Some((SpecJson::UInt(n as u32), r))
        }
    }
}

/// Parse one value, whitespace already skipped: the value and the input
/// directly after it.
pub open spec fn sp_value(s: Seq<char>) -> Option<(SpecJson, Seq<char>)>
    decreases s.len(), 0int,
{
    if s.len() == 0 {
        None
    } else if s[0] == 'n' {
        if s.len() >= 4 && s[1] == 'u' && s[2] == 'l' && s[3] == 'l' {
            Some((SpecJson::Null, s.skip(4)))
        } else {
            None
        }
    } else if s[0] == 't' {
        if s.len() >= 4 && s[1] == 'r' && s[2] == 'u' && s[3] == 'e' {
            Some((SpecJson::Bool(true), s.skip(4)))
        } else {
            None
        }
    } else if s[0] == 'f' {
        if s.len() >= 5 && s[1] == 'a' && s[2] == 'l' && s[3] == 's' && s[4] == 'e' {
            Some((SpecJson::Bool(false), s.skip(5)))
        } else {
            None
        }
    } else if s[0] == '"' {
        match sp_string(s) {
            Some((cs, r)) => Some((SpecJson::Str(cs), r)),
            None => None,
        }
    } else if s[0] == '[' {
        let r1 = skip_ws(s.drop_first());
        if r1.len() > 0 && r1[0] == ']' {
            Some((SpecJson::Arr(Seq::empty()), r1.drop_first()))
        } else if r1.len() < s.len() {
            match sp_elems(r1) {
                Some((els, r)) => Some((SpecJson::Arr(els), r)),
                None => None,
            }
        } else {
            None
        }
    } else if s[0] == '{' {
        let r1 = skip_ws(s.drop_first());
        if r1.len() > 0 && r1[0] == '}' {
            Some((SpecJson::Obj(Seq::empty()), r1.drop_first()))
        } else if r1.len() < s.len() {
            match sp_members(r1) {
                Some((ms, r)) => Some((SpecJson::Obj(ms), r)),
                None => None,
            }
        } else {
            None
        }
    } else {
        sp_number(s)
    }
}

/// Parse one or more comma-separated array elements and the closing bracket.
pub open spec fn sp_elems(s: Seq<char>) -> Option<(Seq<SpecJson>, Seq<char>)>
    decreases s.len(), 1int,
{
    match sp_value(s) {
        Some((v, r)) => {
            let r2 = skip_ws(r);
            if r2.len() > 0 && r2[0] == ']' {
                Some((seq![v], r2.drop_first()))
            } else if r2.len() > 0 && r2[0] == ',' {
                let r3 = skip_ws(r2.drop_first());
                if r3.len() < s.len() {
                    match sp_elems(r3) {
                        Some((els, r4)) => Some((seq![v] + els, r4)),
                        None => None,
                    }
                } else {
                    None
                }
            } else {
                None
            }
        }
        None => None,
    }
}

/// Parse one or more comma-separated `"key":value` members and the closing
/// brace.
pub open spec fn sp_members(s: Seq<char>) -> Option<(Seq<(Seq<char>, SpecJson)>, Seq<char>)>
    decreases s.len(), 1int,
{
    match sp_string(s) {
        Some((k, r)) => {
            let r2 = skip_ws(r);
            if r2.len() > 0 && r2[0] == ':' {
                let r3 = skip_ws(r2.drop_first());
                if r3.len() < s.len() {
                    match sp_value(r3) {
                        Some((v, r4)) => {
                            let r5 = skip_ws(r4);
                            if r5.len() > 0 && r5[0] == '}' {
                                Some((seq![(k, v)], r5.drop_first()))
                            } else if r5.len() > 0 && r5[0] == ',' {
                                let r6 = skip_ws(r5.drop_first());
                                if r6.len() < s.len() {
                                    match sp_members(r6) {
                                        Some((ms, r7)) => Some((seq![(k, v)] + ms, r7)),
                                        None => None,
                                    }
                                } else {
                                    None
                                }
                            } else {
                                None
                            }
                        }
                        None => None,
                    }
                } else {
                    None
                }
            } else {
                None
            }
        }
        None => None,
    }
}

/// Parse a whole document: one value, surrounded by optional whitespace,
/// spanning the entire input.
pub open spec fn sp_doc(s: Seq<char>) -> Option<SpecJson> {
    match sp_value(skip_ws(s)) {
        Some((v, r)) => {
            if skip_ws(r).len() == 0 {
                Some(v)
            } else {
                None
            }
        }
        None => None,
    }
}

/// The list view indexes pointwise into the element views.
pub proof fn lemma_view_list_index(els: Seq<JsonValue>)
    ensures
        jv_view_list(els).len() == els.len(),
        forall|i: int| 0 <= i < els.len()
            ==> jv_view_list(els)[i] == jv_view(#[trigger] els[i]),
    decreases els.len(),
{
    if els.len() > 0 {
        lemma_view_list_index(els.drop_first());
        assert forall|i: int| 0 <= i < els.len()
            implies jv_view_list(els)[i] == jv_view(#[trigger] els[i]) by {
            if i > 0 {
                assert(jv_view_list(els)[i] == jv_view_list(els.drop_first())[i - 1]);
                assert(els.drop_first()[i - 1] == els[i]);
            }
        }
    }
}

/// The member-list view indexes pointwise into the member views.
pub proof fn lemma_view_members_index(ms: Seq<(String, JsonValue)>)
    ensures
        jv_view_members(ms).len() == ms.len(),
        forall|i: int| 0 <= i < ms.len()
            ==> jv_view_members(ms)[i] == ((#[trigger] ms[i]).0@, jv_view(ms[i].1)),
    decreases ms.len(),
{
    if ms.len() > 0 {
        lemma_view_members_index(ms.drop_first());
        assert forall|i: int| 0 <= i < ms.len()
            implies jv_view_members(ms)[i] == ((#[trigger] ms[i]).0@, jv_view(ms[i].1)) by {
            if i > 0 {
                assert(jv_view_members(ms)[i] == jv_view_members(ms.drop_first())[i - 1]);
                assert(ms.drop_first()[i - 1] == ms[i]);
            }
        }
    }
}

/// Escaping distributes over concatenation.
pub proof fn lemma_escape_append(a: Seq<char>, b: Seq<char>)
    ensures
        escape(a + b) == escape(a) + escape(b),
    decreases a.len(),
{
    if a.len() == 0 {
        assert(a + b =~= b);
        assert(escape(a) + escape(b) =~= escape(b));
    } else {
        assert((a + b).drop_first() =~= a.drop_first() + b);
        assert((a + b).len() > 0 && (a + b)[0] == a[0]);
        lemma_escape_append(a.drop_first(), b);
        assert(escape_char(a[0]) + (escape(a.drop_first()) + escape(b))
            =~= (escape_char(a[0]) + escape(a.drop_first())) + escape(b));
    }
}

/// How the serialized element list splits at position `i`.
pub proof fn lemma_jser_elems_unfold(els: Seq<SpecJson>, i: int)
    requires
        0 <= i < els.len(),
    ensures
        jser_elems(els.skip(i)) == jser(els[i])
            + if i + 1 < els.len() { seq![','] + jser_elems(els.skip(i + 1)) }
              else { Seq::<char>::empty() },
{
    let t = els.skip(i);
    assert(t.len() == els.len() - i);
    assert(t[0] == els[i]);
    if i + 1 < els.len() {
        assert(t.drop_first() =~= els.skip(i + 1));
        assert(jser(els[i]) + (seq![','] + jser_elems(els.skip(i + 1)))
            =~= (jser(els[i]) + seq![',']) + jser_elems(els.skip(i + 1)));
        assert(jser_elems(t) =~= jser(els[i]) + (seq![','] + jser_elems(els.skip(i + 1))));
    } else {
        assert(jser_elems(t) =~= jser(t[0]) + Seq::<char>::empty());
    }
}

/// How the serialized member list splits at position `i`.
pub proof fn lemma_jser_members_unfold(ms: Seq<(Seq<char>, SpecJson)>, i: int)
    requires
        0 <= i < ms.len(),
    ensures
        jser_members(ms.skip(i)) == (seq!['"'] + escape(ms[i].0) + seq!['"', ':'] + jser(ms[i].1))
            + if i + 1 < ms.len() { seq![','] + jser_members(ms.skip(i + 1)) }
              else { Seq::<char>::empty() },
{
    let t = ms.skip(i);
    assert(t.len() == ms.len() - i);
    assert(t[0] == ms[i]);
    let one = seq!['"'] + escape(ms[i].0) + seq!['"', ':'] + jser(ms[i].1);
    if i + 1 < ms.len() {
        assert(t.drop_first() =~= ms.skip(i + 1));
        assert(one + (seq![','] + jser_members(ms.skip(i + 1)))
            =~= (one + seq![',']) + jser_members(ms.skip(i + 1)));
        assert(jser_members(t) =~= one + (seq![','] + jser_members(ms.skip(i + 1))));
    } else {
        assert(jser_members(t) =~= one + Seq::<char>::empty());
    }
}

/// Escaping a single character is that character's escape.
pub proof fn lemma_escape_singleton(c: char)
    ensures
        escape(seq![c]) == escape_char(c),
{
    assert(seq![c].drop_first() =~= Seq::<char>::empty());
    assert(escape(seq![c]) == escape_char(c) + escape(Seq::<char>::empty()));
    assert(escape_char(c) + Seq::<char>::empty() =~= escape_char(c));
}

/// Relies on `String::push`: appends exactly the given character.
#[verifier::external_body]
pub(crate) fn push_char(out: &mut String, c: char)
    ensures
        final(out)@ == old(out)@.push(c),
{
    out.push(c);
}

/// The characters of a string slice, in order.
pub fn chars_vec(s: &str) -> (r: Vec<char>)
    ensures
        r@ == s@,
{
    let n = s.unicode_len();
    let mut r: Vec<char> = Vec::new();
    let mut i: usize = 0;
    while i < n
        invariant
            n == s@.len(),
            i <= n,
            r@ =~= s@.take(i as int),
        decreases n - i,
    {
        r.push(s.get_char(i));
        assert(r@ =~= s@.take(i as int + 1));
        i += 1;
    }
    assert(r@ =~= s@);
    r
}

fn hex_digit_ch(n: u32) -> (r: char)
    requires
        n < 16,
    ensures
        r == hex_digit(n as int),
{
    if n == 0 { '0' }
    else if n == 1 { '1' }
    else if n == 2 { '2' }
    else if n == 3 { '3' }
    else if n == 4 { '4' }
    else if n == 5 { '5' }
    else if n == 6 { '6' }
    else if n == 7 { '7' }
    else if n == 8 { '8' }
    else if n == 9 { '9' }
    else if n == 10 { 'a' }
    else if n == 11 { 'b' }
    else if n == 12 { 'c' }
    else if n == 13 { 'd' }
    else if n == 14 { 'e' }
    else { 'f' }
}

fn write_u32(n: u32, out: &mut String)
    ensures
        final(out)@ == old(out)@ + dec_of(n as nat),
    decreases n,
{
    if n < 10 {
        push_char(out, hex_digit_ch(n));
        assert(final(out)@ =~= old(out)@ + dec_of(n as nat));
    } else {
        write_u32(n / 10, out);
        push_char(out, hex_digit_ch(n % 10));
        assert(final(out)@ =~= old(out)@ + dec_of(n as nat));
    }
}

fn push_escaped(c: char, out: &mut String)
    ensures
        final(out)@ == old(out)@ + escape_char(c),
{
    if c == '"' {
        push_char(out, '\\');
        push_char(out, '"');
    } else if c == '\\' {
        push_char(out, '\\');
        push_char(out, '\\');
    } else if c == '\u{8}' {
        push_char(out, '\\');
        push_char(out, 'b');
    } else if c == '\u{c}' {
        push_char(out, '\\');
        push_char(out, 'f');
    } else if c == '\n' {
        push_char(out, '\\');
        push_char(out, 'n');
    } else if c == '\r' {
        push_char(out, '\\');
        push_char(out, 'r');
    } else if c == '\t' {
        push_char(out, '\\');
        push_char(out, 't');
    } else if (c as u32) < 0x20 {
        push_char(out, '\\');
        push_char(out, 'u');
        push_char(out, '0');
        push_char(out, '0');
        push_char(out, hex_digit_ch((c as u32) / 16));
        push_char(out, hex_digit_ch((c as u32) % 16));
    } else {
        push_char(out, c);
    }
    assert(final(out)@ =~= old(out)@ + escape_char(c));
}

/// Append the escaped body of a string value.
fn write_escaped(s: &str, out: &mut String)
    ensures
        final(out)@ == old(out)@ + escape(s@),
{
    let cs = chars_vec(s);
    let n = cs.len();
    let mut i: usize = 0;
    while i < n
        invariant
            n == cs@.len(),
            cs@ == s@,
            i <= n,
            out@ == old(out)@ + escape(s@.take(i as int)),
        decreases n - i,
    {
        push_escaped(cs[i], out);
        proof {
            lemma_escape_append(s@.take(i as int), seq![s@[i as int]]);
            assert(s@.take(i as int) + seq![s@[i as int]] =~= s@.take(i as int + 1));
            lemma_escape_singleton(s@[i as int]);
            assert(old(out)@ + escape(s@.take(i as int)) + escape_char(s@[i as int])
                =~= old(out)@ + escape(s@.take(i as int + 1)));
        }
        i += 1;
    }
    assert(s@.take(n as int) =~= s@);
}

/// Append the serialized form of a document.
fn write_value(v: &JsonValue, out: &mut String)
    ensures
        final(out)@ == old(out)@ + jser(v@),
    decreases v,
{
    match v {
        JsonValue::Null => {
            out.append("null");
        }
        JsonValue::Bool(b) => {
            if *b {
                out.append("true");
            } else {
                out.append("false");
            }
        }
        JsonValue::UInt(n) => {
            write_u32(*n, out);
        }
        JsonValue::Str(s) => {
            push_char(out, '"');
            write_escaped(s.as_str(), out);
            push_char(out, '"');
            assert(final(out)@ =~= old(out)@ + (seq!['"'] + escape(s@) + seq!['"']));
        }
        JsonValue::Arr(els) => {
            let ghost l = jv_view_list(els@);
            proof {
                lemma_view_list_index(els@);
            }
            push_char(out, '[');
            let n = els.len();
            let mut i: usize = 0;
            assert(out@ + jser_elems(l.skip(0)) =~= old(out)@ + (seq!['['] + jser_elems(l)))
                by {
                    assert(l.skip(0) =~= l);
                    assert(out@ =~= old(out)@.push('['));
                    assert(old(out)@.push('[') =~= old(out)@ + seq!['[']);
                };
            while i < n
                invariant
                    *v == JsonValue::Arr(*els),
                    n == els@.len(),
                    i <= n,
                    l == jv_view_list(els@),
                    l.len() == n,
                    forall|k: int| 0 <= k < n ==> l[k] == jv_view(#[trigger] els@[k]),
                    i < n ==> out@ + jser_elems(l.skip(i as int)) + seq![']']
                        == old(out)@ + jser(SpecJson::Arr(l)),
                    i == n && n > 0 ==> out@ + seq![']'] == old(out)@ + jser(SpecJson::Arr(l)),
                    i == n && n == 0 ==> out@ == old(out)@ + seq!['['],
                decreases n - i,
            {
                proof {
                    assert(decreases_to!(*v => v->Arr_0));
                    assert(decreases_to!(v->Arr_0 => els@));
                    assert(decreases_to!(els@ => els@[i as int]));
                }
                let ghost pre = out@;
                write_value(&els[i], out);
                proof {
                    lemma_jser_elems_unfold(l, i as int);
                }
                if i + 1 < n {
                    push_char(out, ',');
                    proof {
                        assert(out@ =~= pre + jser(l[i as int]) + seq![',']);
                        assert(out@ + jser_elems(l.skip(i as int + 1))
                            =~= pre + jser_elems(l.skip(i as int)));
                    }
                } else {
                    proof {
                        assert(out@ =~= pre + jser(l[i as int]));
                        assert(out@ =~= pre + jser_elems(l.skip(i as int)));
                    }
                }
                i += 1;
            }
            if n == 0 {
                assert(jser_elems(l) =~= Seq::<char>::empty());
            }
            push_char(out, ']');
            assert(final(out)@ =~= old(out)@ + jser(SpecJson::Arr(l)));
        }
        JsonValue::Obj(ms) => {
            let ghost l = jv_view_members(ms@);
            proof {
                lemma_view_members_index(ms@);
            }
            push_char(out, '{');
            let n = ms.len();
            let mut i: usize = 0;
            assert(out@ + jser_members(l.skip(0)) =~= old(out)@ + (seq!['{'] + jser_members(l)))
                by {
                    assert(l.skip(0) =~= l);
                    assert(out@ =~= old(out)@.push('{'));
                    assert(old(out)@.push('{') =~= old(out)@ + seq!['{']);
                };
            while i < n
                invariant
                    *v == JsonValue::Obj(*ms),
                    n == ms@.len(),
                    i <= n,
                    l == jv_view_members(ms@),
                    l.len() == n,
                    forall|k: int| 0 <= k < n
                        ==> l[k] == ((#[trigger] ms@[k]).0@, jv_view(ms@[k].1)),
                    i < n ==> out@ + jser_members(l.skip(i as int)) + seq!['}']
                        == old(out)@ + jser(SpecJson::Obj(l)),
                    i == n && n > 0 ==> out@ + seq!['}'] == old(out)@ + jser(SpecJson::Obj(l)),
                    i == n && n == 0 ==> out@ == old(out)@ + seq!['{'],
                decreases n - i,
            {
                proof {
                    assert(decreases_to!(*v => v->Obj_0));
                    assert(decreases_to!(v->Obj_0 => ms@));
                    assert(decreases_to!(ms@ => ms@[i as int]));
                    assert(decreases_to!(ms@[i as int] => ms@[i as int].1));
                }
                let ghost pre = out@;
                push_char(out, '"');
                write_escaped(ms[i].0.as_str(), out);
                push_char(out, '"');
                push_char(out, ':');
                write_value(&ms[i].1, out);
                proof {
                    lemma_jser_members_unfold(l, i as int);
                    let one = seq!['"'] + escape(l[i as int].0) + seq!['"', ':'] + jser(l[i as int].1);
                    assert(out@ =~= pre + one);
                }
                if i + 1 < n {
                    push_char(out, ',');
                    proof {
                        let one = seq!['"'] + escape(l[i as int].0) + seq!['"', ':'] + jser(l[i as int].1);
                        assert(out@ =~= pre + one + seq![',']);
                        assert(out@ + jser_members(l.skip(i as int + 1))
                            =~= pre + jser_members(l.skip(i as int)));
                    }
                } else {
                    proof {
                        assert(out@ =~= pre + jser_members(l.skip(i as int)));
                    }
                }
                i += 1;
            }
            if n == 0 {
                assert(jser_members(l) =~= Seq::<char>::empty());
            }
            push_char(out, '}');
            assert(final(out)@ =~= old(out)@ + jser(SpecJson::Obj(l)));
        }
    }
}

/// Unfolding [`skip_ws`] one position at a time, expressed over indices.
proof fn lemma_skip_ws_step(s: Seq<char>, i: int)
    requires
        0 <= i <= s.len(),
    ensures
        i < s.len() && is_ws(s[i]) ==> skip_ws(s.skip(i)) == skip_ws(s.skip(i + 1)),
        (i == s.len() || !is_ws(s[i])) ==> skip_ws(s.skip(i)) == s.skip(i),
{
    let t = s.skip(i);
    if i < s.len() && is_ws(s[i]) {
        assert(t.len() > 0 && t[0] == s[i]);
        assert(t.drop_first() =~= s.skip(i + 1));
    }
}

fn is_ws_ch(c: char) -> (r: bool)
    ensures
        r == is_ws(c),
{
    c == ' ' || c == '\t' || c == '\n' || c == '\r'
}

/// The first index at or after `i` whose character is not JSON whitespace.
fn skip_ws_at(s: &Vec<char>, i: usize) -> (r: usize)
    requires
        i <= s@.len(),
    ensures
        i <= r <= s@.len(),
        s@.skip(r as int) == skip_ws(s@.skip(i as int)),
        r < s@.len() ==> !is_ws(s@[r as int]),
{
    let n = s.len();
    let mut j = i;
    while j < n && is_ws_ch(s[j])
        invariant
            i <= j <= n,
            n == s@.len(),
            skip_ws(s@.skip(i as int)) == skip_ws(s@.skip(j as int)),
        decreases n - j,
    {
        proof {
            lemma_skip_ws_step(s@, j as int);
        }
        j += 1;
    }
    proof {
        lemma_skip_ws_step(s@, j as int);
    }
    j
}

fn hex_val_ch(c: char) -> (r: i8)
    ensures
        r as int == hex_val(c),
{
    if c == '0' { 0 }
    else if c == '1' { 1 }
    else if c == '2' { 2 }
    else if c == '3' { 3 }
    else if c == '4' { 4 }
    else if c == '5' { 5 }
    else if c == '6' { 6 }
    else if c == '7' { 7 }
    else if c == '8' { 8 }
    else if c == '9' { 9 }
    else if c == 'a' || c == 'A' { 10 }
    else if c == 'b' || c == 'B' { 11 }
    else if c == 'c' || c == 'C' { 12 }
    else if c == 'd' || c == 'D' { 13 }
    else if c == 'e' || c == 'E' { 14 }
    else if c == 'f' || c == 'F' { 15 }
    else { -1 }
}

fn short_escape_ch(e: char) -> (r: Option<char>)
    ensures
        r == short_escape(e),
{
    if e == '"' { Some('"') }
    else if e == '\\' { Some('\\') }
    else if e == '/' { Some('/') }
    else if e == 'b' { Some('\u{8}') }
    else if e == 'f' { Some('\u{c}') }
    else if e == 'n' { Some('\n') }
    else if e == 'r' { Some('\r') }
    else if e == 't' { Some('\t') }
    else { None }
}

/// Relies on `char::from_u32`: for a code point that is not a surrogate and is
/// below 0x110000 it returns the character with exactly that scalar value.
#[verifier::external_body]
fn char_from_scalar(n: u32) -> (r: char)
    requires
        n < 0xD800 || (0xE000 <= n < 0x110000),
    ensures
        r as u32 == n,
{
    char::from_u32(n).unwrap()
}

/// Parse the body of a string after its opening quote, mirroring
/// [`sp_str_body`] exactly.
fn p_str_body(s: &Vec<char>, i: usize) -> (r: Option<(String, usize)>)
    requires
        i <= s@.len(),
    ensures
        r matches Some((cs, j)) ==> i < j <= s@.len()
            && sp_str_body(s@.skip(i as int)) == Some((cs@, s@.skip(j as int))),
        r is None ==> sp_str_body(s@.skip(i as int)) is None,
    decreases s@.len() - i,
{
    let ghost t = s@.skip(i as int);
    assert(t.len() == s@.len() - i);
    if i == s.len() {
        return None;
    }
    let c = s[i];
    assert(t[0] == c);
    if c == '"' {
        assert(t.drop_first() =~= s@.skip(i as int + 1));
        let e = String::new();
        return Some((e, i + 1));
    }
    if c == '\\' {
        if i + 1 == s.len() {
            assert(t.len() < 2);
            return None;
        }
        assert(t.len() >= 2);
        let e = s[i + 1];
        assert(t[1] == e);
        if e == 'u' {
            if s.len() - i < 6 {
                assert(t.len() < 6);
                return None;
            }
            assert(t.len() >= 6);
            let h2 = hex_val_ch(s[i + 2]);
            let h3 = hex_val_ch(s[i + 3]);
            let h4 = hex_val_ch(s[i + 4]);
            let h5 = hex_val_ch(s[i + 5]);
            assert(t[2] == s@[i + 2] && t[3] == s@[i + 3] && t[4] == s@[i + 4]
                && t[5] == s@[i + 5]);
            if h2 < 0 || h3 < 0 || h4 < 0 || h5 < 0 {
                assert(hex4(t[2], t[3], t[4], t[5]) < 0);
                return None;
            }
            let h: u32 = (h2 as u32) * 0x1000 + (h3 as u32) * 0x100 + (h4 as u32) * 0x10
                + (h5 as u32);
            assert(h == hex4(t[2], t[3], t[4], t[5]));
            if 0xD800 <= h && h < 0xDC00 {
                if s.len() - i < 12 {
                    assert(t.len() < 12);
                    return None;
                }
                assert(t.len() >= 12);
                assert(t[6] == s@[i + 6] && t[7] == s@[i + 7]);
                if !(s[i + 6] == '\\' && s[i + 7] == 'u') {
                    return None;
                }
                let l8 = hex_val_ch(s[i + 8]);
                let l9 = hex_val_ch(s[i + 9]);
                let l10 = hex_val_ch(s[i + 10]);
                let l11 = hex_val_ch(s[i + 11]);
                assert(t[8] == s@[i + 8] && t[9] == s@[i + 9] && t[10] == s@[i + 10] && t[11]
                    == s@[i + 11]);
                if l8 < 0 || l9 < 0 || l10 < 0 || l11 < 0 {
                    assert(hex4(t[8], t[9], t[10], t[11]) < 0);
                    return None;
                }
                let l: u32 = (l8 as u32) * 0x1000 + (l9 as u32) * 0x100 + (l10 as u32) * 0x10
                    + (l11 as u32);
                assert(l == hex4(t[8], t[9], t[10], t[11]));
                if !(0xDC00 <= l && l < 0xE000) {
                    return None;
                }
                let code: u32 = 0x10000 + (h - 0xD800) * 0x400 + (l - 0xDC00);
                let c2 = char_from_scalar(code);
                proof {
                    vstd::utf8::char_u32_cast(c2, code);
                    assert(t.skip(12) =~= s@.skip(i as int + 12));
                }
                match p_str_body(s, i + 12) {
                    Some((cs, j)) => {
                        let mut res = String::new();
                        push_char(&mut res, c2);
                        res.append(cs.as_str());
                        assert(res@ =~= seq![(code as u32) as char] + cs@);
                        Some((res, j))
                    }
                    None => None,
                }
            } else if 0xDC00 <= h && h < 0xE000 {
                None
            } else {
                let c2 = char_from_scalar(h);
                proof {
                    vstd::utf8::char_u32_cast(c2, h);
                    assert(t.skip(6) =~= s@.skip(i as int + 6));
                }
                match p_str_body(s, i + 6) {
                    Some((cs, j)) => {
                        let mut res = String::new();
                        push_char(&mut res, c2);
                        res.append(cs.as_str());
                        assert(res@ =~= seq![(h as u32) as char] + cs@);
                        Some((res, j))
                    }
                    None => None,
                }
            }
        } else {
            match short_escape_ch(e) {
                Some(c2) => {
                    proof {
                        assert(t.skip(2) =~= s@.skip(i as int + 2));
                    }
                    match p_str_body(s, i + 2) {
                        Some((cs, j)) => {
                            let mut res = String::new();
                            push_char(&mut res, c2);
                            res.append(cs.as_str());
                            assert(res@ =~= seq![c2] + cs@);
                            Some((res, j))
                        }
                        None => None,
                    }
                }
                None => None,
            }
        }
    } else if (c as u32) < 0x20 {
        None
    } else {
        proof {
            assert(t.drop_first() =~= s@.skip(i as int + 1));
        }
        match p_str_body(s, i + 1) {
            Some((cs, j)) => {
                let mut res = String::new();
                push_char(&mut res, c);
                res.append(cs.as_str());
                assert(res@ =~= seq![c] + cs@);
                Some((res, j))
            }
            None => None,
        }
    }
}

/// Parse a string including its opening quote, mirroring [`sp_string`].
fn p_string(s: &Vec<char>, i: usize) -> (r: Option<(String, usize)>)
    requires
        i <= s@.len(),
    ensures
        r matches Some((cs, j)) ==> i < j <= s@.len()
            && sp_string(s@.skip(i as int)) == Some((cs@, s@.skip(j as int))),
        r is None ==> sp_string(s@.skip(i as int)) is None,
{
    let ghost t = s@.skip(i as int);
    if i < s.len() && s[i] == '"' {
        assert(t.len() > 0 && t[0] == '"');
        assert(t.drop_first() =~= s@.skip(i as int + 1));
        p_str_body(s, i + 1)
    } else {
        None
    }
}

/// Parse a number, mirroring [`sp_number`]: a digit run whose value fits in 32
/// unsigned bits.
fn p_number(s: &Vec<char>, i: usize) -> (r: Option<(JsonValue, usize)>)
    requires
        i <= s@.len(),
    ensures
        r matches Some((v, j)) ==> i < j <= s@.len()
            && sp_number(s@.skip(i as int)) == Some((v@, s@.skip(j as int))),
        r is None ==> sp_number(s@.skip(i as int)) is None,
{
    let n = s.len();
    if i == n || hex_val_ch(s[i]) < 0 || hex_val_ch(s[i]) > 9 {
        assert(i < n ==> s@.skip(i as int)[0] == s@[i as int]);
        return None;
    }
    assert(is_digit(s@.skip(i as int)[0]));
    if s[i] == '0' && i + 1 < n && hex_val_ch(s[i + 1]) >= 0 && hex_val_ch(s[i + 1]) <= 9 {
        assert(s@.skip(i as int)[1] == s@[i as int + 1]);
        return None;
    }
    assert(!(s@.skip(i as int)[0] == '0' && s@.skip(i as int).len() >= 2 && is_digit(
        s@.skip(i as int)[1],
    ))) by {
        if s@.skip(i as int).len() >= 2 {
            assert(s@.skip(i as int)[1] == s@[i as int + 1]);
        }
    };
    let mut j = i;
    let mut acc: u64 = 0;
    let mut over = false;
    let ghost mut g: nat = 0nat;
    while j < n && hex_val_ch(s[j]) >= 0 && hex_val_ch(s[j]) <= 9
        invariant
            i <= j <= n,
            n == s@.len(),
            sp_digits(s@.skip(i as int), 0) == sp_digits(s@.skip(j as int), g),
            !over ==> acc == g && acc <= 0xFFFF_FFFF,
            over ==> g > 0xFFFF_FFFF,
        decreases n - j,
    {
        let d = hex_val_ch(s[j]) as u64;
        let ghost t = s@.skip(j as int);
        proof {
            assert(t.len() > 0 && t[0] == s@[j as int]);
            assert(is_digit(t[0]));
            assert(t.drop_first() =~= s@.skip(j as int + 1));
            assert(sp_digits(t, g) == sp_digits(s@.skip(j as int + 1), g * 10 + hex_val(t[0]) as nat));
        }
        let ghost g0 = g;
        proof {
            g = g * 10 + (d as nat);
        }
        if !over {
            if acc > 0xFFFF_FFFF / 10 || acc * 10 + d > 0xFFFF_FFFF {
                over = true;
                assert(g > 0xFFFF_FFFF) by {
                    assert(g0 == acc);
                    assert(g0 * 10 + (d as nat) > 0xFFFF_FFFF) by (nonlinear_arith)
                        requires
                            g0 == acc,
                            acc * 10 + d > 0xFFFF_FFFFu64 || acc > 0xFFFF_FFFFu64 / 10,
                            d < 10,
                    ;
                };
            } else {
                acc = acc * 10 + d;
            }
        } else {
            assert(g > 0xFFFF_FFFF) by (nonlinear_arith)
                requires
                    g == g0 * 10 + (d as nat),
                    g0 > 0xFFFF_FFFF,
            ;
        }
        j += 1;
    }
    proof {
        let t = s@.skip(j as int);
        assert(j < n ==> t[0] == s@[j as int]);
        assert(!(t.len() > 0 && is_digit(t[0])));
        assert(sp_digits(t, g) == (g, t));
    }
    if over {
        return None;
    }
    let v = JsonValue::UInt(acc as u32);
    assert(v@ == SpecJson::UInt(acc as u32));
    Some((v, j))
}

/// Parse one value, mirroring [`sp_value`].
#[verifier::rlimit(60)]
fn p_value(s: &Vec<char>, i: usize) -> (r: Option<(JsonValue, usize)>)
    requires
        i <= s@.len(),
    ensures
        r matches Some((v, j)) ==> i < j <= s@.len()
            && sp_value(s@.skip(i as int)) == Some((v@, s@.skip(j as int))),
        r is None ==> sp_value(s@.skip(i as int)) is None,
    decreases s@.len() - i, 0int,
{
    let ghost t = s@.skip(i as int);
    let n = s.len();
    if i == n {
        return None;
    }
    let c = s[i];
    assert(t[0] == c);
    if c == 'n' {
        if n - i >= 4 && s[i + 1] == 'u' && s[i + 2] == 'l' && s[i + 3] == 'l' {
            assert(t.len() >= 4 && t[1] == 'u' && t[2] == 'l' && t[3] == 'l');
            assert(t.skip(4) =~= s@.skip(i as int + 4));
            Some((JsonValue::Null, i + 4))
        } else {
            assert(t.len() >= 4 ==> (t[1] == s@[i + 1] && t[2] == s@[i + 2] && t[3] == s@[i + 3]));
            None
        }
    } else if c == 't' {
        if n - i >= 4 && s[i + 1] == 'r' && s[i + 2] == 'u' && s[i + 3] == 'e' {
            assert(t.len() >= 4 && t[1] == 'r' && t[2] == 'u' && t[3] == 'e');
            assert(t.skip(4) =~= s@.skip(i as int + 4));
            Some((JsonValue::Bool(true), i + 4))
        } else {
            assert(t.len() >= 4 ==> (t[1] == s@[i + 1] && t[2] == s@[i + 2] && t[3] == s@[i + 3]));
            None
        }
    } else if c == 'f' {
        if n - i >= 5 && s[i + 1] == 'a' && s[i + 2] == 'l' && s[i + 3] == 's' && s[i + 4] == 'e' {
            assert(t.len() >= 5 && t[1] == 'a' && t[2] == 'l' && t[3] == 's' && t[4] == 'e');
            assert(t.skip(5) =~= s@.skip(i as int + 5));
            Some((JsonValue::Bool(false), i + 5))
        } else {
            assert(t.len() >= 5 ==> (t[1] == s@[i + 1] && t[2] == s@[i + 2] && t[3] == s@[i + 3]
                && t[4] == s@[i + 4]));
            None
        }
    } else if c == '"' {
        match p_string(s, i) {
            Some((cs, j)) => Some((JsonValue::Str(cs), j)),
            None => None,
        }
    } else if c == '[' {
        let j1 = skip_ws_at(s, i + 1);
        proof {
            assert(t.drop_first() =~= s@.skip(i as int + 1));
        }
        let ghost r1 = skip_ws(t.drop_first());
        assert(r1 == s@.skip(j1 as int));
        assert(r1.len() == s@.len() - j1);
        if j1 < n && s[j1] == ']' {
            assert(r1[0] == ']');
            assert(r1.drop_first() =~= s@.skip(j1 as int + 1));
            let v = JsonValue::Arr(Vec::new());
            assert(v@ == SpecJson::Arr(Seq::<SpecJson>::empty())) by {
                assert(jv_view_list(Seq::<JsonValue>::empty()) =~= Seq::<SpecJson>::empty());
            };
            Some((v, j1 + 1))
        } else {
            assert(r1.len() > 0 ==> r1[0] == s@[j1 as int]);
            assert(r1.len() < t.len());
            match p_elems(s, j1) {
                Some((els, j)) => Some((JsonValue::Arr(els), j)),
                None => None,
            }
        }
    } else if c == '{' {
        let j1 = skip_ws_at(s, i + 1);
        proof {
            assert(t.drop_first() =~= s@.skip(i as int + 1));
        }
        let ghost r1 = skip_ws(t.drop_first());
        assert(r1 == s@.skip(j1 as int));
        assert(r1.len() == s@.len() - j1);
        if j1 < n && s[j1] == '}' {
            assert(r1[0] == '}');
            assert(r1.drop_first() =~= s@.skip(j1 as int + 1));
            let v = JsonValue::Obj(Vec::new());
            assert(v@ == SpecJson::Obj(Seq::<(Seq<char>, SpecJson)>::empty())) by {
                assert(jv_view_members(Seq::<(String, JsonValue)>::empty())
                    =~= Seq::<(Seq<char>, SpecJson)>::empty());
            };
            Some((v, j1 + 1))
        } else {
            assert(r1.len() > 0 ==> r1[0] == s@[j1 as int]);
            assert(r1.len() < t.len());
            match p_members(s, j1) {
                Some((ms, j)) => Some((JsonValue::Obj(ms), j)),
                None => None,
            }
        }
    } else {
        p_number(s, i)
    }
}

/// Parse array elements and the closing bracket, mirroring [`sp_elems`].
fn p_elems(s: &Vec<char>, i: usize) -> (r: Option<(Vec<JsonValue>, usize)>)
    requires
        i <= s@.len(),
    ensures
        r matches Some((els, j)) ==> i < j <= s@.len()
            && sp_elems(s@.skip(i as int)) == Some((jv_view_list(els@), s@.skip(j as int))),
        r is None ==> sp_elems(s@.skip(i as int)) is None,
    decreases s@.len() - i, 1int,
{
    let ghost t = s@.skip(i as int);
    let n = s.len();
    match p_value(s, i) {
        Some((v, j)) => {
            let j2 = skip_ws_at(s, j);
            let ghost r2 = skip_ws(s@.skip(j as int));
            assert(r2 == s@.skip(j2 as int));
            assert(r2.len() == s@.len() - j2);
            if j2 < n && s[j2] == ']' {
                assert(r2[0] == ']');
                assert(r2.drop_first() =~= s@.skip(j2 as int + 1));
                let mut els: Vec<JsonValue> = Vec::new();
                els.push(v);
                assert(jv_view_list(els@) =~= seq![v@]) by {
                    assert(els@.drop_first() =~= Seq::<JsonValue>::empty());
                    assert(jv_view_list(Seq::<JsonValue>::empty()) =~= Seq::<SpecJson>::empty());
                };
                Some((els, j2 + 1))
            } else if j2 < n && s[j2] == ',' {
                assert(r2[0] == ',');
                assert(r2.drop_first() =~= s@.skip(j2 as int + 1));
                let j3 = skip_ws_at(s, j2 + 1);
                let ghost r3 = skip_ws(r2.drop_first());
                assert(r3 == s@.skip(j3 as int));
                assert(r3.len() == s@.len() - j3);
                assert(r3.len() < t.len());
                match p_elems(s, j3) {
                    Some((tail, j4)) => {
                        let ghost tail0 = tail@;
                        let mut els = tail;
                        els.insert(0, v);
                        proof {
                            assert(els@.drop_first() =~= tail0);
                            assert(els@[0] == v);
                            assert(jv_view_list(els@)
                                == seq![jv_view(v)] + jv_view_list(tail0));
                        }
                        Some((els, j4))
                    }
                    None => None,
                }
            } else {
                assert(r2.len() > 0 ==> r2[0] == s@[j2 as int]);
                None
            }
        }
        None => None,
    }
}

/// Parse object members and the closing brace, mirroring [`sp_members`].
#[verifier::rlimit(60)]
fn p_members(s: &Vec<char>, i: usize) -> (r: Option<(Vec<(String, JsonValue)>, usize)>)
    requires
        i <= s@.len(),
    ensures
        r matches Some((ms, j)) ==> i < j <= s@.len()
            && sp_members(s@.skip(i as int)) == Some((jv_view_members(ms@), s@.skip(j as int))),
        r is None ==> sp_members(s@.skip(i as int)) is None,
    decreases s@.len() - i, 1int,
{
    let ghost t = s@.skip(i as int);
    let n = s.len();
    match p_string(s, i) {
        Some((k, j)) => {
            let j2 = skip_ws_at(s, j);
            let ghost r2 = skip_ws(s@.skip(j as int));
            assert(r2 == s@.skip(j2 as int));
            assert(r2.len() == s@.len() - j2);
            if j2 < n && s[j2] == ':' {
                assert(r2[0] == ':');
                assert(r2.drop_first() =~= s@.skip(j2 as int + 1));
                let j3 = skip_ws_at(s, j2 + 1);
                let ghost r3 = skip_ws(r2.drop_first());
                assert(r3 == s@.skip(j3 as int));
                assert(r3.len() == s@.len() - j3);
                assert(r3.len() < t.len());
                match p_value(s, j3) {
                    Some((v, j4)) => {
                        let j5 = skip_ws_at(s, j4);
                        let ghost r5 = skip_ws(s@.skip(j4 as int));
                        assert(r5 == s@.skip(j5 as int));
                        assert(r5.len() == s@.len() - j5);
                        if j5 < n && s[j5] == '}' {
                            assert(r5[0] == '}');
                            assert(r5.drop_first() =~= s@.skip(j5 as int + 1));
                            let mut ms: Vec<(String, JsonValue)> = Vec::new();
                            ms.push((k, v));
                            assert(jv_view_members(ms@) =~= seq![(k@, v@)]) by {
                                assert(ms@.drop_first() =~= Seq::<(String, JsonValue)>::empty());
                                assert(jv_view_members(Seq::<(String, JsonValue)>::empty())
                                    =~= Seq::<(Seq<char>, SpecJson)>::empty());
                            };
                            Some((ms, j5 + 1))
                        } else if j5 < n && s[j5] == ',' {
                            assert(r5[0] == ',');
                            assert(r5.drop_first() =~= s@.skip(j5 as int + 1));
                            let j6 = skip_ws_at(s, j5 + 1);
                            let ghost r6 = skip_ws(r5.drop_first());
                            assert(r6 == s@.skip(j6 as int));
                            assert(r6.len() == s@.len() - j6);
                            assert(r6.len() < t.len());
                            match p_members(s, j6) {
                                Some((tail, j7)) => {
                                    let ghost tail0 = tail@;
                                    let mut ms = tail;
                                    ms.insert(0, (k, v));
                                    proof {
                                        assert(ms@.drop_first() =~= tail0);
                                        assert(ms@[0] == (k, v));
                                        assert(jv_view_members(ms@)
                                            == seq![(k@, jv_view(v))] + jv_view_members(tail0));
                                    }
                                    Some((ms, j7))
                                }
                                None => None,
                            }
                        } else {
                            assert(r5.len() > 0 ==> r5[0] == s@[j5 as int]);
                            None
                        }
                    }
                    None => None,
                }
            } else {
                assert(r2.len() > 0 ==> r2[0] == s@[j2 as int]);
                None
            }
        }
        None => None,
    }
}

/// Parse a whole document, exactly [`sp_doc`] of the input's characters.
pub fn parse_json(s: &str) -> (r: Option<JsonValue>)
    ensures
        r matches Some(v) ==> sp_doc(s@) == Some(v@),
        r is None ==> sp_doc(s@) is None,
{
    let cs = chars_vec(s);
    assert(cs@.skip(0) =~= s@);
    let i0 = skip_ws_at(&cs, 0);
    match p_value(&cs, i0) {
        Some((v, j)) => {
            let j2 = skip_ws_at(&cs, j);
            if j2 == cs.len() {
                assert(skip_ws(cs@.skip(j as int)).len() == 0);
                Some(v)
            } else {
                assert(skip_ws(cs@.skip(j as int)).len() > 0);
                None
            }
        }
        None => None,
    }
}

/// A hexadecimal digit character reads back as its value.
pub proof fn lemma_hex_digit_val(d: int)
    requires
        0 <= d < 16,
    ensures
        hex_val(hex_digit(d)) == d,
{
}

/// Ten to the given power.
pub open spec fn pow10(k: nat) -> nat
    decreases k,
{
    if k == 0 {
        1
    } else {
        10 * pow10((k - 1) as nat)
    }
}

/// The decimal form of a number is non-empty, starts with a digit, and never
/// carries a leading zero.
pub proof fn lemma_dec_of_digits(n: nat)
    ensures
        dec_of(n).len() > 0,
        is_digit(dec_of(n)[0]),
        n < 10 ==> dec_of(n).len() == 1,
        n >= 10 ==> dec_of(n)[0] != '0',
    decreases n,
{
    if n < 10 {
        lemma_hex_digit_val(n as int);
    } else {
        lemma_dec_of_digits(n / 10);
        assert(dec_of(n)[0] == dec_of(n / 10)[0]);
        if n / 10 < 10 {
            lemma_hex_digit_val((n / 10) as int);
            assert(n / 10 >= 1);
            assert(hex_digit((n / 10) as int) != '0');
        }
    }
}

/// Consuming the decimal form of `m` folds `m` onto the accumulator, shifted
/// by the number of its digits.
pub proof fn lemma_sp_digits_of_dec(m: nat, rest: Seq<char>, acc: nat)
    ensures
        sp_digits(dec_of(m) + rest, acc) == sp_digits(rest, acc * pow10(dec_of(m).len()) + m),
    decreases m,
{
    let s = dec_of(m) + rest;
    if m < 10 {
        lemma_hex_digit_val(m as int);
        assert(s[0] == hex_digit(m as int));
        assert(s.drop_first() =~= rest);
        assert(pow10(0) == 1);
        assert(pow10(1) == 10);
        assert(sp_digits(s, acc) == sp_digits(rest, acc * 10 + m));
    } else {
        let q = m / 10;
        let d = m % 10;
        lemma_hex_digit_val(d as int);
        let inner = seq![hex_digit(d as int)] + rest;
        assert(dec_of(m) =~= dec_of(q) + seq![hex_digit(d as int)]);
        assert(s =~= dec_of(q) + inner);
        lemma_sp_digits_of_dec(q, inner, acc);
        let k = dec_of(q).len();
        let acc2 = acc * pow10(k) + q;
        assert(inner[0] == hex_digit(d as int));
        assert(is_digit(inner[0]));
        assert(inner.drop_first() =~= rest);
        assert(sp_digits(inner, acc2) == sp_digits(rest, acc2 * 10 + d));
        assert(dec_of(m).len() == k + 1);
        assert(pow10(k + 1) == 10 * pow10(k));
        assert(acc2 * 10 + d == acc * pow10(k + 1) + m) by (nonlinear_arith)
            requires
                acc2 == acc * pow10(k) + q,
                pow10(k + 1) == 10 * pow10(k),
                q == m / 10,
                d == m % 10,
                m >= 10,
        ;
    }
}

/// The decimal form of a number, followed by anything that does not begin
/// with a digit, parses back as exactly that number.
pub proof fn lemma_sp_number_of_dec(n: u32, rest: Seq<char>)
    requires
        rest.len() == 0 || !is_digit(rest[0]),
    ensures
        sp_number(dec_of(n as nat) + rest) == Some((SpecJson::UInt(n), rest)),
{
    let s = dec_of(n as nat) + rest;
    lemma_dec_of_digits(n as nat);
    assert(s[0] == dec_of(n as nat)[0]);
    assert(!(s[0] == '0' && s.len() >= 2 && is_digit(s[1]))) by {
        if n < 10 {
            if s.len() >= 2 {
                assert(s[1] == rest[0]);
            }
        } else {
            assert(s[0] != '0');
        }
    };
    lemma_sp_digits_of_dec(n as nat, rest, 0);
    assert(0nat * pow10(dec_of(n as nat).len()) == 0) by (nonlinear_arith);
    assert(sp_digits(rest, n as nat) == (n as nat, rest));
    assert(sp_digits(s, 0) == (n as nat, rest));
}

/// An escaped string body followed by its closing quote parses back as
/// exactly the original characters.
pub proof fn lemma_sp_str_body_of_escape(s: Seq<char>, rest: Seq<char>)
    ensures
        sp_str_body(escape(s) + (seq!['"'] + rest)) == Some((s, rest)),
    decreases s.len(),
{
    let w = escape(s) + (seq!['"'] + rest);
    if s.len() == 0 {
        assert(w =~= seq!['"'] + rest);
        assert(w[0] == '"');
        assert(w.drop_first() =~= rest);
    } else {
        let c = s[0];
        let tail = s.drop_first();
        lemma_sp_str_body_of_escape(tail, rest);
        let wt = escape(tail) + (seq!['"'] + rest);
        assert(w =~= escape_char(c) + wt);
        if c == '"' || c == '\\' {
            assert(w[0] == '\\' && w.len() >= 2);
            assert(w[1] == c);
            assert(short_escape(w[1]) == Some(c));
            assert(w.skip(2) =~= wt);
            assert(seq![c] + tail =~= s);
        } else if c == '\u{8}' || c == '\u{c}' || c == '\n' || c == '\r' || c == '\t' {
            assert(w[0] == '\\' && w.len() >= 2);
            assert(short_escape(w[1]) == Some(c));
            assert(w.skip(2) =~= wt);
            assert(seq![c] + tail =~= s);
        } else if (c as u32) < 0x20 {
            let hi = (c as u32 / 16) as int;
            let lo = (c as u32 % 16) as int;
            assert(w[0] == '\\' && w[1] == 'u' && w[2] == '0' && w[3] == '0' && w[4]
                == hex_digit(hi) && w[5] == hex_digit(lo) && w.len() >= 6);
            lemma_hex_digit_val(hi);
            lemma_hex_digit_val(lo);
            let h = hex4(w[2], w[3], w[4], w[5]);
            assert(h == hi * 16 + lo);
            assert(hi * 16 + lo == c as u32) by (nonlinear_arith)
                requires
                    hi == (c as u32) / 16,
                    lo == (c as u32) % 16,
                    (c as u32) < 0x20,
            ;
            assert(0 <= h < 0x20);
            vstd::utf8::char_u32_cast(c, c as u32);
            assert((h as u32) as char == c);
            assert(w.skip(6) =~= wt);
            assert(seq![c] + tail =~= s);
        } else {
            assert(escape_char(c) =~= seq![c]);
            assert(w[0] == c);
            assert(c != '"' && c != '\\' && (c as u32) >= 0x20);
            assert(w.drop_first() =~= wt);
            assert(seq![c] + tail =~= s);
        }
    }
}

/// A serialized document is non-empty, and its first character is neither
/// whitespace nor one of the structural characters a parser branches on.
pub proof fn lemma_jser_first(j: SpecJson)
    ensures
        jser(j).len() > 0,
        !is_ws(jser(j)[0]),
        jser(j)[0] != ']',
        jser(j)[0] != '}',
        jser(j)[0] != ',',
        jser(j)[0] != ':',
{
    match j {
        SpecJson::Null => {
            reveal_strlit("null");
        }
        SpecJson::Bool(b) => {
            reveal_strlit("true");
            reveal_strlit("false");
        }
        SpecJson::UInt(n) => {
            lemma_dec_of_digits(n as nat);
        }
        SpecJson::Str(s) => {
            assert(jser(j)[0] == '"');
        }
        SpecJson::Arr(els) => {
            assert(jser(j)[0] == '[');
        }
        SpecJson::Obj(ms) => {
            assert(jser(j)[0] == '{');
        }
    }
}

/// Serializing any document and parsing the result, with anything that does
/// not begin with a digit after it, yields exactly the original document.
#[verifier::rlimit(100)]
#[verifier::spinoff_prover]
pub proof fn lemma_parse_of_jser(j: SpecJson, rest: Seq<char>)
    requires
        rest.len() == 0 || !is_digit(rest[0]),
    ensures
        sp_value(jser(j) + rest) == Some((j, rest)),
    decreases j, 0int,
{
    let s = jser(j) + rest;
    match j {
        SpecJson::Null => {
            reveal_strlit("null");
            assert(s.len() >= 4 && s[0] == 'n' && s[1] == 'u' && s[2] == 'l' && s[3] == 'l');
            assert(s.skip(4) =~= rest);
        }
        SpecJson::Bool(b) => {
            if b {
                reveal_strlit("true");
                assert(s.len() >= 4 && s[0] == 't' && s[1] == 'r' && s[2] == 'u' && s[3] == 'e');
                assert(s.skip(4) =~= rest);
            } else {
                reveal_strlit("false");
                assert(s.len() >= 5 && s[0] == 'f' && s[1] == 'a' && s[2] == 'l' && s[3] == 's'
                    && s[4] == 'e');
                assert(s.skip(5) =~= rest);
            }
        }
        SpecJson::UInt(n) => {
            lemma_dec_of_digits(n as nat);
            assert(s[0] == dec_of(n as nat)[0]);
            assert(is_digit(s[0]));
            assert(s[0] != 'n' && s[0] != 't' && s[0] != 'f' && s[0] != '"' && s[0] != '['
                && s[0] != '{');
            lemma_sp_number_of_dec(n, rest);
            assert(dec_of(n as nat) + rest =~= s);
        }
        SpecJson::Str(cs) => {
            assert(s[0] == '"');
            assert(s.drop_first() =~= escape(cs) + (seq!['"'] + rest));
            lemma_sp_str_body_of_escape(cs, rest);
        }
        SpecJson::Arr(els) => {
            assert(s[0] == '[');
            let inner = jser_elems(els) + (seq![']'] + rest);
            assert(s.drop_first() =~= inner);
            if els.len() == 0 {
                assert(inner =~= seq![']'] + rest);
                assert(inner[0] == ']');
                assert(skip_ws(inner) == inner);
                assert(inner.drop_first() =~= rest);
                assert(els =~= Seq::<SpecJson>::empty());
            } else {
                assert(decreases_to!(j => els));
                assert(decreases_to!(els => els[0]));
                lemma_jser_first(els[0]);
                assert(jser_elems(els)[0] == jser(els[0])[0]);
                assert(inner[0] == jser(els[0])[0]);
                assert(!is_ws(inner[0]));
                assert(skip_ws(inner) == inner);
                assert(inner[0] != ']');
                assert(inner.len() < s.len());
                lemma_elems_of_jser(els, rest);
            }
        }
        SpecJson::Obj(ms) => {
            assert(s[0] == '{');
            let inner = jser_members(ms) + (seq!['}'] + rest);
            assert(s.drop_first() =~= inner);
            if ms.len() == 0 {
                assert(inner =~= seq!['}'] + rest);
                assert(inner[0] == '}');
                assert(skip_ws(inner) == inner);
                assert(inner.drop_first() =~= rest);
                assert(ms =~= Seq::<(Seq<char>, SpecJson)>::empty());
            } else {
                assert(jser_members(ms)[0] == '"');
                assert(inner[0] == '"');
                assert(skip_ws(inner) == inner);
                assert(inner[0] != '}');
                assert(inner.len() < s.len());
                lemma_members_of_jser(ms, rest);
            }
        }
    }
}

/// Serialized array elements followed by the closing bracket parse back as
/// exactly those elements.
pub proof fn lemma_elems_of_jser(els: Seq<SpecJson>, rest: Seq<char>)
    requires
        els.len() > 0,
        rest.len() == 0 || !is_digit(rest[0]),
    ensures
        sp_elems(jser_elems(els) + (seq![']'] + rest)) == Some((els, rest)),
    decreases els, 1int,
{
    let s = jser_elems(els) + (seq![']'] + rest);
    assert(decreases_to!(els => els[0]));
    if els.len() == 1 {
        let after = seq![']'] + rest;
        assert(s =~= jser(els[0]) + after);
        assert(after[0] == ']');
        assert(!is_digit(after[0]));
        lemma_parse_of_jser(els[0], after);
        assert(skip_ws(after) == after);
        assert(after.drop_first() =~= rest);
        assert(seq![els[0]] =~= els);
    } else {
        let tail = els.drop_first();
        let mid = seq![','] + (jser_elems(tail) + (seq![']'] + rest));
        assert(s =~= jser(els[0]) + mid);
        assert(mid[0] == ',');
        assert(!is_digit(mid[0]));
        lemma_parse_of_jser(els[0], mid);
        assert(skip_ws(mid) == mid);
        assert(mid.drop_first() =~= jser_elems(tail) + (seq![']'] + rest));
        lemma_jser_first(tail[0]);
        assert(jser_elems(tail)[0] == jser(tail[0])[0]);
        assert(mid.drop_first()[0] == jser(tail[0])[0]);
        assert(skip_ws(mid.drop_first()) == mid.drop_first());
        lemma_jser_first(els[0]);
        assert(mid.drop_first().len() < s.len());
        lemma_elems_of_jser(tail, rest);
        assert(seq![els[0]] + tail =~= els);
    }
}

/// Serialized object members followed by the closing brace parse back as
/// exactly those members.
#[verifier::rlimit(100)]
#[verifier::spinoff_prover]
pub proof fn lemma_members_of_jser(ms: Seq<(Seq<char>, SpecJson)>, rest: Seq<char>)
    requires
        ms.len() > 0,
        rest.len() == 0 || !is_digit(rest[0]),
    ensures
        sp_members(jser_members(ms) + (seq!['}'] + rest)) == Some((ms, rest)),
    decreases ms, 1int,
{
    let k = ms[0].0;
    let v = ms[0].1;
    let s = jser_members(ms) + (seq!['}'] + rest);
    assert(decreases_to!(ms => ms[0]));
    assert(decreases_to!(ms[0] => ms[0].1));
    let after = if ms.len() == 1 {
        seq!['}'] + rest
    } else {
        seq![','] + (jser_members(ms.drop_first()) + (seq!['}'] + rest))
    };
    let tail2 = seq![':'] + (jser(v) + after);
    assert(s =~= seq!['"'] + (escape(k) + (seq!['"'] + tail2)));
    assert(s[0] == '"');
    assert(s.drop_first() =~= escape(k) + (seq!['"'] + tail2));
    lemma_sp_str_body_of_escape(k, tail2);
    assert(sp_string(s) == Some((k, tail2)));
    assert(tail2[0] == ':');
    assert(skip_ws(tail2) == tail2);
    let r3 = tail2.drop_first();
    assert(r3 =~= jser(v) + after);
    lemma_jser_first(v);
    assert(r3[0] == jser(v)[0]);
    assert(skip_ws(r3) == r3);
    assert(r3.len() < s.len());
    if ms.len() == 1 {
        assert(after[0] == '}');
        assert(!is_digit(after[0]));
        lemma_parse_of_jser(v, after);
        assert(skip_ws(after) == after);
        assert(after.drop_first() =~= rest);
        assert((k, v) == ms[0]);
        assert(seq![ms[0]] =~= ms);
    } else {
        let tail = ms.drop_first();
        assert(after[0] == ',');
        assert(!is_digit(after[0]));
        lemma_parse_of_jser(v, after);
        assert(skip_ws(after) == after);
        assert(after.drop_first() =~= jser_members(tail) + (seq!['}'] + rest));
        assert(jser_members(tail)[0] == '"');
        assert(after.drop_first()[0] == '"');
        assert(skip_ws(after.drop_first()) == after.drop_first());
        assert(after.drop_first().len() < s.len());
        lemma_members_of_jser(tail, rest);
        assert((k, v) == ms[0]);
        assert(seq![ms[0]] + tail =~= ms);
    }
}

/// A serialized document parses back as exactly the original document.
pub proof fn lemma_doc_round_trip(j: SpecJson)
    ensures
        sp_doc(jser(j)) == Some(j),
{
    lemma_jser_first(j);
    assert(skip_ws(jser(j)) == jser(j));
    lemma_parse_of_jser(j, Seq::empty());
    assert(jser(j) + Seq::<char>::empty() =~= jser(j));
    assert(skip_ws(Seq::<char>::empty()).len() == 0);
}

/// The serialized form of a document, exactly [`jser`] of its model.
pub fn write_json(v: &JsonValue) -> (r: String)
    ensures
        r@ == jser(v@),
{
    let mut out = String::from_str("");
    proof {
        reveal_strlit("");
    }
    write_value(v, &mut out);
    assert(out@ =~= jser(v@));
    out
}

} // verus!
