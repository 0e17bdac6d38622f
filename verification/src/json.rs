//! The JSON document model: the value type that headers and bodies
//! carry, and its mathematical view.

use vstd::prelude::*;

use crate::text::{digit_char, push_char, spec_digits, str_eq, write_digits};

verus! {

broadcast use vstd::std_specs::vec::axiom_vec_index_decreases, vstd::seq::group_seq_axioms;

/// A JSON value as carried inside protocol messages. Numbers are
/// integers: the wire grammar of this protocol does not use fractions
/// or exponents.
pub enum JsonValue {
    Null,
    Bool(bool),
    Int(i64),
    Str(String),
    Arr(Vec<JsonValue>),
    Obj(Vec<(String, JsonValue)>),
}

/// The mathematical shape of a `JsonValue`.
pub enum JsonVal {
    Null,
    Bool(bool),
    Int(int),
    Str(Seq<char>),
    Arr(Seq<JsonVal>),
    Obj(Seq<(Seq<char>, JsonVal)>),
}

/// The view of the elements of `items` from index `i` on.
pub open spec fn view_arr_from(items: Vec<JsonValue>, i: int) -> Seq<JsonVal>
    decreases items, items@.len() - i + 1int,
{
    if i < 0 || i >= items@.len() {
        Seq::empty()
    } else {
        seq![view_val(items[i])] + view_arr_from(items, i + 1)
    }
}

/// The view of the entries of `entries` from index `i` on.
pub open spec fn view_obj_from(entries: Vec<(String, JsonValue)>, i: int) -> Seq<
    (Seq<char>, JsonVal),
>
    decreases entries, entries@.len() - i + 1int,
{
    if i < 0 || i >= entries@.len() {
        Seq::empty()
    } else {
        seq![(entries[i].0@, view_val(entries[i].1))] + view_obj_from(entries, i + 1)
    }
}

/// The view of one value.
pub open spec fn view_val(v: JsonValue) -> JsonVal
    decreases v, 0int,
{
    match v {
        JsonValue::Null => JsonVal::Null,
        JsonValue::Bool(b) => JsonVal::Bool(b),
        JsonValue::Int(i) => JsonVal::Int(i as int),
        JsonValue::Str(s) => JsonVal::Str(s@),
        JsonValue::Arr(items) => JsonVal::Arr(view_arr_from(items, 0)),
        JsonValue::Obj(entries) => JsonVal::Obj(view_obj_from(entries, 0)),
    }
}

impl View for JsonValue {
    type V = JsonVal;

    open spec fn view(&self) -> JsonVal {
        view_val(*self)
    }
}

/// `view_arr_from` walks the vector element by element.
pub proof fn lemma_view_arr_from(items: Vec<JsonValue>, i: int)
    requires
        0 <= i <= items@.len(),
    ensures
        view_arr_from(items, i).len() == items@.len() - i,
        forall|j: int|
            0 <= j < items@.len() - i ==> view_arr_from(items, i)[j] == view_val(items[i + j]),
    decreases items@.len() - i,
{
    if i < items@.len() {
        lemma_view_arr_from(items, i + 1);
    }
}

/// `view_obj_from` walks the vector entry by entry.
pub proof fn lemma_view_obj_from(entries: Vec<(String, JsonValue)>, i: int)
    requires
        0 <= i <= entries@.len(),
    ensures
        view_obj_from(entries, i).len() == entries@.len() - i,
        forall|j: int|
            0 <= j < entries@.len() - i ==> view_obj_from(entries, i)[j] == (
            entries[i + j].0@,
            view_val(entries[i + j].1),
            ),
    decreases entries@.len() - i,
{
    if i < entries@.len() {
        lemma_view_obj_from(entries, i + 1);
    }
}

/// Pushing an element extends the array view by its view.
pub proof fn lemma_view_arr_push(v1: Vec<JsonValue>, v2: Vec<JsonValue>, e: JsonValue)
    requires
        v2@ == v1@.push(e),
    ensures
        view_arr_from(v2, 0) == view_arr_from(v1, 0).push(view_val(e)),
{
    lemma_view_arr_from(v1, 0);
    lemma_view_arr_from(v2, 0);
    assert(view_arr_from(v2, 0) =~= view_arr_from(v1, 0).push(view_val(e)));
}

/// Pushing an entry extends the object view by its view.
pub proof fn lemma_view_obj_push(
    v1: Vec<(String, JsonValue)>,
    v2: Vec<(String, JsonValue)>,
    e: (String, JsonValue),
)
    requires
        v2@ == v1@.push(e),
    ensures
        view_obj_from(v2, 0) == view_obj_from(v1, 0).push((e.0@, view_val(e.1))),
{
    lemma_view_obj_from(v1, 0);
    lemma_view_obj_from(v2, 0);
    assert(view_obj_from(v2, 0) =~= view_obj_from(v1, 0).push((e.0@, view_val(e.1))));
}

/// Updating an entry updates the object view pointwise.
pub proof fn lemma_view_obj_update(
    v1: Vec<(String, JsonValue)>,
    v2: Vec<(String, JsonValue)>,
    i: int,
    e: (String, JsonValue),
)
    requires
        0 <= i < v1@.len(),
        v2@ == v1@.update(i, e),
    ensures
        view_obj_from(v2, 0) == view_obj_from(v1, 0).update(i, (e.0@, view_val(e.1))),
{
    lemma_view_obj_from(v1, 0);
    lemma_view_obj_from(v2, 0);
    assert(view_obj_from(v2, 0) =~= view_obj_from(v1, 0).update(i, (e.0@, view_val(e.1))));
}

/// The position of the first entry stored under `key`.
pub open spec fn spec_find_key(es: Seq<(Seq<char>, JsonVal)>, key: Seq<char>) -> Option<int>
    decreases es.len(),
{
    if es.len() == 0 {
        None
    } else if es[0].0 == key {
        Some(0int)
    } else {
        match spec_find_key(es.drop_first(), key) {
            Some(i) => Some(i + 1),
            None => None,
        }
    }
}

/// What the first-match position means.
pub proof fn lemma_find_key(es: Seq<(Seq<char>, JsonVal)>, key: Seq<char>)
    ensures
        match spec_find_key(es, key) {
            Some(i) => 0 <= i < es.len() && es[i].0 == key && (forall|j: int|
                0 <= j < i ==> (#[trigger] es[j]).0 != key),
            None => forall|j: int| 0 <= j < es.len() ==> (#[trigger] es[j]).0 != key,
        },
    decreases es.len(),
{
    if es.len() > 0 && es[0].0 != key {
        lemma_find_key(es.drop_first(), key);
        match spec_find_key(es.drop_first(), key) {
            Some(i) => {
                assert(es.drop_first()[i] == es[i + 1]);
                assert forall|j: int| 0 <= j < i + 1 implies (#[trigger] es[j]).0 != key by {
                    if j > 0 {
                        assert(es.drop_first()[j - 1] == es[j]);
                    }
                }
            },
            None => {
                assert forall|j: int| 0 <= j < es.len() implies (#[trigger] es[j]).0 != key by {
                    if j > 0 {
                        assert(es.drop_first()[j - 1] == es[j]);
                    }
                }
            },
        }
    }
}

/// Binding a key: the entry the key already has is replaced, else a new
/// entry is appended — the last write wins.
pub open spec fn spec_set_entry(
    es: Seq<(Seq<char>, JsonVal)>,
    key: Seq<char>,
    v: JsonVal,
) -> Seq<(Seq<char>, JsonVal)> {
    match spec_find_key(es, key) {
        Some(i) => es.update(i, (key, v)),
        None => es.push((key, v)),
    }
}

/// Replaces or appends the entry for `key`.
pub fn set_entry(entries: &mut Vec<(String, JsonValue)>, key: String, value: JsonValue)
    ensures
        view_obj_from(*final (entries), 0) == spec_set_entry(
            view_obj_from(*old(entries), 0),
            key@,
            view_val(value),
        ),
{
    let ghost es0 = view_obj_from(*entries, 0);
    proof {
        lemma_view_obj_from(*entries, 0);
    }
    let mut i: usize = 0;
    while i < entries.len()
        invariant
            i <= entries@.len(),
            *entries == *old(entries),
            es0 == view_obj_from(*entries, 0),
            es0.len() == entries@.len(),
            forall|j: int| 0 <= j < es0.len() ==> es0[j] == (entries[j].0@, view_val(entries[j].1)),
            forall|j: int| 0 <= j < i ==> (#[trigger] es0[j]).0 != key@,
        decreases entries@.len() - i,
    {
        if str_eq(entries[i].0.as_str(), key.as_str()) {
            proof {
                lemma_find_key(es0, key@);
                match spec_find_key(es0, key@) {
                    Some(ix) => {
                        if ix < i {
                            assert((es0[ix]).0 != key@);
                        } else if ix > i {
                            assert((es0[i as int]).0 != key@);
                        }
                    },
                    None => {
                        assert((es0[i as int]).0 != key@);
                    },
                }
            }
            let e = (key, value);
            let ghost ge = e;
            let ghost pre = *entries;
            entries[i] = e;
            proof {
                lemma_view_obj_update(pre, *entries, i as int, ge);
            }
            return ;
        }
        i += 1;
    }
    proof {
        lemma_find_key(es0, key@);
        match spec_find_key(es0, key@) {
            Some(ix) => {
                assert((es0[ix]).0 != key@);
            },
            None => {},
        }
    }
    let e = (key, value);
    let ghost ge = e;
    let ghost pre = *entries;
    entries.push(e);
    proof {
        lemma_view_obj_push(pre, *entries, ge);
    }
}

// ---------------------------------------------------------------------
// The canonical text form: serialization.
// ---------------------------------------------------------------------
/// The escape sequence a character stands as inside a string literal:
/// quote and backslash are escaped, control characters become
/// `\u00XX`, and every other character stands for itself.
pub open spec fn esc_char(c: char) -> Seq<char> {
    if c == '"' {
        seq!['\\', '"']
    } else if c == '\\' {
        seq!['\\', '\\']
    } else if (c as u32) < 32 {
        seq!['\\', 'u', '0', '0', hex_char(c as u32 as int / 16), hex_char(c as u32 as int % 16)]
    } else {
        seq![c]
    }
}

/// The character for one hexadecimal digit (lower case).
pub open spec fn hex_char(d: int) -> char {
    if d < 10 {
        digit_char(d)
    } else {
        ((87 + d) as u8) as char
    }
}

/// The text form of a string's characters, escaped.
pub open spec fn ser_str(s: Seq<char>) -> Seq<char>
    decreases s.len(),
{
    if s.len() == 0 {
        Seq::empty()
    } else {
        esc_char(s[0]) + ser_str(s.drop_first())
    }
}

/// The text form of an integer.
pub open spec fn ser_int(i: int) -> Seq<char> {
    if i < 0 {
        seq!['-'] + spec_digits(-i)
    } else {
        spec_digits(i)
    }
}

/// The canonical text form of a value.
pub open spec fn ser_val(v: JsonVal) -> Seq<char>
    decreases v, 0int,
{
    match v {
        JsonVal::Null => seq!['n', 'u', 'l', 'l'],
        JsonVal::Bool(b) => if b {
            seq!['t', 'r', 'u', 'e']
        } else {
            seq!['f', 'a', 'l', 's', 'e']
        },
        JsonVal::Int(i) => ser_int(i),
        JsonVal::Str(s) => seq!['"'] + ser_str(s) + seq!['"'],
        JsonVal::Arr(items) => seq!['['] + ser_items(items, 0) + seq![']'],
        JsonVal::Obj(entries) => seq!['{'] + ser_entries(entries, 0) + seq!['}'],
    }
}

/// The text form of the elements of `items` from `i` on, joined by
/// commas.
pub open spec fn ser_items(items: Seq<JsonVal>, i: int) -> Seq<char>
    decreases items, items.len() - i + 1int,
{
    if i < 0 || i >= items.len() {
        Seq::empty()
    } else if i + 1 == items.len() {
        ser_val(items[i])
    } else {
        ser_val(items[i]) + seq![','] + ser_items(items, i + 1)
    }
}

/// The text form of the entries of `entries` from `i` on, joined by
/// commas.
pub open spec fn ser_entries(entries: Seq<(Seq<char>, JsonVal)>, i: int) -> Seq<char>
    decreases entries, entries.len() - i + 1int,
{
    if i < 0 || i >= entries.len() {
        Seq::empty()
    } else {
        let e = seq!['"'] + ser_str(entries[i].0) + seq!['"', ':'] + ser_val(entries[i].1);
        if i + 1 == entries.len() {
            e
        } else {
            e + seq![','] + ser_entries(entries, i + 1)
        }
    }
}

/// Escaping distributes over concatenation.
pub proof fn lemma_ser_str_concat(a: Seq<char>, b: Seq<char>)
    ensures
        ser_str(a + b) == ser_str(a) + ser_str(b),
    decreases a.len(),
{
    if a.len() == 0 {
        assert(a + b =~= b);
        assert(ser_str(a) + ser_str(b) =~= ser_str(b));
    } else {
        lemma_ser_str_concat(a.drop_first(), b);
        assert((a + b).drop_first() =~= a.drop_first() + b);
        assert(ser_str(a + b) =~= ser_str(a) + ser_str(b));
    }
}

/// Appends the escaped form of `s` to `out`.
pub fn write_escaped(out: &mut String, s: &str)
    ensures
        final (out)@ == old(out)@ + ser_str(s@),
{
    let cs = crate::text::chars_of(s);
    let mut p: usize = 0;
    while p < cs.len()
        invariant
            p <= cs@.len(),
            cs@ == s@,
            out@ == old(out)@ + ser_str(s@.subrange(0, p as int)),
        decreases cs@.len() - p,
    {
        let c = cs[p];
        let u = c as u32;
        if c == '"' {
            push_char(out, '\\');
            push_char(out, '"');
        } else if c == '\\' {
            push_char(out, '\\');
            push_char(out, '\\');
        } else if u < 32 {
            push_char(out, '\\');
            push_char(out, 'u');
            push_char(out, '0');
            push_char(out, '0');
            let hi = (u / 16) as u8;
            let lo = (u % 16) as u8;
            push_char(out, if hi < 10 { (48 + hi) as char } else { (87 + hi) as char });
            push_char(out, if lo < 10 { (48 + lo) as char } else { (87 + lo) as char });
        } else {
            push_char(out, c);
        }
        proof {
            lemma_ser_str_concat(s@.subrange(0, p as int), seq![s@[p as int]]);
            assert(s@.subrange(0, p as int) + seq![s@[p as int]] =~= s@.subrange(0, p + 1));
            reveal_with_fuel(ser_str, 2);
            assert(ser_str(seq![s@[p as int]]) =~= esc_char(s@[p as int]));
            assert(out@ =~= old(out)@ + ser_str(s@.subrange(0, p + 1)));
        }
        p += 1;
    }
    proof {
        assert(s@.subrange(0, s@.len() as int) =~= s@);
    }
}

/// Appends the text form of `i` to `out`.
pub fn write_int_chars(out: &mut String, i: i64)
    ensures
        final (out)@ == old(out)@ + ser_int(i as int),
{
    if i >= 0 {
        write_digits(out, i as u64);
    } else {
        push_char(out, '-');
        let m: u64 = (-(i as i128)) as u64;
        write_digits(out, m);
        proof {
            assert(old(out)@ + seq!['-'] + spec_digits(m as int) =~= old(out)@ + (seq!['-']
                + spec_digits(-(i as int))));
        }
    }
}

// ---------------------------------------------------------------------
// The canonical text form: parsing.
// ---------------------------------------------------------------------
/// Whether `c` is a decimal digit.
pub open spec fn is_digit(c: char) -> bool {
    48 <= c as u32 && c as u32 <= 57
}

/// The value of a decimal digit.
pub open spec fn digit_of(c: char) -> int {
    c as u32 - 48
}

/// Whether `c` is a lower-case hexadecimal digit.
pub open spec fn is_hex(c: char) -> bool {
    is_digit(c) || (97 <= c as u32 && c as u32 <= 102)
}

/// The value of a lower-case hexadecimal digit.
pub open spec fn hex_of(c: char) -> int {
    if is_digit(c) {
        digit_of(c)
    } else {
        c as u32 - 87
    }
}

/// How many consecutive digits stand at position `i`.
pub open spec fn digit_run(s: Seq<char>, i: int) -> int
    decreases s.len() - i,
{
    if i < 0 || i >= s.len() || !is_digit(s[i]) {
        0
    } else {
        1 + digit_run(s, i + 1)
    }
}

/// The value of the `n` digits at position `i`.
pub open spec fn run_value(s: Seq<char>, i: int, n: int) -> int
    decreases n,
{
    if n <= 0 {
        0
    } else {
        run_value(s, i, n - 1) * 10 + digit_of(s[i + n - 1])
    }
}

/// Parses an integer at position `i`: an optional minus sign, then
/// either a single `0` or a run of digits not starting with `0`, of at
/// most 19 digits and within the value range of 64-bit integers.
pub open spec fn parse_int(s: Seq<char>, i: int) -> Option<(JsonVal, int)> {
    let neg = 0 <= i < s.len() && s[i] == '-';
    let d0 = if neg {
        i + 1
    } else {
        i
    };
    if d0 < 0 || d0 >= s.len() || !is_digit(s[d0]) {
        None
    } else {
        let n = if s[d0] == '0' {
            1int
        } else {
            digit_run(s, d0)
        };
        if n > 19 {
            None
        } else {
            let v = run_value(s, d0, n);
            if !neg && v > 0x7fff_ffff_ffff_ffff {
                None
            } else if neg && v > 0x8000_0000_0000_0000 {
                None
            } else {
                Some((JsonVal::Int(if neg { -v } else { v }), d0 + n))
            }
        }
    }
}

/// Prepends a parsed character to a parsed string tail.
pub open spec fn cons_str(c: char, r: Option<(Seq<char>, int)>) -> Option<(Seq<char>, int)> {
    match r {
        Some((cs, j)) => Some((seq![c] + cs, j)),
        None => None,
    }
}

/// Parses the characters of a string literal after its opening quote,
/// up to and including the closing quote. Quote and backslash must be
/// escaped, `\u00XX` names a character by code, and raw control
/// characters are refused.
pub open spec fn parse_str_body(s: Seq<char>, i: int) -> Option<(Seq<char>, int)>
    decreases s.len() - i,
{
    if i < 0 || i >= s.len() {
        None
    } else if s[i] == '"' {
        Some((Seq::empty(), i + 1))
    } else if s[i] == '\\' {
        if i + 1 >= s.len() {
            None
        } else if s[i + 1] == '"' {
            cons_str('"', parse_str_body(s, i + 2))
        } else if s[i + 1] == '\\' {
            cons_str('\\', parse_str_body(s, i + 2))
        } else if s[i + 1] == 'u' {
            if i + 6 > s.len() {
                None
            } else if s[i + 2] == '0' && s[i + 3] == '0' && is_hex(s[i + 4]) && is_hex(s[i + 5]) {
                cons_str(
                    ((16 * hex_of(s[i + 4]) + hex_of(s[i + 5])) as u8) as char,
                    parse_str_body(s, i + 6),
                )
            } else {
                None
            }
        } else {
            None
        }
    } else if (s[i] as u32) < 32 {
        None
    } else {
        cons_str(s[i], parse_str_body(s, i + 1))
    }
}

/// Parses one value at position `i` and yields the position after it.
pub open spec fn parse_val(s: Seq<char>, i: int) -> Option<(JsonVal, int)>
    decreases s.len() - i, 2int,
{
    if i < 0 || i >= s.len() {
        None
    } else if s[i] == 'n' {
        if i + 4 <= s.len() && s[i + 1] == 'u' && s[i + 2] == 'l' && s[i + 3] == 'l' {
            Some((JsonVal::Null, i + 4))
        } else {
            None
        }
    } else if s[i] == 't' {
        if i + 4 <= s.len() && s[i + 1] == 'r' && s[i + 2] == 'u' && s[i + 3] == 'e' {
            Some((JsonVal::Bool(true), i + 4))
        } else {
            None
        }
    } else if s[i] == 'f' {
        if i + 5 <= s.len() && s[i + 1] == 'a' && s[i + 2] == 'l' && s[i + 3] == 's' && s[i + 4]
            == 'e' {
            Some((JsonVal::Bool(false), i + 5))
        } else {
            None
        }
    } else if s[i] == '"' {
        match parse_str_body(s, i + 1) {
            Some((cs, j)) => Some((JsonVal::Str(cs), j)),
            None => None,
        }
    } else if s[i] == '[' {
        if i + 1 < s.len() && s[i + 1] == ']' {
            Some((JsonVal::Arr(Seq::empty()), i + 2))
        } else {
            match parse_items(s, i + 1) {
                Some((vs, j)) => Some((JsonVal::Arr(vs), j)),
                None => None,
            }
        }
    } else if s[i] == '{' {
        if i + 1 < s.len() && s[i + 1] == '}' {
            Some((JsonVal::Obj(Seq::empty()), i + 2))
        } else {
            match parse_entries(s, i + 1) {
                Some((es, j)) => Some((JsonVal::Obj(es), j)),
                None => None,
            }
        }
    } else if s[i] == '-' || is_digit(s[i]) {
        parse_int(s, i)
    } else {
        None
    }
}

/// Parses one or more comma-separated values at position `i`, up to and
/// including the closing bracket.
pub open spec fn parse_items(s: Seq<char>, i: int) -> Option<(Seq<JsonVal>, int)>
    decreases s.len() - i, 3int,
{
    if i < 0 || i >= s.len() {
        None
    } else {
        match parse_val(s, i) {
            None => None,
            Some((v, j)) => if j <= i || j >= s.len() {
                None
            } else if s[j] == ',' {
                match parse_items(s, j + 1) {
                    Some((vs, k)) => Some((seq![v] + vs, k)),
                    None => None,
                }
            } else if s[j] == ']' {
                Some((seq![v], j + 1))
            } else {
                None
            },
        }
    }
}

/// Parses one or more comma-separated `"key":value` entries at position
/// `i`, up to and including the closing brace.
pub open spec fn parse_entries(s: Seq<char>, i: int) -> Option<(Seq<(Seq<char>, JsonVal)>, int)>
    decreases s.len() - i, 3int,
{
    if i < 0 || i >= s.len() {
        None
    } else if s[i] != '"' {
        None
    } else {
        match parse_str_body(s, i + 1) {
            None => None,
            Some((key, j)) => if j <= i + 1 || j >= s.len() {
                None
            } else if s[j] != ':' {
                None
            } else {
                match parse_val(s, j + 1) {
                    None => None,
                    Some((v, k)) => if k <= j + 1 || k >= s.len() {
                        None
                    } else if s[k] == ',' {
                        match parse_entries(s, k + 1) {
                            Some((es, m)) => Some((seq![(key, v)] + es, m)),
                            None => None,
                        }
                    } else if s[k] == '}' {
                        Some((seq![(key, v)], k + 1))
                    } else {
                        None
                    },
                }
            },
        }
    }
}

/// Parses a whole text as one value: the value must span the text.
pub open spec fn spec_parse_text(s: Seq<char>) -> Option<JsonVal> {
    match parse_val(s, 0) {
        Some((v, j)) => if j == s.len() {
            Some(v)
        } else {
            None
        },
        None => None,
    }
}

/// Powers of ten.
pub open spec fn pow10(n: int) -> int
    decreases n,
{
    if n <= 0 {
        1
    } else {
        10 * pow10(n - 1)
    }
}

// ---------------------------------------------------------------------
// Round trip: parsing the canonical text form gives the value back.
// ---------------------------------------------------------------------
/// A value the canonical text form can carry exactly: every integer in
/// it fits in 64 bits.
pub open spec fn wf_val(v: JsonVal) -> bool
    decreases v, 0int,
{
    match v {
        JsonVal::Int(i) => -0x8000_0000_0000_0000 <= i <= 0x7fff_ffff_ffff_ffff,
        JsonVal::Arr(items) => wf_items(items, 0),
        JsonVal::Obj(entries) => wf_entries(entries, 0),
        _ => true,
    }
}

/// All elements from `i` on are well-formed.
pub open spec fn wf_items(items: Seq<JsonVal>, i: int) -> bool
    decreases items, items.len() - i + 1int,
{
    if i < 0 || i >= items.len() {
        true
    } else {
        wf_val(items[i]) && wf_items(items, i + 1)
    }
}

/// All entry values from `i` on are well-formed.
pub open spec fn wf_entries(entries: Seq<(Seq<char>, JsonVal)>, i: int) -> bool
    decreases entries, entries.len() - i + 1int,
{
    if i < 0 || i >= entries.len() {
        true
    } else {
        wf_val(entries[i].1) && wf_entries(entries, i + 1)
    }
}

/// The view of every `JsonValue` is well-formed.
pub proof fn lemma_view_wf(v: JsonValue)
    ensures
        wf_val(view_val(v)),
    decreases v, 0int,
{
    match v {
        JsonValue::Arr(items) => {
            lemma_view_wf_items(items, 0);
        },
        JsonValue::Obj(entries) => {
            lemma_view_wf_entries(entries, 0);
        },
        _ => {},
    }
}

proof fn lemma_view_wf_items(items: Vec<JsonValue>, k: int)
    requires
        0 <= k <= items@.len(),
    ensures
        wf_items(view_arr_from(items, 0), k),
    decreases items, items@.len() - k + 1int,
{
    lemma_view_arr_from(items, 0);
    if k < items@.len() {
        lemma_view_wf(items[k]);
        lemma_view_wf_items(items, k + 1);
    }
}

proof fn lemma_view_wf_entries(entries: Vec<(String, JsonValue)>, k: int)
    requires
        0 <= k <= entries@.len(),
    ensures
        wf_entries(view_obj_from(entries, 0), k),
    decreases entries, entries@.len() - k + 1int,
{
    lemma_view_obj_from(entries, 0);
    if k < entries@.len() {
        lemma_view_wf(entries[k].1);
        lemma_view_wf_entries(entries, k + 1);
    }
}

/// Elementwise reading of `wf_entries`.
pub proof fn lemma_wf_entries_index(entries: Seq<(Seq<char>, JsonVal)>, k: int)
    requires
        0 <= k <= entries.len(),
    ensures
        wf_entries(entries, k) <==> (forall|j: int|
            k <= j < entries.len() ==> wf_val(#[trigger] entries[j].1)),
    decreases entries.len() - k,
{
    if k < entries.len() {
        lemma_wf_entries_index(entries, k + 1);
    }
}

/// The character of a digit is a digit character and decodes back.
pub proof fn lemma_digit_char(d: int)
    requires
        0 <= d <= 9,
    ensures
        is_digit(digit_char(d)),
        digit_of(digit_char(d)) == d,
        digit_char(d) != '-',
        (digit_char(d) == '0') == (d == 0),
{
    assert(digit_char(d) as u32 == 48 + d);
}

/// The character of a hexadecimal digit decodes back.
pub proof fn lemma_hex_char(d: int)
    requires
        0 <= d < 16,
    ensures
        is_hex(hex_char(d)),
        hex_of(hex_char(d)) == d,
{
    if d < 10 {
        lemma_digit_char(d);
    } else {
        assert(hex_char(d) as u32 == 87 + d);
    }
}

/// The decimal digits of a non-negative integer: never empty, all digit
/// characters, and without a leading zero unless the number is zero.
pub proof fn lemma_digits_shape(n: int)
    requires
        0 <= n,
    ensures
        spec_digits(n).len() >= 1,
        forall|j: int| 0 <= j < spec_digits(n).len() ==> is_digit(#[trigger] spec_digits(n)[j]),
        n >= 1 ==> spec_digits(n)[0] != '0',
        n == 0 ==> spec_digits(n) == seq!['0'],
        n < 10 ==> spec_digits(n).len() == 1,
    decreases n,
{
    if n < 10 {
        lemma_digit_char(n);
        if n == 0 {
            assert(digit_char(0) as u32 == 48);
            assert(spec_digits(0) =~= seq!['0']);
        }
    } else {
        lemma_digits_shape(n / 10);
        lemma_digit_char(n % 10);
        let a = spec_digits(n / 10);
        let b = seq![digit_char(n % 10)];
        assert(spec_digits(n) == a + b);
        assert(spec_digits(n)[0] == a[0]);
        assert forall|j: int| 0 <= j < spec_digits(n).len() implies is_digit(
            #[trigger] spec_digits(n)[j],
        ) by {
            if j < a.len() {
                assert(spec_digits(n)[j] == a[j]);
            } else {
                assert(spec_digits(n)[j] == digit_char(n % 10));
            }
        }
    }
}

/// A number below the `k`-th power of ten has at most `k` digits.
pub proof fn lemma_digits_len_le(n: int, k: int)
    requires
        0 <= n,
        1 <= k,
        n < pow10(k),
    ensures
        spec_digits(n).len() <= k,
    decreases n,
{
    if n >= 10 {
        assert(pow10(k) == 10 * pow10(k - 1));
        if k == 1 {
            assert(pow10(0) == 1);
            assert(false);
        }
        lemma_digits_len_le(n / 10, k - 1);
    }
}

/// A maximal digit run has exactly the length of its digits.
pub proof fn lemma_digit_run_exact(s: Seq<char>, i: int, l: int)
    requires
        0 <= i,
        0 <= l,
        i + l <= s.len(),
        forall|j: int| 0 <= j < l ==> is_digit(#[trigger] s[i + j]),
        i + l == s.len() || !is_digit(s[i + l]),
    ensures
        digit_run(s, i) == l,
    decreases l,
{
    if l == 0 {
    } else {
        assert(is_digit(s[i + 0]));
        assert forall|j: int| 0 <= j < l - 1 implies is_digit(#[trigger] s[i + 1 + j]) by {
            assert(is_digit(s[i + (j + 1)]));
        }
        lemma_digit_run_exact(s, i + 1, l - 1);
    }
}

/// Reading back the digits of `n` yields `n`.
pub proof fn lemma_run_value_digits(n: int, s: Seq<char>, i: int)
    requires
        0 <= n,
        0 <= i,
        i + spec_digits(n).len() <= s.len(),
        s.subrange(i, i + spec_digits(n).len() as int) == spec_digits(n),
    ensures
        run_value(s, i, spec_digits(n).len() as int) == n,
    decreases n,
{
    let d = spec_digits(n);
    let l = d.len() as int;
    assert forall|j: int| 0 <= j < l implies s[i + j] == d[j] by {
        assert(s.subrange(i, i + l)[j] == s[i + j]);
    }
    if n < 10 {
        lemma_digit_char(n);
        assert(run_value(s, i, 1) == run_value(s, i, 0) * 10 + digit_of(s[i]));
        assert(s.subrange(i, i + l)[0] == s[i]);
        assert(s[i] == digit_char(n));
    } else {
        lemma_digits_shape(n / 10);
        lemma_digit_char(n % 10);
        let a = spec_digits(n / 10);
        assert(spec_digits(n) == a + seq![digit_char(n % 10)]);
        assert(s.subrange(i, i + a.len() as int) =~= a);
        lemma_run_value_digits(n / 10, s, i);
        assert(s[i + l - 1] == d[l - 1]);
        assert(d[l - 1] == digit_char(n % 10));
        assert(run_value(s, i, l) == run_value(s, i, l - 1) * 10 + digit_of(s[i + l - 1]));
    }
}

/// Characters that can open a value's text form.
pub open spec fn starts_value(c: char) -> bool {
    c == 'n' || c == 't' || c == 'f' || c == '"' || c == '[' || c == '{' || c == '-' || is_digit(c)
}

/// A value's text form is never empty and opens with a value character.
pub proof fn lemma_ser_val_first(v: JsonVal)
    ensures
        ser_val(v).len() >= 1,
        starts_value(ser_val(v)[0]),
{
    match v {
        JsonVal::Int(i) => {
            if i < 0 {
                lemma_digits_shape(-i);
                assert(ser_val(v)[0] == '-');
            } else {
                lemma_digits_shape(i);
                assert(ser_val(v)[0] == spec_digits(i)[0]);
            }
        },
        _ => {},
    }
}

/// Parsing the text form of an integer yields the integer.
pub proof fn lemma_parse_int_ser(iv: int, s: Seq<char>, i: int)
    requires
        -0x8000_0000_0000_0000 <= iv <= 0x7fff_ffff_ffff_ffff,
        0 <= i,
        i + ser_int(iv).len() <= s.len(),
        s.subrange(i, i + ser_int(iv).len() as int) == ser_int(iv),
        i + ser_int(iv).len() == s.len() || !is_digit(s[i + ser_int(iv).len()]),
    ensures
        parse_int(s, i) == Some((JsonVal::Int(iv), i + ser_int(iv).len() as int)),
{
    let ser = ser_int(iv);
    let l = ser.len() as int;
    assert forall|j: int| 0 <= j < l implies s[i + j] == ser[j] by {
        assert(s.subrange(i, i + l)[j] == s[i + j]);
    }
    reveal_with_fuel(pow10, 21);
    assert(s.subrange(i, i + l)[0] == s[i]);
    if iv >= 0 {
        lemma_digits_shape(iv);
        assert(s[i] == spec_digits(iv)[0]);
        assert(is_digit(s[i]));
        assert(s[i] != '-') by {
            assert(s[i] as u32 >= 48);
        }
        if iv == 0 {
            assert(s[i] == '0');
            assert(run_value(s, i, 1) == run_value(s, i, 0) * 10 + digit_of(s[i]));
            lemma_digit_char(0);
        } else {
            assert(s[i] != '0');
            assert forall|j: int| 0 <= j < l implies is_digit(#[trigger] s[i + j]) by {
                assert(s[i + j] == spec_digits(iv)[j]);
            }
            lemma_digit_run_exact(s, i, l);
            lemma_digits_len_le(iv, 19);
            lemma_run_value_digits(iv, s, i);
        }
    } else {
        let m = -iv;
        lemma_digits_shape(m);
        assert(s[i] == '-');
        assert(spec_digits(m) =~= ser.subrange(1, l));
        assert forall|j: int| 0 <= j < l - 1 implies s[i + 1 + j] == spec_digits(m)[j] by {
            assert(s[i + (j + 1)] == ser[j + 1]);
        }
        assert(s[i + 1 + 0] == spec_digits(m)[0]);
        assert(is_digit(s[i + 1]));
        assert(s[i + 1] != '0');
        assert forall|j: int| 0 <= j < l - 1 implies is_digit(#[trigger] s[(i + 1) + j]) by {
            assert(s[i + 1 + j] == spec_digits(m)[j]);
        }
        lemma_digit_run_exact(s, i + 1, l - 1);
        lemma_digits_len_le(m, 19);
        assert(s.subrange(i + 1, i + 1 + (l - 1)) =~= spec_digits(m));
        lemma_run_value_digits(m, s, i + 1);
    }
}

/// Parsing the escaped text of a string body, through the closing
/// quote, yields the characters back.
pub proof fn lemma_parse_ser_str(cs: Seq<char>, s: Seq<char>, i: int)
    requires
        0 <= i,
        i + ser_str(cs).len() + 1 <= s.len(),
        s.subrange(i, i + ser_str(cs).len() as int) == ser_str(cs),
        s[i + ser_str(cs).len()] == '"',
    ensures
        parse_str_body(s, i) == Some((cs, i + ser_str(cs).len() + 1)),
    decreases cs.len(),
{
    let l = ser_str(cs).len() as int;
    assert forall|j: int| 0 <= j < l implies s[i + j] == ser_str(cs)[j] by {
        assert(s.subrange(i, i + l)[j] == s[i + j]);
    }
    if cs.len() == 0 {
        assert(s[i] == '"');
    } else {
        let c = cs[0];
        let e = esc_char(c);
        let rest = cs.drop_first();
        assert(ser_str(cs) == e + ser_str(rest));
        let el = e.len() as int;
        assert forall|j: int| 0 <= j < el implies s[i + j] == e[j] by {
            assert(ser_str(cs)[j] == e[j]);
        }
        assert(s.subrange(i + el, i + el + ser_str(rest).len() as int) =~= ser_str(rest)) by {
            assert forall|j: int| 0 <= j < ser_str(rest).len() implies s[i + el + j] == ser_str(
                rest,
            )[j] by {
                assert(s[i + (el + j)] == ser_str(cs)[el + j]);
                assert(ser_str(cs)[el + j] == ser_str(rest)[j]);
            }
        }
        assert(s[(i + el) + ser_str(rest).len()] == '"');
        lemma_parse_ser_str(rest, s, i + el);
        assert(seq![c] + rest =~= cs);
        if c == '"' {
            assert(s[i] == '\\' && s[i + 1] == '"');
        } else if c == '\\' {
            assert(s[i] == '\\' && s[i + 1] == '\\');
        } else if (c as u32) < 32 {
            let u = c as u32 as int;
            lemma_hex_char(u / 16);
            lemma_hex_char(u % 16);
            assert(s[i] == '\\' && s[i + 1] == 'u' && s[i + 2] == '0' && s[i + 3] == '0');
            assert(s[i + 4] == hex_char(u / 16) && s[i + 5] == hex_char(u % 16));
            assert(16 * hex_of(s[i + 4]) + hex_of(s[i + 5]) == u);
            assert(((16 * hex_of(s[i + 4]) + hex_of(s[i + 5])) as u8) as char == c) by {
                assert((u as u8) as char as u32 == c as u32);
                vstd::utf8::char_u32_cast(c, c as u32);
                vstd::utf8::char_u32_cast((u as u8) as char, c as u32);
            }
        } else {
            assert(s[i] == c);
            assert(s[i] != '"' && s[i] != '\\' && !((s[i] as u32) < 32));
        }
    }
}

/// Parsing the canonical text form of a well-formed value, embedded at
/// position `i`, yields the value and stops right after it. The
/// character after the text form, if any, must not be a digit, so that
/// a trailing number is read whole.
#[verifier::rlimit(60)]
pub proof fn lemma_parse_ser_val(v: JsonVal, s: Seq<char>, i: int)
    requires
        wf_val(v),
        0 <= i,
        i + ser_val(v).len() <= s.len(),
        s.subrange(i, i + ser_val(v).len() as int) == ser_val(v),
        i + ser_val(v).len() == s.len() || !is_digit(s[i + ser_val(v).len()]),
    ensures
        parse_val(s, i) == Some((v, i + ser_val(v).len() as int)),
    decreases v, 0int,
{
    let ser = ser_val(v);
    let l = ser.len() as int;
    assert forall|j: int| 0 <= j < l implies s[i + j] == ser[j] by {
        assert(s.subrange(i, i + l)[j] == s[i + j]);
    }
    assert(s.subrange(i, i + l)[0] == s[i]);
    match v {
        JsonVal::Null => {
            assert(s[i] == 'n' && s[i + 1] == 'u' && s[i + 2] == 'l' && s[i + 3] == 'l');
            assert(parse_val(s, i) == Some((v, i + l)));
        },
        JsonVal::Bool(b) => {
            if b {
                assert(s[i] == 't' && s[i + 1] == 'r' && s[i + 2] == 'u' && s[i + 3] == 'e');
            } else {
                assert(s[i] == 'f' && s[i + 1] == 'a' && s[i + 2] == 'l' && s[i + 3] == 's' && s[i
                    + 4] == 'e');
            }
            assert(parse_val(s, i) == Some((v, i + l)));
        },
        JsonVal::Int(iv) => {
            lemma_parse_int_ser(iv, s, i);
            if iv < 0 {
                assert(s[i] == '-');
            } else {
                lemma_digits_shape(iv);
                assert(is_digit(s[i]));
            }
            assert(parse_val(s, i) == Some((v, i + l)));
        },
        JsonVal::Str(cs) => {
            assert(s[i] == '"');
            let sl = ser_str(cs).len() as int;
            assert(s.subrange(i + 1, i + 1 + sl) =~= ser_str(cs)) by {
                assert forall|j: int| 0 <= j < sl implies s[i + 1 + j] == ser_str(cs)[j] by {
                    assert(s[i + (j + 1)] == ser[j + 1]);
                    assert(ser[j + 1] == ser_str(cs)[j]);
                }
            }
            assert(s[(i + 1) + sl] == '"') by {
                assert(s[i + (l - 1)] == ser[l - 1]);
            }
            lemma_parse_ser_str(cs, s, i + 1);
            assert(parse_val(s, i) == Some((v, i + l)));
        },
        JsonVal::Arr(items) => {
            assert(s[i] == '[');
            let inner = ser_items(items, 0);
            let il = inner.len() as int;
            if items.len() == 0 {
                assert(ser =~= seq!['[', ']']);
                assert(s[i + 1] == ']');
                assert(items =~= Seq::<JsonVal>::empty());
            } else {
                assert forall|j: int| 0 <= j < il implies s[i + 1 + j] == inner[j] by {
                    assert(s[i + (j + 1)] == ser[j + 1]);
                    assert(ser[j + 1] == inner[j]);
                }
                assert(s.subrange(i + 1, i + 1 + il) =~= inner);
                assert(s[(i + 1) + il] == ']') by {
                    assert(s[i + (l - 1)] == ser[l - 1]);
                }
                lemma_parse_ser_items(items, 0, s, i + 1);
                assert(items.skip(0) =~= items);
                // the text of the first element opens it, so the empty
                // form is not matched
                lemma_ser_val_first(items[0]);
                assert(inner[0] == ser_val(items[0])[0]);
                assert(s[i + 1] == inner[0]);
                assert(s[i + 1] != ']');
            }
            assert(parse_val(s, i) == Some((v, i + l)));
        },
        JsonVal::Obj(entries) => {
            assert(s[i] == '{');
            let inner = ser_entries(entries, 0);
            let il = inner.len() as int;
            if entries.len() == 0 {
                assert(ser =~= seq!['{', '}']);
                assert(s[i + 1] == '}');
                assert(entries =~= Seq::<(Seq<char>, JsonVal)>::empty());
            } else {
                assert forall|j: int| 0 <= j < il implies s[i + 1 + j] == inner[j] by {
                    assert(s[i + (j + 1)] == ser[j + 1]);
                    assert(ser[j + 1] == inner[j]);
                }
                assert(s.subrange(i + 1, i + 1 + il) =~= inner);
                assert(s[(i + 1) + il] == '}') by {
                    assert(s[i + (l - 1)] == ser[l - 1]);
                }
                lemma_parse_ser_entries(entries, 0, s, i + 1);
                assert(entries.skip(0) =~= entries);
                assert(inner[0] == '"');
                assert(s[i + 1] == inner[0]);
                assert(s[i + 1] != '}');
            }
            assert(parse_val(s, i) == Some((v, i + l)));
        },
    }
}

/// Parsing the comma-joined text forms of the elements from `k` on,
/// followed by the closing bracket, yields those elements.
pub proof fn lemma_parse_ser_items(items: Seq<JsonVal>, k: int, s: Seq<char>, i: int)
    requires
        wf_items(items, k),
        0 <= k < items.len(),
        0 <= i,
        i + ser_items(items, k).len() + 1 <= s.len(),
        s.subrange(i, i + ser_items(items, k).len() as int) == ser_items(items, k),
        s[i + ser_items(items, k).len()] == ']',
    ensures
        parse_items(s, i) == Some((items.skip(k), i + ser_items(items, k).len() + 1)),
    decreases items, items.len() - k + 1int,
{
    let ser = ser_items(items, k);
    let l = ser.len() as int;
    assert forall|j: int| 0 <= j < l implies s[i + j] == ser[j] by {
        assert(s.subrange(i, i + l)[j] == s[i + j]);
    }
    let v0 = items[k];
    let l0 = ser_val(v0).len() as int;
    lemma_ser_val_first(v0);
    if k + 1 == items.len() {
        assert(s.subrange(i, i + l0) =~= ser_val(v0));
        assert(!is_digit(s[i + l0]));
        lemma_parse_ser_val(v0, s, i);
        assert(seq![v0] =~= items.skip(k));
    } else {
        let restser = ser_items(items, k + 1);
        let rl = restser.len() as int;
        assert(ser == ser_val(v0) + seq![','] + restser);
        assert(s.subrange(i, i + l0) =~= ser_val(v0)) by {
            assert forall|j: int| 0 <= j < l0 implies s[i + j] == ser_val(v0)[j] by {
                assert(ser[j] == ser_val(v0)[j]);
            }
        }
        assert(s[i + l0] == ',') by {
            assert(ser[l0] == ',');
        }
        lemma_parse_ser_val(v0, s, i);
        assert(s.subrange(i + l0 + 1, i + l0 + 1 + rl) =~= restser) by {
            assert forall|j: int| 0 <= j < rl implies s[i + l0 + 1 + j] == restser[j] by {
                assert(s[i + (l0 + 1 + j)] == ser[l0 + 1 + j]);
                assert(ser[l0 + 1 + j] == restser[j]);
            }
        }
        assert(s[(i + l0 + 1) + rl] == ']') by {
            assert(i + l0 + 1 + rl == i + l);
        }
        lemma_parse_ser_items(items, k + 1, s, i + l0 + 1);
        assert(seq![v0] + items.skip(k + 1) =~= items.skip(k));
    }
}

/// Parsing the comma-joined text forms of the entries from `k` on,
/// followed by the closing brace, yields those entries.
pub proof fn lemma_parse_ser_entries(
    entries: Seq<(Seq<char>, JsonVal)>,
    k: int,
    s: Seq<char>,
    i: int,
)
    requires
        wf_entries(entries, k),
        0 <= k < entries.len(),
        0 <= i,
        i + ser_entries(entries, k).len() + 1 <= s.len(),
        s.subrange(i, i + ser_entries(entries, k).len() as int) == ser_entries(entries, k),
        s[i + ser_entries(entries, k).len()] == '}',
    ensures
        parse_entries(s, i) == Some((entries.skip(k), i + ser_entries(entries, k).len() + 1)),
    decreases entries, entries.len() - k + 1int,
{
    let ser = ser_entries(entries, k);
    let l = ser.len() as int;
    assert forall|j: int| 0 <= j < l implies s[i + j] == ser[j] by {
        assert(s.subrange(i, i + l)[j] == s[i + j]);
    }
    let key = entries[k].0;
    let v0 = entries[k].1;
    let e = seq!['"'] + ser_str(key) + seq!['"', ':'] + ser_val(v0);
    let kl = ser_str(key).len() as int;
    let l0 = ser_val(v0).len() as int;
    let el = e.len() as int;
    assert(el == kl + 3 + l0);
    lemma_ser_val_first(v0);
    assert forall|j: int| 0 <= j < el implies s[i + j] == e[j] by {
        assert(ser[j] == e[j]);
    }
    assert(s[i + 0] == e[0]);
    assert(s[i] == '"');
    assert(s.subrange(i + 1, i + 1 + kl) =~= ser_str(key)) by {
        assert forall|j: int| 0 <= j < kl implies s[i + 1 + j] == ser_str(key)[j] by {
            assert(s[i + (j + 1)] == e[j + 1]);
            assert(e[j + 1] == ser_str(key)[j]);
        }
    }
    assert(s[(i + 1) + kl] == '"') by {
        assert(e[kl + 1] == '"');
    }
    lemma_parse_ser_str(key, s, i + 1);
    let j = i + kl + 2;
    assert(s[j] == ':') by {
        assert(e[kl + 2] == ':');
    }
    assert(s.subrange(j + 1, j + 1 + l0) =~= ser_val(v0)) by {
        assert forall|m: int| 0 <= m < l0 implies s[j + 1 + m] == ser_val(v0)[m] by {
            assert(s[i + (kl + 3 + m)] == e[kl + 3 + m]);
            assert(e[kl + 3 + m] == ser_val(v0)[m]);
        }
    }
    let p = j + 1 + l0;
    if k + 1 == entries.len() {
        assert(ser == e);
        assert(p == i + l);
        assert(!is_digit(s[p]));
        lemma_parse_ser_val(v0, s, j + 1);
        assert(seq![(key, v0)] =~= entries.skip(k));
    } else {
        let restser = ser_entries(entries, k + 1);
        let rl = restser.len() as int;
        assert(ser == e + seq![','] + restser);
        assert(s[p] == ',') by {
            assert(ser[el] == ',');
        }
        lemma_parse_ser_val(v0, s, j + 1);
        assert(s.subrange(p + 1, p + 1 + rl) =~= restser) by {
            assert forall|m: int| 0 <= m < rl implies s[p + 1 + m] == restser[m] by {
                assert(s[i + (el + 1 + m)] == ser[el + 1 + m]);
                assert(ser[el + 1 + m] == restser[m]);
            }
        }
        assert(s[(p + 1) + rl] == '}') by {
            assert(p + 1 + rl == i + l);
        }
        lemma_parse_ser_entries(entries, k + 1, s, p + 1);
        assert(seq![(key, v0)] + entries.skip(k + 1) =~= entries.skip(k));
    }
}

/// Round trip: parsing the canonical text of a well-formed value gives
/// the value back.
pub proof fn lemma_text_round_trip(v: JsonVal)
    requires
        wf_val(v),
    ensures
        spec_parse_text(ser_val(v)) == Some(v),
{
    let s = ser_val(v);
    assert(s.subrange(0, s.len() as int) =~= s);
    lemma_parse_ser_val(v, s, 0);
}

/// Powers of ten are positive.
pub proof fn lemma_pow10_pos(n: int)
    ensures
        pow10(n) >= 1,
    decreases n,
{
    if n > 0 {
        lemma_pow10_pos(n - 1);
    }
}

/// Powers of ten grow with the exponent.
pub proof fn lemma_pow10_mono(a: int, b: int)
    requires
        0 <= a <= b,
    ensures
        pow10(a) <= pow10(b),
    decreases b,
{
    if a < b {
        lemma_pow10_mono(a, b - 1);
        lemma_pow10_pos(b - 1);
    }
}

/// Prepends already-read characters to a parsed string tail.
pub open spec fn prepend_str(pre: Seq<char>, r: Option<(Seq<char>, int)>) -> Option<
    (Seq<char>, int),
> {
    match r {
        Some((cs, j)) => Some((pre + cs, j)),
        None => None,
    }
}

/// Reading one more character folds into the prefix.
pub proof fn lemma_prepend_cons(pre: Seq<char>, c: char, r: Option<(Seq<char>, int)>)
    ensures
        prepend_str(pre, cons_str(c, r)) == prepend_str(pre + seq![c], r),
{
    match r {
        Some((cs, j)) => {
            assert(pre + (seq![c] + cs) =~= (pre + seq![c]) + cs);
        },
        None => {},
    }
}

/// Inserting an element in front extends the array view in front.
pub proof fn lemma_view_arr_insert0(v1: Vec<JsonValue>, v2: Vec<JsonValue>, e: JsonValue)
    requires
        v2@ == v1@.insert(0, e),
    ensures
        view_arr_from(v2, 0) == seq![view_val(e)] + view_arr_from(v1, 0),
{
    lemma_view_arr_from(v1, 0);
    lemma_view_arr_from(v2, 0);
    assert(view_arr_from(v2, 0) =~= seq![view_val(e)] + view_arr_from(v1, 0));
}

/// Inserting an entry in front extends the object view in front.
pub proof fn lemma_view_obj_insert0(
    v1: Vec<(String, JsonValue)>,
    v2: Vec<(String, JsonValue)>,
    e: (String, JsonValue),
)
    requires
        v2@ == v1@.insert(0, e),
    ensures
        view_obj_from(v2, 0) == seq![(e.0@, view_val(e.1))] + view_obj_from(v1, 0),
{
    lemma_view_obj_from(v1, 0);
    lemma_view_obj_from(v2, 0);
    assert(view_obj_from(v2, 0) =~= seq![(e.0@, view_val(e.1))] + view_obj_from(v1, 0));
}

/// Whether `c` is a lower-case hexadecimal digit.
fn is_hex_char(c: char) -> (r: bool)
    ensures
        r == is_hex(c),
{
    let u = c as u32;
    (48 <= u && u <= 57) || (97 <= u && u <= 102)
}

/// Decodes one lower-case hexadecimal digit.
fn hex_val(c: char) -> (r: u8)
    requires
        is_hex(c),
    ensures
        r as int == hex_of(c),
        r < 16,
{
    let u = c as u32;
    if u <= 57 {
        (u - 48) as u8
    } else {
        (u - 87) as u8
    }
}

/// Parses a string literal's characters after the opening quote.
fn parse_string_lit(s: &Vec<char>, i: usize) -> (r: Option<(String, usize)>)
    ensures
        match r {
            Some((cs, j)) => parse_str_body(s@, i as int) == Some((cs@, j as int)) && j <= s@.len(),
            None => parse_str_body(s@, i as int) is None,
        },
{
    let mut acc = String::new();
    let mut p: usize = i;
    loop
        invariant
            i <= p,
            parse_str_body(s@, i as int) == prepend_str(acc@, parse_str_body(s@, p as int)),
        decreases s@.len() - p,
    {
        if p >= s.len() {
            return None;
        }
        let c = s[p];
        if c == '"' {
            proof {
                assert(acc@ + Seq::<char>::empty() =~= acc@);
            }
            return Some((acc, p + 1));
        }
        if c == '\\' {
            if p + 1 >= s.len() {
                return None;
            }
            let c2 = s[p + 1];
            if c2 == '"' {
                proof {
                    lemma_prepend_cons(acc@, '"', parse_str_body(s@, p + 2));
                }
                push_char(&mut acc, '"');
                p += 2;
            } else if c2 == '\\' {
                proof {
                    lemma_prepend_cons(acc@, '\\', parse_str_body(s@, p + 2));
                }
                push_char(&mut acc, '\\');
                p += 2;
            } else if c2 == 'u' {
                if s.len() - p < 6 {
                    return None;
                }
                if s[p + 2] == '0' && s[p + 3] == '0' && is_hex_char(s[p + 4]) && is_hex_char(
                    s[p + 5],
                ) {
                    let b: u8 = 16 * hex_val(s[p + 4]) + hex_val(s[p + 5]);
                    proof {
                        lemma_prepend_cons(acc@, b as char, parse_str_body(s@, p + 6));
                    }
                    push_char(&mut acc, b as char);
                    p += 6;
                } else {
                    return None;
                }
            } else {
                return None;
            }
        } else if (c as u32) < 32 {
            return None;
        } else {
            proof {
                lemma_prepend_cons(acc@, c, parse_str_body(s@, p + 1));
            }
            push_char(&mut acc, c);
            p += 1;
        }
    }
}

/// Parses an integer at position `i`.
fn parse_number(s: &Vec<char>, i: usize) -> (r: Option<(i64, usize)>)
    ensures
        match r {
            Some((v, j)) => parse_int(s@, i as int) == Some((JsonVal::Int(v as int), j as int))
                && j <= s@.len(),
            None => parse_int(s@, i as int) is None,
        },
{
    if i >= s.len() {
        return None;
    }
    let neg = s[i] == '-';
    let d0: usize = if neg {
        i + 1
    } else {
        i
    };
    if d0 >= s.len() {
        return None;
    }
    let c0 = s[d0];
    if !(48 <= c0 as u32 && c0 as u32 <= 57) {
        return None;
    }
    let n: usize = if c0 == '0' {
        1
    } else {
        let mut p: usize = d0;
        while p < s.len() && 48 <= s[p] as u32 && s[p] as u32 <= 57
            invariant
                d0 <= p <= s@.len(),
                digit_run(s@, d0 as int) == (p - d0) + digit_run(s@, p as int),
                forall|m: int| d0 <= m < p ==> is_digit(#[trigger] s@[m]),
            decreases s@.len() - p,
        {
            p += 1;
        }
        p - d0
    };
    if n > 19 {
        return None;
    }
    let mut acc: u64 = 0;
    let mut k: usize = 0;
    proof {
        assert(forall|m: int| d0 <= m < d0 + n ==> is_digit(#[trigger] s@[m])) by {
            if c0 == '0' {
                assert(is_digit(s@[d0 as int]));
            }
        }
    }
    while k < n
        invariant
            k <= n <= 19,
            d0 + n <= s@.len(),
            s@.len() <= usize::MAX,
            forall|m: int| d0 <= m < d0 + n ==> is_digit(#[trigger] s@[m]),
            acc as int == run_value(s@, d0 as int, k as int),
            (acc as int) < pow10(k as int),
        decreases n - k,
    {
        proof {
            lemma_pow10_mono(k as int, 18int);
            assert(pow10(18int) == 1_000_000_000_000_000_000) by {
                reveal_with_fuel(pow10, 21);
            }
            assert(is_digit(s@[d0 + k]));
        }
        let d = (s[d0 + k] as u32 - 48) as u8;
        acc = acc * 10 + (d as u64);
        k += 1;
    }
    if !neg && acc > 0x7fff_ffff_ffff_ffff {
        return None;
    }
    if neg && acc > 0x8000_0000_0000_0000 {
        return None;
    }
    let v: i64 = if neg {
        if acc == 0x8000_0000_0000_0000 {
            i64::MIN
        } else {
            -(acc as i64)
        }
    } else {
        acc as i64
    };
    Some((v, d0 + n))
}

/// Parses one value at position `i`.
pub fn parse_value(s: &Vec<char>, i: usize) -> (r: Option<(JsonValue, usize)>)
    ensures
        match r {
            Some((v, j)) => parse_val(s@, i as int) == Some((v@, j as int)) && j <= s@.len(),
            None => parse_val(s@, i as int) is None,
        },
    decreases s@.len() - i, 2int,
{
    if i >= s.len() {
        return None;
    }
    let c = s[i];
    if c == 'n' {
        if s.len() - i >= 4 && s[i + 1] == 'u' && s[i + 2] == 'l' && s[i + 3] == 'l' {
            Some((JsonValue::Null, i + 4))
        } else {
            None
        }
    } else if c == 't' {
        if s.len() - i >= 4 && s[i + 1] == 'r' && s[i + 2] == 'u' && s[i + 3] == 'e' {
            Some((JsonValue::Bool(true), i + 4))
        } else {
            None
        }
    } else if c == 'f' {
        if s.len() - i >= 5 && s[i + 1] == 'a' && s[i + 2] == 'l' && s[i + 3] == 's' && s[i + 4]
            == 'e' {
            Some((JsonValue::Bool(false), i + 5))
        } else {
            None
        }
    } else if c == '"' {
        match parse_string_lit(s, i + 1) {
            Some((cs, j)) => Some((JsonValue::Str(cs), j)),
            None => None,
        }
    } else if c == '[' {
        if i + 1 < s.len() && s[i + 1] == ']' {
            let vs: Vec<JsonValue> = Vec::new();
            proof {
                lemma_view_arr_from(vs, 0);
                assert(view_arr_from(vs, 0) =~= Seq::<JsonVal>::empty());
            }
            Some((JsonValue::Arr(vs), i + 2))
        } else {
            match parse_item_list(s, i + 1) {
                Some((vs, j)) => Some((JsonValue::Arr(vs), j)),
                None => None,
            }
        }
    } else if c == '{' {
        if i + 1 < s.len() && s[i + 1] == '}' {
            let es: Vec<(String, JsonValue)> = Vec::new();
            proof {
                lemma_view_obj_from(es, 0);
                assert(view_obj_from(es, 0) =~= Seq::<(Seq<char>, JsonVal)>::empty());
            }
            Some((JsonValue::Obj(es), i + 2))
        } else {
            match parse_entry_list(s, i + 1) {
                Some((es, j)) => Some((JsonValue::Obj(es), j)),
                None => None,
            }
        }
    } else if c == '-' || (48 <= c as u32 && c as u32 <= 57) {
        match parse_number(s, i) {
            Some((v, j)) => Some((JsonValue::Int(v), j)),
            None => None,
        }
    } else {
        None
    }
}

/// Parses one or more comma-separated values, through the closing
/// bracket.
fn parse_item_list(s: &Vec<char>, i: usize) -> (r: Option<(Vec<JsonValue>, usize)>)
    ensures
        match r {
            Some((vs, j)) => parse_items(s@, i as int) == Some((view_arr_from(vs, 0), j as int))
                && j <= s@.len(),
            None => parse_items(s@, i as int) is None,
        },
    decreases s@.len() - i, 3int,
{
    if i >= s.len() {
        return None;
    }
    match parse_value(s, i) {
        None => None,
        Some((v, j)) => {
            if j <= i || j >= s.len() {
                return None;
            }
            let c = s[j];
            if c == ',' {
                match parse_item_list(s, j + 1) {
                    Some((mut vs, k)) => {
                        let ghost pre = vs;
                        vs.insert(0, v);
                        proof {
                            lemma_view_arr_insert0(pre, vs, v);
                        }
                        Some((vs, k))
                    },
                    None => None,
                }
            } else if c == ']' {
                let mut vs: Vec<JsonValue> = Vec::new();
                vs.push(v);
                proof {
                    lemma_view_arr_from(vs, 0);
                    assert(view_arr_from(vs, 0) =~= seq![v@]);
                }
                Some((vs, j + 1))
            } else {
                None
            }
        },
    }
}

/// Parses one or more comma-separated `"key":value` entries, through
/// the closing brace.
fn parse_entry_list(s: &Vec<char>, i: usize) -> (r: Option<(Vec<(String, JsonValue)>, usize)>)
    ensures
        match r {
            Some((es, j)) => parse_entries(s@, i as int) == Some((view_obj_from(es, 0), j as int))
                && j <= s@.len(),
            None => parse_entries(s@, i as int) is None,
        },
    decreases s@.len() - i, 3int,
{
    if i >= s.len() {
        return None;
    }
    if s[i] != '"' {
        return None;
    }
    match parse_string_lit(s, i + 1) {
        None => None,
        Some((key, j)) => {
            if j <= i + 1 || j >= s.len() {
                return None;
            }
            if s[j] != ':' {
                return None;
            }
            match parse_value(s, j + 1) {
                None => None,
                Some((v, k)) => {
                    if k <= j + 1 || k >= s.len() {
                        return None;
                    }
                    let c = s[k];
                    if c == ',' {
                        match parse_entry_list(s, k + 1) {
                            Some((mut es, m)) => {
                                let ghost pre = es;
                                let e = (key, v);
                                es.insert(0, e);
                                proof {
                                    lemma_view_obj_insert0(pre, es, e);
                                }
                                Some((es, m))
                            },
                            None => None,
                        }
                    } else if c == '}' {
                        let mut es: Vec<(String, JsonValue)> = Vec::new();
                        let e = (key, v);
                        es.push(e);
                        proof {
                            lemma_view_obj_from(es, 0);
                            assert(view_obj_from(es, 0) =~= seq![(e.0@, view_val(e.1))]);
                        }
                        Some((es, k + 1))
                    } else {
                        None
                    }
                },
            }
        },
    }
}

/// Parses a whole text as one value.
pub fn parse_text(s: &Vec<char>) -> (r: Option<JsonValue>)
    ensures
        match r {
            Some(v) => spec_parse_text(s@) == Some(v@),
            None => spec_parse_text(s@) is None,
        },
{
    match parse_value(s, 0) {
        Some((v, j)) => if j == s.len() {
            Some(v)
        } else {
            None
        },
        None => None,
    }
}

/// Appends the canonical text form of `v` to `out`.
#[verifier::loop_isolation(false)]
#[verifier::rlimit(60)]
pub fn write_val(out: &mut String, v: &JsonValue)
    ensures
        final (out)@ == old(out)@ + ser_val(v@),
    decreases v,
{
    match v {
        JsonValue::Null => {
            push_char(out, 'n');
            push_char(out, 'u');
            push_char(out, 'l');
            push_char(out, 'l');
            proof {
                assert(out@ =~= old(out)@ + ser_val(v@));
            }
        },
        JsonValue::Bool(b) => {
            if *b {
                push_char(out, 't');
                push_char(out, 'r');
                push_char(out, 'u');
                push_char(out, 'e');
            } else {
                push_char(out, 'f');
                push_char(out, 'a');
                push_char(out, 'l');
                push_char(out, 's');
                push_char(out, 'e');
            }
            proof {
                assert(out@ =~= old(out)@ + ser_val(v@));
            }
        },
        JsonValue::Int(i) => {
            write_int_chars(out, *i);
        },
        JsonValue::Str(s) => {
            push_char(out, '"');
            write_escaped(out, s.as_str());
            push_char(out, '"');
            proof {
                assert(out@ =~= old(out)@ + ser_val(v@));
            }
        },
        JsonValue::Arr(items) => {
            proof {
                lemma_view_arr_from(*items, 0);
            }
            let ghost vals = view_arr_from(*items, 0);
            push_char(out, '[');
            proof {
                assert(out@ + ser_items(vals, 0) + seq![']'] =~= old(out)@ + ser_val(v@));
            }
            let mut i: usize = 0;
            while i < items.len()
                invariant
                    i <= items@.len(),
                    vals == view_arr_from(*items, 0),
                    vals.len() == items@.len(),
                    forall|j: int| 0 <= j < vals.len() ==> vals[j] == view_val(items[j]),
                    out@ + ser_items(vals, i as int) + seq![']'] == old(out)@ + ser_val(v@),
                decreases items@.len() - i,
            {
                write_val(out, &items[i]);
                if i + 1 < items.len() {
                    push_char(out, ',');
                    proof {
                        assert(out@ + ser_items(vals, i + 1) + seq![']'] =~= old(out)@ + ser_val(
                            v@,
                        ));
                    }
                } else {
                    proof {
                        assert(out@ + ser_items(vals, i + 1) + seq![']'] =~= old(out)@ + ser_val(
                            v@,
                        ));
                    }
                }
                i += 1;
            }
            push_char(out, ']');
            proof {
                assert(out@ =~= old(out)@ + ser_val(v@));
            }
        },
        JsonValue::Obj(entries) => {
            proof {
                lemma_view_obj_from(*entries, 0);
            }
            let ghost ents = view_obj_from(*entries, 0);
            push_char(out, '{');
            proof {
                assert(out@ + ser_entries(ents, 0) + seq!['}'] =~= old(out)@ + ser_val(v@));
            }
            let mut i: usize = 0;
            while i < entries.len()
                invariant
                    i <= entries@.len(),
                    ents == view_obj_from(*entries, 0),
                    ents.len() == entries@.len(),
                    forall|j: int|
                        0 <= j < ents.len() ==> ents[j] == (
                        entries[j].0@,
                        view_val(entries[j].1),
                        ),
                    out@ + ser_entries(ents, i as int) + seq!['}'] == old(out)@ + ser_val(v@),
                decreases entries@.len() - i,
            {
                push_char(out, '"');
                write_escaped(out, entries[i].0.as_str());
                push_char(out, '"');
                push_char(out, ':');
                write_val(out, &entries[i].1);
                if i + 1 < entries.len() {
                    push_char(out, ',');
                    proof {
                        assert(out@ + ser_entries(ents, i + 1) + seq!['}'] =~= old(out)@ + ser_val(
                            v@,
                        ));
                    }
                } else {
                    proof {
                        assert(out@ + ser_entries(ents, i + 1) + seq!['}'] =~= old(out)@ + ser_val(
                            v@,
                        ));
                    }
                }
                i += 1;
            }
            push_char(out, '}');
            proof {
                assert(out@ =~= old(out)@ + ser_val(v@));
            }
        },
    }
}

impl Clone for JsonValue {
    /// A structural copy: the clone has the same view.
    #[verifier::loop_isolation(false)]
    fn clone(&self) -> (r: JsonValue)
        ensures
            r@ == self@,
        decreases self,
    {
        match self {
            JsonValue::Null => JsonValue::Null,
            JsonValue::Bool(b) => JsonValue::Bool(*b),
            JsonValue::Int(i) => JsonValue::Int(*i),
            JsonValue::Str(s) => JsonValue::Str(s.clone()),
            JsonValue::Arr(items) => {
                proof {
                    lemma_view_arr_from(*items, 0);
                }
                let mut out: Vec<JsonValue> = Vec::new();
                let mut i: usize = 0;
                while i < items.len()
                    invariant
                        i <= items@.len(),
                        view_arr_from(out, 0) == view_arr_from(*items, 0).subrange(0, i as int),
                    decreases items@.len() - i,
                {
                    let ghost pre = out;
                    let c = items[i].clone();
                    let ghost gc = c;
                    out.push(c);
                    proof {
                        lemma_view_arr_push(pre, out, gc);
                        assert(view_arr_from(out, 0) =~= view_arr_from(*items, 0).subrange(
                            0,
                            i + 1,
                        ));
                    }
                    i += 1;
                }
                proof {
                    assert(view_arr_from(*items, 0).subrange(0, items@.len() as int)
                        =~= view_arr_from(*items, 0));
                }
                JsonValue::Arr(out)
            },
            JsonValue::Obj(entries) => {
                proof {
                    lemma_view_obj_from(*entries, 0);
                }
                let mut out: Vec<(String, JsonValue)> = Vec::new();
                let mut i: usize = 0;
                while i < entries.len()
                    invariant
                        i <= entries@.len(),
                        view_obj_from(out, 0) == view_obj_from(*entries, 0).subrange(0, i as int),
                    decreases entries@.len() - i,
                {
                    let ghost pre = out;
                    let e = (entries[i].0.clone(), entries[i].1.clone());
                    let ghost ge = e;
                    out.push(e);
                    proof {
                        lemma_view_obj_push(pre, out, ge);
                        assert(view_obj_from(out, 0) =~= view_obj_from(*entries, 0).subrange(
                            0,
                            i + 1,
                        ));
                    }
                    i += 1;
                }
                proof {
                    assert(view_obj_from(*entries, 0).subrange(0, entries@.len() as int)
                        =~= view_obj_from(*entries, 0));
                }
                JsonValue::Obj(out)
            },
        }
    }
}

/// A copy of an entry list whose view is the same.
pub fn clone_entries(entries: &Vec<(String, JsonValue)>) -> (r: Vec<(String, JsonValue)>)
    ensures
        view_obj_from(r, 0) == view_obj_from(*entries, 0),
{
    proof {
        lemma_view_obj_from(*entries, 0);
    }
    let mut out: Vec<(String, JsonValue)> = Vec::new();
    let mut i: usize = 0;
    while i < entries.len()
        invariant
            i <= entries@.len(),
            view_obj_from(out, 0) == view_obj_from(*entries, 0).subrange(0, i as int),
            view_obj_from(*entries, 0).len() == entries@.len(),
            forall|j: int|
                0 <= j < entries@.len() ==> view_obj_from(*entries, 0)[j] == (
                entries[j].0@,
                view_val(entries[j].1),
                ),
        decreases entries@.len() - i,
    {
        let ghost pre = out;
        let e = (entries[i].0.clone(), entries[i].1.clone());
        let ghost ge = e;
        out.push(e);
        proof {
            lemma_view_obj_push(pre, out, ge);
            assert(view_obj_from(out, 0) =~= view_obj_from(*entries, 0).subrange(0, i + 1));
        }
        i += 1;
    }
    proof {
        assert(view_obj_from(*entries, 0).subrange(0, entries@.len() as int) =~= view_obj_from(
            *entries,
            0,
        ));
    }
    out
}

} // verus!

