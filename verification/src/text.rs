//! Text utilities shared by the protocol engine: character-exact string
//! comparison, conversion between strings and character vectors, ASCII
//! upper-casing, and decimal rendering of integers.

use vstd::prelude::*;

verus! {

use vstd::std_specs::iter::IteratorSpec;

broadcast use vstd::string::group_string_axioms;

/// Appends one character to a string.
///
/// Relies on `String::push`, which appends the given character to the
/// end of the string.
#[verifier::external_body]
pub fn push_char(s: &mut String, c: char)
    ensures
        final (s)@ == old(s)@ + seq![c],
{
    s.push(c);
}

/// Turns bytes into the string they encode, if any.
///
/// Relies on `String::from_utf8`, which returns the string whose UTF-8
/// encoding is exactly the given bytes, and fails exactly when the bytes
/// are not valid UTF-8.
#[verifier::external_body]
pub fn string_from_utf8(bytes: Vec<u8>) -> (r: Option<String>)
    ensures
        match r {
            Some(s) => vstd::utf8::encode_utf8(s@) == bytes@,
            None => !vstd::utf8::valid_utf8(bytes@),
        },
{
    String::from_utf8(bytes).ok()
}

/// Collects the characters of a string slice into a vector.
pub fn chars_of(s: &str) -> (r: Vec<char>)
    ensures
        r@ == s@,
{
    let mut it = s.chars();
    let mut r: Vec<char> = Vec::new();
    loop
        invariant
            r@ + it.remaining() == s@,
            it.obeys_prophetic_iter_laws(),
            it.decrease() is Some,
        ensures
            r@ == s@,
        decreases it.decrease()->0,
    {
        match it.next() {
            Some(c) => {
                r.push(c);
            },
            None => {
                proof {
                    assert(r@ =~= s@);
                }
                break ;
            },
        }
    }
    r
}

/// Character-exact equality of two string slices.
pub fn str_eq(a: &str, b: &str) -> (r: bool)
    ensures
        r == (a@ == b@),
{
    let alen = a.unicode_len();
    let blen = b.unicode_len();
    if alen != blen {
        return false;
    }
    let mut i: usize = 0;
    while i < alen
        invariant
            i <= alen,
            alen == a@.len(),
            alen == b@.len(),
            forall|j: int| 0 <= j < i ==> a@[j] == b@[j],
        decreases alen - i,
    {
        if a.get_char(i) != b.get_char(i) {
            return false;
        }
        i += 1;
    }
    proof {
        assert(a@ =~= b@);
    }
    true
}

/// The ASCII upper-case form of one character.
pub open spec fn spec_upper_char(c: char) -> char {
    if 97 <= c as u32 && c as u32 <= 122 {
        ((c as u32 - 32) as u8) as char
    } else {
        c
    }
}

/// The ASCII upper-case form of a character sequence.
pub open spec fn spec_upper(s: Seq<char>) -> Seq<char> {
    Seq::new(s.len(), |i: int| spec_upper_char(s[i]))
}

/// Upper-cases the ASCII letters of a string.
pub fn upper_string(s: &str) -> (r: String)
    ensures
        r@ == spec_upper(s@),
{
    let cs = chars_of(s);
    let mut r = String::new();
    let mut i: usize = 0;
    while i < cs.len()
        invariant
            i <= cs@.len(),
            cs@ == s@,
            r@ == spec_upper(s@).subrange(0, i as int),
        decreases cs@.len() - i,
    {
        let c = cs[i];
        let u = c as u32;
        if 97 <= u && u <= 122 {
            push_char(&mut r, ((u - 32) as u8) as char);
        } else {
            push_char(&mut r, c);
        }
        proof {
            assert(r@ =~= spec_upper(s@).subrange(0, i + 1));
        }
        i += 1;
    }
    proof {
        assert(spec_upper(s@).subrange(0, s@.len() as int) =~= spec_upper(s@));
    }
    r
}

/// The character for one decimal digit.
pub open spec fn digit_char(d: int) -> char {
    ((48 + d) as u8) as char
}

/// The decimal digits of a non-negative integer, most significant first.
pub open spec fn spec_digits(n: int) -> Seq<char>
    decreases n,
{
    if n < 10 {
        seq![digit_char(n)]
    } else {
        spec_digits(n / 10) + seq![digit_char(n % 10)]
    }
}

/// Appends the decimal digits of `m` to `out`.
pub fn write_digits(out: &mut String, m: u64)
    ensures
        final (out)@ == old(out)@ + spec_digits(m as int),
    decreases m,
{
    if m >= 10 {
        write_digits(out, m / 10);
    }
    push_char(out, (48 + (m % 10) as u8) as char);
    proof {
        if m >= 10 {
            assert(old(out)@ + (spec_digits(m as int / 10) + seq![digit_char(m as int % 10)])
                =~= old(out)@ + spec_digits(m as int / 10) + seq![digit_char(m as int % 10)]);
        }
    }
}

} // verus!
