//! String ordering, formatting and digit parsing used throughout the crate.
//!
//! Object keys are ordered lexicographically by Unicode code point, which for
//! UTF-8 encoded text coincides with byte order.

use vstd::prelude::*;
use vstd::string::StrSliceExecFns;
use vstd::string::StringExecFns;

verus! {

pub const DIGIT_CHARS: [char; 10] = ['0', '1', '2', '3', '4', '5', '6', '7', '8', '9'];

/// Lexicographic "strictly less than" on character sequences, by code point.
pub open spec fn str_lt(a: Seq<char>, b: Seq<char>) -> bool
    decreases a.len(),
{
    if b.len() == 0 {
        false
    } else if a.len() == 0 {
        true
    } else if (a[0] as u32) < (b[0] as u32) {
        true
    } else if (a[0] as u32) > (b[0] as u32) {
        false
    } else {
        str_lt(a.drop_first(), b.drop_first())
    }
}

/// `str_lt` is connected: sequences related in neither direction are equal,
/// and no sequence comes before itself.
pub proof fn lemma_str_lt_connected(a: Seq<char>, b: Seq<char>)
    ensures
        a == b ==> !str_lt(a, b),
        !str_lt(a, b) && !str_lt(b, a) ==> a == b,
    decreases a.len(),
{
    if a.len() != 0 && b.len() != 0 {
        lemma_str_lt_connected(a.drop_first(), b.drop_first());
        if !str_lt(a, b) && !str_lt(b, a) {
            assert(a[0] == b[0]) by {
                vstd::utf8::char_u32_cast(a[0], a[0] as u32);
                vstd::utf8::char_u32_cast(b[0], b[0] as u32);
            }
            assert(a =~= seq![a[0]] + a.drop_first());
            assert(b =~= seq![b[0]] + b.drop_first());
        }
        if a == b {
            assert(a[0] == b[0]);
        }
    }
}

/// `str_lt` is asymmetric.
pub proof fn lemma_str_lt_asym(a: Seq<char>, b: Seq<char>)
    requires
        str_lt(a, b),
    ensures
        !str_lt(b, a),
        a != b,
{
    lemma_str_lt_connected(a, b);
    if str_lt(b, a) {
        lemma_str_lt_trans(a, b, a);
        lemma_str_lt_connected(a, a);
    }
}

pub proof fn lemma_str_lt_trans(a: Seq<char>, b: Seq<char>, c: Seq<char>)
    requires
        str_lt(a, b),
        str_lt(b, c),
    ensures
        str_lt(a, c),
    decreases a.len(),
{
    if a.len() != 0 && b.len() != 0 && c.len() != 0 {
        if (a[0] as u32) == (b[0] as u32) && (b[0] as u32) == (c[0] as u32) {
            lemma_str_lt_trans(a.drop_first(), b.drop_first(), c.drop_first());
        }
    }
}

/// Compares two strings; returns true when `a` comes strictly before `b`.
pub fn str_less(a: &str, b: &str) -> (r: bool)
    ensures
        r == str_lt(a@, b@),
{
    let a_len = a.unicode_len();
    let b_len = b.unicode_len();
    proof {
        assert(a@.skip(0) =~= a@);
        assert(b@.skip(0) =~= b@);
    }
    let mut i: usize = 0;
    loop
        invariant
            i <= a_len,
            i <= b_len,
            a_len == a@.len(),
            b_len == b@.len(),
            str_lt(a@, b@) == str_lt(a@.skip(i as int), b@.skip(i as int)),
        decreases a_len - i,
    {
        if i == b_len {
            return false;
        }
        if i == a_len {
            return true;
        }
        let ca = a.get_char(i);
        let cb = b.get_char(i);
        proof {
            assert(a@.skip(i as int)[0] == a@[i as int]);
            assert(b@.skip(i as int)[0] == b@[i as int]);
            assert(a@.skip(i as int).drop_first() =~= a@.skip(i + 1));
            assert(b@.skip(i as int).drop_first() =~= b@.skip(i + 1));
        }
        if (ca as u32) < (cb as u32) {
            return true;
        }
        if (ca as u32) > (cb as u32) {
            return false;
        }
        i += 1;
    }
}

/// Compares two strings for equality of their character sequences.
pub fn str_eq(a: &str, b: &str) -> (r: bool)
    ensures
        r == (a@ == b@),
{
    let a_len = a.unicode_len();
    let b_len = b.unicode_len();
    if a_len != b_len {
        return false;
    }
    let mut i: usize = 0;
    loop
        invariant
            i <= a_len,
            a_len == a@.len(),
            b_len == b@.len(),
            a_len == b_len,
            forall|j: int| 0 <= j < i ==> a@[j] == b@[j],
        decreases a_len - i,
    {
        if i == a_len {
            proof {
                assert(a@ =~= b@);
            }
            return true;
        }
        let ca = a.get_char(i);
        let cb = b.get_char(i);
        proof {
            vstd::utf8::char_u32_cast(ca, ca as u32);
            vstd::utf8::char_u32_cast(cb, cb as u32);
        }
        if (ca as u32) != (cb as u32) {
            return false;
        }
        i += 1;
    }
}

/// Relies on std's `String::push`: appends one character.
#[verifier::external_body]
pub(crate) fn push_char(s: &mut String, c: char)
    ensures
        final(s)@ == old(s)@.push(c),
{
    s.push(c);
}

/// Appends one string to another.
pub fn push_str(s: &mut String, other: &str)
    ensures
        final(s)@ == old(s)@ + other@,
{
    s.append(other);
}

/// The decimal digits of `n`, most significant first.
pub open spec fn spec_dec_digits(n: nat) -> Seq<char>
    decreases n,
{
    if n < 10 {
        seq![DIGIT_CHARS@[n as int]]
    } else {
        spec_dec_digits(n / 10).push(DIGIT_CHARS@[(n % 10) as int])
    }
}

/// Appends the decimal rendering of `n`.
pub fn push_u64_dec(s: &mut String, n: u64)
    ensures
        final(s)@ == old(s)@ + spec_dec_digits(n as nat),
    decreases n,
{
    if n < 10 {
        push_char(s, DIGIT_CHARS[n as usize]);
        proof {
            assert(s@ =~= old(s)@ + spec_dec_digits(n as nat));
        }
    } else {
        push_u64_dec(s, n / 10);
        push_char(s, DIGIT_CHARS[(n % 10) as usize]);
        proof {
            assert(s@ =~= old(s)@ + spec_dec_digits(n as nat));
        }
    }
}

pub open spec fn is_dec_digit(c: char) -> bool {
    '0' as u32 <= c as u32 <= '9' as u32
}

pub open spec fn digit_value(c: char) -> int {
    c as u32 - '0' as u32
}

/// Decimal-index parse of a pointer segment, mirroring the usual JSON
/// Pointer rule: digits only, no leading zero unless the segment is "0",
/// and the value must be representable as a `usize`.
pub open spec fn spec_parse_index(s: Seq<char>) -> Option<int> {
    if s.len() == 0 {
        None
    } else if s.len() > 1 && s[0] == '0' {
        None
    } else {
        spec_index_accum(s, 0, 0)
    }
}

pub open spec fn spec_index_accum(s: Seq<char>, i: int, acc: int) -> Option<int>
    decreases s.len() - i,
{
    if i >= s.len() {
        Some(acc)
    } else if !is_dec_digit(s[i]) {
        None
    } else if acc > (usize::MAX as int - digit_value(s[i])) / 10 {
        None
    } else {
        spec_index_accum(s, i + 1, acc * 10 + digit_value(s[i]))
    }
}

/// Parses a pointer segment as an array index.
pub fn parse_index(s: &str) -> (r: Option<usize>)
    ensures
        r matches Some(i) ==> spec_parse_index(s@) == Some(i as int),
        r is None ==> spec_parse_index(s@) is None,
{
    let len = s.unicode_len();
    if len == 0 {
        return None;
    }
    if len > 1 && (s.get_char(0) as u32) == ('0' as u32) {
        proof {
            vstd::utf8::char_u32_cast(s@[0], s@[0] as u32);
            vstd::utf8::char_u32_cast('0', '0' as u32);
        }
        return None;
    }
    let mut acc: usize = 0;
    let mut i: usize = 0;
    loop
        invariant
            0 <= i <= len,
            len == s@.len(),
            len >= 1,
            !(s@.len() > 1 && s@[0] == '0'),
            spec_parse_index(s@) == spec_index_accum(s@, i as int, acc as int),
        decreases len - i,
    {
        if i == len {
            return Some(acc);
        }
        let c = s.get_char(i);
        let cu = c as u32;
        if !(('0' as u32) <= cu && cu <= ('9' as u32)) {
            return None;
        }
        let d: u32 = cu - ('0' as u32);
        if acc > (usize::MAX - d as usize) / 10 {
            return None;
        }
        acc = acc * 10 + d as usize;
        i += 1;
    }
}

} // verus!
