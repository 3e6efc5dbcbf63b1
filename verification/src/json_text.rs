//! Canonical JSON text for a document: keys in sorted order, no spacing,
//! strings escaped the usual way (quote, backslash and control characters
//! only, control characters as `\u00XY` with lowercase hex).

use vstd::prelude::*;
use vstd::string::StrSliceExecFns;

use crate::json::{arr_view, fields_view, group_json_views, Json, JsonValue};
use crate::strings::{push_char, push_str};

verus! {

pub const HEX_CHARS: [char; 16] = [
    '0',
    '1',
    '2',
    '3',
    '4',
    '5',
    '6',
    '7',
    '8',
    '9',
    'a',
    'b',
    'c',
    'd',
    'e',
    'f',
];

/// How one character appears inside a JSON string literal.
pub open spec fn spec_escape_char(c: char) -> Seq<char> {
    let u = c as u32;
    if c == '"' {
        seq!['\\', '"']
    } else if c == '\\' {
        seq!['\\', '\\']
    } else if u == 8 {
        seq!['\\', 'b']
    } else if u == 9 {
        seq!['\\', 't']
    } else if u == 10 {
        seq!['\\', 'n']
    } else if u == 12 {
        seq!['\\', 'f']
    } else if u == 13 {
        seq!['\\', 'r']
    } else if u < 32 {
        seq!['\\', 'u', '0', '0', HEX_CHARS@[(u / 16) as int], HEX_CHARS@[(u % 16) as int]]
    } else {
        seq![c]
    }
}

/// How a whole string appears inside a JSON string literal.
pub open spec fn spec_escaped(s: Seq<char>) -> Seq<char>
    decreases s.len(),
{
    if s.len() == 0 {
        Seq::empty()
    } else {
        spec_escape_char(s[0]) + spec_escaped(s.drop_first())
    }
}

/// The canonical text of a document.
pub open spec fn spec_json_text(j: Json) -> Seq<char>
    decreases j, 0nat,
{
    match j {
        Json::Null => seq!['n', 'u', 'l', 'l'],
        Json::Bool(b) => if b {
            seq!['t', 'r', 'u', 'e']
        } else {
            seq!['f', 'a', 'l', 's', 'e']
        },
        Json::Num(s) => s,
        Json::Str(s) => seq!['"'] + spec_escaped(s) + seq!['"'],
        Json::Arr(items) => {
            proof {
                assert(decreases_to!(j => items));
            }
            seq!['['] + spec_arr_text(items, 0) + seq![']']
        },
        Json::Obj(fields) => {
            proof {
                assert(decreases_to!(j => fields));
            }
            seq!['{'] + spec_obj_text(fields, 0) + seq!['}']
        },
    }
}

/// The text of the array elements from position `i` onward; every element
/// after the first is preceded by a comma.
pub open spec fn spec_arr_text(items: Seq<Json>, i: int) -> Seq<char>
    decreases items, items.len() - i,
{
    if i < 0 || i >= items.len() {
        Seq::empty()
    } else {
        proof {
            assert(decreases_to!(items => items[i]));
        }
        (if i > 0 {
            seq![',']
        } else {
            Seq::empty()
        }) + spec_json_text(items[i]) + spec_arr_text(items, i + 1)
    }
}

/// The text of the object fields from position `i` onward.
pub open spec fn spec_obj_text(fields: Seq<(Seq<char>, Json)>, i: int) -> Seq<char>
    decreases fields, fields.len() - i,
{
    if i < 0 || i >= fields.len() {
        Seq::empty()
    } else {
        proof {
            assert(decreases_to!(fields => fields[i]));
            assert(decreases_to!(fields[i] => fields[i].1));
            assert(decreases_to!(fields => fields[i].1));
        }
        (if i > 0 {
            seq![',']
        } else {
            Seq::empty()
        }) + seq!['"'] + spec_escaped(fields[i].0) + seq!['"', ':'] + spec_json_text(fields[i].1)
            + spec_obj_text(fields, i + 1)
    }
}

/// Appends the escape of one character.
fn push_escape_char(out: &mut String, c: char)
    ensures
        final(out)@ == old(out)@ + spec_escape_char(c),
{
    let u = c as u32;
    if c == '"' {
        push_char(out, '\\');
        push_char(out, '"');
        proof {
            assert(out@ =~= old(out)@ + spec_escape_char(c));
        }
    } else if c == '\\' {
        push_char(out, '\\');
        push_char(out, '\\');
        proof {
            assert(out@ =~= old(out)@ + spec_escape_char(c));
        }
    } else if u == 8 {
        push_char(out, '\\');
        push_char(out, 'b');
        proof {
            assert(out@ =~= old(out)@ + spec_escape_char(c));
        }
    } else if u == 9 {
        push_char(out, '\\');
        push_char(out, 't');
        proof {
            assert(out@ =~= old(out)@ + spec_escape_char(c));
        }
    } else if u == 10 {
        push_char(out, '\\');
        push_char(out, 'n');
        proof {
            assert(out@ =~= old(out)@ + spec_escape_char(c));
        }
    } else if u == 12 {
        push_char(out, '\\');
        push_char(out, 'f');
        proof {
            assert(out@ =~= old(out)@ + spec_escape_char(c));
        }
    } else if u == 13 {
        push_char(out, '\\');
        push_char(out, 'r');
        proof {
            assert(out@ =~= old(out)@ + spec_escape_char(c));
        }
    } else if u < 32 {
        push_char(out, '\\');
        push_char(out, 'u');
        push_char(out, '0');
        push_char(out, '0');
        push_char(out, HEX_CHARS[(u / 16) as usize]);
        push_char(out, HEX_CHARS[(u % 16) as usize]);
        proof {
            assert(out@ =~= old(out)@ + spec_escape_char(c));
        }
    } else {
        push_char(out, c);
        proof {
            assert(out@ =~= old(out)@ + spec_escape_char(c));
        }
    }
}

/// Appends the escaped form of a whole string.
#[verifier::loop_isolation(false)]
fn push_escaped(out: &mut String, s: &str)
    ensures
        final(out)@ == old(out)@ + spec_escaped(s@),
{
    let len = s.unicode_len();
    let ghost base = out@;
    let mut i: usize = 0;
    proof {
        assert(s@.skip(0) =~= s@);
    }
    while i < len
        invariant
            i <= len,
            len == s@.len(),
            base + spec_escaped(s@) == out@ + spec_escaped(s@.skip(i as int)),
        decreases len - i,
    {
        let c = s.get_char(i);
        proof {
            assert(s@.skip(i as int)[0] == s@[i as int]);
            assert(s@.skip(i as int).drop_first() =~= s@.skip(i + 1));
            assert(spec_escaped(s@.skip(i as int)) == spec_escape_char(s@[i as int]) + spec_escaped(
                s@.skip(i + 1),
            ));
        }
        push_escape_char(out, c);
        proof {
            assert(base + spec_escaped(s@) =~= out@ + spec_escaped(s@.skip(i + 1)));
        }
        i += 1;
    }
    proof {
        assert(spec_escaped(s@.skip(len as int)) == Seq::<char>::empty());
        assert(base + spec_escaped(s@) =~= out@);
    }
}

/// Appends the canonical text of a document.
#[verifier::loop_isolation(false)]
#[verifier::rlimit(60)]
fn write_json(out: &mut String, v: &JsonValue)
    ensures
        final(out)@ == old(out)@ + spec_json_text(v@),
    decreases v,
{
    broadcast use group_json_views, vstd::std_specs::vec::group_vec_axioms;

    match v {
        JsonValue::Null => {
            proof {
                reveal_strlit("null");
            }
            push_str(out, "null");
            proof {
                assert(("null")@ =~= seq!['n', 'u', 'l', 'l']);
            }
        },
        JsonValue::Bool(b) => {
            if *b {
                proof {
                    reveal_strlit("true");
                }
                push_str(out, "true");
                proof {
                    assert(("true")@ =~= seq!['t', 'r', 'u', 'e']);
                }
            } else {
                proof {
                    reveal_strlit("false");
                }
                push_str(out, "false");
                proof {
                    assert(("false")@ =~= seq!['f', 'a', 'l', 's', 'e']);
                }
            }
        },
        JsonValue::Num(s) => {
            push_str(out, s.as_str());
        },
        JsonValue::Str(s) => {
            let ghost base = out@;
            push_char(out, '"');
            push_escaped(out, s.as_str());
            push_char(out, '"');
            proof {
                assert(out@ =~= base + (seq!['"'] + spec_escaped(s@) + seq!['"']));
            }
        },
        JsonValue::Arr(items) => {
            let ghost base = out@;
            let ghost itv = arr_view(items@);
            push_char(out, '[');
            let n = items.len();
            let mut i: usize = 0;
            proof {
                assert(base + seq!['['] + spec_arr_text(itv, 0) =~= out@ + spec_arr_text(
                    itv,
                    0,
                ));
            }
            while i < n
                invariant
                    i <= n,
                    n == items@.len(),
                    v == JsonValue::Arr(*items),
                    itv == arr_view(items@),
                    base + seq!['['] + spec_arr_text(itv, 0) == out@ + spec_arr_text(itv, i as int),
                decreases n - i,
            {
                proof {
                    assert(decreases_to!(v => items));
                    assert(decreases_to!(items => items@[i as int]));
                    assert(decreases_to!(v => items@[i as int]));
                }
                if i > 0 {
                    push_char(out, ',');
                }
                write_json(out, &items[i]);
                proof {
                    assert(spec_arr_text(itv, i as int) == (if i > 0 {
                        seq![',']
                    } else {
                        Seq::<char>::empty()
                    }) + spec_json_text(itv[i as int]) + spec_arr_text(itv, i + 1));
                    assert(base + seq!['['] + spec_arr_text(itv, 0) =~= out@ + spec_arr_text(
                        itv,
                        i + 1,
                    ));
                }
                i += 1;
            }
            push_char(out, ']');
            proof {
                assert(spec_arr_text(itv, n as int) == Seq::<char>::empty());
                assert(out@ =~= base + (seq!['['] + spec_arr_text(itv, 0) + seq![']']));
            }
        },
        JsonValue::Obj(fields) => {
            let ghost base = out@;
            let ghost fv = fields_view(fields@);
            push_char(out, '{');
            let n = fields.len();
            let mut i: usize = 0;
            proof {
                assert(base + seq!['{'] + spec_obj_text(fv, 0) =~= out@ + spec_obj_text(
                    fv,
                    0,
                ));
            }
            while i < n
                invariant
                    i <= n,
                    n == fields@.len(),
                    v == JsonValue::Obj(*fields),
                    fv == fields_view(fields@),
                    base + seq!['{'] + spec_obj_text(fv, 0) == out@ + spec_obj_text(fv, i as int),
                decreases n - i,
            {
                proof {
                    assert(decreases_to!(v => fields));
                    assert(decreases_to!(fields => fields@[i as int]));
                    assert(decreases_to!(fields@[i as int] => fields@[i as int].1));
                    assert(decreases_to!(v => fields@[i as int].1));
                }
                if i > 0 {
                    push_char(out, ',');
                }
                push_char(out, '"');
                push_escaped(out, fields[i].0.as_str());
                push_char(out, '"');
                push_char(out, ':');
                write_json(out, &fields[i].1);
                proof {
                    assert(spec_obj_text(fv, i as int) == (if i > 0 {
                        seq![',']
                    } else {
                        Seq::<char>::empty()
                    }) + seq!['"'] + spec_escaped(fv[i as int].0) + seq!['"', ':'] + spec_json_text(
                        fv[i as int].1,
                    ) + spec_obj_text(fv, i + 1));
                    assert(base + seq!['{'] + spec_obj_text(fv, 0) =~= out@ + spec_obj_text(
                        fv,
                        i + 1,
                    ));
                }
                i += 1;
            }
            push_char(out, '}');
            proof {
                assert(spec_obj_text(fv, n as int) == Seq::<char>::empty());
                assert(out@ =~= base + (seq!['{'] + spec_obj_text(fv, 0) + seq!['}']));
            }
        },
    }
}

/// The canonical text of a document, as a fresh string.
pub fn to_json_string(v: &JsonValue) -> (r: String)
    ensures
        r@ == spec_json_text(v@),
{
    let mut out = String::new();
    write_json(&mut out, v);
    proof {
        assert(out@ =~= spec_json_text(v@));
    }
    out
}

} // verus!
