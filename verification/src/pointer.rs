//! Addressing into a document: RFC 6901 JSON Pointers (used by conditions
//! and the configurable-string locator) and dotted keys (used by options
//! requests).

use vstd::prelude::*;
use vstd::string::StrSliceExecFns;

use crate::json::{obj_get, Json, JsonValue};
use crate::merge::lemma_obj_get_wf;
use crate::strings::{push_char, spec_parse_index, parse_index};

verus! {

/// The position of the first `sep` at or after `from`, or the length.
pub open spec fn spec_find_sep(s: Seq<char>, from: int, sep: char) -> int
    decreases s.len() - from,
{
    if from < 0 || from >= s.len() {
        s.len() as int
    } else if s[from] == sep {
        from
    } else {
        spec_find_sep(s, from + 1, sep)
    }
}

pub proof fn lemma_find_sep(s: Seq<char>, from: int, sep: char)
    requires
        0 <= from <= s.len(),
    ensures
        from <= spec_find_sep(s, from, sep) <= s.len(),
        spec_find_sep(s, from, sep) < s.len() ==> s[spec_find_sep(s, from, sep)] == sep,
        forall|m: int| from <= m < spec_find_sep(s, from, sep) ==> s[m] != sep,
    decreases s.len() - from,
{
    if from < s.len() && s[from] != sep {
        lemma_find_sep(s, from + 1, sep);
    }
}

/// The position of the first `sep` at or after `from`, or the length.
pub fn find_sep(s: &str, from: usize, sep: char) -> (r: usize)
    requires
        from <= s@.len(),
    ensures
        r == spec_find_sep(s@, from as int, sep),
        from <= r <= s@.len(),
    decreases s@.len() - from,
{
    let len = s.unicode_len();
    if from == len {
        return len;
    }
    let c = s.get_char(from);
    if c == sep {
        from
    } else {
        find_sep(s, from + 1, sep)
    }
}

/// A pointer segment with `~1` read as `/` and `~0` as `~`.
pub open spec fn spec_unescape(s: Seq<char>) -> Seq<char>
    decreases s.len(),
{
    if s.len() == 0 {
        Seq::empty()
    } else if s[0] == '~' && s.len() >= 2 && s[1] == '1' {
        seq!['/'] + spec_unescape(s.skip(2))
    } else if s[0] == '~' && s.len() >= 2 && s[1] == '0' {
        seq!['~'] + spec_unescape(s.skip(2))
    } else {
        seq![s[0]] + spec_unescape(s.skip(1))
    }
}

/// Unescapes one pointer segment.
#[verifier::loop_isolation(false)]
pub fn unescape_segment(s: &str) -> (r: String)
    ensures
        r@ == spec_unescape(s@),
{
    let len = s.unicode_len();
    let mut out = String::new();
    let mut i: usize = 0;
    proof {
        assert(s@.skip(0) =~= s@);
    }
    while i < len
        invariant
            i <= len,
            len == s@.len(),
            spec_unescape(s@) == out@ + spec_unescape(s@.skip(i as int)),
        decreases len - i,
    {
        let c = s.get_char(i);
        proof {
            assert(s@.skip(i as int)[0] == s@[i as int]);
            if i + 1 < len {
                assert(s@.skip(i as int)[1] == s@[i + 1]);
            }
            assert(s@.skip(i as int).skip(1) =~= s@.skip(i + 1));
            if i + 2 <= len {
                assert(s@.skip(i as int).skip(2) =~= s@.skip(i + 2));
            }
        }
        if c == '~' && i + 1 < len {
            let c2 = s.get_char(i + 1);
            if c2 == '1' {
                push_char(&mut out, '/');
                proof {
                    assert(spec_unescape(s@) =~= out@ + spec_unescape(s@.skip(i + 2)));
                }
                i += 2;
                continue;
            }
            if c2 == '0' {
                push_char(&mut out, '~');
                proof {
                    assert(spec_unescape(s@) =~= out@ + spec_unescape(s@.skip(i + 2)));
                }
                i += 2;
                continue;
            }
            push_char(&mut out, c);
            proof {
                assert(spec_unescape(s@) =~= out@ + spec_unescape(s@.skip(i + 1)));
            }
            i += 1;
        } else {
            push_char(&mut out, c);
            proof {
                assert(spec_unescape(s@) =~= out@ + spec_unescape(s@.skip(i + 1)));
            }
            i += 1;
        }
    }
    proof {
        assert(s@.skip(len as int) =~= Seq::<char>::empty());
        assert(spec_unescape(s@) =~= out@);
    }
    out
}

/// One addressing step: the child of `j` named by an unescaped segment.
pub open spec fn spec_ptr_child(j: Json, seg: Seq<char>) -> Option<Json> {
    match j {
        Json::Obj(fields) => obj_get(fields, spec_unescape(seg)),
        Json::Arr(items) => match spec_parse_index(spec_unescape(seg)) {
            Some(i) => if 0 <= i < items.len() {
                Some(items[i])
            } else {
                None
            },
            None => None,
        },
        _ => None,
    }
}

/// Resolves the remainder of a pointer (everything after a `/`) against `j`.
pub open spec fn spec_ptr_rest(j: Json, p: Seq<char>, pos: int) -> Option<Json>
    decreases p.len() - pos,
{
    let cut = spec_find_sep(p, pos, '/');
    let seg = p.subrange(pos, cut);
    match spec_ptr_child(j, seg) {
        Some(child) => if cut >= p.len() {
            Some(child)
        } else {
            proof {
                if 0 <= pos <= p.len() {
                    lemma_find_sep(p, pos, '/');
                }
            }
            spec_ptr_rest(child, p, cut + 1)
        },
        None => None,
    }
}

/// Resolves an RFC 6901 pointer against `j`: the empty pointer names `j`
/// itself; otherwise the pointer must begin with `/`.
pub open spec fn spec_ptr_lookup(j: Json, p: Seq<char>) -> Option<Json> {
    if p.len() == 0 {
        Some(j)
    } else if p[0] != '/' {
        None
    } else {
        spec_ptr_rest(j, p, 1)
    }
}

/// Resolves the remainder of a pointer, starting at `pos`.
fn ptr_rest<'a>(j: &'a JsonValue, p: &str, pos: usize) -> (r: Option<&'a JsonValue>)
    requires
        pos <= p@.len(),
        j@.wf(),
    ensures
        match r {
            Some(v) => spec_ptr_rest(j@, p@, pos as int) == Some(v@) && v@.wf(),
            None => spec_ptr_rest(j@, p@, pos as int) is None,
        },
    decreases p@.len() - pos,
{
    broadcast use crate::json::group_json_views, vstd::std_specs::vec::group_vec_axioms;

    let cut = find_sep(p, pos, '/');
    proof {
        lemma_find_sep(p@, pos as int, '/');
    }
    let seg_raw = p.substring_char(pos, cut);
    let seg = unescape_segment(seg_raw);
    let child: Option<&'a JsonValue> = match j {
        JsonValue::Obj(fields) => {
            let got = crate::json::fields_get(fields, seg.as_str());
            proof {
                if got is Some {
                    lemma_obj_get_wf(crate::json::fields_view(fields@), seg@);
                }
            }
            got
        },
        JsonValue::Arr(items) => {
            match parse_index(seg.as_str()) {
                Some(i) => {
                    if i < items.len() {
                        proof {
                            crate::json::lemma_arr_elem_wf(
                                j@,
                                crate::json::arr_view(items@),
                                i as int,
                            );
                        }
                        Some(&items[i])
                    } else {
                        None
                    }
                },
                None => None,
            }
        },
        _ => None,
    };
    match child {
        Some(c) => {
            let len = p.unicode_len();
            if cut >= len {
                Some(c)
            } else {
                ptr_rest(c, p, cut + 1)
            }
        },
        None => None,
    }
}

/// Resolves an RFC 6901 pointer against a document.
pub fn json_pointer_lookup<'a>(j: &'a JsonValue, pointer: &str) -> (r: Option<&'a JsonValue>)
    requires
        j@.wf(),
    ensures
        match r {
            Some(v) => spec_ptr_lookup(j@, pointer@) == Some(v@) && v@.wf(),
            None => spec_ptr_lookup(j@, pointer@) is None,
        },
{
    let len = pointer.unicode_len();
    if len == 0 {
        return Some(j);
    }
    if pointer.get_char(0) != '/' {
        return None;
    }
    ptr_rest(j, pointer, 1)
}

/// Resolves one dotted-path step: dotted keys name object fields only.
pub open spec fn spec_dotted_rest(j: Json, p: Seq<char>, pos: int) -> Option<Json>
    decreases p.len() - pos,
{
    let cut = spec_find_sep(p, pos, '.');
    let seg = p.subrange(pos, cut);
    match j {
        Json::Obj(fields) => match obj_get(fields, seg) {
            Some(child) => if cut >= p.len() {
                Some(child)
            } else {
                proof {
                    if 0 <= pos <= p.len() {
                        lemma_find_sep(p, pos, '.');
                    }
                }
                spec_dotted_rest(child, p, cut + 1)
            },
            None => None,
        },
        _ => None,
    }
}

/// Resolves a dotted key such as `myConfig.rootString` against `j`.
pub open spec fn spec_dotted_lookup(j: Json, p: Seq<char>) -> Option<Json> {
    spec_dotted_rest(j, p, 0)
}

fn dotted_rest<'a>(j: &'a JsonValue, p: &str, pos: usize) -> (r: Option<&'a JsonValue>)
    requires
        pos <= p@.len(),
        j@.wf(),
    ensures
        match r {
            Some(v) => spec_dotted_rest(j@, p@, pos as int) == Some(v@) && v@.wf(),
            None => spec_dotted_rest(j@, p@, pos as int) is None,
        },
    decreases p@.len() - pos,
{
    broadcast use crate::json::group_json_views, vstd::std_specs::vec::group_vec_axioms;

    let cut = find_sep(p, pos, '.');
    proof {
        lemma_find_sep(p@, pos as int, '.');
    }
    let seg = p.substring_char(pos, cut);
    match j {
        JsonValue::Obj(fields) => {
            match crate::json::fields_get(fields, seg) {
                Some(child) => {
                    proof {
                        lemma_obj_get_wf(crate::json::fields_view(fields@), seg@);
                    }
                    let len = p.unicode_len();
                    if cut >= len {
                        Some(child)
                    } else {
                        dotted_rest(child, p, cut + 1)
                    }
                },
                None => None,
            }
        },
        _ => None,
    }
}

/// Resolves a dotted key against a document.
pub fn dotted_lookup<'a>(j: &'a JsonValue, key: &str) -> (r: Option<&'a JsonValue>)
    requires
        j@.wf(),
    ensures
        match r {
            Some(v) => spec_dotted_lookup(j@, key@) == Some(v@) && v@.wf(),
            None => spec_dotted_lookup(j@, key@) is None,
        },
{
    dotted_rest(j, key, 0)
}

} // verus!
