//! Configurable strings: values composed at request time from templated
//! strings, sibling components and pre-loaded resource files.
//!
//! A component is resolved only if the template mentions its name; a
//! component may itself be a template over the same components. A cycle in
//! component references, or a missing resource file, is a rendering error.

use vstd::prelude::*;
use vstd::string::StrSliceExecFns;

use crate::strings::{push_str, str_eq};

verus! {

/// What a liquid template renders to against a context of string variables,
/// if it renders at all.
pub uninterp spec fn liquid_rendered(
    template: Seq<char>,
    context: Seq<(Seq<char>, Seq<char>)>,
) -> Option<Seq<char>>;

/// The key / value views of a rendering context.
pub open spec fn ctx_view(pairs: Seq<(String, String)>) -> Seq<(Seq<char>, Seq<char>)> {
    Seq::new(pairs.len(), |i: int| (pairs[i].0@, pairs[i].1@))
}

/// Relies on liquid's `ParserBuilder::with_stdlib`, `Parser::parse` and
/// `Template::render`: against given string variables, rendering depends
/// on the template and the variables alone — except through the stdlib
/// `date` filter, the one clock access, so templates that invoke it are
/// kept out by the callers and by this precondition.
#[verifier::external_body]
fn liquid_render(template: &str, context: &Vec<(String, String)>) -> (r: Result<String, String>)
    requires
        !spec_has_date_filter(template@),
    ensures
        r matches Ok(s) ==> liquid_rendered(template@, ctx_view(context@)) == Some(s@),
        r is Err ==> liquid_rendered(template@, ctx_view(context@)) is None,
{
    let parser = match liquid::ParserBuilder::with_stdlib().build() {
        Ok(p) => p,
        Err(e) => return Err(e.to_string()),
    };
    let parsed = match parser.parse(template) {
        Ok(t) => t,
        Err(e) => return Err(e.to_string()),
    };
    let mut globals = liquid::Object::new();
    for (k, v) in context.iter() {
        globals.insert(k.clone().into(), liquid::model::Value::scalar(v.clone()));
    }
    parsed.render(&globals).map_err(|e| e.to_string())
}

/// Relies on liquid's `ParserBuilder::with_stdlib`, `Parser::parse` and
/// `Template::render`, for templates that invoke the `date` filter: their
/// output can depend on the clock, so nothing is claimed of the result
/// beyond its being a string or an error.
#[verifier::external_body]
fn liquid_render_dated(template: &str, context: &Vec<(String, String)>) -> Result<String, String> {
    let parser = match liquid::ParserBuilder::with_stdlib().build() {
        Ok(p) => p,
        Err(e) => return Err(e.to_string()),
    };
    let parsed = match parser.parse(template) {
        Ok(t) => t,
        Err(e) => return Err(e.to_string()),
    };
    let mut globals = liquid::Object::new();
    for (k, v) in context.iter() {
        globals.insert(k.clone().into(), liquid::model::Value::scalar(v.clone()));
    }
    parsed.render(&globals).map_err(|e| e.to_string())
}

/// A component or root drawn from a file or an embedded liquid template.
pub enum ReplacementObject {
    File { file: String },
    Liquid { liquid: String },
}

/// A component or root: a literal string, or an object to evaluate.
pub enum ReplacementValue {
    String(String),
    Object(ReplacementObject),
}

/// The mathematical view of a replacement: what it is and its text.
pub enum Replacement {
    Text(Seq<char>),
    FromFile(Seq<char>),
    Template(Seq<char>),
}

/// The file path of a file replacement.
pub open spec fn spec_file_of(v: ReplacementValue) -> Seq<char> {
    match v {
        ReplacementValue::Object(ReplacementObject::File { file }) => file@,
        _ => Seq::empty(),
    }
}

/// The text of a literal replacement.
pub open spec fn spec_text_of(v: ReplacementValue) -> Seq<char> {
    match v {
        ReplacementValue::String(s) => s@,
        _ => Seq::empty(),
    }
}

/// The replacement does not invoke the clock-reading `date` filter.
pub open spec fn value_date_free(v: Replacement) -> bool {
    match v {
        Replacement::Template(t) => !spec_has_date_filter(t),
        _ => true,
    }
}

/// No component's template invokes the `date` filter.
pub open spec fn comps_date_free(components: Seq<(Seq<char>, Replacement)>) -> bool {
    forall|i: int| 0 <= i < components.len() ==> value_date_free((#[trigger] components[i]).1)
}

impl ReplacementValue {
    pub open spec fn repl(self) -> Replacement {
        match self {
            ReplacementValue::String(s) => Replacement::Text(s@),
            ReplacementValue::Object(ReplacementObject::File { file }) => Replacement::FromFile(
                file@,
            ),
            ReplacementValue::Object(ReplacementObject::Liquid { liquid }) =>
                Replacement::Template(liquid@),
        }
    }
}

impl Clone for ReplacementValue {
    fn clone(&self) -> (r: Self)
        ensures
            r == self,
    {
        match self {
            ReplacementValue::String(s) => ReplacementValue::String(s.clone()),
            ReplacementValue::Object(ReplacementObject::File { file }) => ReplacementValue::Object(
                ReplacementObject::File { file: file.clone() },
            ),
            ReplacementValue::Object(ReplacementObject::Liquid { liquid }) =>
                ReplacementValue::Object(ReplacementObject::Liquid { liquid: liquid.clone() }),
        }
    }
}

/// The resource files read under the feature directories at load time,
/// keyed by relative path.
pub struct LoadedFiles {
    entries: Vec<(String, String)>,
}

/// The path / contents views of the file table.
pub open spec fn files_view(entries: Seq<(String, String)>) -> Seq<(Seq<char>, Seq<char>)> {
    Seq::new(entries.len(), |i: int| (entries[i].0@, entries[i].1@))
}

/// The contents stored under `k`, scanning front to back.
pub open spec fn files_get(table: Seq<(Seq<char>, Seq<char>)>, k: Seq<char>) -> Option<Seq<char>>
    decreases table.len(),
{
    if table.len() == 0 {
        None
    } else if table[0].0 == k {
        Some(table[0].1)
    } else {
        files_get(table.drop_first(), k)
    }
}

impl LoadedFiles {
    pub closed spec fn view_table(self) -> Seq<(Seq<char>, Seq<char>)> {
        files_view(self.entries@)
    }

    pub fn new() -> (r: Self)
        ensures
            r.view_table() =~= Seq::<(Seq<char>, Seq<char>)>::empty(),
    {
        let r = LoadedFiles { entries: Vec::new() };
        proof {
            assert(r.view_table() =~= Seq::<(Seq<char>, Seq<char>)>::empty());
        }
        r
    }

    /// Stores file contents; an existing entry for the path is replaced.
    #[verifier::loop_isolation(false)]
    pub fn insert(&mut self, path: String, contents: String)
        ensures
            files_get(final(self).view_table(), path@) == Some(contents@),
            forall|k: Seq<char>|
                k != path@ ==> #[trigger] files_get(final(self).view_table(), k) == files_get(
                    old(self).view_table(),
                    k,
                ),
    {
        let ghost table = files_view(self.entries@);
        let n = self.entries.len();
        let mut i: usize = 0;
        proof {
            assert(table.skip(0) =~= table);
        }
        loop
            invariant
                i <= n,
                n == self.entries@.len(),
                table == files_view(self.entries@),
                forall|j: int| 0 <= j < i ==> (#[trigger] table[j]).0 != path@,
            decreases n - i,
        {
            if i == n {
                self.entries.push((path, contents));
                proof {
                    let newt = files_view(self.entries@);
                    assert(newt =~= table.push((path@, contents@)));
                    assert forall|k: Seq<char>| true implies #[trigger] files_get(newt, k)
                        == (if k == path@ {
                        Some(contents@)
                    } else {
                        files_get(table, k)
                    }) by {
                        lemma_files_get_push(table, (path@, contents@), k);
                        if k == path@ {
                            lemma_files_get_absent(table, k);
                        }
                    }
                }
                return;
            }
            if str_eq(self.entries[i].0.as_str(), path.as_str()) {
                let ghost oldtable = table;
                self.entries.set(i, (path, contents));
                proof {
                    let newt = files_view(self.entries@);
                    assert(newt =~= oldtable.update(i as int, (path@, contents@)));
                    assert forall|k: Seq<char>| true implies #[trigger] files_get(newt, k)
                        == (if k == path@ {
                        Some(contents@)
                    } else {
                        files_get(oldtable, k)
                    }) by {
                        lemma_files_get_update(oldtable, newt, i as int, path@, contents@, k);
                    }
                }
                return;
            }
            i += 1;
        }
    }

    /// The contents stored for a path.
    #[verifier::loop_isolation(false)]
    pub fn get(&self, path: &str) -> (r: Option<&String>)
        ensures
            match r {
                Some(c) => files_get(self.view_table(), path@) == Some(c@),
                None => files_get(self.view_table(), path@) is None,
            },
    {
        let ghost table = files_view(self.entries@);
        let n = self.entries.len();
        let mut i: usize = 0;
        proof {
            assert(table.skip(0) =~= table);
        }
        loop
            invariant
                i <= n,
                n == self.entries@.len(),
                table == files_view(self.entries@),
                files_get(table, path@) == files_get(table.skip(i as int), path@),
            decreases n - i,
        {
            if i == n {
                proof {
                    assert(table.skip(i as int) =~= Seq::<(Seq<char>, Seq<char>)>::empty());
                }
                return None;
            }
            proof {
                assert(table.skip(i as int)[0] == table[i as int]);
                assert(table.skip(i as int).drop_first() =~= table.skip(i + 1));
            }
            if str_eq(self.entries[i].0.as_str(), path) {
                return Some(&self.entries[i].1);
            }
            i += 1;
        }
    }
}

proof fn lemma_files_get_push(
    table: Seq<(Seq<char>, Seq<char>)>,
    e: (Seq<char>, Seq<char>),
    k: Seq<char>,
)
    ensures
        files_get(table.push(e), k) == if files_get(table, k) is Some {
            files_get(table, k)
        } else if e.0 == k {
            Some(e.1)
        } else {
            None
        },
    decreases table.len(),
{
    if table.len() == 0 {
        assert(table.push(e)[0] == e);
        assert(table.push(e).drop_first() =~= Seq::<(Seq<char>, Seq<char>)>::empty());
        assert(files_get(table, k) is None);
        if e.0 == k {
            assert(files_get(table.push(e), k) == Some(e.1));
        } else {
            assert(files_get(table.push(e), k) == files_get(
                table.push(e).drop_first(),
                k,
            ));
        }
    } else {
        assert(table.push(e)[0] == table[0]);
        assert(table.push(e).drop_first() =~= table.drop_first().push(e));
        lemma_files_get_push(table.drop_first(), e, k);
        if table[0].0 == k {
            assert(files_get(table.push(e), k) == Some(table[0].1));
            assert(files_get(table, k) == Some(table[0].1));
        } else {
            assert(files_get(table.push(e), k) == files_get(table.drop_first().push(e), k));
            assert(files_get(table, k) == files_get(table.drop_first(), k));
        }
    }
}

proof fn lemma_files_get_absent(table: Seq<(Seq<char>, Seq<char>)>, k: Seq<char>)
    requires
        forall|j: int| 0 <= j < table.len() ==> (#[trigger] table[j]).0 != k,
    ensures
        files_get(table, k) is None,
    decreases table.len(),
{
    if table.len() > 0 {
        assert(forall|j: int|
            0 <= j < table.drop_first().len() ==> (#[trigger] table.drop_first()[j])
                == table[j + 1]);
        lemma_files_get_absent(table.drop_first(), k);
    }
}

proof fn lemma_files_get_update(
    oldt: Seq<(Seq<char>, Seq<char>)>,
    newt: Seq<(Seq<char>, Seq<char>)>,
    i: int,
    path: Seq<char>,
    contents: Seq<char>,
    k: Seq<char>,
)
    requires
        0 <= i < oldt.len(),
        newt =~= oldt.update(i, (path, contents)),
        oldt[i].0 == path,
        forall|j: int| 0 <= j < i ==> (#[trigger] oldt[j]).0 != path,
    ensures
        files_get(newt, k) == if k == path {
            Some(contents)
        } else {
            files_get(oldt, k)
        },
    decreases i,
{
    if oldt.len() > 0 {
        if i == 0 {
            if k != path && k != oldt[0].0 {
                assert(newt.drop_first() =~= oldt.drop_first());
            } else if k != path {
                assert(newt.drop_first() =~= oldt.drop_first());
            }
        } else {
            assert(newt[0] == oldt[0]);
            assert(newt.drop_first() =~= oldt.drop_first().update(i - 1, (path, contents)));
            assert(forall|j: int|
                0 <= j < i - 1 ==> (#[trigger] oldt.drop_first()[j]) == oldt[j + 1]);
            lemma_files_get_update(
                oldt.drop_first(),
                newt.drop_first(),
                i - 1,
                path,
                contents,
                k,
            );
        }
    }
}

/// An identifier character, as liquid variable names use them.
pub open spec fn is_ident_char(c: char) -> bool {
    ||| 'a' as u32 <= c as u32 <= 'z' as u32
    ||| 'A' as u32 <= c as u32 <= 'Z' as u32
    ||| '0' as u32 <= c as u32 <= '9' as u32
    ||| c == '_'
}

/// The template mentions `k` as a whole word: `k` occurs with no identifier
/// character on either side.
pub open spec fn spec_occurs_token(t: Seq<char>, k: Seq<char>) -> bool {
    exists|p: int|
        {
            &&& 0 <= p
            &&& p + k.len() <= t.len()
            &&& #[trigger] t.subrange(p, p + k.len()) == k
            &&& (p == 0 || !is_ident_char(t[p - 1]))
            &&& (p + k.len() == t.len() || !is_ident_char(t[p + k.len()]))
        }
}

/// Scans the template for `k` as a whole word.
#[verifier::loop_isolation(false)]
pub fn occurs_token(t: &str, k: &str) -> (r: bool)
    ensures
        r == spec_occurs_token(t@, k@),
{
    let tlen = t.unicode_len();
    let klen = k.unicode_len();
    if klen > tlen {
        return false;
    }
    if klen == 0 {
        let mut p: usize = 0;
        loop
            invariant
                p <= tlen,
                tlen == t@.len(),
                0 == k@.len(),
                forall|q: int|
                    0 <= q < p ==> !{
                        &&& q + k@.len() <= t@.len()
                        &&& #[trigger] t@.subrange(q, q + k@.len()) == k@
                        &&& (q == 0 || !is_ident_char(t@[q - 1]))
                        &&& (q + k@.len() == t@.len() || !is_ident_char(t@[q + k@.len()]))
                    },
            decreases tlen - p,
        {
            let left_ok = if p == 0 {
                true
            } else {
                !ident_char_at(t, p - 1)
            };
            let right_ok = if p == tlen {
                true
            } else {
                !ident_char_at(t, p)
            };
            if left_ok && right_ok {
                proof {
                    assert(t@.subrange(p as int, p as int + k@.len()) =~= k@);
                    assert(spec_occurs_token(t@, k@));
                }
                return true;
            }
            if p == tlen {
                return false;
            }
            p += 1;
        }
    }
    let mut p: usize = 0;
    while p <= tlen - klen
        invariant
            p <= tlen - klen + 1,
            1 <= klen <= tlen,
            tlen == t@.len(),
            klen == k@.len(),
            forall|q: int|
                0 <= q < p ==> !{
                    &&& q + k@.len() <= t@.len()
                    &&& #[trigger] t@.subrange(q, q + k@.len()) == k@
                    &&& (q == 0 || !is_ident_char(t@[q - 1]))
                    &&& (q + k@.len() == t@.len() || !is_ident_char(t@[q + k@.len()]))
                },
        decreases tlen - p,
    {
        let seg = t.substring_char(p, p + klen);
        proof {
            assert(p + klen <= tlen);
        }
        if str_eq(seg, k) {
            let left_ok = if p == 0 {
                true
            } else {
                !ident_char_at(t, p - 1)
            };
            let right_ok = if p + klen == tlen {
                true
            } else {
                !ident_char_at(t, p + klen)
            };
            if left_ok && right_ok {
                proof {
                    assert(t@.subrange(p as int, p as int + k@.len()) == k@);
                    assert(spec_occurs_token(t@, k@));
                }
                return true;
            }
        }
        p += 1;
    }
    return false;
}

fn ident_char_at(t: &str, i: usize) -> (r: bool)
    requires
        i < t@.len(),
    ensures
        r == is_ident_char(t@[i as int]),
{
    let c = t.get_char(i);
    let u = c as u32;
    ('a' as u32) <= u && u <= ('z' as u32) || ('A' as u32) <= u && u <= ('Z' as u32) || ('0'
        as u32) <= u && u <= ('9' as u32) || c == '_'
}

/// The component / path views used by the resolution specs.
pub open spec fn comp_view(pairs: Seq<(String, ReplacementValue)>) -> Seq<
    (Seq<char>, Replacement),
> {
    Seq::new(pairs.len(), |i: int| (pairs[i].0@, pairs[i].1.repl()))
}

pub open spec fn path_view(path: Seq<String>) -> Seq<Seq<char>> {
    Seq::new(path.len(), |i: int| path[i]@)
}

/// The whitespace the template grammar allows between a pipe and the
/// filter name: spaces and newlines.
pub open spec fn is_filter_gap_char(c: char) -> bool {
    c == ' ' || c == '\n' || c == '\r'
}

/// The template invokes the `date` filter: the word `date` stands in
/// filter position, right after a pipe (spaces or newlines between).
pub open spec fn spec_has_date_filter(t: Seq<char>) -> bool {
    exists|p: int|
        {
            &&& 0 <= p
            &&& p + 4 <= t.len()
            &&& #[trigger] t.subrange(p, p + 4) == ("date")@
            &&& (p + 4 == t.len() || !is_ident_char(t[p + 4]))
            &&& exists|q: int|
                0 <= q < p && t[q] == '|' && (forall|m: int|
                    q < m < p ==> is_filter_gap_char(t[m]))
        }
}

/// Whether the template invokes the `date` filter.
#[verifier::loop_isolation(false)]
pub fn has_date_filter(t: &str) -> (r: bool)
    ensures
        r == spec_has_date_filter(t@),
{
    let tlen = t.unicode_len();
    if tlen < 4 {
        return false;
    }
    proof {
        reveal_strlit("date");
    }
    let mut p: usize = 0;
    while p <= tlen - 4
        invariant
            p <= tlen - 4 + 1,
            4 <= tlen,
            tlen == t@.len(),
            ("date")@.len() == 4,
            forall|w: int|
                0 <= w < p ==> !{
                    &&& w + 4 <= t@.len()
                    &&& #[trigger] t@.subrange(w, w + 4) == ("date")@
                    &&& (w + 4 == t@.len() || !is_ident_char(t@[w + 4]))
                    &&& exists|q: int|
                        0 <= q < w && t@[q] == '|' && (forall|m: int|
                            q < m < w ==> is_filter_gap_char(t@[m]))
                },
        decreases tlen - p,
    {
        let seg = t.substring_char(p, p + 4);
        let word_here = str_eq(seg, "date") && (if p + 4 == tlen {
            true
        } else {
            !ident_char_at(t, p + 4)
        });
        if word_here && p > 0 {
            // the nearest non-whitespace to the left must be the pipe
            let mut q: usize = p;
            loop
                invariant
                    0 <= q <= p,
                    tlen == t@.len(),
                    p + 4 <= tlen,
                    forall|m: int| q <= m < p ==> is_filter_gap_char(t@[m]),
                decreases q,
            {
                if q == 0 {
                    proof {
                        assert forall|qq: int|
                            0 <= qq < p implies !(t@[qq] == '|' && (forall|m: int|
                            qq < m < p ==> is_filter_gap_char(t@[m]))) by {
                            assert(is_filter_gap_char(t@[qq]));
                        }
                    }
                    break;
                }
                let c = t.get_char(q - 1);
                if c == ' ' || c == '\n' || c == '\r' {
                    q -= 1;
                    continue;
                }
                if c == '|' {
                    proof {
                        assert(t@.subrange(p as int, p as int + 4) == ("date")@);
                        assert(t@[q - 1] == '|' && (forall|m: int|
                            q - 1 < m < p ==> is_filter_gap_char(t@[m])));
                        assert(spec_has_date_filter(t@));
                    }
                    return true;
                }
                proof {
                    assert forall|qq: int|
                        0 <= qq < p implies !(t@[qq] == '|' && (forall|m: int|
                        qq < m < p ==> is_filter_gap_char(t@[m]))) by {
                        if qq == q - 1 {
                        } else if qq < q - 1 {
                            assert(!is_filter_gap_char(t@[q - 1]));
                        } else {
                            assert(is_filter_gap_char(t@[qq]));
                        }
                    }
                }
                break;
            }
        }
        p += 1;
    }
    proof {
        assert forall|w: int| 0 <= w < t@.len() implies !{
            &&& w + 4 <= t@.len()
            &&& #[trigger] t@.subrange(w, w + 4) == ("date")@
            &&& (w + 4 == t@.len() || !is_ident_char(t@[w + 4]))
            &&& exists|q: int|
                0 <= q < w && t@[q] == '|' && (forall|m: int|
                    q < m < w ==> is_filter_gap_char(t@[m]))
        } by {
            if w >= p {
                assert(w + 4 > t@.len());
            }
        }
    }
    false
}

/// What one replacement resolves to: a literal string itself; a file by
/// its table contents, returned literally; a liquid template by rendering
/// against the components its text mentions, resolved the same way.
/// `None` is a rendering error — a missing file, a reference cycle, or a
/// template liquid rejects. Where a template invokes the clock-reading
/// `date` filter, the rendering still runs, but nothing ties it to this
/// function: the callers' contracts apply only to date-free resolutions.
pub open spec fn spec_resolve_value(
    v: Replacement,
    components: Seq<(Seq<char>, Replacement)>,
    files: Seq<(Seq<char>, Seq<char>)>,
    path: Seq<Seq<char>>,
    fuel: nat,
) -> Option<Seq<char>>
    decreases fuel, 0nat, 0nat,
{
    match v {
        Replacement::Text(s) => Some(s),
        Replacement::FromFile(file) => files_get(files, file),
        Replacement::Template(liquid) => {
            if fuel == 0 {
                None
            } else {
                match spec_resolve_context(liquid, components, files, path, (fuel - 1) as nat, 0) {
                    Some(ctx) => liquid_rendered(liquid, ctx),
                    None => None,
                }
            }
        },
    }
}

/// The context for a template: each component, in stored order, whose name
/// the template's text mentions, resolved; a mentioned component already
/// being resolved is a cycle. Mention is textual, so this resolves a
/// conservative superset of what the engine would demand on the fly: a
/// component named in a branch the render skips is still resolved, and a
/// failure there still fails the rendering.
pub open spec fn spec_resolve_context(
    template: Seq<char>,
    components: Seq<(Seq<char>, Replacement)>,
    files: Seq<(Seq<char>, Seq<char>)>,
    path: Seq<Seq<char>>,
    fuel: nat,
    i: int,
) -> Option<Seq<(Seq<char>, Seq<char>)>>
    decreases fuel, 1nat, components.len() - i,
{
    if i < 0 || i >= components.len() {
        Some(Seq::empty())
    } else {
        let k = components[i].0;
        if spec_occurs_token(template, k) {
            if path.contains(k) {
                None
            } else {
                match spec_resolve_value(
                    components[i].1,
                    components,
                    files,
                    path.push(k),
                    fuel,
                ) {
                    Some(resolved) => match spec_resolve_context(
                        template,
                        components,
                        files,
                        path,
                        fuel,
                        i + 1,
                    ) {
                        Some(rest) => Some(seq![(k, resolved)] + rest),
                        None => None,
                    },
                    None => None,
                }
            }
        } else {
            spec_resolve_context(template, components, files, path, fuel, i + 1)
        }
    }
}

/// Resolves one replacement value.
#[verifier::loop_isolation(false)]
pub fn resolve_value(
    v: &ReplacementValue,
    components: &Vec<(String, ReplacementValue)>,
    files: &LoadedFiles,
    path: &Vec<String>,
    fuel: usize,
) -> (r: Result<String, String>)
    ensures
        (value_date_free(v.repl()) && comps_date_free(comp_view(components@))) ==> match r {
            Ok(s) => spec_resolve_value(
                v.repl(),
                comp_view(components@),
                files.view_table(),
                path_view(path@),
                fuel as nat,
            ) == Some(s@),
            Err(_) => spec_resolve_value(
                v.repl(),
                comp_view(components@),
                files.view_table(),
                path_view(path@),
                fuel as nat,
            ) is None,
        },
        v matches ReplacementValue::String(_) ==> (r matches Ok(s) && s@ == spec_text_of(*v)),
        v matches ReplacementValue::Object(ReplacementObject::File { .. }) ==> match r {
            Ok(s) => files_get(files.view_table(), spec_file_of(*v)) == Some(s@),
            Err(m) => files_get(files.view_table(), spec_file_of(*v)) is None && m@ == (
            "File '")@ + spec_file_of(*v) + ("' not found.")@,
        },
    decreases fuel, 0nat, 0nat,
{
    match v {
        ReplacementValue::String(s) => Ok(s.clone()),
        ReplacementValue::Object(ReplacementObject::File { file }) => {
            match files.get(file.as_str()) {
                Some(contents) => Ok(contents.clone()),
                None => {
                    let mut m = String::new();
                    push_str(&mut m, "File '");
                    push_str(&mut m, file.as_str());
                    push_str(&mut m, "' not found.");
                    Err(m)
                },
            }
        },
        ReplacementValue::Object(ReplacementObject::Liquid { liquid }) => {
            if fuel == 0 {
                return Err(cycle_error());
            }
            match resolve_context(liquid.as_str(), components, files, path, fuel - 1, 0) {
                Ok(ctx) => {
                    let rendered = if has_date_filter(liquid.as_str()) {
                        liquid_render_dated(liquid.as_str(), &ctx)
                    } else {
                        liquid_render(liquid.as_str(), &ctx)
                    };
                    match rendered {
                        Ok(s) => Ok(s),
                        Err(e) => {
                            let mut m = String::new();
                            push_str(&mut m, "Failed to render template: ");
                            push_str(&mut m, e.as_str());
                            Err(m)
                        },
                    }
                },
                Err(e) => Err(e),
            }
        },
    }
}

/// Resolves the context of a template, from component position `i` onward.
#[verifier::loop_isolation(false)]
fn resolve_context(
    template: &str,
    components: &Vec<(String, ReplacementValue)>,
    files: &LoadedFiles,
    path: &Vec<String>,
    fuel: usize,
    i: usize,
) -> (r: Result<Vec<(String, String)>, String>)
    requires
        i <= components@.len(),
    ensures
        comps_date_free(comp_view(components@)) ==> match r {
            Ok(ctx) => spec_resolve_context(
                template@,
                comp_view(components@),
                files.view_table(),
                path_view(path@),
                fuel as nat,
                i as int,
            ) == Some(ctx_view(ctx@)),
            Err(_) => spec_resolve_context(
                template@,
                comp_view(components@),
                files.view_table(),
                path_view(path@),
                fuel as nat,
                i as int,
            ) is None,
        },
    decreases fuel, 1nat, components@.len() - i,
{
    broadcast use vstd::std_specs::vec::group_vec_axioms;

    if i == components.len() {
        let empty: Vec<(String, String)> = Vec::new();
        proof {
            assert(ctx_view(empty@) =~= Seq::<(Seq<char>, Seq<char>)>::empty());
        }
        return Ok(empty);
    }
    let k = &components[i].0;
    if occurs_token(template, k.as_str()) {
        if contains_string(path, k.as_str()) {
            return Err(cycle_error());
        }
        let mut new_path = crate::metadata::clone_string_vec(path);
        new_path.push(k.clone());
        proof {
            assert(path_view(new_path@) =~= path_view(path@).push(k@));
        }
        match resolve_value(&components[i].1, components, files, &new_path, fuel) {
            Ok(resolved) => {
                match resolve_context(template, components, files, path, fuel, i + 1) {
                    Ok(rest) => {
                        let mut out: Vec<(String, String)> = Vec::new();
                        out.push((k.clone(), resolved));
                        let ghost first = out@;
                        let mut j: usize = 0;
                        let n = rest.len();
                        while j < n
                            invariant
                                j <= n,
                                n == rest@.len(),
                                out@.len() == 1 + j,
                                out@[0] == first[0],
                                first.len() == 1,
                                forall|q: int| 0 <= q < j ==> out@[q + 1] == rest@[q],
                            decreases n - j,
                        {
                            let pair = (rest[j].0.clone(), rest[j].1.clone());
                            out.push(pair);
                            j += 1;
                        }
                        proof {
                            assert(ctx_view(out@) =~= seq![(k@, resolved@)] + ctx_view(rest@));
                        }
                        Ok(out)
                    },
                    Err(e) => Err(e),
                }
            },
            Err(e) => Err(e),
        }
    } else {
        resolve_context(template, components, files, path, fuel, i + 1)
    }
}

/// Whether the list holds the string.
pub fn contains_string(list: &Vec<String>, s: &str) -> (r: bool)
    ensures
        r == path_view(list@).contains(s@),
{
    let n = list.len();
    let mut i: usize = 0;
    loop
        invariant
            i <= n,
            n == list@.len(),
            forall|j: int| 0 <= j < i ==> path_view(list@)[j] != s@,
        decreases n - i,
    {
        if i == n {
            proof {
                assert(!path_view(list@).contains(s@));
            }
            return false;
        }
        if str_eq(list[i].as_str(), s) {
            proof {
                assert(path_view(list@)[i as int] == s@);
            }
            return true;
        }
        i += 1;
    }
}

fn cycle_error() -> (r: String)
    ensures
        r@ == ("Cycle detected in configurable string components.")@,
{
    ("Cycle detected in configurable string components.").to_owned()
}


/// A value composed from a root template and named components.
pub struct ConfigurableString {
    pub root: ReplacementValue,
    pub components: Option<std::collections::HashMap<String, ReplacementValue>>,
}

/// `p` lists exactly the entries of `m`, each once, in some order.
pub open spec fn pairs_of_map(
    p: Seq<(String, ReplacementValue)>,
    m: Map<String, ReplacementValue>,
) -> bool {
    &&& forall|i: int|
        0 <= i < p.len() ==> m.contains_key((#[trigger] p[i]).0) && m[p[i].0] == p[i].1
    &&& forall|k: String| m.contains_key(k) ==> exists|i: int| 0 <= i < p.len() && (#[trigger] p[i]).0 == k
    &&& forall|i: int, j: int| 0 <= i < j < p.len() ==> (#[trigger] p[i]).0 != (#[trigger] p[j]).0
}

/// None of the configurable string's components invokes the `date`
/// filter.
pub open spec fn components_date_free(c: ConfigurableString) -> bool {
    match c.components {
        Some(m) => forall|k: String|
            m@.contains_key(k) ==> value_date_free((#[trigger] m@[k]).repl()),
        None => true,
    }
}

/// `p` lists exactly the components of `c`: the map's entries, or nothing
/// when the map is absent.
pub open spec fn pairs_of_components(p: Seq<(String, ReplacementValue)>, c: ConfigurableString) -> bool {
    match c.components {
        Some(m) => pairs_of_map(p, m@),
        None => p.len() == 0,
    }
}

/// Relies on `HashMap::iter`: hands the map's entries out, each exactly
/// once, in no promised order; distinct keys read differently, since a
/// map cannot hold two equal keys.
#[verifier::external_body]
fn hashmap_pairs(m: &std::collections::HashMap<String, ReplacementValue>) -> (r: Vec<
    (String, ReplacementValue),
>)
    ensures
        pairs_of_map(r@, m@),
        forall|i: int, j: int|
            0 <= i < j < r@.len() ==> (#[trigger] r@[i]).0@ != (#[trigger] r@[j]).0@,
{
    m.iter().map(|(k, v)| (k.clone(), v.clone())).collect()
}

/// The pair occurs in the list.
pub open spec fn pair_in(
    p: (String, ReplacementValue),
    s: Seq<(String, ReplacementValue)>,
) -> bool {
    exists|j: int| 0 <= j < s.len() && s[j] == p
}

/// Pairs in strictly increasing key order.
pub open spec fn strict_sorted_pairs(p: Seq<(String, ReplacementValue)>) -> bool {
    forall|i: int, j: int|
        0 <= i < j < p.len() ==> crate::strings::str_lt((#[trigger] p[i]).0@, (#[trigger] p[j]).0@)
}

/// Inserts a pair whose key is not yet present, keeping the strict order.
#[verifier::loop_isolation(false)]
fn insert_pair_sorted(v: &mut Vec<(String, ReplacementValue)>, p: (String, ReplacementValue))
    requires
        strict_sorted_pairs(old(v)@),
        forall|q: int| 0 <= q < old(v)@.len() ==> (#[trigger] old(v)@[q]).0@ != p.0@,
    ensures
        strict_sorted_pairs(final(v)@),
        final(v)@.len() == old(v)@.len() + 1,
        exists|idx: int|
            0 <= idx <= old(v)@.len() && final(v)@ == old(v)@.insert(idx, p),
{
    let ghost pv = v@;
    let n = v.len();
    let mut i: usize = 0;
    while i < n && crate::strings::str_less(v[i].0.as_str(), p.0.as_str())
        invariant
            i <= n,
            n == v@.len(),
            pv == v@,
            forall|j: int| 0 <= j < i ==> crate::strings::str_lt((#[trigger] pv[j]).0@, p.0@),
        decreases n - i,
    {
        i += 1;
    }
    proof {
        if (i as int) < pv.len() {
            // the scan stopped at a key that does not come before the new one
            crate::strings::lemma_str_lt_connected(pv[i as int].0@, p.0@);
            assert(crate::strings::str_lt(p.0@, pv[i as int].0@));
        }
    }
    v.insert(i, p);
    proof {
        let nv = v@;
        assert(nv == pv.insert(i as int, p));
        assert forall|a: int, b: int| 0 <= a < b < nv.len() implies crate::strings::str_lt(
            (#[trigger] nv[a]).0@,
            (#[trigger] nv[b]).0@,
        ) by {
            if b < i {
                assert(nv[a] == pv[a] && nv[b] == pv[b]);
            } else if b == i {
                assert(nv[a] == pv[a]);
                assert(crate::strings::str_lt(pv[a].0@, p.0@));
            } else {
                assert(nv[b] == pv[b - 1]);
                if a < i {
                    assert(nv[a] == pv[a]);
                    assert(a < b - 1);
                    assert(crate::strings::str_lt(pv[a].0@, pv[b - 1].0@));
                } else if a == i {
                    assert(crate::strings::str_lt(p.0@, pv[i as int].0@));
                    if b - 1 > i {
                        crate::strings::lemma_str_lt_trans(
                            p.0@,
                            pv[i as int].0@,
                            pv[b - 1].0@,
                        );
                    }
                } else {
                    assert(nv[a] == pv[a - 1]);
                    assert(crate::strings::str_lt(pv[a - 1].0@, pv[b - 1].0@));
                }
            }
        }
    }
}

/// Sorts component pairs by key; the result holds exactly the given pairs.
#[verifier::loop_isolation(false)]
#[verifier::rlimit(100)]
fn sort_pairs(pairs: Vec<(String, ReplacementValue)>) -> (r: Vec<(String, ReplacementValue)>)
    requires
        forall|i: int, j: int|
            0 <= i < j < pairs@.len() ==> (#[trigger] pairs@[i]).0@ != (#[trigger] pairs@[j]).0@,
    ensures
        strict_sorted_pairs(r@),
        r@.len() == pairs@.len(),
        forall|i: int| 0 <= i < pairs@.len() ==> #[trigger] pair_in(pairs@[i], r@),
        forall|j: int| 0 <= j < r@.len() ==> #[trigger] pair_in(r@[j], pairs@),
{
    let ghost inv_pairs = pairs@;
    let n = pairs.len();
    let mut out: Vec<(String, ReplacementValue)> = Vec::new();
    let mut rest = pairs;
    let mut i: usize = 0;
    while i < n
        invariant
            i <= n,
            n == inv_pairs.len(),
            rest@ == inv_pairs.skip(i as int),
            out@.len() == i,
            strict_sorted_pairs(out@),
            forall|q: int| 0 <= q < i ==> #[trigger] pair_in(inv_pairs[q], out@),
            forall|j: int|
                0 <= j < out@.len() ==> exists|q: int|
                    0 <= q < i && inv_pairs[q] == #[trigger] out@[j],
            forall|a: int, b: int|
                0 <= a < b < inv_pairs.len() ==> (#[trigger] inv_pairs[a]).0@ != (
                #[trigger] inv_pairs[b]).0@,
        decreases n - i,
    {
        let ghost prev_rest = rest@;
        let ghost prev_out = out@;
        let p = rest.remove(0);
        proof {
            assert(rest@ =~= prev_rest.drop_first());
            assert(rest@ =~= inv_pairs.skip(i as int + 1));
            assert(p == inv_pairs[i as int]);
            assert forall|q: int| 0 <= q < out@.len() implies (#[trigger] out@[q]).0@ != p.0@ by {
                let w = choose|w: int| 0 <= w < i && inv_pairs[w] == out@[q];
                assert(inv_pairs[w].0@ != inv_pairs[i as int].0@);
            }
        }
        insert_pair_sorted(&mut out, p);
        proof {
            let idx = choose|idx: int|
                0 <= idx <= prev_out.len() && out@ == prev_out.insert(idx, p);
            assert forall|q: int| 0 <= q < i + 1 implies #[trigger] pair_in(
                inv_pairs[q],
                out@,
            ) by {
                if q == i {
                    assert(out@[idx] == p);
                } else {
                    assert(pair_in(inv_pairs[q], prev_out));
                    let j0 = choose|j0: int|
                        0 <= j0 < prev_out.len() && prev_out[j0] == inv_pairs[q];
                    if j0 < idx {
                        assert(out@[j0] == prev_out[j0]);
                    } else {
                        assert(out@[j0 + 1] == prev_out[j0]);
                    }
                }
            }
            assert forall|j: int| 0 <= j < out@.len() implies exists|q: int|
                0 <= q < i + 1 && inv_pairs[q] == #[trigger] out@[j] by {
                if j == idx {
                    assert(inv_pairs[i as int] == out@[j]);
                } else if j < idx {
                    assert(out@[j] == prev_out[j]);
                } else {
                    assert(out@[j] == prev_out[j - 1]);
                }
            }
        }
        i += 1;
    }
    proof {
        assert forall|q: int| 0 <= q < pairs@.len() implies #[trigger] pair_in(
            pairs@[q],
            out@,
        ) by {
            assert(pairs@[q] == inv_pairs[q]);
            assert(pair_in(inv_pairs[q], out@));
        }
        assert forall|j: int| 0 <= j < out@.len() implies #[trigger] pair_in(
            out@[j],
            pairs@,
        ) by {
            let q = choose|q: int| 0 <= q < inv_pairs.len() && inv_pairs[q] == out@[j];
            assert(pairs@[q] == inv_pairs[q]);
            assert(pairs@[q] == out@[j]);
        }
    }
    out
}

/// Dropping the head keeps pairs strictly sorted.
proof fn lemma_sorted_pairs_tail(p: Seq<(String, ReplacementValue)>)
    requires
        strict_sorted_pairs(p),
        p.len() > 0,
    ensures
        strict_sorted_pairs(p.drop_first()),
{
    let t = p.drop_first();
    assert forall|i: int, j: int| 0 <= i < j < t.len() implies crate::strings::str_lt(
        (#[trigger] t[i]).0@,
        (#[trigger] t[j]).0@,
    ) by {
        assert(t[i] == p[i + 1] && t[j] == p[j + 1]);
    }
}

/// With the same members on both sides, the sorted heads coincide.
proof fn lemma_sorted_pairs_heads(
    p1: Seq<(String, ReplacementValue)>,
    p2: Seq<(String, ReplacementValue)>,
)
    requires
        strict_sorted_pairs(p1),
        strict_sorted_pairs(p2),
        p1.len() > 0,
        p2.len() > 0,
        forall|i: int| 0 <= i < p1.len() ==> #[trigger] pair_in(p1[i], p2),
        forall|j: int| 0 <= j < p2.len() ==> #[trigger] pair_in(p2[j], p1),
    ensures
        p1[0] == p2[0],
{
    assert(pair_in(p1[0], p2));
    assert(pair_in(p2[0], p1));
    let j0 = choose|j: int| 0 <= j < p2.len() && p2[j] == p1[0];
    if j0 != 0 {
        assert(crate::strings::str_lt(p2[0].0@, p2[j0].0@));
        let i0 = choose|i: int| 0 <= i < p1.len() && p1[i] == p2[0];
        if i0 == 0 {
            crate::strings::lemma_str_lt_connected(p1[0].0@, p1[0].0@);
        } else {
            assert(crate::strings::str_lt(p1[0].0@, p1[i0].0@));
            crate::strings::lemma_str_lt_trans(p1[0].0@, p1[i0].0@, p1[0].0@);
            crate::strings::lemma_str_lt_connected(p1[0].0@, p1[0].0@);
        }
    }
}

/// With equal heads, every tail member of one side sits in the other tail.
proof fn lemma_sorted_pairs_tail_members(
    p1: Seq<(String, ReplacementValue)>,
    p2: Seq<(String, ReplacementValue)>,
)
    requires
        strict_sorted_pairs(p1),
        strict_sorted_pairs(p2),
        p1.len() > 0,
        p2.len() > 0,
        p1[0] == p2[0],
        forall|i: int| 0 <= i < p1.len() ==> #[trigger] pair_in(p1[i], p2),
    ensures
        forall|i: int|
            0 <= i < p1.drop_first().len() ==> #[trigger] pair_in(
                p1.drop_first()[i],
                p2.drop_first(),
            ),
{
    let t1 = p1.drop_first();
    let t2 = p2.drop_first();
    assert forall|i: int| 0 <= i < t1.len() implies #[trigger] pair_in(t1[i], t2) by {
        assert(t1[i] == p1[i + 1]);
        assert(pair_in(p1[i + 1], p2));
        let j = choose|j: int| 0 <= j < p2.len() && p2[j] == p1[i + 1];
        if j == 0 {
            assert(crate::strings::str_lt(p1[0].0@, p1[i + 1].0@));
            assert(p1[i + 1].0@ == p1[0].0@);
            crate::strings::lemma_str_lt_connected(p1[0].0@, p1[0].0@);
        }
        assert(t2[j - 1] == p2[j]);
    }
}

/// Two strictly key-sorted pair lists with the same members are equal.
pub proof fn lemma_sorted_pairs_unique(
    p1: Seq<(String, ReplacementValue)>,
    p2: Seq<(String, ReplacementValue)>,
)
    requires
        strict_sorted_pairs(p1),
        strict_sorted_pairs(p2),
        forall|i: int| 0 <= i < p1.len() ==> #[trigger] pair_in(p1[i], p2),
        forall|j: int| 0 <= j < p2.len() ==> #[trigger] pair_in(p2[j], p1),
    ensures
        p1 == p2,
    decreases p1.len(),
{
    if p1.len() == 0 {
        if p2.len() > 0 {
            assert(pair_in(p2[0], p1));
        }
        assert(p1 =~= p2);
    } else if p2.len() == 0 {
        assert(pair_in(p1[0], p2));
    } else {
        lemma_sorted_pairs_heads(p1, p2);
        lemma_sorted_pairs_tail(p1);
        lemma_sorted_pairs_tail(p2);
        lemma_sorted_pairs_tail_members(p1, p2);
        lemma_sorted_pairs_tail_members(p2, p1);
        lemma_sorted_pairs_unique(p1.drop_first(), p2.drop_first());
        assert forall|i: int| 0 <= i < p1.len() implies p1[i] == p2[i] by {
            if i > 0 {
                assert(p1.drop_first()[i - 1] == p1[i]);
                assert(p2.drop_first()[i - 1] == p2[i]);
            }
        }
        assert(p1.len() == p2.len());
        assert(p1 =~= p2);
    }
}

impl ConfigurableString {
    /// Renders the root against the components, resolving each component
    /// the template mentions: literally for strings, from the file table
    /// for files, and recursively for nested templates. The components
    /// are taken in sorted key order, so where no template invokes the
    /// clock-reading `date` filter the outcome is pinned: any strictly
    /// key-sorted enumeration of the component map gives exactly this
    /// result, and equal inputs give equal outputs. A `date`-bearing
    /// template still renders, with nothing promised of its text.
    pub fn build(&self, files: &LoadedFiles) -> (r: Result<String, String>)
        ensures
            exists|p: Seq<(String, ReplacementValue)>|
                #[trigger] pairs_of_components(p, *self) && strict_sorted_pairs(p),
            (value_date_free(self.root.repl()) && components_date_free(*self)) ==> forall|
                p: Seq<(String, ReplacementValue)>,
            |
                (#[trigger] pairs_of_components(p, *self) && strict_sorted_pairs(p)) ==> match r {
                    Ok(s) => spec_resolve_value(
                        self.root.repl(),
                        comp_view(p),
                        files.view_table(),
                        Seq::empty(),
                        crate::locator::spec_site_fuel(p.len()),
                    ) == Some(s@),
                    Err(_) => spec_resolve_value(
                        self.root.repl(),
                        comp_view(p),
                        files.view_table(),
                        Seq::empty(),
                        crate::locator::spec_site_fuel(p.len()),
                    ) is None,
                },
            (self.root.repl() matches Replacement::FromFile(f) && files_get(
                files.view_table(),
                f,
            ) is None) ==> (r matches Err(m) && m@ == ("File '")@ + spec_file_of(self.root) + (
            "' not found.")@),
    {
        let raw: Vec<(String, ReplacementValue)> = match &self.components {
            Some(m) => hashmap_pairs(m),
            None => Vec::new(),
        };
        proof {
            assert(pairs_of_components(raw@, *self));
        }
        let components = sort_pairs(raw);
        proof {
            assert(pairs_of_components(components@, *self)) by {
                match self.components {
                    Some(m) => {
                        assert forall|i: int| 0 <= i < components@.len() implies m@.contains_key(
                            (#[trigger] components@[i]).0,
                        ) && m@[components@[i].0] == components@[i].1 by {
                            assert(pair_in(components@[i], raw@));
                            let q = choose|q: int|
                                0 <= q < raw@.len() && raw@[q] == components@[i];
                            assert(m@.contains_key(raw@[q].0));
                        }
                        assert forall|k: String| m@.contains_key(k) implies exists|i: int|
                            0 <= i < components@.len() && (#[trigger] components@[i]).0 == k by {
                            let q = choose|q: int|
                                0 <= q < raw@.len() && (#[trigger] raw@[q]).0 == k;
                            assert(pair_in(raw@[q], components@));
                            let j = choose|j: int|
                                0 <= j < components@.len() && components@[j] == raw@[q];
                            assert(components@[j].0 == k);
                        }
                        assert forall|i: int, j: int|
                            0 <= i < j < components@.len() implies (
                        #[trigger] components@[i]).0 != (#[trigger] components@[j]).0 by {
                            crate::strings::lemma_str_lt_connected(
                                components@[i].0@,
                                components@[j].0@,
                            );
                        }
                    },
                    None => {
                        assert(raw@.len() == 0);
                    },
                }
            }
        }
        let fuel: usize = if components.len() < usize::MAX {
            components.len() + 1
        } else {
            components.len()
        };
        let empty_path: Vec<String> = Vec::new();
        proof {
            assert(path_view(empty_path@) =~= Seq::<Seq<char>>::empty());
        }
        proof {
            if components_date_free(*self) {
                assert forall|q: int|
                    0 <= q < comp_view(components@).len() implies value_date_free(
                    (#[trigger] comp_view(components@)[q]).1,
                ) by {
                    match self.components {
                        Some(m) => {
                            assert(m@.contains_key(components@[q].0));
                            assert(m@[components@[q].0] == components@[q].1);
                        },
                        None => {},
                    }
                }
                assert(comps_date_free(comp_view(components@)));
            }
        }
        let result = resolve_value(&self.root, &components, files, &empty_path, fuel);
        proof {
            assert forall|p: Seq<(String, ReplacementValue)>|
                (#[trigger] pairs_of_components(p, *self) && strict_sorted_pairs(p)) implies p
                == components@ by {
                match self.components {
                    Some(m) => {
                        assert forall|i: int| 0 <= i < p.len() implies #[trigger] pair_in(
                            p[i],
                            components@,
                        ) by {
                            let k = p[i].0;
                            assert(m@.contains_key(k));
                            let j = choose|j: int|
                                0 <= j < components@.len() && (#[trigger] components@[j]).0 == k;
                            assert(components@[j].1 == m@[k] && p[i].1 == m@[k]);
                            assert(components@[j] == p[i]);
                        }
                        assert forall|j: int| 0 <= j < components@.len() implies #[trigger] pair_in(
                            components@[j],
                            p,
                        ) by {
                            let k = components@[j].0;
                            assert(m@.contains_key(k));
                            let i = choose|i: int|
                                0 <= i < p.len() && (#[trigger] p[i]).0 == k;
                            assert(p[i].1 == m@[k] && components@[j].1 == m@[k]);
                            assert(p[i] == components@[j]);
                        }
                        lemma_sorted_pairs_unique(p, components@);
                    },
                    None => {
                        assert(p.len() == 0 && components@.len() == 0);
                        assert(p =~= components@);
                    },
                }
            }
        }
        result
    }
}

} // verus!
