//! The condition language: an expression tree of equality and regex
//! predicates over JSON Pointer paths, grouped by and / or / not.

use vstd::prelude::*;

use crate::json::{Json, JsonValue};
use crate::json_text::spec_json_text;
use crate::pointer::spec_ptr_lookup;

verus! {

/// Whether `pattern` is accepted by the regex engine.
pub uninterp spec fn regex_valid(pattern: Seq<char>) -> bool;

/// Whether a valid `pattern` matches somewhere in `text`.
pub uninterp spec fn regex_match(pattern: Seq<char>, text: Seq<char>) -> bool;

/// Relies on `regex::Regex::new`: a pattern either compiles or is rejected,
/// and which of the two happens depends on the pattern alone.
#[verifier::external_body]
fn regex_compiles(pattern: &str) -> (r: bool)
    ensures
        r == regex_valid(pattern@),
{
    regex::Regex::new(pattern).is_ok()
}

/// Relies on `regex::Regex::new` and `regex::Regex::is_match`: whether a
/// valid pattern matches a text depends on the pattern and the text alone.
#[verifier::external_body]
fn regex_find_match(pattern: &str, text: &str) -> (r: bool)
    requires
        regex_valid(pattern@),
    ensures
        r == regex_match(pattern@, text@),
{
    match regex::Regex::new(pattern) {
        Ok(re) => re.is_match(text),
        Err(_) => false,
    }
}

/// A regex pattern that was checked against the engine when it was built.
pub struct RegexWrapper {
    pattern: String,
}

impl RegexWrapper {
    pub closed spec fn wf(self) -> bool {
        regex_valid(self.pattern@)
    }

    pub closed spec fn spec_pattern(self) -> Seq<char> {
        self.pattern@
    }

    /// Accepts the pattern only if the regex engine does.
    pub fn new(pattern: String) -> (r: Result<RegexWrapper, String>)
        ensures
            r is Ok <==> regex_valid(pattern@),
            r matches Ok(w) ==> w.wf() && w.spec_pattern() == pattern@,
    {
        if regex_compiles(pattern.as_str()) {
            Ok(RegexWrapper { pattern })
        } else {
            Err(pattern)
        }
    }

    pub fn pattern(&self) -> (r: &str)
        ensures
            r@ == self.spec_pattern(),
    {
        self.pattern.as_str()
    }

    /// Whether the pattern matches somewhere in `text`.
    pub fn is_match(&self, text: &str) -> (r: bool)
        requires
            self.wf(),
        ensures
            r == regex_match(self.spec_pattern(), text@),
    {
        regex_find_match(self.pattern.as_str(), text)
    }
}

impl Clone for RegexWrapper {
    fn clone(&self) -> (r: Self)
        ensures
            r == self,
    {
        RegexWrapper { pattern: self.pattern.clone() }
    }
}

/// What a condition asks of the value at its pointer.
pub enum Predicate {
    Equals { equals: JsonValue },
    Matches { matches: RegexWrapper },
}

/// A single predicate over one JSON Pointer path.
pub struct Condition {
    pub json_pointer: String,
    pub operator_value: Predicate,
}

/// A boolean expression over a constraints document.
pub enum ConditionExpression {
    Condition(Condition),
    And { and: Vec<ConditionExpression> },
    Or { or: Vec<ConditionExpression> },
    Not { not: Box<ConditionExpression> },
}

impl Predicate {
    pub open spec fn wf(self) -> bool {
        match self {
            Predicate::Equals { equals } => equals@.wf(),
            Predicate::Matches { matches } => matches.wf(),
        }
    }
}

impl Condition {
    pub open spec fn wf(self) -> bool {
        self.operator_value.wf()
    }

    /// What the condition says of a constraints document: the pointer is
    /// looked up; a missing path is false; `equals` compares documents;
    /// `matches` runs the regex over the string value, or over the
    /// canonical text of a non-string value.
    pub open spec fn spec_eval(self, c: Json) -> bool {
        match spec_ptr_lookup(c, self.json_pointer@) {
            Some(v) => match self.operator_value {
                Predicate::Equals { equals } => v == equals@,
                Predicate::Matches { matches } => match v {
                    Json::Str(s) => regex_match(matches.spec_pattern(), s),
                    _ => regex_match(matches.spec_pattern(), spec_json_text(v)),
                },
            },
            None => false,
        }
    }
}

impl ConditionExpression {
    pub open spec fn wf(self) -> bool
        decreases self, 0nat,
    {
        match self {
            ConditionExpression::Condition(cond) => cond.wf(),
            ConditionExpression::And { and } => {
                proof {
                    assert(decreases_to!(self => and));
                    assert(decreases_to!(and => and@));
                }
                exprs_wf(and@, 0)
            },
            ConditionExpression::Or { or } => {
                proof {
                    assert(decreases_to!(self => or));
                    assert(decreases_to!(or => or@));
                }
                exprs_wf(or@, 0)
            },
            ConditionExpression::Not { not } => {
                proof {
                    assert(decreases_to!(self => not));
                }
                not.wf()
            },
        }
    }

    /// What the expression says of a constraints document: `and` of nothing
    /// is true, `or` of nothing is false, `not` negates.
    pub open spec fn spec_eval(self, c: Json) -> bool
        decreases self, 0nat,
    {
        match self {
            ConditionExpression::Condition(cond) => cond.spec_eval(c),
            ConditionExpression::And { and } => {
                proof {
                    assert(decreases_to!(self => and));
                    assert(decreases_to!(and => and@));
                }
                exprs_all(and@, c, 0)
            },
            ConditionExpression::Or { or } => {
                proof {
                    assert(decreases_to!(self => or));
                    assert(decreases_to!(or => or@));
                }
                exprs_any(or@, c, 0)
            },
            ConditionExpression::Not { not } => {
                proof {
                    assert(decreases_to!(self => not));
                }
                !not.spec_eval(c)
            },
        }
    }
}

/// All expressions from position `i` onward are well-formed.
pub open spec fn exprs_wf(list: Seq<ConditionExpression>, i: int) -> bool
    decreases list, list.len() - i,
{
    if i < 0 || i >= list.len() {
        true
    } else {
        proof {
            assert(decreases_to!(list => list[i]));
        }
        list[i].wf() && exprs_wf(list, i + 1)
    }
}

/// All expressions from position `i` onward hold of `c`.
pub open spec fn exprs_all(list: Seq<ConditionExpression>, c: Json, i: int) -> bool
    decreases list, list.len() - i,
{
    if i < 0 || i >= list.len() {
        true
    } else {
        proof {
            assert(decreases_to!(list => list[i]));
        }
        list[i].spec_eval(c) && exprs_all(list, c, i + 1)
    }
}

/// Some expression from position `i` onward holds of `c`.
pub open spec fn exprs_any(list: Seq<ConditionExpression>, c: Json, i: int) -> bool
    decreases list, list.len() - i,
{
    if i < 0 || i >= list.len() {
        false
    } else {
        proof {
            assert(decreases_to!(list => list[i]));
        }
        list[i].spec_eval(c) || exprs_any(list, c, i + 1)
    }
}

} // verus!
