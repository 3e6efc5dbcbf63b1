//! Evaluation of condition expressions against a constraints document.

use vstd::prelude::*;

use crate::conditions::{
    exprs_all, exprs_any, exprs_wf, ConditionExpression, Predicate,
};
use crate::json::{json_eq, JsonValue};
use crate::json_text::to_json_string;
use crate::pointer::json_pointer_lookup;

verus! {

/// The per-request constraints document that conditions are read against.
pub struct Constraints {
    pub constraints: JsonValue,
}

/// Each expression of a well-formed list is well-formed.
pub proof fn lemma_exprs_wf_extract(list: Seq<ConditionExpression>, i: int, j: int)
    requires
        exprs_wf(list, i),
        0 <= i <= j < list.len(),
    ensures
        list[j].wf(),
    decreases j - i,
{
    if i < j {
        lemma_exprs_wf_extract(list, i + 1, j);
    }
}

impl Clone for Constraints {
    fn clone(&self) -> (r: Self)
        ensures
            r.constraints@ == self.constraints@,
    {
        Constraints { constraints: self.constraints.clone() }
    }
}

impl Constraints {
    /// Evaluates an expression against the constraints document. Evaluation
    /// is total: every well-formed expression yields a boolean on every
    /// document.
    #[verifier::loop_isolation(false)]
    pub fn evaluate(&self, conditions: &ConditionExpression) -> (r: bool)
        requires
            self.constraints@.wf(),
            conditions.wf(),
        ensures
            r == conditions.spec_eval(self.constraints@),
        decreases conditions,
    {
        broadcast use vstd::std_specs::vec::group_vec_axioms;

        let ghost c = self.constraints@;
        match conditions {
            ConditionExpression::Condition(condition) => {
                match json_pointer_lookup(&self.constraints, condition.json_pointer.as_str()) {
                    Some(v) => match &condition.operator_value {
                        Predicate::Equals { equals } => json_eq(v, equals),
                        Predicate::Matches { matches } => match v {
                            JsonValue::Str(s) => matches.is_match(s.as_str()),
                            _ => {
                                let text = to_json_string(v);
                                matches.is_match(text.as_str())
                            },
                        },
                    },
                    None => false,
                }
            },
            ConditionExpression::And { and } => {
                let n = and.len();
                let mut i: usize = 0;
                loop
                    invariant
                        i <= n,
                        n == and@.len(),
                        conditions == (ConditionExpression::And { and: *and }),
                        exprs_all(and@, c, 0) == exprs_all(and@, c, i as int),
                    decreases n - i,
                {
                    if i == n {
                        return true;
                    }
                    proof {
                        assert(decreases_to!(conditions => and));
                        assert(decreases_to!(and => and@[i as int]));
                        assert(decreases_to!(conditions => and@[i as int]));
                        lemma_exprs_wf_extract(and@, 0, i as int);
                    }
                    if !self.evaluate(&and[i]) {
                        return false;
                    }
                    i += 1;
                }
            },
            ConditionExpression::Or { or } => {
                let n = or.len();
                let mut i: usize = 0;
                loop
                    invariant
                        i <= n,
                        n == or@.len(),
                        conditions == (ConditionExpression::Or { or: *or }),
                        exprs_any(or@, c, 0) == exprs_any(or@, c, i as int),
                    decreases n - i,
                {
                    if i == n {
                        return false;
                    }
                    proof {
                        assert(decreases_to!(conditions => or));
                        assert(decreases_to!(or => or@[i as int]));
                        assert(decreases_to!(conditions => or@[i as int]));
                        lemma_exprs_wf_extract(or@, 0, i as int);
                    }
                    if self.evaluate(&or[i]) {
                        return true;
                    }
                    i += 1;
                }
            },
            ConditionExpression::Not { not } => {
                proof {
                    assert(decreases_to!(conditions => not));
                }
                !self.evaluate(not)
            },
        }
    }
}

/// An empty `and` group holds of every document; an empty `or` group holds
/// of none.
pub proof fn lemma_empty_groups(e: ConditionExpression, c: crate::json::Json)
    ensures
        (e matches ConditionExpression::And { and } && and@.len() == 0) ==> e.spec_eval(c),
        (e matches ConditionExpression::Or { or } && or@.len() == 0) ==> !e.spec_eval(c),
{
    match e {
        ConditionExpression::And { and } => {
            if and@.len() == 0 {
                assert(e.spec_eval(c) == exprs_all(and@, c, 0));
                assert(exprs_all(and@, c, 0));
            }
        },
        ConditionExpression::Or { or } => {
            if or@.len() == 0 {
                assert(e.spec_eval(c) == exprs_any(or@, c, 0));
                assert(!exprs_any(or@, c, 0));
            }
        },
        _ => {},
    }
}

} // verus!
