//! A reference evaluator for the straight-line fragment of the language,
//! and the proof that propagation preserves what it computes.
//!
//! The evaluator is partial: an unbound identifier, an out-of-range index,
//! an ill-sized array or a function call does not reduce. Semantic
//! preservation says that whenever an expression reduces to a result under
//! a concrete binding, its propagated form reduces to the same result,
//! provided every literal the environment holds agrees with that binding.

use crate::field::{f_add, f_div, f_mul, f_pow, f_sub};
use crate::propagation::{
    array_key, bool_key, element_key, fe_key, prop_array, prop_bool, prop_fe, prop_fe_seq,
    prop_typed, SpecEnv,
};
use crate::typed_absy::{
    SpecArrayExpression, SpecBooleanExpression, SpecExpression, SpecFieldExpression, SpecVariable,
    Type,
};
use vstd::prelude::*;

verus! {

/// A concrete value: a field element, a boolean, or a field array.
#[verifier::ext_equal]
pub enum SpecValue {
    FieldValue(nat),
    BoolValue(bool),
    ArrayValue(Seq<nat>),
}

/// A concrete binding of variables to values.
pub type Valuation = Map<SpecVariable, SpecValue>;

/// What a field-element expression reduces to, if anything.
pub open spec fn eval_fe(e: SpecFieldExpression, sigma: Valuation) -> Option<nat>
    decreases e,
{
    match e {
        SpecFieldExpression::Number(n) => Some(n),
        SpecFieldExpression::Identifier(id) => {
            let var = SpecVariable { id: id, ty: Type::FieldElement };
            if sigma.contains_key(var) {
                match sigma[var] {
                    SpecValue::FieldValue(v) => Some(v),
                    _ => None,
                }
            } else {
                None
            }
        },
        SpecFieldExpression::Add(e1, e2) => match (eval_fe(*e1, sigma), eval_fe(*e2, sigma)) {
            (Some(v1), Some(v2)) => Some(f_add(v1, v2)),
            _ => None,
        },
        SpecFieldExpression::Sub(e1, e2) => match (eval_fe(*e1, sigma), eval_fe(*e2, sigma)) {
            (Some(v1), Some(v2)) => Some(f_sub(v1, v2)),
            _ => None,
        },
        SpecFieldExpression::Mult(e1, e2) => match (eval_fe(*e1, sigma), eval_fe(*e2, sigma)) {
            (Some(v1), Some(v2)) => Some(f_mul(v1, v2)),
            _ => None,
        },
        SpecFieldExpression::Div(e1, e2) => match (eval_fe(*e1, sigma), eval_fe(*e2, sigma)) {
            (Some(v1), Some(v2)) => Some(f_div(v1, v2)),
            _ => None,
        },
        SpecFieldExpression::Pow(e1, e2) => match (eval_fe(*e1, sigma), eval_fe(*e2, sigma)) {
            (Some(v1), Some(v2)) => Some(f_pow(v1, v2)),
            _ => None,
        },
        SpecFieldExpression::IfElse(c, t, f) => match eval_bool(*c, sigma) {
            Some(true) => eval_fe(*t, sigma),
            Some(false) => eval_fe(*f, sigma),
            None => None,
        },
        SpecFieldExpression::FunctionCall(_, _) => None,
        SpecFieldExpression::Select(a, i) => match (eval_array(*a, sigma), eval_fe(*i, sigma)) {
            (Some(vs), Some(n)) => if n < vs.len() {
                Some(vs[n as int])
            } else {
                None
            },
            _ => None,
        },
    }
}

/// What a boolean expression reduces to, if anything.
pub open spec fn eval_bool(e: SpecBooleanExpression, sigma: Valuation) -> Option<bool>
    decreases e,
{
    match e {
        SpecBooleanExpression::Value(v) => Some(v),
        SpecBooleanExpression::Identifier(id) => {
            let var = SpecVariable { id: id, ty: Type::Boolean };
            if sigma.contains_key(var) {
                match sigma[var] {
                    SpecValue::BoolValue(v) => Some(v),
                    _ => None,
                }
            } else {
                None
            }
        },
        SpecBooleanExpression::Eq(e1, e2) => match (eval_fe(*e1, sigma), eval_fe(*e2, sigma)) {
            (Some(v1), Some(v2)) => Some(v1 == v2),
            _ => None,
        },
        SpecBooleanExpression::Lt(e1, e2) => match (eval_fe(*e1, sigma), eval_fe(*e2, sigma)) {
            (Some(v1), Some(v2)) => Some(v1 < v2),
            _ => None,
        },
        SpecBooleanExpression::Le(e1, e2) => match (eval_fe(*e1, sigma), eval_fe(*e2, sigma)) {
            (Some(v1), Some(v2)) => Some(v1 <= v2),
            _ => None,
        },
        SpecBooleanExpression::Gt(e1, e2) => match (eval_fe(*e1, sigma), eval_fe(*e2, sigma)) {
            (Some(v1), Some(v2)) => Some(v1 > v2),
            _ => None,
        },
        SpecBooleanExpression::Ge(e1, e2) => match (eval_fe(*e1, sigma), eval_fe(*e2, sigma)) {
            (Some(v1), Some(v2)) => Some(v1 >= v2),
            _ => None,
        },
    }
}

/// What an array expression reduces to, if anything: exactly its stated
/// number of element values.
pub open spec fn eval_array(e: SpecArrayExpression, sigma: Valuation) -> Option<Seq<nat>>
    decreases e,
{
    match e {
        SpecArrayExpression::Identifier(size, id) => {
            let var = SpecVariable { id: id, ty: Type::FieldElementArray(size as usize) };
            if sigma.contains_key(var) {
                match sigma[var] {
                    SpecValue::ArrayValue(vs) => if vs.len() == size {
                        Some(vs)
                    } else {
                        None
                    },
                    _ => None,
                }
            } else {
                None
            }
        },
        SpecArrayExpression::Value(size, exprs) => match eval_fe_seq(exprs, sigma) {
            Some(vs) => if vs.len() == size {
                Some(vs)
            } else {
                None
            },
            None => None,
        },
    }
}

/// What a sequence of field-element expressions reduces to, elementwise.
pub open spec fn eval_fe_seq(s: Seq<SpecFieldExpression>, sigma: Valuation) -> Option<Seq<nat>>
    decreases s,
{
    if s.len() == 0 {
        Some(Seq::empty())
    } else {
        match eval_fe(s.first(), sigma) {
            Some(v) => match eval_fe_seq(s.drop_first(), sigma) {
                Some(rest) => Some(seq![v] + rest),
                None => None,
            },
            None => None,
        }
    }
}

/// What the selection of a known index from a named array reduces to.
pub open spec fn eval_element(id: Seq<char>, size: nat, n: nat, sigma: Valuation) -> Option<nat> {
    match eval_array(SpecArrayExpression::Identifier(size, id), sigma) {
        Some(vs) => if n < vs.len() {
            Some(vs[n as int])
        } else {
            None
        },
        None => None,
    }
}

/// Whether every literal the environment holds agrees with the binding:
/// each bound key stores exactly what its identifier reduces to.
pub open spec fn env_matches(env: SpecEnv, sigma: Valuation) -> bool {
    &&& forall|id: Seq<char>| #[trigger] env.contains_key(fe_key(id)) ==> {
        &&& env[fe_key(id)] matches SpecExpression::FieldElement(f)
        &&& eval_fe(env[fe_key(id)]->FieldElement_0, sigma) == eval_fe(
            SpecFieldExpression::Identifier(id),
            sigma,
        )
    }
    &&& forall|id: Seq<char>| #[trigger] env.contains_key(bool_key(id)) ==> {
        &&& env[bool_key(id)] matches SpecExpression::Boolean(b)
        &&& eval_bool(env[bool_key(id)]->Boolean_0, sigma) == eval_bool(
            SpecBooleanExpression::Identifier(id),
            sigma,
        )
    }
    &&& forall|id: Seq<char>, size: nat| #[trigger] env.contains_key(array_key(id, size)) ==> {
        &&& env[array_key(id, size)] matches SpecExpression::FieldElementArray(a)
        &&& eval_array(env[array_key(id, size)]->FieldElementArray_0, sigma) == eval_array(
            SpecArrayExpression::Identifier(size, id),
            sigma,
        )
    }
    &&& forall|id: Seq<char>, size: nat, n: nat| #[trigger] env.contains_key(
        element_key(id, size, n),
    ) ==> {
        &&& env[element_key(id, size, n)] matches SpecExpression::FieldElement(f)
        &&& eval_fe(env[element_key(id, size, n)]->FieldElement_0, sigma) == eval_element(
            id,
            size,
            n,
            sigma,
        )
    }
}

/// An `Ok` of `eval_fe_seq` evaluates each element to the matching value.
proof fn lemma_eval_fe_seq_char(s: Seq<SpecFieldExpression>, sigma: Valuation)
    ensures
        eval_fe_seq(s, sigma) matches Some(vs) ==> {
            &&& vs.len() == s.len()
            &&& forall|i: int| 0 <= i < s.len() ==> eval_fe(#[trigger] s[i], sigma)
                == Some::<nat>(vs[i])
        },
    decreases s.len(),
{
    if s.len() > 0 {
        lemma_eval_fe_seq_char(s.drop_first(), sigma);
        if eval_fe_seq(s, sigma) is Some {
            let vs = eval_fe_seq(s, sigma)->Some_0;
            let rest = eval_fe_seq(s.drop_first(), sigma)->Some_0;
            assert(forall|i: int|
                0 <= i < s.drop_first().len() ==> #[trigger] s.drop_first()[i] == s[i + 1]);
            assert forall|i: int| 0 <= i < s.len() implies eval_fe(#[trigger] s[i], sigma)
                == Some::<nat>(vs[i]) by {
                if i > 0 {
                    assert(s.drop_first()[i - 1] == s[i]);
                    assert(vs[i] == rest[i - 1]);
                }
            }
        }
    }
}

/// Elementwise evaluation equality lifts to whole sequences.
proof fn lemma_eval_fe_seq_congruent(
    s1: Seq<SpecFieldExpression>,
    s2: Seq<SpecFieldExpression>,
    sigma: Valuation,
)
    requires
        s1.len() == s2.len(),
        forall|i: int| 0 <= i < s1.len() ==> (eval_fe(#[trigger] s1[i], sigma) is Some
            ==> eval_fe(s2[i], sigma) == eval_fe(s1[i], sigma)),
    ensures
        eval_fe_seq(s1, sigma) matches Some(vs) ==> eval_fe_seq(s2, sigma) == Some::<Seq<nat>>(vs),
    decreases s1.len(),
{
    if s1.len() > 0 {
        assert(forall|i: int|
            0 <= i < s1.drop_first().len() ==> #[trigger] s1.drop_first()[i] == s1[i + 1]);
        assert(forall|i: int|
            0 <= i < s2.drop_first().len() ==> #[trigger] s2.drop_first()[i] == s2[i + 1]);
        lemma_eval_fe_seq_congruent(s1.drop_first(), s2.drop_first(), sigma);
        if eval_fe_seq(s1, sigma) is Some {
            assert(eval_fe(s1[0], sigma) is Some);
            assert(eval_fe(s2.first(), sigma) == eval_fe(s1.first(), sigma));
        }
    }
}

/// Semantic preservation for field-element expressions: whenever the input
/// reduces to a result under a binding the environment agrees with, the
/// propagated output reduces to the same result.
pub proof fn lemma_prop_preserves_eval_fe(e: SpecFieldExpression, env: SpecEnv, sigma: Valuation)
    requires
        env_matches(env, sigma),
    ensures
        prop_fe(e, env) matches Ok(o) ==> (eval_fe(e, sigma) is Some ==> eval_fe(o, sigma)
            == eval_fe(e, sigma)),
    decreases e,
{
    match e {
        SpecFieldExpression::Number(_) => {},
        SpecFieldExpression::Identifier(_) => {},
        SpecFieldExpression::Add(e1, e2) => {
            lemma_prop_preserves_eval_fe(*e1, env, sigma);
            lemma_prop_preserves_eval_fe(*e2, env, sigma);
        },
        SpecFieldExpression::Sub(e1, e2) => {
            lemma_prop_preserves_eval_fe(*e1, env, sigma);
            lemma_prop_preserves_eval_fe(*e2, env, sigma);
        },
        SpecFieldExpression::Mult(e1, e2) => {
            lemma_prop_preserves_eval_fe(*e1, env, sigma);
            lemma_prop_preserves_eval_fe(*e2, env, sigma);
        },
        SpecFieldExpression::Div(e1, e2) => {
            lemma_prop_preserves_eval_fe(*e1, env, sigma);
            lemma_prop_preserves_eval_fe(*e2, env, sigma);
        },
        SpecFieldExpression::Pow(e1, e2) => {
            lemma_prop_preserves_eval_fe(*e1, env, sigma);
            lemma_prop_preserves_eval_fe(*e2, env, sigma);
        },
        SpecFieldExpression::IfElse(c, t, f) => {
            lemma_prop_preserves_eval_bool(*c, env, sigma);
            lemma_prop_preserves_eval_fe(*t, env, sigma);
            lemma_prop_preserves_eval_fe(*f, env, sigma);
        },
        SpecFieldExpression::FunctionCall(_, _) => {},
        SpecFieldExpression::Select(a, i) => {
            lemma_prop_preserves_eval_array(*a, env, sigma);
            lemma_prop_preserves_eval_fe(*i, env, sigma);
            if prop_array(*a, env) is Ok && prop_fe(*i, env) is Ok && eval_fe(e, sigma) is Some {
                let pa = prop_array(*a, env)->Ok_0;
                let pi = prop_fe(*i, env)->Ok_0;
                let vs = eval_array(*a, sigma)->Some_0;
                let n0 = eval_fe(*i, sigma)->Some_0;
                assert(eval_array(pa, sigma) == Some::<Seq<nat>>(vs));
                assert(eval_fe(pi, sigma) == Some::<nat>(n0));
                match (pa, pi) {
                    (SpecArrayExpression::Value(size, v), SpecFieldExpression::Number(n)) => {
                        assert(n == n0);
                        lemma_eval_fe_seq_char(v, sigma);
                    },
                    (
                        SpecArrayExpression::Identifier(size, id),
                        SpecFieldExpression::Number(n),
                    ) => {
                        assert(n == n0);
                        assert(eval_array(
                            SpecArrayExpression::Identifier(size, id),
                            sigma,
                        ) == Some::<Seq<nat>>(vs));
                    },
                    _ => {},
                }
            }
        },
    }
}

/// Semantic preservation for boolean expressions.
pub proof fn lemma_prop_preserves_eval_bool(
    e: SpecBooleanExpression,
    env: SpecEnv,
    sigma: Valuation,
)
    requires
        env_matches(env, sigma),
    ensures
        prop_bool(e, env) matches Ok(o) ==> (eval_bool(e, sigma) is Some ==> eval_bool(o, sigma)
            == eval_bool(e, sigma)),
    decreases e,
{
    match e {
        SpecBooleanExpression::Value(_) => {},
        SpecBooleanExpression::Identifier(_) => {},
        SpecBooleanExpression::Eq(e1, e2) => {
            lemma_prop_preserves_eval_fe(*e1, env, sigma);
            lemma_prop_preserves_eval_fe(*e2, env, sigma);
        },
        SpecBooleanExpression::Lt(e1, e2) => {
            lemma_prop_preserves_eval_fe(*e1, env, sigma);
            lemma_prop_preserves_eval_fe(*e2, env, sigma);
        },
        SpecBooleanExpression::Le(e1, e2) => {
            lemma_prop_preserves_eval_fe(*e1, env, sigma);
            lemma_prop_preserves_eval_fe(*e2, env, sigma);
        },
        SpecBooleanExpression::Gt(e1, e2) => {
            lemma_prop_preserves_eval_fe(*e1, env, sigma);
            lemma_prop_preserves_eval_fe(*e2, env, sigma);
        },
        SpecBooleanExpression::Ge(e1, e2) => {
            lemma_prop_preserves_eval_fe(*e1, env, sigma);
            lemma_prop_preserves_eval_fe(*e2, env, sigma);
        },
    }
}

/// Semantic preservation for array expressions.
pub proof fn lemma_prop_preserves_eval_array(
    e: SpecArrayExpression,
    env: SpecEnv,
    sigma: Valuation,
)
    requires
        env_matches(env, sigma),
    ensures
        prop_array(e, env) matches Ok(o) ==> (eval_array(e, sigma) is Some ==> eval_array(
            o,
            sigma,
        ) == eval_array(e, sigma)),
    decreases e,
{
    match e {
        SpecArrayExpression::Identifier(_, _) => {},
        SpecArrayExpression::Value(size, exprs) => {
            crate::laws::lemma_prop_fe_seq_char(exprs, env);
            if prop_fe_seq(exprs, env) is Ok && eval_array(e, sigma) is Some {
                let pexprs = prop_fe_seq(exprs, env)->Ok_0;
                lemma_eval_fe_seq_char(exprs, sigma);
                assert forall|i: int| 0 <= i < exprs.len() implies (eval_fe(
                    #[trigger] exprs[i],
                    sigma,
                ) is Some ==> eval_fe(pexprs[i], sigma) == eval_fe(exprs[i], sigma)) by {
                    lemma_prop_preserves_eval_fe(exprs[i], env, sigma);
                }
                lemma_eval_fe_seq_congruent(exprs, pexprs, sigma);
            }
        },
    }
}

/// Semantic preservation for typed expressions.
pub proof fn lemma_prop_preserves_eval_typed(e: SpecExpression, env: SpecEnv, sigma: Valuation)
    requires
        env_matches(env, sigma),
    ensures
        prop_typed(e, env) matches Ok(o) ==> {
            match e {
                SpecExpression::FieldElement(f) => eval_fe(f, sigma) is Some ==> eval_fe(
                    o->FieldElement_0,
                    sigma,
                ) == eval_fe(f, sigma),
                SpecExpression::Boolean(b) => eval_bool(b, sigma) is Some ==> eval_bool(
                    o->Boolean_0,
                    sigma,
                ) == eval_bool(b, sigma),
                SpecExpression::FieldElementArray(a) => eval_array(a, sigma) is Some
                    ==> eval_array(o->FieldElementArray_0, sigma) == eval_array(a, sigma),
            }
        },
{
    match e {
        SpecExpression::FieldElement(f) => {
            lemma_prop_preserves_eval_fe(f, env, sigma);
        },
        SpecExpression::Boolean(b) => {
            lemma_prop_preserves_eval_bool(b, env, sigma);
        },
        SpecExpression::FieldElementArray(a) => {
            lemma_prop_preserves_eval_array(a, env, sigma);
        },
    }
}

} // verus!
