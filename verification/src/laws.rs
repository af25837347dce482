//! The governing laws of the propagation pass, proved over its mirror.
//!
//! The central one is idempotence: running the pass a second time on its own
//! output changes nothing. It rests on stability: whatever the pass returns
//! for an expression contains no leftover redex and no identifier that a
//! second, empty environment could resolve.

use crate::error::Error;
use crate::propagation::{
    prop_array, prop_bool, prop_fe, prop_fe_seq, prop_function, prop_function_seq, prop_prog,
    prop_statements, prop_stmt, prop_typed, prop_typed_seq, SpecEnv,
};
use crate::typed_absy::{
    is_literal, is_literal_array, is_literal_fe, SpecArrayExpression, SpecAssignee,
    SpecBooleanExpression, SpecExpression, SpecExpressionList, SpecFieldExpression, SpecFunction,
    SpecProg, SpecStatement,
};
use vstd::prelude::*;

verus! {

/// Whether every value the environment holds is a literal.
pub open spec fn literal_env(env: SpecEnv) -> bool {
    forall|k: SpecAssignee| #[trigger] env.contains_key(k) ==> is_literal(env[k])
}

/// The empty environment.
pub open spec fn empty_env() -> SpecEnv {
    Map::empty()
}

/// An `Ok` of `prop_fe_seq` maps each element to its own propagation.
pub proof fn lemma_prop_fe_seq_char(s: Seq<SpecFieldExpression>, env: SpecEnv)
    ensures
        prop_fe_seq(s, env) matches Ok(o) ==> {
            &&& o.len() == s.len()
            &&& forall|i: int| 0 <= i < s.len() ==> prop_fe(#[trigger] s[i], env) == Ok::<
                SpecFieldExpression,
                Error,
            >(o[i])
        },
    decreases s.len(),
{
    if s.len() > 0 {
        lemma_prop_fe_seq_char(s.drop_first(), env);
        if prop_fe_seq(s, env) is Ok {
            let o = prop_fe_seq(s, env)->Ok_0;
            let rest = prop_fe_seq(s.drop_first(), env)->Ok_0;
            assert(forall|i: int|
                0 <= i < s.drop_first().len() ==> #[trigger] s.drop_first()[i] == s[i + 1]);
            assert forall|i: int| 0 <= i < s.len() implies prop_fe(#[trigger] s[i], env) == Ok::<
                SpecFieldExpression,
                Error,
            >(o[i]) by {
                if i > 0 {
                    assert(s.drop_first()[i - 1] == s[i]);
                    assert(o[i] == rest[i - 1]);
                }
            }
        }
    }
}

/// An `Ok` of `prop_typed_seq` maps each element to its own propagation.
pub proof fn lemma_prop_typed_seq_char(s: Seq<SpecExpression>, env: SpecEnv)
    ensures
        prop_typed_seq(s, env) matches Ok(o) ==> {
            &&& o.len() == s.len()
            &&& forall|i: int| 0 <= i < s.len() ==> prop_typed(#[trigger] s[i], env) == Ok::<
                SpecExpression,
                Error,
            >(o[i])
        },
    decreases s.len(),
{
    if s.len() > 0 {
        lemma_prop_typed_seq_char(s.drop_first(), env);
        if prop_typed_seq(s, env) is Ok {
            let o = prop_typed_seq(s, env)->Ok_0;
            let rest = prop_typed_seq(s.drop_first(), env)->Ok_0;
            assert(forall|i: int|
                0 <= i < s.drop_first().len() ==> #[trigger] s.drop_first()[i] == s[i + 1]);
            assert forall|i: int| 0 <= i < s.len() implies prop_typed(#[trigger] s[i], env)
                == Ok::<SpecExpression, Error>(o[i]) by {
                if i > 0 {
                    assert(s.drop_first()[i - 1] == s[i]);
                    assert(o[i] == rest[i - 1]);
                }
            }
        }
    }
}

/// A sequence each of whose elements propagates to itself propagates to
/// itself as a whole.
proof fn lemma_fe_seq_identity(s: Seq<SpecFieldExpression>, env: SpecEnv)
    requires
        forall|i: int| 0 <= i < s.len() ==> prop_fe(#[trigger] s[i], env) == Ok::<
            SpecFieldExpression,
            Error,
        >(s[i]),
    ensures
        prop_fe_seq(s, env) == Ok::<Seq<SpecFieldExpression>, Error>(s),
    decreases s.len(),
{
    if s.len() == 0 {
        assert(s =~= Seq::<SpecFieldExpression>::empty());
    } else {
        assert(forall|i: int|
            0 <= i < s.drop_first().len() ==> #[trigger] s.drop_first()[i] == s[i + 1]);
        lemma_fe_seq_identity(s.drop_first(), env);
        assert(prop_fe(s.first(), env) == Ok::<SpecFieldExpression, Error>(s[0]));
        assert(seq![s[0]] + s.drop_first() =~= s);
    }
}

/// A sequence each of whose elements propagates to itself propagates to
/// itself as a whole.
proof fn lemma_typed_seq_identity(s: Seq<SpecExpression>, env: SpecEnv)
    requires
        forall|i: int| 0 <= i < s.len() ==> prop_typed(#[trigger] s[i], env) == Ok::<
            SpecExpression,
            Error,
        >(s[i]),
    ensures
        prop_typed_seq(s, env) == Ok::<Seq<SpecExpression>, Error>(s),
    decreases s.len(),
{
    if s.len() == 0 {
        assert(s =~= Seq::<SpecExpression>::empty());
    } else {
        assert(forall|i: int|
            0 <= i < s.drop_first().len() ==> #[trigger] s.drop_first()[i] == s[i + 1]);
        lemma_typed_seq_identity(s.drop_first(), env);
        assert(prop_typed(s.first(), env) == Ok::<SpecExpression, Error>(s[0]));
        assert(seq![s[0]] + s.drop_first() =~= s);
    }
}

/// Stability: what the pass returns for a field-element expression under a
/// literal-only environment propagates to itself under the empty one.
proof fn lemma_fe_stable(e: SpecFieldExpression, env: SpecEnv)
    requires
        literal_env(env),
    ensures
        prop_fe(e, env) matches Ok(o) ==> prop_fe(o, empty_env()) == Ok::<
            SpecFieldExpression,
            Error,
        >(o),
    decreases e,
{
    match e {
        SpecFieldExpression::Number(_) => {},
        SpecFieldExpression::Identifier(_) => {},
        SpecFieldExpression::Add(e1, e2) => {
            lemma_fe_stable(*e1, env);
            lemma_fe_stable(*e2, env);
        },
        SpecFieldExpression::Sub(e1, e2) => {
            lemma_fe_stable(*e1, env);
            lemma_fe_stable(*e2, env);
        },
        SpecFieldExpression::Mult(e1, e2) => {
            lemma_fe_stable(*e1, env);
            lemma_fe_stable(*e2, env);
        },
        SpecFieldExpression::Div(e1, e2) => {
            lemma_fe_stable(*e1, env);
            lemma_fe_stable(*e2, env);
        },
        SpecFieldExpression::Pow(e1, e2) => {
            lemma_fe_stable(*e1, env);
            lemma_fe_stable(*e2, env);
        },
        SpecFieldExpression::IfElse(c, t, f) => {
            lemma_bool_stable(*c, env);
            lemma_fe_stable(*t, env);
            lemma_fe_stable(*f, env);
        },
        SpecFieldExpression::FunctionCall(id, args) => {
            lemma_typed_seq_stable(args, env);
        },
        SpecFieldExpression::Select(a, i) => {
            lemma_array_stable(*a, env);
            lemma_fe_stable(*i, env);
            lemma_array_out_elements_stable(*a, env);
        },
    }
}

/// Stability for boolean expressions.
proof fn lemma_bool_stable(e: SpecBooleanExpression, env: SpecEnv)
    requires
        literal_env(env),
    ensures
        prop_bool(e, env) matches Ok(o) ==> prop_bool(o, empty_env()) == Ok::<
            SpecBooleanExpression,
            Error,
        >(o),
    decreases e,
{
    match e {
        SpecBooleanExpression::Value(_) => {},
        SpecBooleanExpression::Identifier(_) => {},
        SpecBooleanExpression::Eq(e1, e2) => {
            lemma_fe_stable(*e1, env);
            lemma_fe_stable(*e2, env);
        },
        SpecBooleanExpression::Lt(e1, e2) => {
            lemma_fe_stable(*e1, env);
            lemma_fe_stable(*e2, env);
        },
        SpecBooleanExpression::Le(e1, e2) => {
            lemma_fe_stable(*e1, env);
            lemma_fe_stable(*e2, env);
        },
        SpecBooleanExpression::Gt(e1, e2) => {
            lemma_fe_stable(*e1, env);
            lemma_fe_stable(*e2, env);
        },
        SpecBooleanExpression::Ge(e1, e2) => {
            lemma_fe_stable(*e1, env);
            lemma_fe_stable(*e2, env);
        },
    }
}

/// Stability for array expressions.
proof fn lemma_array_stable(e: SpecArrayExpression, env: SpecEnv)
    requires
        literal_env(env),
    ensures
        prop_array(e, env) matches Ok(o) ==> prop_array(o, empty_env()) == Ok::<
            SpecArrayExpression,
            Error,
        >(o),
    decreases e,
{
    match e {
        SpecArrayExpression::Identifier(size, id) => {
            if prop_array(e, env) is Ok {
                let o = prop_array(e, env)->Ok_0;
                match o {
                    SpecArrayExpression::Value(osize, ov) => {
                        assert(is_literal_array(o));
                        assert forall|i: int| 0 <= i < ov.len() implies prop_fe(
                            #[trigger] ov[i],
                            empty_env(),
                        ) == Ok::<SpecFieldExpression, Error>(ov[i]) by {
                            assert(ov[i] is Number);
                        }
                        lemma_fe_seq_identity(ov, empty_env());
                    },
                    _ => {},
                }
            }
        },
        SpecArrayExpression::Value(size, exprs) => {
            lemma_prop_fe_seq_char(exprs, env);
            if prop_fe_seq(exprs, env) is Ok {
                let ov = prop_fe_seq(exprs, env)->Ok_0;
                assert forall|i: int| 0 <= i < ov.len() implies prop_fe(
                    #[trigger] ov[i],
                    empty_env(),
                ) == Ok::<SpecFieldExpression, Error>(ov[i]) by {
                    lemma_fe_stable(exprs[i], env);
                }
                lemma_fe_seq_identity(ov, empty_env());
            }
        },
    }
}

/// Every element of an array literal the pass returns propagates to itself
/// under the empty environment.
proof fn lemma_array_out_elements_stable(a: SpecArrayExpression, env: SpecEnv)
    requires
        literal_env(env),
    ensures
        prop_array(a, env) matches Ok(o) ==> (o matches SpecArrayExpression::Value(size, v)
            ==> forall|i: int| 0 <= i < v.len() ==> prop_fe(#[trigger] v[i], empty_env())
            == Ok::<SpecFieldExpression, Error>(v[i])),
    decreases a,
{
    match a {
        SpecArrayExpression::Identifier(size, id) => {
            if prop_array(a, env) is Ok {
                let o = prop_array(a, env)->Ok_0;
                match o {
                    SpecArrayExpression::Value(osize, ov) => {
                        assert(is_literal_array(o));
                        assert forall|i: int| 0 <= i < ov.len() implies prop_fe(
                            #[trigger] ov[i],
                            empty_env(),
                        ) == Ok::<SpecFieldExpression, Error>(ov[i]) by {
                            assert(ov[i] is Number);
                        }
                    },
                    _ => {},
                }
            }
        },
        SpecArrayExpression::Value(size, exprs) => {
            lemma_prop_fe_seq_char(exprs, env);
            if prop_fe_seq(exprs, env) is Ok {
                let ov = prop_fe_seq(exprs, env)->Ok_0;
                assert forall|i: int| 0 <= i < ov.len() implies prop_fe(
                    #[trigger] ov[i],
                    empty_env(),
                ) == Ok::<SpecFieldExpression, Error>(ov[i]) by {
                    lemma_fe_stable(exprs[i], env);
                }
            }
        },
    }
}

/// Stability for typed expressions.
proof fn lemma_typed_stable(e: SpecExpression, env: SpecEnv)
    requires
        literal_env(env),
    ensures
        prop_typed(e, env) matches Ok(o) ==> prop_typed(o, empty_env()) == Ok::<
            SpecExpression,
            Error,
        >(o),
    decreases e,
{
    match e {
        SpecExpression::FieldElement(f) => {
            lemma_fe_stable(f, env);
        },
        SpecExpression::Boolean(b) => {
            lemma_bool_stable(b, env);
        },
        SpecExpression::FieldElementArray(a) => {
            lemma_array_stable(a, env);
        },
    }
}

/// Stability for sequences of typed expressions.
proof fn lemma_typed_seq_stable(s: Seq<SpecExpression>, env: SpecEnv)
    requires
        literal_env(env),
    ensures
        prop_typed_seq(s, env) matches Ok(o) ==> prop_typed_seq(o, empty_env()) == Ok::<
            Seq<SpecExpression>,
            Error,
        >(o),
    decreases s,
{
    lemma_prop_typed_seq_char(s, env);
    if prop_typed_seq(s, env) is Ok {
        let o = prop_typed_seq(s, env)->Ok_0;
        assert forall|i: int| 0 <= i < o.len() implies prop_typed(#[trigger] o[i], empty_env())
            == Ok::<SpecExpression, Error>(o[i]) by {
            lemma_typed_stable(s[i], env);
        }
        lemma_typed_seq_identity(o, empty_env());
    }
}

/// Literal-only environment: a statement consumed at a boundary where every
/// bound value is a `Number`, a boolean `Value`, or an all-`Number` array
/// `Value` leaves the environment in the same state; since each function
/// starts from the empty environment, the invariant holds at every
/// statement boundary.
pub proof fn lemma_stmt_env_literal(s: SpecStatement, env: SpecEnv)
    requires
        literal_env(env),
    ensures
        prop_stmt(s, env) matches Ok(pair) ==> literal_env(pair.1),
{
    if prop_stmt(s, env) is Ok {
        let env1 = prop_stmt(s, env)->Ok_0.1;
        match s {
            SpecStatement::Definition(SpecAssignee::Identifier(var), expr) => {
                if prop_typed(expr, env) is Ok {
                    let pe = prop_typed(expr, env)->Ok_0;
                    assert forall|k: SpecAssignee| #[trigger] env1.contains_key(k) implies
                        is_literal(env1[k]) by {
                        if env1 == env.insert(SpecAssignee::Identifier(var), pe) && k
                            == SpecAssignee::Identifier(var) {
                        } else {
                        }
                    }
                }
            },
            SpecStatement::Definition(SpecAssignee::ArrayElement(base, index), expr) => {
                assert forall|k: SpecAssignee| #[trigger] env1.contains_key(k) implies is_literal(
                    env1[k],
                ) by {
                    match *base {
                        SpecAssignee::Identifier(var) => {
                            let key = SpecAssignee::Identifier(var);
                            if env.contains_key(key) && k == key {
                                assert(is_literal(env[key]));
                            }
                        },
                        _ => {},
                    }
                }
            },
            _ => {},
        }
    }
}

/// Stability for statements: an emitted statement propagates to itself,
/// without effect, under the empty environment.
proof fn lemma_stmt_stable(s: SpecStatement, env: SpecEnv)
    requires
        literal_env(env),
    ensures
        prop_stmt(s, env) matches Ok(pair) ==> (pair.0 matches Some(s2) ==> prop_stmt(
            s2,
            empty_env(),
        ) == Ok::<(Option<SpecStatement>, SpecEnv), Error>((Some(s2), empty_env()))),
{
    match s {
        SpecStatement::Return(exprs) => {
            lemma_typed_seq_stable(exprs, env);
        },
        SpecStatement::Definition(SpecAssignee::Identifier(var), expr) => {
            lemma_typed_stable(expr, env);
        },
        SpecStatement::Definition(SpecAssignee::ArrayElement(base, index), expr) => {
            match *base {
                SpecAssignee::Identifier(var) => {
                    lemma_fe_stable(*index, env);
                    lemma_typed_stable(expr, env);
                    assert(empty_env().remove(SpecAssignee::Identifier(var)) =~= empty_env());
                },
                _ => {},
            }
        },
        SpecStatement::Condition(e1, e2) => {
            lemma_typed_stable(e1, env);
            lemma_typed_stable(e2, env);
        },
        SpecStatement::For(_, _, _, _) => {},
        SpecStatement::MultipleDefinition(vars, l) => {
            match l {
                SpecExpressionList::FunctionCall(id, args, types) => {
                    lemma_typed_seq_stable(args, env);
                },
            }
        },
        SpecStatement::Declaration(_) => {},
    }
}

/// Stability for statement sequences: what one pass emits, a second pass
/// from a fresh environment emits unchanged.
proof fn lemma_statements_stable(ss: Seq<SpecStatement>, env: SpecEnv)
    requires
        literal_env(env),
    ensures
        prop_statements(ss, env) matches Ok(pair) ==> prop_statements(pair.0, empty_env())
            == Ok::<(Seq<SpecStatement>, SpecEnv), Error>((pair.0, empty_env())),
    decreases ss.len(),
{
    if ss.len() == 0 {
        if prop_statements(ss, env) is Ok {
            let out = prop_statements(ss, env)->Ok_0.0;
            assert(out =~= Seq::<SpecStatement>::empty());
        }
    } else if prop_stmt(ss.first(), env) is Ok {
        let (opt, env1) = prop_stmt(ss.first(), env)->Ok_0;
        lemma_stmt_env_literal(ss.first(), env);
        lemma_stmt_stable(ss.first(), env);
        lemma_statements_stable(ss.drop_first(), env1);
        if prop_statements(ss.drop_first(), env1) is Ok {
            let rest = prop_statements(ss.drop_first(), env1)->Ok_0.0;
            match opt {
                Some(s2) => {
                    let out = seq![s2] + rest;
                    assert(out.first() == s2);
                    assert(out.drop_first() =~= rest);
                    assert(prop_statements(out, empty_env()) == Ok::<
                        (Seq<SpecStatement>, SpecEnv),
                        Error,
                    >((seq![s2] + rest, empty_env())));
                },
                None => {},
            }
        }
    }
}

/// Stability for one function.
proof fn lemma_function_stable(f: SpecFunction)
    ensures
        prop_function(f) matches Ok(g) ==> prop_function(g) == Ok::<SpecFunction, Error>(g),
{
    assert(literal_env(empty_env()));
    lemma_statements_stable(f.statements, empty_env());
    if prop_function(f) is Ok {
        let g = prop_function(f)->Ok_0;
        assert(prop_function(g) == Ok::<SpecFunction, Error>(
            SpecFunction {
                id: g.id,
                arguments: g.arguments,
                returns: g.returns,
                statements: g.statements,
            },
        ));
        assert(g =~= SpecFunction {
            id: g.id,
            arguments: g.arguments,
            returns: g.returns,
            statements: g.statements,
        });
    }
}

/// Stability for function sequences.
proof fn lemma_function_seq_stable(s: Seq<SpecFunction>)
    ensures
        prop_function_seq(s) matches Ok(o) ==> prop_function_seq(o) == Ok::<
            Seq<SpecFunction>,
            Error,
        >(o),
    decreases s.len(),
{
    if s.len() == 0 {
        if prop_function_seq(s) is Ok {
            assert(prop_function_seq(s)->Ok_0 =~= Seq::<SpecFunction>::empty());
        }
    } else if prop_function(s.first()) is Ok {
        lemma_function_stable(s.first());
        lemma_function_seq_stable(s.drop_first());
        if prop_function_seq(s.drop_first()) is Ok {
            let g = prop_function(s.first())->Ok_0;
            let rest = prop_function_seq(s.drop_first())->Ok_0;
            let out = seq![g] + rest;
            assert(out.first() == g);
            assert(out.drop_first() =~= rest);
        }
    }
}

/// Idempotence: for every program, propagating the result of propagation
/// returns it unchanged.
pub proof fn lemma_propagation_idempotent(p: SpecProg)
    ensures
        prop_prog(p) matches Ok(q) ==> prop_prog(q) == Ok::<SpecProg, Error>(q),
{
    lemma_function_seq_stable(p.functions);
    if prop_prog(p) is Ok {
        let q = prop_prog(p)->Ok_0;
        assert(q =~= SpecProg { functions: q.functions });
    }
}

/// Shapeliness of a field-element expression: every array literal inside it
/// carries exactly as many elements as its stated size.
pub open spec fn shapely_fe(e: SpecFieldExpression) -> bool
    decreases e,
{
    match e {
        SpecFieldExpression::Number(_) => true,
        SpecFieldExpression::Identifier(_) => true,
        SpecFieldExpression::Add(e1, e2) => shapely_fe(*e1) && shapely_fe(*e2),
        SpecFieldExpression::Sub(e1, e2) => shapely_fe(*e1) && shapely_fe(*e2),
        SpecFieldExpression::Mult(e1, e2) => shapely_fe(*e1) && shapely_fe(*e2),
        SpecFieldExpression::Div(e1, e2) => shapely_fe(*e1) && shapely_fe(*e2),
        SpecFieldExpression::Pow(e1, e2) => shapely_fe(*e1) && shapely_fe(*e2),
        SpecFieldExpression::IfElse(c, t, f) => shapely_bool(*c) && shapely_fe(*t) && shapely_fe(
            *f,
        ),
        SpecFieldExpression::FunctionCall(_, args) => shapely_typed_seq(args),
        SpecFieldExpression::Select(a, i) => shapely_array(*a) && shapely_fe(*i),
    }
}

/// Shapeliness of a boolean expression.
pub open spec fn shapely_bool(e: SpecBooleanExpression) -> bool
    decreases e,
{
    match e {
        SpecBooleanExpression::Value(_) => true,
        SpecBooleanExpression::Identifier(_) => true,
        SpecBooleanExpression::Eq(e1, e2) => shapely_fe(*e1) && shapely_fe(*e2),
        SpecBooleanExpression::Lt(e1, e2) => shapely_fe(*e1) && shapely_fe(*e2),
        SpecBooleanExpression::Le(e1, e2) => shapely_fe(*e1) && shapely_fe(*e2),
        SpecBooleanExpression::Gt(e1, e2) => shapely_fe(*e1) && shapely_fe(*e2),
        SpecBooleanExpression::Ge(e1, e2) => shapely_fe(*e1) && shapely_fe(*e2),
    }
}

/// Shapeliness of an array expression: a `Value` holds exactly its stated
/// number of elements, each itself shapely.
pub open spec fn shapely_array(e: SpecArrayExpression) -> bool
    decreases e,
{
    match e {
        SpecArrayExpression::Identifier(_, _) => true,
        SpecArrayExpression::Value(size, v) => v.len() == size && shapely_fe_seq(v),
    }
}

/// Shapeliness of a typed expression.
pub open spec fn shapely_typed(e: SpecExpression) -> bool
    decreases e,
{
    match e {
        SpecExpression::FieldElement(f) => shapely_fe(f),
        SpecExpression::Boolean(b) => shapely_bool(b),
        SpecExpression::FieldElementArray(a) => shapely_array(a),
    }
}

/// Shapeliness of a sequence of field-element expressions.
pub open spec fn shapely_fe_seq(s: Seq<SpecFieldExpression>) -> bool
    decreases s,
{
    if s.len() == 0 {
        true
    } else {
        shapely_fe(s.first()) && shapely_fe_seq(s.drop_first())
    }
}

/// Shapeliness of a sequence of typed expressions.
pub open spec fn shapely_typed_seq(s: Seq<SpecExpression>) -> bool
    decreases s,
{
    if s.len() == 0 {
        true
    } else {
        shapely_typed(s.first()) && shapely_typed_seq(s.drop_first())
    }
}

/// A sequence is shapely exactly when each of its elements is.
proof fn lemma_shapely_fe_seq_char(s: Seq<SpecFieldExpression>)
    ensures
        shapely_fe_seq(s) <==> (forall|i: int| 0 <= i < s.len() ==> shapely_fe(#[trigger] s[i])),
    decreases s.len(),
{
    if s.len() > 0 {
        lemma_shapely_fe_seq_char(s.drop_first());
        assert(forall|i: int|
            0 <= i < s.drop_first().len() ==> #[trigger] s.drop_first()[i] == s[i + 1]);
        if forall|i: int| 0 <= i < s.len() ==> shapely_fe(#[trigger] s[i]) {
            assert(shapely_fe(s.first()));
            assert(forall|i: int|
                0 <= i < s.drop_first().len() ==> shapely_fe(#[trigger] s.drop_first()[i]));
        }
        if shapely_fe_seq(s) {
            assert forall|i: int| 0 <= i < s.len() implies shapely_fe(#[trigger] s[i]) by {
                if i > 0 {
                    assert(s.drop_first()[i - 1] == s[i]);
                }
            }
        }
    }
}

/// A sequence is shapely exactly when each of its elements is.
proof fn lemma_shapely_typed_seq_char(s: Seq<SpecExpression>)
    ensures
        shapely_typed_seq(s) <==> (forall|i: int|
            0 <= i < s.len() ==> shapely_typed(#[trigger] s[i])),
    decreases s.len(),
{
    if s.len() > 0 {
        lemma_shapely_typed_seq_char(s.drop_first());
        assert(forall|i: int|
            0 <= i < s.drop_first().len() ==> #[trigger] s.drop_first()[i] == s[i + 1]);
        if forall|i: int| 0 <= i < s.len() ==> shapely_typed(#[trigger] s[i]) {
            assert(shapely_typed(s.first()));
            assert(forall|i: int|
                0 <= i < s.drop_first().len() ==> shapely_typed(#[trigger] s.drop_first()[i]));
        }
        if shapely_typed_seq(s) {
            assert forall|i: int| 0 <= i < s.len() implies shapely_typed(#[trigger] s[i]) by {
                if i > 0 {
                    assert(s.drop_first()[i - 1] == s[i]);
                }
            }
        }
    }
}

/// A literal is shapely.
proof fn lemma_literal_shapely(e: SpecExpression)
    requires
        is_literal(e),
    ensures
        shapely_typed(e),
{
    match e {
        SpecExpression::FieldElementArray(SpecArrayExpression::Value(size, v)) => {
            lemma_shapely_fe_seq_char(v);
            assert forall|i: int| 0 <= i < v.len() implies shapely_fe(#[trigger] v[i]) by {
                assert(is_literal_fe(v[i]));
            }
        },
        _ => {},
    }
}

/// Propagation preserves shapeliness of field-element expressions.
proof fn lemma_prop_fe_shapely(e: SpecFieldExpression, env: SpecEnv)
    requires
        literal_env(env),
        shapely_fe(e),
    ensures
        prop_fe(e, env) matches Ok(o) ==> shapely_fe(o),
    decreases e,
{
    match e {
        SpecFieldExpression::Number(_) => {},
        SpecFieldExpression::Identifier(id) => {
            if prop_fe(e, env) is Ok && env.contains_key(crate::propagation::fe_key(id)) {
                lemma_literal_shapely(env[crate::propagation::fe_key(id)]);
            }
        },
        SpecFieldExpression::Add(e1, e2) => {
            lemma_prop_fe_shapely(*e1, env);
            lemma_prop_fe_shapely(*e2, env);
        },
        SpecFieldExpression::Sub(e1, e2) => {
            lemma_prop_fe_shapely(*e1, env);
            lemma_prop_fe_shapely(*e2, env);
        },
        SpecFieldExpression::Mult(e1, e2) => {
            lemma_prop_fe_shapely(*e1, env);
            lemma_prop_fe_shapely(*e2, env);
        },
        SpecFieldExpression::Div(e1, e2) => {
            lemma_prop_fe_shapely(*e1, env);
            lemma_prop_fe_shapely(*e2, env);
        },
        SpecFieldExpression::Pow(e1, e2) => {
            lemma_prop_fe_shapely(*e1, env);
            lemma_prop_fe_shapely(*e2, env);
        },
        SpecFieldExpression::IfElse(c, t, f) => {
            lemma_prop_bool_shapely(*c, env);
            lemma_prop_fe_shapely(*t, env);
            lemma_prop_fe_shapely(*f, env);
        },
        SpecFieldExpression::FunctionCall(id, args) => {
            lemma_prop_typed_seq_shapely(args, env);
        },
        SpecFieldExpression::Select(a, i) => {
            lemma_prop_array_shapely(*a, env);
            lemma_prop_fe_shapely(*i, env);
            if prop_array(*a, env) is Ok && prop_fe(*i, env) is Ok {
                let pa = prop_array(*a, env)->Ok_0;
                let pi = prop_fe(*i, env)->Ok_0;
                match (pa, pi) {
                    (
                        SpecArrayExpression::Value(size, v),
                        SpecFieldExpression::Number(n),
                    ) => {
                        lemma_shapely_fe_seq_char(v);
                    },
                    (
                        SpecArrayExpression::Identifier(size, id),
                        SpecFieldExpression::Number(n),
                    ) => {
                        let k = crate::propagation::element_key(id, size, n);
                        if env.contains_key(k) {
                            lemma_literal_shapely(env[k]);
                        }
                    },
                    _ => {},
                }
            }
        },
    }
}

/// Propagation preserves shapeliness of boolean expressions.
proof fn lemma_prop_bool_shapely(e: SpecBooleanExpression, env: SpecEnv)
    requires
        literal_env(env),
        shapely_bool(e),
    ensures
        prop_bool(e, env) matches Ok(o) ==> shapely_bool(o),
    decreases e,
{
    match e {
        SpecBooleanExpression::Value(_) => {},
        SpecBooleanExpression::Identifier(id) => {
            if prop_bool(e, env) is Ok && env.contains_key(crate::propagation::bool_key(id)) {
                lemma_literal_shapely(env[crate::propagation::bool_key(id)]);
            }
        },
        SpecBooleanExpression::Eq(e1, e2) => {
            lemma_prop_fe_shapely(*e1, env);
            lemma_prop_fe_shapely(*e2, env);
        },
        SpecBooleanExpression::Lt(e1, e2) => {
            lemma_prop_fe_shapely(*e1, env);
            lemma_prop_fe_shapely(*e2, env);
        },
        SpecBooleanExpression::Le(e1, e2) => {
            lemma_prop_fe_shapely(*e1, env);
            lemma_prop_fe_shapely(*e2, env);
        },
        SpecBooleanExpression::Gt(e1, e2) => {
            lemma_prop_fe_shapely(*e1, env);
            lemma_prop_fe_shapely(*e2, env);
        },
        SpecBooleanExpression::Ge(e1, e2) => {
            lemma_prop_fe_shapely(*e1, env);
            lemma_prop_fe_shapely(*e2, env);
        },
    }
}

/// Propagation preserves shapeliness of array expressions.
proof fn lemma_prop_array_shapely(e: SpecArrayExpression, env: SpecEnv)
    requires
        literal_env(env),
        shapely_array(e),
    ensures
        prop_array(e, env) matches Ok(o) ==> shapely_array(o),
    decreases e,
{
    match e {
        SpecArrayExpression::Identifier(size, id) => {
            if prop_array(e, env) is Ok && env.contains_key(
                crate::propagation::array_key(id, size),
            ) {
                lemma_literal_shapely(env[crate::propagation::array_key(id, size)]);
            }
        },
        SpecArrayExpression::Value(size, exprs) => {
            lemma_prop_fe_seq_char(exprs, env);
            lemma_shapely_fe_seq_char(exprs);
            if prop_fe_seq(exprs, env) is Ok {
                let o = prop_fe_seq(exprs, env)->Ok_0;
                assert forall|i: int| 0 <= i < o.len() implies shapely_fe(#[trigger] o[i]) by {
                    lemma_prop_fe_shapely(exprs[i], env);
                }
                lemma_shapely_fe_seq_char(o);
            }
        },
    }
}

/// Propagation preserves shapeliness of typed expressions.
proof fn lemma_prop_typed_shapely(e: SpecExpression, env: SpecEnv)
    requires
        literal_env(env),
        shapely_typed(e),
    ensures
        prop_typed(e, env) matches Ok(o) ==> shapely_typed(o),
    decreases e,
{
    match e {
        SpecExpression::FieldElement(f) => {
            lemma_prop_fe_shapely(f, env);
        },
        SpecExpression::Boolean(b) => {
            lemma_prop_bool_shapely(b, env);
        },
        SpecExpression::FieldElementArray(a) => {
            lemma_prop_array_shapely(a, env);
        },
    }
}

/// Propagation preserves shapeliness of sequences of typed expressions.
proof fn lemma_prop_typed_seq_shapely(s: Seq<SpecExpression>, env: SpecEnv)
    requires
        literal_env(env),
        shapely_typed_seq(s),
    ensures
        prop_typed_seq(s, env) matches Ok(o) ==> shapely_typed_seq(o),
    decreases s,
{
    lemma_prop_typed_seq_char(s, env);
    lemma_shapely_typed_seq_char(s);
    if prop_typed_seq(s, env) is Ok {
        let o = prop_typed_seq(s, env)->Ok_0;
        assert forall|i: int| 0 <= i < o.len() implies shapely_typed(#[trigger] o[i]) by {
            lemma_prop_typed_shapely(s[i], env);
        }
        lemma_shapely_typed_seq_char(o);
    }
}

/// Shapeliness of an assignee.
pub open spec fn shapely_assignee(a: SpecAssignee) -> bool
    decreases a,
{
    match a {
        SpecAssignee::Identifier(_) => true,
        SpecAssignee::ArrayElement(base, index) => shapely_assignee(*base) && shapely_fe(*index),
    }
}

/// Shapeliness of a list-producing expression.
pub open spec fn shapely_exprlist(l: SpecExpressionList) -> bool {
    match l {
        SpecExpressionList::FunctionCall(_, args, _) => shapely_typed_seq(args),
    }
}

/// Shapeliness of a statement.
pub open spec fn shapely_stmt(s: SpecStatement) -> bool
    decreases s,
{
    match s {
        SpecStatement::Return(exprs) => shapely_typed_seq(exprs),
        SpecStatement::Definition(a, e) => shapely_assignee(a) && shapely_typed(e),
        SpecStatement::Declaration(_) => true,
        SpecStatement::Condition(e1, e2) => shapely_typed(e1) && shapely_typed(e2),
        SpecStatement::For(_, _, _, body) => shapely_stmt_seq(body),
        SpecStatement::MultipleDefinition(_, l) => shapely_exprlist(l),
    }
}

/// Shapeliness of a sequence of statements.
pub open spec fn shapely_stmt_seq(s: Seq<SpecStatement>) -> bool
    decreases s,
{
    if s.len() == 0 {
        true
    } else {
        shapely_stmt(s.first()) && shapely_stmt_seq(s.drop_first())
    }
}

/// Shapeliness of a function: its statements are shapely.
pub open spec fn shapely_function(f: SpecFunction) -> bool {
    shapely_stmt_seq(f.statements)
}

/// Shapeliness of a program: every function is shapely.
pub open spec fn shapely_prog(p: SpecProg) -> bool {
    forall|i: int| 0 <= i < p.functions.len() ==> shapely_function(#[trigger] p.functions[i])
}

/// Propagation preserves shapeliness of one statement.
proof fn lemma_prop_stmt_shapely(s: SpecStatement, env: SpecEnv)
    requires
        literal_env(env),
        shapely_stmt(s),
    ensures
        prop_stmt(s, env) matches Ok(pair) ==> (pair.0 matches Some(s2) ==> shapely_stmt(s2)),
{
    match s {
        SpecStatement::Return(exprs) => {
            lemma_prop_typed_seq_shapely(exprs, env);
        },
        SpecStatement::Definition(SpecAssignee::Identifier(var), expr) => {
            lemma_prop_typed_shapely(expr, env);
        },
        SpecStatement::Definition(SpecAssignee::ArrayElement(base, index), expr) => {
            match *base {
                SpecAssignee::Identifier(var) => {
                    lemma_prop_fe_shapely(*index, env);
                    lemma_prop_typed_shapely(expr, env);
                },
                _ => {},
            }
        },
        SpecStatement::Condition(e1, e2) => {
            lemma_prop_typed_shapely(e1, env);
            lemma_prop_typed_shapely(e2, env);
        },
        SpecStatement::For(_, _, _, _) => {},
        SpecStatement::MultipleDefinition(vars, l) => {
            match l {
                SpecExpressionList::FunctionCall(id, args, types) => {
                    lemma_prop_typed_seq_shapely(args, env);
                },
            }
        },
        SpecStatement::Declaration(_) => {},
    }
}

/// Propagation preserves shapeliness of a statement sequence.
proof fn lemma_prop_statements_shapely(ss: Seq<SpecStatement>, env: SpecEnv)
    requires
        literal_env(env),
        shapely_stmt_seq(ss),
    ensures
        prop_statements(ss, env) matches Ok(pair) ==> shapely_stmt_seq(pair.0),
    decreases ss.len(),
{
    if ss.len() == 0 {
        if prop_statements(ss, env) is Ok {
            assert(prop_statements(ss, env)->Ok_0.0 =~= Seq::<SpecStatement>::empty());
        }
    } else if prop_stmt(ss.first(), env) is Ok {
        let (opt, env1) = prop_stmt(ss.first(), env)->Ok_0;
        lemma_stmt_env_literal(ss.first(), env);
        lemma_prop_stmt_shapely(ss.first(), env);
        lemma_prop_statements_shapely(ss.drop_first(), env1);
        if prop_statements(ss.drop_first(), env1) is Ok {
            let rest = prop_statements(ss.drop_first(), env1)->Ok_0.0;
            match opt {
                Some(s2) => {
                    let out = seq![s2] + rest;
                    assert(out.first() == s2);
                    assert(out.drop_first() =~= rest);
                },
                None => {},
            }
        }
    }
}

/// Propagation preserves shapeliness of one function.
proof fn lemma_prop_function_shapely(f: SpecFunction)
    requires
        shapely_function(f),
    ensures
        prop_function(f) matches Ok(g) ==> shapely_function(g),
{
    assert(literal_env(empty_env()));
    lemma_prop_statements_shapely(f.statements, empty_env());
}

/// Array-shape preservation: propagating a program in which every array
/// literal carries exactly its stated number of elements yields a program
/// with the same property.
pub proof fn lemma_propagation_preserves_shape(p: SpecProg)
    requires
        shapely_prog(p),
    ensures
        prop_prog(p) matches Ok(q) ==> shapely_prog(q),
{
    lemma_prop_function_seq_shapely(p.functions);
}

/// Propagation preserves shapeliness of a function sequence.
proof fn lemma_prop_function_seq_shapely(s: Seq<SpecFunction>)
    requires
        forall|i: int| 0 <= i < s.len() ==> shapely_function(#[trigger] s[i]),
    ensures
        prop_function_seq(s) matches Ok(o) ==> forall|i: int|
            0 <= i < o.len() ==> shapely_function(#[trigger] o[i]),
    decreases s.len(),
{
    if s.len() > 0 && prop_function_seq(s) is Ok {
        assert(forall|i: int|
            0 <= i < s.drop_first().len() ==> #[trigger] s.drop_first()[i] == s[i + 1]);
        lemma_prop_function_seq_shapely(s.drop_first());
        lemma_prop_function_shapely(s.first());
        let g = prop_function(s.first())->Ok_0;
        let rest = prop_function_seq(s.drop_first())->Ok_0;
        let o = seq![g] + rest;
        assert forall|i: int| 0 <= i < o.len() implies shapely_function(#[trigger] o[i]) by {
            if i == 0 {
                assert(o[0] == g);
            } else {
                assert(o[i] == rest[i - 1]);
            }
        }
    }
}

} // verus!
