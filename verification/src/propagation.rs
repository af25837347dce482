//! Constant propagation: eliminates definitions whose right-hand side is a
//! literal, folds arithmetic and comparisons over literals, resolves known
//! array indices, and rewrites conditionals with known branches.
//!
//! The executable pass is specified exactly by a mathematical mirror
//! (`prop_fe`, `prop_bool`, `prop_array`, `prop_typed`, `prop_stmt`,
//! `prop_function`, `prop_prog`) over the models of the syntax; every
//! executable `propagate` returns precisely what its mirror computes.

use crate::environment::Environment;
use crate::error::Error;
use crate::field::{f_add, f_div, f_mul, f_pow, f_sub, FieldElement};
use crate::typed_absy::{
    clone_type_vec, clone_typed_vec, clone_var_vec, is_literal, is_literal_array, is_literal_bool,
    is_literal_fe, lemma_view_fe_seq, lemma_view_stmt_seq, lemma_view_typed_seq, view_array,
    view_assignee, view_bool, view_exprlist, view_fe, view_fe_seq, view_function,
    view_function_seq, view_stmt, view_stmt_seq, view_typed, view_typed_seq,
    BooleanExpression, FieldElementArrayExpression, FieldElementExpression, SpecArrayExpression,
    SpecAssignee, SpecBooleanExpression, SpecExpression, SpecExpressionList, SpecFieldExpression,
    SpecFunction, SpecProg, SpecStatement, SpecVariable, Type, TypedAssignee, TypedExpression,
    TypedExpressionList, TypedFunction, TypedProg, TypedStatement, Variable,
};
use vstd::prelude::*;

verus! {

/// The environment model: assignee models bound to literal models.
pub type SpecEnv = Map<SpecAssignee, SpecExpression>;

/// The key under which a field-element identifier is looked up.
pub open spec fn fe_key(id: Seq<char>) -> SpecAssignee {
    SpecAssignee::Identifier(SpecVariable { id: id, ty: Type::FieldElement })
}

/// The key under which a boolean identifier is looked up.
pub open spec fn bool_key(id: Seq<char>) -> SpecAssignee {
    SpecAssignee::Identifier(SpecVariable { id: id, ty: Type::Boolean })
}

/// The key under which a whole field-array identifier is looked up.
pub open spec fn array_key(id: Seq<char>, size: nat) -> SpecAssignee {
    SpecAssignee::Identifier(
        SpecVariable { id: id, ty: Type::FieldElementArray(size as usize) },
    )
}

/// The key under which one element of a field-array identifier is looked up.
pub open spec fn element_key(id: Seq<char>, size: nat, index: nat) -> SpecAssignee {
    SpecAssignee::ArrayElement(
        Box::new(array_key(id, size)),
        Box::new(SpecFieldExpression::Number(index)),
    )
}

/// What propagation makes of a field-element expression.
pub open spec fn prop_fe(e: SpecFieldExpression, env: SpecEnv) -> Result<
    SpecFieldExpression,
    Error,
>
    decreases e,
{
    match e {
        SpecFieldExpression::Number(n) => Ok(SpecFieldExpression::Number(n)),
        SpecFieldExpression::Identifier(id) => {
            if env.contains_key(fe_key(id)) {
                match env[fe_key(id)] {
                    SpecExpression::FieldElement(f) => Ok(f),
                    _ => Err(Error::TypeInvariant),
                }
            } else {
                Ok(SpecFieldExpression::Identifier(id))
            }
        },
        SpecFieldExpression::Add(e1, e2) => match (prop_fe(*e1, env), prop_fe(*e2, env)) {
            (Err(err), _) => Err(err),
            (Ok(_), Err(err)) => Err(err),
            (Ok(SpecFieldExpression::Number(n1)), Ok(SpecFieldExpression::Number(n2))) => Ok(
                SpecFieldExpression::Number(f_add(n1, n2)),
            ),
            (Ok(p1), Ok(p2)) => Ok(SpecFieldExpression::Add(Box::new(p1), Box::new(p2))),
        },
        SpecFieldExpression::Sub(e1, e2) => match (prop_fe(*e1, env), prop_fe(*e2, env)) {
            (Err(err), _) => Err(err),
            (Ok(_), Err(err)) => Err(err),
            (Ok(SpecFieldExpression::Number(n1)), Ok(SpecFieldExpression::Number(n2))) => Ok(
                SpecFieldExpression::Number(f_sub(n1, n2)),
            ),
            (Ok(p1), Ok(p2)) => Ok(SpecFieldExpression::Sub(Box::new(p1), Box::new(p2))),
        },
        SpecFieldExpression::Mult(e1, e2) => match (prop_fe(*e1, env), prop_fe(*e2, env)) {
            (Err(err), _) => Err(err),
            (Ok(_), Err(err)) => Err(err),
            (Ok(SpecFieldExpression::Number(n1)), Ok(SpecFieldExpression::Number(n2))) => Ok(
                SpecFieldExpression::Number(f_mul(n1, n2)),
            ),
            (Ok(p1), Ok(p2)) => Ok(SpecFieldExpression::Mult(Box::new(p1), Box::new(p2))),
        },
        SpecFieldExpression::Div(e1, e2) => match (prop_fe(*e1, env), prop_fe(*e2, env)) {
            (Err(err), _) => Err(err),
            (Ok(_), Err(err)) => Err(err),
            (Ok(SpecFieldExpression::Number(n1)), Ok(SpecFieldExpression::Number(n2))) => Ok(
                SpecFieldExpression::Number(f_div(n1, n2)),
            ),
            (Ok(p1), Ok(p2)) => Ok(SpecFieldExpression::Div(Box::new(p1), Box::new(p2))),
        },
        SpecFieldExpression::Pow(e1, e2) => match (prop_fe(*e1, env), prop_fe(*e2, env)) {
            (Err(err), _) => Err(err),
            (Ok(_), Err(err)) => Err(err),
            (Ok(SpecFieldExpression::Number(n1)), Ok(SpecFieldExpression::Number(n2))) => Ok(
                SpecFieldExpression::Number(f_pow(n1, n2)),
            ),
            (Ok(p1), Ok(p2)) => Ok(SpecFieldExpression::Pow(Box::new(p1), Box::new(p2))),
        },
        SpecFieldExpression::IfElse(c, t, f) => match (
            prop_fe(*t, env),
            prop_fe(*f, env),
            prop_bool(*c, env),
        ) {
            (Err(err), _, _) => Err(err),
            (Ok(_), Err(err), _) => Err(err),
            (Ok(_), Ok(_), Err(err)) => Err(err),
            (Ok(pt), Ok(pf), Ok(SpecBooleanExpression::Value(true))) => Ok(pt),
            (Ok(pt), Ok(pf), Ok(SpecBooleanExpression::Value(false))) => Ok(pf),
            (Ok(pt), Ok(pf), Ok(pc)) => Ok(
                SpecFieldExpression::IfElse(Box::new(pc), Box::new(pt), Box::new(pf)),
            ),
        },
        SpecFieldExpression::FunctionCall(id, args) => match prop_typed_seq(args, env) {
            Err(err) => Err(err),
            Ok(pargs) => Ok(SpecFieldExpression::FunctionCall(id, pargs)),
        },
        SpecFieldExpression::Select(a, i) => match (prop_array(*a, env), prop_fe(*i, env)) {
            (Err(err), _) => Err(err),
            (Ok(_), Err(err)) => Err(err),
            (Ok(pa), Ok(pi)) => select_of(pa, pi, env),
        },
    }
}

/// What a `Select` makes of its already-propagated array and index: a known
/// index into a literal array picks the element (or is out of bounds), a
/// known index into a named array consults the element binding, and anything
/// else is reassembled.
pub open spec fn select_of(pa: SpecArrayExpression, pi: SpecFieldExpression, env: SpecEnv) -> Result<
    SpecFieldExpression,
    Error,
> {
    match (pa, pi) {
        (SpecArrayExpression::Value(size, v), SpecFieldExpression::Number(n)) => {
            if n < size && n < v.len() {
                Ok(v[n as int])
            } else {
                Err(Error::OutOfBounds { index: n as u64, size: size as u64 })
            }
        },
        (SpecArrayExpression::Identifier(size, id), SpecFieldExpression::Number(n)) => {
            if env.contains_key(element_key(id, size, n)) {
                match env[element_key(id, size, n)] {
                    SpecExpression::FieldElement(f) => Ok(f),
                    _ => Err(Error::TypeInvariant),
                }
            } else {
                Ok(
                    SpecFieldExpression::Select(
                        Box::new(SpecArrayExpression::Identifier(size, id)),
                        Box::new(SpecFieldExpression::Number(n)),
                    ),
                )
            }
        },
        (pa2, pi2) => Ok(SpecFieldExpression::Select(Box::new(pa2), Box::new(pi2))),
    }
}

/// What propagation makes of a boolean expression.
pub open spec fn prop_bool(e: SpecBooleanExpression, env: SpecEnv) -> Result<
    SpecBooleanExpression,
    Error,
>
    decreases e,
{
    match e {
        SpecBooleanExpression::Value(v) => Ok(SpecBooleanExpression::Value(v)),
        SpecBooleanExpression::Identifier(id) => {
            if env.contains_key(bool_key(id)) {
                match env[bool_key(id)] {
                    SpecExpression::Boolean(b) => Ok(b),
                    _ => Err(Error::TypeInvariant),
                }
            } else {
                Ok(SpecBooleanExpression::Identifier(id))
            }
        },
        SpecBooleanExpression::Eq(e1, e2) => match (prop_fe(*e1, env), prop_fe(*e2, env)) {
            (Err(err), _) => Err(err),
            (Ok(_), Err(err)) => Err(err),
            (Ok(SpecFieldExpression::Number(n1)), Ok(SpecFieldExpression::Number(n2))) => Ok(
                SpecBooleanExpression::Value(n1 == n2),
            ),
            (Ok(p1), Ok(p2)) => Ok(SpecBooleanExpression::Eq(Box::new(p1), Box::new(p2))),
        },
        SpecBooleanExpression::Lt(e1, e2) => match (prop_fe(*e1, env), prop_fe(*e2, env)) {
            (Err(err), _) => Err(err),
            (Ok(_), Err(err)) => Err(err),
            (Ok(SpecFieldExpression::Number(n1)), Ok(SpecFieldExpression::Number(n2))) => Ok(
                SpecBooleanExpression::Value(n1 < n2),
            ),
            (Ok(p1), Ok(p2)) => Ok(SpecBooleanExpression::Lt(Box::new(p1), Box::new(p2))),
        },
        SpecBooleanExpression::Le(e1, e2) => match (prop_fe(*e1, env), prop_fe(*e2, env)) {
            (Err(err), _) => Err(err),
            (Ok(_), Err(err)) => Err(err),
            (Ok(SpecFieldExpression::Number(n1)), Ok(SpecFieldExpression::Number(n2))) => Ok(
                SpecBooleanExpression::Value(n1 <= n2),
            ),
            (Ok(p1), Ok(p2)) => Ok(SpecBooleanExpression::Le(Box::new(p1), Box::new(p2))),
        },
        SpecBooleanExpression::Gt(e1, e2) => match (prop_fe(*e1, env), prop_fe(*e2, env)) {
            (Err(err), _) => Err(err),
            (Ok(_), Err(err)) => Err(err),
            (Ok(SpecFieldExpression::Number(n1)), Ok(SpecFieldExpression::Number(n2))) => Ok(
                SpecBooleanExpression::Value(n1 > n2),
            ),
            (Ok(p1), Ok(p2)) => Ok(SpecBooleanExpression::Gt(Box::new(p1), Box::new(p2))),
        },
        SpecBooleanExpression::Ge(e1, e2) => match (prop_fe(*e1, env), prop_fe(*e2, env)) {
            (Err(err), _) => Err(err),
            (Ok(_), Err(err)) => Err(err),
            (Ok(SpecFieldExpression::Number(n1)), Ok(SpecFieldExpression::Number(n2))) => Ok(
                SpecBooleanExpression::Value(n1 >= n2),
            ),
            (Ok(p1), Ok(p2)) => Ok(SpecBooleanExpression::Ge(Box::new(p1), Box::new(p2))),
        },
    }
}

/// What propagation makes of a field-array expression.
pub open spec fn prop_array(e: SpecArrayExpression, env: SpecEnv) -> Result<
    SpecArrayExpression,
    Error,
>
    decreases e,
{
    match e {
        SpecArrayExpression::Identifier(size, id) => {
            if env.contains_key(array_key(id, size)) {
                match env[array_key(id, size)] {
                    SpecExpression::FieldElementArray(a) => Ok(a),
                    _ => Err(Error::TypeInvariant),
                }
            } else {
                Ok(SpecArrayExpression::Identifier(size, id))
            }
        },
        SpecArrayExpression::Value(size, exprs) => match prop_fe_seq(exprs, env) {
            Err(err) => Err(err),
            Ok(pexprs) => Ok(SpecArrayExpression::Value(size, pexprs)),
        },
    }
}

/// What propagation makes of a typed expression: each sort keeps its sort.
pub open spec fn prop_typed(e: SpecExpression, env: SpecEnv) -> Result<SpecExpression, Error>
    decreases e,
{
    match e {
        SpecExpression::FieldElement(f) => match prop_fe(f, env) {
            Err(err) => Err(err),
            Ok(p) => Ok(SpecExpression::FieldElement(p)),
        },
        SpecExpression::Boolean(b) => match prop_bool(b, env) {
            Err(err) => Err(err),
            Ok(p) => Ok(SpecExpression::Boolean(p)),
        },
        SpecExpression::FieldElementArray(a) => match prop_array(a, env) {
            Err(err) => Err(err),
            Ok(p) => Ok(SpecExpression::FieldElementArray(p)),
        },
    }
}

/// What propagation makes of a sequence of typed expressions, in order; the
/// leftmost error wins.
pub open spec fn prop_typed_seq(s: Seq<SpecExpression>, env: SpecEnv) -> Result<
    Seq<SpecExpression>,
    Error,
>
    decreases s,
{
    if s.len() == 0 {
        Ok(Seq::empty())
    } else {
        match prop_typed(s.first(), env) {
            Err(err) => Err(err),
            Ok(p) => match prop_typed_seq(s.drop_first(), env) {
                Err(err) => Err(err),
                Ok(rest) => Ok(seq![p] + rest),
            },
        }
    }
}

/// What propagation makes of a sequence of field-element expressions, in
/// order; the leftmost error wins.
pub open spec fn prop_fe_seq(s: Seq<SpecFieldExpression>, env: SpecEnv) -> Result<
    Seq<SpecFieldExpression>,
    Error,
>
    decreases s,
{
    if s.len() == 0 {
        Ok(Seq::empty())
    } else {
        match prop_fe(s.first(), env) {
            Err(err) => Err(err),
            Ok(p) => match prop_fe_seq(s.drop_first(), env) {
                Err(err) => Err(err),
                Ok(rest) => Ok(seq![p] + rest),
            },
        }
    }
}

/// What propagation makes of a list-producing expression: the call itself is
/// left intact, only its arguments are propagated.
pub open spec fn prop_exprlist(l: SpecExpressionList, env: SpecEnv) -> Result<
    SpecExpressionList,
    Error,
> {
    match l {
        SpecExpressionList::FunctionCall(id, args, types) => match prop_typed_seq(args, env) {
            Err(err) => Err(err),
            Ok(pargs) => Ok(SpecExpressionList::FunctionCall(id, pargs, types)),
        },
    }
}

/// Whether every element of an array-model sequence is a `Number`.
pub open spec fn all_numbers(s: Seq<SpecFieldExpression>) -> bool {
    forall|i: int| 0 <= i < s.len() ==> (#[trigger] s[i]) is Number
}

/// What propagation makes of one statement: the rewritten statement, if one
/// is emitted, and the environment after it.
pub open spec fn prop_stmt(s: SpecStatement, env: SpecEnv) -> Result<
    (Option<SpecStatement>, SpecEnv),
    Error,
> {
    match s {
        SpecStatement::Return(exprs) => match prop_typed_seq(exprs, env) {
            Err(err) => Err(err),
            Ok(pexprs) => Ok((Some(SpecStatement::Return(pexprs)), env)),
        },
        SpecStatement::Definition(SpecAssignee::Identifier(var), expr) => match prop_typed(
            expr,
            env,
        ) {
            Err(err) => Err(err),
            Ok(pe) => match pe {
                SpecExpression::Boolean(SpecBooleanExpression::Value(_)) => Ok(
                    (None, env.insert(SpecAssignee::Identifier(var), pe)),
                ),
                SpecExpression::FieldElement(SpecFieldExpression::Number(_)) => Ok(
                    (None, env.insert(SpecAssignee::Identifier(var), pe)),
                ),
                SpecExpression::FieldElementArray(SpecArrayExpression::Value(size, elems)) => {
                    if all_numbers(elems) && elems.len() == size {
                        Ok((None, env.insert(SpecAssignee::Identifier(var), pe)))
                    } else {
                        Ok(
                            (
                                Some(SpecStatement::Definition(SpecAssignee::Identifier(var), pe)),
                                env,
                            ),
                        )
                    }
                },
                _ => Ok(
                    (Some(SpecStatement::Definition(SpecAssignee::Identifier(var), pe)), env),
                ),
            },
        },
        SpecStatement::Definition(SpecAssignee::ArrayElement(base, index), expr) => match *base {
            SpecAssignee::Identifier(var) => match prop_fe(*index, env) {
                Err(err) => Err(err),
                Ok(pi) => match prop_typed(expr, env) {
                    Err(err) => Err(err),
                    Ok(pe) => match (pi, pe) {
                        (
                            SpecFieldExpression::Number(n),
                            SpecExpression::FieldElement(SpecFieldExpression::Number(m)),
                        ) => {
                            let k = SpecAssignee::Identifier(var);
                            if !env.contains_key(k) {
                                Ok((None, env))
                            } else {
                                match env[k] {
                                    SpecExpression::FieldElementArray(
                                        SpecArrayExpression::Value(size, v),
                                    ) => {
                                        if n < size {
                                            Ok(
                                                (
                                                    None,
                                                    env.insert(
                                                        k,
                                                        SpecExpression::FieldElementArray(
                                                            SpecArrayExpression::Value(
                                                                size,
                                                                v.update(
                                                                    n as int,
                                                                    SpecFieldExpression::Number(m),
                                                                ),
                                                            ),
                                                        ),
                                                    ),
                                                ),
                                            )
                                        } else {
                                            Err(
                                                Error::OutOfBounds {
                                                    index: n as u64,
                                                    size: size as u64,
                                                },
                                            )
                                        }
                                    },
                                    _ => Err(Error::TypeInvariant),
                                }
                            }
                        },
                        (pi2, pe2) => Ok(
                            (
                                Some(
                                    SpecStatement::Definition(
                                        SpecAssignee::ArrayElement(
                                            Box::new(SpecAssignee::Identifier(var)),
                                            Box::new(pi2),
                                        ),
                                        pe2,
                                    ),
                                ),
                                env.remove(SpecAssignee::Identifier(var)),
                            ),
                        ),
                    },
                },
            },
            _ => Ok(
                (Some(SpecStatement::Definition(SpecAssignee::ArrayElement(base, index), expr)), env),
            ),
        },
        SpecStatement::Condition(e1, e2) => match prop_typed(e1, env) {
            Err(err) => Err(err),
            Ok(p1) => match prop_typed(e2, env) {
                Err(err) => Err(err),
                Ok(p2) => Ok((Some(SpecStatement::Condition(p1, p2)), env)),
            },
        },
        SpecStatement::For(_, _, _, _) => Err(Error::LoopNotUnrolled),
        SpecStatement::MultipleDefinition(vars, l) => match prop_exprlist(l, env) {
            Err(err) => Err(err),
            Ok(pl) => Ok((Some(SpecStatement::MultipleDefinition(vars, pl)), env)),
        },
        SpecStatement::Declaration(v) => Ok((Some(SpecStatement::Declaration(v)), env)),
    }
}

/// What propagation makes of a sequence of statements, in source order:
/// the emitted statements in order, and the final environment.
pub open spec fn prop_statements(s: Seq<SpecStatement>, env: SpecEnv) -> Result<
    (Seq<SpecStatement>, SpecEnv),
    Error,
>
    decreases s.len(),
{
    if s.len() == 0 {
        Ok((Seq::empty(), env))
    } else {
        match prop_stmt(s.first(), env) {
            Err(err) => Err(err),
            Ok((emitted, env1)) => match prop_statements(s.drop_first(), env1) {
                Err(err) => Err(err),
                Ok((rest, env2)) => match emitted {
                    Some(st) => Ok((seq![st] + rest, env2)),
                    None => Ok((rest, env2)),
                },
            },
        }
    }
}

/// What propagation makes of one function: a fresh empty environment, the
/// statements consumed in source order, the signature preserved.
pub open spec fn prop_function(f: SpecFunction) -> Result<SpecFunction, Error> {
    match prop_statements(f.statements, Map::empty()) {
        Err(err) => Err(err),
        Ok((stmts, _)) => Ok(
            SpecFunction { id: f.id, arguments: f.arguments, returns: f.returns, statements: stmts },
        ),
    }
}

/// What propagation makes of a sequence of functions, each independently.
pub open spec fn prop_function_seq(s: Seq<SpecFunction>) -> Result<Seq<SpecFunction>, Error>
    decreases s.len(),
{
    if s.len() == 0 {
        Ok(Seq::empty())
    } else {
        match prop_function(s.first()) {
            Err(err) => Err(err),
            Ok(pf) => match prop_function_seq(s.drop_first()) {
                Err(err) => Err(err),
                Ok(rest) => Ok(seq![pf] + rest),
            },
        }
    }
}

/// What propagation makes of a program: its functions in source order.
pub open spec fn prop_prog(p: SpecProg) -> Result<SpecProg, Error> {
    match prop_function_seq(p.functions) {
        Err(err) => Err(err),
        Ok(fs) => Ok(SpecProg { functions: fs }),
    }
}

/// The model of a field-element propagation result.
pub open spec fn fe_res(r: Result<FieldElementExpression, Error>) -> Result<
    SpecFieldExpression,
    Error,
> {
    match r {
        Ok(e) => Ok(view_fe(e)),
        Err(err) => Err(err),
    }
}

/// The model of a boolean propagation result.
pub open spec fn bool_res(r: Result<BooleanExpression, Error>) -> Result<
    SpecBooleanExpression,
    Error,
> {
    match r {
        Ok(e) => Ok(view_bool(e)),
        Err(err) => Err(err),
    }
}

/// The model of a field-array propagation result.
pub open spec fn array_res(r: Result<FieldElementArrayExpression, Error>) -> Result<
    SpecArrayExpression,
    Error,
> {
    match r {
        Ok(e) => Ok(view_array(e)),
        Err(err) => Err(err),
    }
}

/// The model of a typed-expression propagation result.
pub open spec fn typed_res(r: Result<TypedExpression, Error>) -> Result<SpecExpression, Error> {
    match r {
        Ok(e) => Ok(view_typed(e)),
        Err(err) => Err(err),
    }
}

/// The model of an argument-sequence propagation result.
pub open spec fn typed_vec_res(r: Result<Vec<TypedExpression>, Error>) -> Result<
    Seq<SpecExpression>,
    Error,
> {
    match r {
        Ok(v) => Ok(view_typed_seq(v@)),
        Err(err) => Err(err),
    }
}

/// The model of an element-sequence propagation result.
pub open spec fn fe_vec_res(r: Result<Vec<FieldElementExpression>, Error>) -> Result<
    Seq<SpecFieldExpression>,
    Error,
> {
    match r {
        Ok(v) => Ok(view_fe_seq(v@)),
        Err(err) => Err(err),
    }
}

impl FieldElementExpression {
    /// Rewrites this expression under the known literals, folding every
    /// operator whose operands reduce to literals.
    pub fn propagate(
        &self,
        env: &Environment,
        functions: &Vec<TypedFunction>,
    ) -> (r: Result<FieldElementExpression, Error>)
        requires
            env.wf(),
        ensures
            fe_res(r) == prop_fe(self@, env@),
        decreases self,
    {
        match self {
            FieldElementExpression::Number(n) => Ok(FieldElementExpression::Number(*n)),
            FieldElementExpression::Identifier(id) => {
                let key = TypedAssignee::Identifier(Variable::field_element(id.clone()));
                match env.lookup(&key) {
                    Some(e) => match e {
                        TypedExpression::FieldElement(f) => Ok(f),
                        _ => Err(Error::TypeInvariant),
                    },
                    None => Ok(FieldElementExpression::Identifier(id.clone())),
                }
            },
            FieldElementExpression::Add(e1, e2) => {
                let p1 = e1.propagate(env, functions)?;
                let p2 = e2.propagate(env, functions)?;
                match (p1, p2) {
                    (
                        FieldElementExpression::Number(n1),
                        FieldElementExpression::Number(n2),
                    ) => Ok(FieldElementExpression::Number(n1.add(&n2))),
                    (q1, q2) => Ok(FieldElementExpression::Add(Box::new(q1), Box::new(q2))),
                }
            },
            FieldElementExpression::Sub(e1, e2) => {
                let p1 = e1.propagate(env, functions)?;
                let p2 = e2.propagate(env, functions)?;
                match (p1, p2) {
                    (
                        FieldElementExpression::Number(n1),
                        FieldElementExpression::Number(n2),
                    ) => Ok(FieldElementExpression::Number(n1.sub(&n2))),
                    (q1, q2) => Ok(FieldElementExpression::Sub(Box::new(q1), Box::new(q2))),
                }
            },
            FieldElementExpression::Mult(e1, e2) => {
                let p1 = e1.propagate(env, functions)?;
                let p2 = e2.propagate(env, functions)?;
                match (p1, p2) {
                    (
                        FieldElementExpression::Number(n1),
                        FieldElementExpression::Number(n2),
                    ) => Ok(FieldElementExpression::Number(n1.mul(&n2))),
                    (q1, q2) => Ok(FieldElementExpression::Mult(Box::new(q1), Box::new(q2))),
                }
            },
            FieldElementExpression::Div(e1, e2) => {
                let p1 = e1.propagate(env, functions)?;
                let p2 = e2.propagate(env, functions)?;
                match (p1, p2) {
                    (
                        FieldElementExpression::Number(n1),
                        FieldElementExpression::Number(n2),
                    ) => Ok(FieldElementExpression::Number(n1.div(&n2))),
                    (q1, q2) => Ok(FieldElementExpression::Div(Box::new(q1), Box::new(q2))),
                }
            },
            FieldElementExpression::Pow(e1, e2) => {
                let p1 = e1.propagate(env, functions)?;
                let p2 = e2.propagate(env, functions)?;
                match (p1, p2) {
                    (
                        FieldElementExpression::Number(n1),
                        FieldElementExpression::Number(n2),
                    ) => Ok(FieldElementExpression::Number(n1.pow(&n2))),
                    (q1, q2) => Ok(FieldElementExpression::Pow(Box::new(q1), Box::new(q2))),
                }
            },
            FieldElementExpression::IfElse(c, t, f) => {
                let pt = t.propagate(env, functions)?;
                let pf = f.propagate(env, functions)?;
                let pc = c.propagate(env, functions)?;
                match pc {
                    BooleanExpression::Value(v) => if v {
                        Ok(pt)
                    } else {
                        Ok(pf)
                    },
                    other => Ok(
                        FieldElementExpression::IfElse(
                            Box::new(other),
                            Box::new(pt),
                            Box::new(pf),
                        ),
                    ),
                }
            },
            FieldElementExpression::FunctionCall(id, args) => {
                let pargs = propagate_typed_vec(args, env, functions)?;
                Ok(FieldElementExpression::FunctionCall(id.clone(), pargs))
            },
            FieldElementExpression::Select(a, i) => {
                let pa = a.propagate(env, functions)?;
                let pi = i.propagate(env, functions)?;
                propagate_select(pa, pi, env)
            },
        }
    }
}

impl BooleanExpression {
    /// Rewrites this boolean expression under the known literals, folding
    /// every comparison whose operands reduce to numbers.
    pub fn propagate(
        &self,
        env: &Environment,
        functions: &Vec<TypedFunction>,
    ) -> (r: Result<BooleanExpression, Error>)
        requires
            env.wf(),
        ensures
            bool_res(r) == prop_bool(self@, env@),
        decreases self,
    {
        match self {
            BooleanExpression::Value(v) => Ok(BooleanExpression::Value(*v)),
            BooleanExpression::Identifier(id) => {
                let key = TypedAssignee::Identifier(Variable::boolean(id.clone()));
                match env.lookup(&key) {
                    Some(e) => match e {
                        TypedExpression::Boolean(b) => Ok(b),
                        _ => Err(Error::TypeInvariant),
                    },
                    None => Ok(BooleanExpression::Identifier(id.clone())),
                }
            },
            BooleanExpression::Eq(e1, e2) => {
                let p1 = e1.propagate(env, functions)?;
                let p2 = e2.propagate(env, functions)?;
                match (p1, p2) {
                    (
                        FieldElementExpression::Number(n1),
                        FieldElementExpression::Number(n2),
                    ) => Ok(BooleanExpression::Value(n1.eq_value(&n2))),
                    (q1, q2) => Ok(BooleanExpression::Eq(Box::new(q1), Box::new(q2))),
                }
            },
            BooleanExpression::Lt(e1, e2) => {
                let p1 = e1.propagate(env, functions)?;
                let p2 = e2.propagate(env, functions)?;
                match (p1, p2) {
                    (
                        FieldElementExpression::Number(n1),
                        FieldElementExpression::Number(n2),
                    ) => Ok(BooleanExpression::Value(n1.lt(&n2))),
                    (q1, q2) => Ok(BooleanExpression::Lt(Box::new(q1), Box::new(q2))),
                }
            },
            BooleanExpression::Le(e1, e2) => {
                let p1 = e1.propagate(env, functions)?;
                let p2 = e2.propagate(env, functions)?;
                match (p1, p2) {
                    (
                        FieldElementExpression::Number(n1),
                        FieldElementExpression::Number(n2),
                    ) => Ok(BooleanExpression::Value(n1.le(&n2))),
                    (q1, q2) => Ok(BooleanExpression::Le(Box::new(q1), Box::new(q2))),
                }
            },
            BooleanExpression::Gt(e1, e2) => {
                let p1 = e1.propagate(env, functions)?;
                let p2 = e2.propagate(env, functions)?;
                match (p1, p2) {
                    (
                        FieldElementExpression::Number(n1),
                        FieldElementExpression::Number(n2),
                    ) => Ok(BooleanExpression::Value(n2.lt(&n1))),
                    (q1, q2) => Ok(BooleanExpression::Gt(Box::new(q1), Box::new(q2))),
                }
            },
            BooleanExpression::Ge(e1, e2) => {
                let p1 = e1.propagate(env, functions)?;
                let p2 = e2.propagate(env, functions)?;
                match (p1, p2) {
                    (
                        FieldElementExpression::Number(n1),
                        FieldElementExpression::Number(n2),
                    ) => Ok(BooleanExpression::Value(n2.le(&n1))),
                    (q1, q2) => Ok(BooleanExpression::Ge(Box::new(q1), Box::new(q2))),
                }
            },
        }
    }
}

impl FieldElementArrayExpression {
    /// Rewrites this array expression under the known literals: a bound
    /// identifier becomes a copy of its literal array, and the elements of a
    /// `Value` are propagated in order.
    pub fn propagate(
        &self,
        env: &Environment,
        functions: &Vec<TypedFunction>,
    ) -> (r: Result<FieldElementArrayExpression, Error>)
        requires
            env.wf(),
        ensures
            array_res(r) == prop_array(self@, env@),
        decreases self,
    {
        match self {
            FieldElementArrayExpression::Identifier(size, id) => {
                let key = TypedAssignee::Identifier(Variable::field_array(id.clone(), *size));
                match env.lookup(&key) {
                    Some(e) => match e {
                        TypedExpression::FieldElementArray(a) => Ok(a),
                        _ => Err(Error::TypeInvariant),
                    },
                    None => Ok(FieldElementArrayExpression::Identifier(*size, id.clone())),
                }
            },
            FieldElementArrayExpression::Value(size, exprs) => {
                let pexprs = propagate_fe_vec(exprs, env, functions)?;
                Ok(FieldElementArrayExpression::Value(*size, pexprs))
            },
        }
    }
}

impl TypedExpression {
    /// Rewrites this typed expression under the known literals; each sort
    /// keeps its sort.
    pub fn propagate(
        &self,
        env: &Environment,
        functions: &Vec<TypedFunction>,
    ) -> (r: Result<TypedExpression, Error>)
        requires
            env.wf(),
        ensures
            typed_res(r) == prop_typed(self@, env@),
        decreases self,
    {
        match self {
            TypedExpression::FieldElement(e) => {
                let p = e.propagate(env, functions)?;
                Ok(TypedExpression::FieldElement(p))
            },
            TypedExpression::Boolean(e) => {
                let p = e.propagate(env, functions)?;
                Ok(TypedExpression::Boolean(p))
            },
            TypedExpression::FieldElementArray(e) => {
                let p = e.propagate(env, functions)?;
                Ok(TypedExpression::FieldElementArray(p))
            },
        }
    }
}

/// Resolves a `Select` whose array and index are already propagated.
fn propagate_select(
    pa: FieldElementArrayExpression,
    pi: FieldElementExpression,
    env: &Environment,
) -> (r: Result<FieldElementExpression, Error>)
    requires
        env.wf(),
    ensures
        fe_res(r) == select_of(pa@, pi@, env@),
{
    let ghost spa = pa@;
    let ghost spi = pi@;
    match (pa, pi) {
        (FieldElementArrayExpression::Value(size, elems), FieldElementExpression::Number(n)) => {
            proof {
                lemma_view_fe_seq(elems@);
                assert(spa == SpecArrayExpression::Value(size as nat, view_fe_seq(elems@)));
                assert(spi == SpecFieldExpression::Number(n@));
            }
            if n.value() < size as u64 && n.value() < elems.len() as u64 {
                let idx = n.value() as usize;
                proof {
                    assert(idx as nat == n@);
                    assert(n@ < size as nat && n@ < view_fe_seq(elems@).len());
                    assert(select_of(spa, spi, env@) == Ok::<SpecFieldExpression, Error>(
                        view_fe_seq(elems@)[n@ as int],
                    ));
                }
                Ok(elems[idx].clone())
            } else {
                let nv = n.value();
                proof {
                    assert((n@ as u64) == nv);
                }
                Err(Error::OutOfBounds { index: nv, size: size as u64 })
            }
        },
        (
            FieldElementArrayExpression::Identifier(size, id),
            FieldElementExpression::Number(n),
        ) => {
            let base = TypedAssignee::Identifier(Variable::field_array(id.clone(), size));
            proof {
                assert(base@ == array_key(id@, size as nat));
            }
            let key = TypedAssignee::ArrayElement(
                Box::new(base),
                Box::new(FieldElementExpression::Number(n)),
            );
            proof {
                assert(key@ == element_key(id@, size as nat, n@));
            }
            match env.lookup(&key) {
                Some(e) => match e {
                    TypedExpression::FieldElement(f) => Ok(f),
                    _ => Err(Error::TypeInvariant),
                },
                None => Ok(
                    FieldElementExpression::Select(
                        Box::new(FieldElementArrayExpression::Identifier(size, id)),
                        Box::new(FieldElementExpression::Number(n)),
                    ),
                ),
            }
        },
        (qa, qi) => Ok(FieldElementExpression::Select(Box::new(qa), Box::new(qi))),
    }
}

/// Propagates a sequence of typed expressions in order; the leftmost error
/// wins.
fn propagate_typed_vec(
    v: &Vec<TypedExpression>,
    env: &Environment,
    functions: &Vec<TypedFunction>,
) -> (r: Result<Vec<TypedExpression>, Error>)
    requires
        env.wf(),
    ensures
        typed_vec_res(r) == prop_typed_seq(view_typed_seq(v@), env@),
    decreases v,
{
    let ghost s = view_typed_seq(v@);
    proof {
        lemma_view_typed_seq(v@);
        assert(s.skip(0) =~= s);
        assert(view_typed_seq(Seq::<TypedExpression>::empty()) =~= Seq::<SpecExpression>::empty());
    }
    let mut out: Vec<TypedExpression> = Vec::new();
    let n = v.len();
    let mut i: usize = 0;
    while i < n
        invariant
            env.wf(),
            n == v@.len(),
            i <= n,
            s == view_typed_seq(v@),
            s.len() == n,
            forall|j: int| 0 <= j < n ==> s[j] == view_typed(v@[j]),
            (match prop_typed_seq(s.skip(i as int), env@) {
                Ok(rest) => prop_typed_seq(s, env@) == Ok::<Seq<SpecExpression>, Error>(
                    view_typed_seq(out@) + rest,
                ),
                Err(e) => prop_typed_seq(s, env@) == Err::<Seq<SpecExpression>, Error>(e),
            }),
        decreases n - i,
    {
        proof {
            assert(s.skip(i as int).len() == n - i);
            assert(s.skip(i as int).first() == s[i as int]);
            assert(s.skip(i as int).drop_first() =~= s.skip(i as int + 1));
        }
        match v[i].propagate(env, functions) {
            Ok(p) => {
                let ghost out0 = out@;
                out.push(p);
                proof {
                    assert(out@.drop_last() =~= out0);
                    assert(view_typed_seq(out@) == view_typed_seq(out0).push(view_typed(p)));
                    match prop_typed_seq(s.skip(i as int + 1), env@) {
                        Ok(rest) => {
                            assert(view_typed_seq(out0) + (seq![view_typed(p)] + rest)
                                =~= view_typed_seq(out@) + rest);
                        },
                        Err(e) => {},
                    }
                }
            },
            Err(e) => {
                return Err(e);
            },
        }
        i += 1;
    }
    proof {
        assert(s.skip(n as int) =~= Seq::<SpecExpression>::empty());
        assert(view_typed_seq(out@) + Seq::<SpecExpression>::empty() =~= view_typed_seq(out@));
    }
    Ok(out)
}

/// Propagates a sequence of field-element expressions in order; the leftmost
/// error wins.
fn propagate_fe_vec(
    v: &Vec<FieldElementExpression>,
    env: &Environment,
    functions: &Vec<TypedFunction>,
) -> (r: Result<Vec<FieldElementExpression>, Error>)
    requires
        env.wf(),
    ensures
        fe_vec_res(r) == prop_fe_seq(view_fe_seq(v@), env@),
    decreases v,
{
    let ghost s = view_fe_seq(v@);
    proof {
        lemma_view_fe_seq(v@);
        assert(s.skip(0) =~= s);
        assert(view_fe_seq(Seq::<FieldElementExpression>::empty())
            =~= Seq::<SpecFieldExpression>::empty());
    }
    let mut out: Vec<FieldElementExpression> = Vec::new();
    let n = v.len();
    let mut i: usize = 0;
    while i < n
        invariant
            env.wf(),
            n == v@.len(),
            i <= n,
            s == view_fe_seq(v@),
            s.len() == n,
            forall|j: int| 0 <= j < n ==> s[j] == view_fe(v@[j]),
            (match prop_fe_seq(s.skip(i as int), env@) {
                Ok(rest) => prop_fe_seq(s, env@) == Ok::<Seq<SpecFieldExpression>, Error>(
                    view_fe_seq(out@) + rest,
                ),
                Err(e) => prop_fe_seq(s, env@) == Err::<Seq<SpecFieldExpression>, Error>(e),
            }),
        decreases n - i,
    {
        proof {
            assert(s.skip(i as int).len() == n - i);
            assert(s.skip(i as int).first() == s[i as int]);
            assert(s.skip(i as int).drop_first() =~= s.skip(i as int + 1));
        }
        match v[i].propagate(env, functions) {
            Ok(p) => {
                let ghost out0 = out@;
                out.push(p);
                proof {
                    assert(out@.drop_last() =~= out0);
                    assert(view_fe_seq(out@) == view_fe_seq(out0).push(view_fe(p)));
                    match prop_fe_seq(s.skip(i as int + 1), env@) {
                        Ok(rest) => {
                            assert(view_fe_seq(out0) + (seq![view_fe(p)] + rest)
                                =~= view_fe_seq(out@) + rest);
                        },
                        Err(e) => {},
                    }
                }
            },
            Err(e) => {
                return Err(e);
            },
        }
        i += 1;
    }
    proof {
        assert(s.skip(n as int) =~= Seq::<SpecFieldExpression>::empty());
        assert(view_fe_seq(out@) + Seq::<SpecFieldExpression>::empty() =~= view_fe_seq(out@));
    }
    Ok(out)
}

/// The model of a statement propagation result.
pub open spec fn stmt_res(r: Result<Option<TypedStatement>, Error>) -> Result<
    Option<SpecStatement>,
    Error,
> {
    match r {
        Ok(Some(s)) => Ok(Some(view_stmt(s))),
        Ok(None) => Ok(None),
        Err(err) => Err(err),
    }
}

/// The model of an expression-list propagation result.
pub open spec fn exprlist_res(r: Result<TypedExpressionList, Error>) -> Result<
    SpecExpressionList,
    Error,
> {
    match r {
        Ok(l) => Ok(view_exprlist(l)),
        Err(err) => Err(err),
    }
}

/// Whether every element of the sequence is a `Number`.
fn all_numbers_vec(v: &Vec<FieldElementExpression>) -> (r: bool)
    ensures
        r == all_numbers(view_fe_seq(v@)),
{
    proof {
        lemma_view_fe_seq(v@);
    }
    let n = v.len();
    let mut i: usize = 0;
    while i < n
        invariant
            n == v@.len(),
            i <= n,
            view_fe_seq(v@).len() == n,
            forall|j: int| 0 <= j < n ==> view_fe_seq(v@)[j] == view_fe(v@[j]),
            forall|j: int| 0 <= j < i ==> (#[trigger] view_fe_seq(v@)[j]) is Number,
        decreases n - i,
    {
        match &v[i] {
            FieldElementExpression::Number(_) => {},
            _ => {
                proof {
                    assert(!(view_fe_seq(v@)[i as int] is Number));
                }
                return false;
            },
        }
        i += 1;
    }
    true
}

impl TypedExpressionList {
    /// Propagates the arguments of the call; the call itself is left intact.
    pub fn propagate(
        &self,
        env: &Environment,
        functions: &Vec<TypedFunction>,
    ) -> (r: Result<TypedExpressionList, Error>)
        requires
            env.wf(),
        ensures
            exprlist_res(r) == prop_exprlist(self@, env@),
    {
        match self {
            TypedExpressionList::FunctionCall(id, args, types) => {
                let pargs = propagate_typed_vec(args, env, functions)?;
                Ok(TypedExpressionList::FunctionCall(id.clone(), pargs, clone_type_vec(types)))
            },
        }
    }
}

impl TypedStatement {
    /// Propagates one statement against the environment. `Ok(None)` means
    /// the statement was absorbed into the environment and is removed from
    /// the output; on an error the environment is left as it was.
    #[verifier::rlimit(100)]
    pub fn propagate(
        &self,
        env: &mut Environment,
        functions: &Vec<TypedFunction>,
    ) -> (r: Result<Option<TypedStatement>, Error>)
        requires
            old(env).wf(),
        ensures
            final(env).wf(),
            match prop_stmt(self@, old(env)@) {
                Ok((emitted, env2)) => stmt_res(r) == Ok::<Option<SpecStatement>, Error>(emitted)
                    && final(env)@ == env2,
                Err(err) => r == Err::<Option<TypedStatement>, Error>(err) && final(env)@ == old(
                    env,
                )@,
            },
    {
        match self {
            TypedStatement::Return(exprs) => {
                let pexprs = propagate_typed_vec(exprs, env, functions)?;
                Ok(Some(TypedStatement::Return(pexprs)))
            },
            TypedStatement::Definition(a, expr) => match a {
                TypedAssignee::Identifier(var) => {
                    let pe = expr.propagate(env, functions)?;
                    match pe {
                        TypedExpression::Boolean(BooleanExpression::Value(v)) => {
                            env.bind(
                                TypedAssignee::Identifier(var.clone()),
                                TypedExpression::Boolean(BooleanExpression::Value(v)),
                            );
                            Ok(None)
                        },
                        TypedExpression::FieldElement(FieldElementExpression::Number(m)) => {
                            env.bind(
                                TypedAssignee::Identifier(var.clone()),
                                TypedExpression::FieldElement(FieldElementExpression::Number(m)),
                            );
                            Ok(None)
                        },
                        TypedExpression::FieldElementArray(
                            FieldElementArrayExpression::Value(size, elems),
                        ) => {
                            proof {
                                lemma_view_fe_seq(elems@);
                            }
                            if all_numbers_vec(&elems) && elems.len() == size {
                                env.bind(
                                    TypedAssignee::Identifier(var.clone()),
                                    TypedExpression::FieldElementArray(
                                        FieldElementArrayExpression::Value(size, elems),
                                    ),
                                );
                                Ok(None)
                            } else {
                                Ok(
                                    Some(
                                        TypedStatement::Definition(
                                            TypedAssignee::Identifier(var.clone()),
                                            TypedExpression::FieldElementArray(
                                                FieldElementArrayExpression::Value(size, elems),
                                            ),
                                        ),
                                    ),
                                )
                            }
                        },
                        other => Ok(
                            Some(
                                TypedStatement::Definition(
                                    TypedAssignee::Identifier(var.clone()),
                                    other,
                                ),
                            ),
                        ),
                    }
                },
                TypedAssignee::ArrayElement(base, index) => match &**base {
                    TypedAssignee::Identifier(var) => {
                        proof {
                            assert(view_assignee(**base) == SpecAssignee::Identifier(var@));
                            assert(view_assignee(*a) == SpecAssignee::ArrayElement(
                                Box::new(SpecAssignee::Identifier(var@)),
                                Box::new(view_fe(**index)),
                            ));
                        }
                        let pi = index.propagate(env, functions)?;
                        let pe = expr.propagate(env, functions)?;
                        match (pi, pe) {
                            (
                                FieldElementExpression::Number(n),
                                TypedExpression::FieldElement(FieldElementExpression::Number(m)),
                            ) => {
                                match env.update_array_element(var, &n, &m) {
                                    Ok(()) => Ok(None),
                                    Err(err) => Err(err),
                                }
                            },
                            (pi2, pe2) => {
                                env.invalidate(&TypedAssignee::Identifier(var.clone()));
                                let rebuilt_base = TypedAssignee::Identifier(var.clone());
                                proof {
                                    assert(rebuilt_base@ == SpecAssignee::Identifier(var@));
                                }
                                let rebuilt = TypedAssignee::ArrayElement(
                                    Box::new(rebuilt_base),
                                    Box::new(pi2),
                                );
                                Ok(Some(TypedStatement::Definition(rebuilt, pe2)))
                            },
                        }
                    },
                    _ => {
                        proof {
                            assert(view_assignee(**base) is ArrayElement);
                            assert(view_assignee(*a) == SpecAssignee::ArrayElement(
                                Box::new(view_assignee(**base)),
                                Box::new(view_fe(**index)),
                            ));
                        }
                        Ok(
                            Some(
                                TypedStatement::Definition(
                                    TypedAssignee::ArrayElement(
                                        Box::new((**base).clone()),
                                        Box::new((**index).clone()),
                                    ),
                                    expr.clone(),
                                ),
                            ),
                        )
                    },
                },
            },
            TypedStatement::Declaration(v) => Ok(Some(TypedStatement::Declaration(v.clone()))),
            TypedStatement::Condition(e1, e2) => {
                let p1 = e1.propagate(env, functions)?;
                let p2 = e2.propagate(env, functions)?;
                Ok(Some(TypedStatement::Condition(p1, p2)))
            },
            TypedStatement::For(_, _, _, _) => Err(Error::LoopNotUnrolled),
            TypedStatement::MultipleDefinition(vars, l) => {
                let pl = l.propagate(env, functions)?;
                Ok(Some(TypedStatement::MultipleDefinition(clone_var_vec(vars), pl)))
            },
        }
    }
}

/// The model of a function propagation result.
pub open spec fn fn_res(r: Result<TypedFunction, Error>) -> Result<SpecFunction, Error> {
    match r {
        Ok(f) => Ok(view_function(f)),
        Err(err) => Err(err),
    }
}

/// The model of a program propagation result.
pub open spec fn prog_res(r: Result<TypedProg, Error>) -> Result<SpecProg, Error> {
    match r {
        Ok(p) => Ok(p@),
        Err(err) => Err(err),
    }
}

impl TypedFunction {
    /// Propagates one function: a fresh empty environment, the statements
    /// consumed in source order, the signature preserved. The already
    /// transformed preceding functions are provided for extension; the pass
    /// itself never inlines across a call.
    pub fn propagate(&self, functions: &Vec<TypedFunction>) -> (r: Result<TypedFunction, Error>)
        ensures
            fn_res(r) == prop_function(self@),
    {
        let mut env = Environment::new();
        let ghost all = view_stmt_seq(self.statements@);
        proof {
            lemma_view_stmt_seq(self.statements@);
            assert(all.skip(0) =~= all);
        }
        let mut out: Vec<TypedStatement> = Vec::new();
        let n = self.statements.len();
        let mut i: usize = 0;
        while i < n
            invariant
                env.wf(),
                n == self.statements@.len(),
                i <= n,
                all == view_stmt_seq(self.statements@),
                all.len() == n,
                forall|j: int| 0 <= j < n ==> all[j] == view_stmt(self.statements@[j]),
                (match prop_statements(all.skip(i as int), env@) {
                    Ok(rem) => prop_statements(all, Map::empty()) == Ok::<
                        (Seq<SpecStatement>, SpecEnv),
                        Error,
                    >((view_stmt_seq(out@) + rem.0, rem.1)),
                    Err(e) => prop_statements(all, Map::empty()) == Err::<
                        (Seq<SpecStatement>, SpecEnv),
                        Error,
                    >(e),
                }),
            decreases n - i,
        {
            proof {
                assert(all.skip(i as int).len() == n - i);
                assert(all.skip(i as int).first() == all[i as int]);
                assert(all.skip(i as int).drop_first() =~= all.skip(i as int + 1));
            }
            match self.statements[i].propagate(&mut env, functions) {
                Ok(Some(st)) => {
                    let ghost out0 = out@;
                    out.push(st);
                    proof {
                        assert(out@.drop_last() =~= out0);
                        assert(view_stmt_seq(out@) == view_stmt_seq(out0).push(view_stmt(st)));
                        match prop_statements(all.skip(i as int + 1), env@) {
                            Ok(rem) => {
                                assert(view_stmt_seq(out0) + (seq![view_stmt(st)] + rem.0)
                                    =~= view_stmt_seq(out@) + rem.0);
                            },
                            Err(e) => {},
                        }
                    }
                },
                Ok(None) => {},
                Err(err) => {
                    return Err(err);
                },
            }
            i += 1;
        }
        proof {
            assert(all.skip(n as int) =~= Seq::<SpecStatement>::empty());
            assert(view_stmt_seq(out@) + Seq::<SpecStatement>::empty() =~= view_stmt_seq(out@));
        }
        Ok(
            TypedFunction {
                id: self.id.clone(),
                arguments: clone_var_vec(&self.arguments),
                returns: clone_type_vec(&self.returns),
                statements: out,
            },
        )
    }
}

impl TypedProg {
    /// Propagates a whole program: each function in source order, each with
    /// the vector of already transformed preceding functions as read-only
    /// context. No environment crosses a function boundary.
    pub fn propagate(self) -> (r: Result<TypedProg, Error>)
        ensures
            prog_res(r) == prop_prog(self@),
    {
        let ghost all = view_function_seq(self.functions@);
        proof {
            assert(all.skip(0) =~= all);
        }
        let mut functions: Vec<TypedFunction> = Vec::new();
        let n = self.functions.len();
        let mut i: usize = 0;
        while i < n
            invariant
                n == self.functions@.len(),
                i <= n,
                all == view_function_seq(self.functions@),
                all.len() == n,
                forall|j: int| 0 <= j < n ==> all[j] == view_function(self.functions@[j]),
                (match prop_function_seq(all.skip(i as int)) {
                    Ok(rest) => prop_function_seq(all) == Ok::<Seq<SpecFunction>, Error>(
                        view_function_seq(functions@) + rest,
                    ),
                    Err(e) => prop_function_seq(all) == Err::<Seq<SpecFunction>, Error>(e),
                }),
            decreases n - i,
        {
            proof {
                assert(all.skip(i as int).len() == n - i);
                assert(all.skip(i as int).first() == all[i as int]);
                assert(all.skip(i as int).drop_first() =~= all.skip(i as int + 1));
            }
            match self.functions[i].propagate(&functions) {
                Ok(pf) => {
                    let ghost fns0 = functions@;
                    functions.push(pf);
                    proof {
                        match prop_function_seq(all.skip(i as int + 1)) {
                            Ok(rest) => {
                                assert(view_function_seq(functions@) =~= view_function_seq(
                                    fns0,
                                ).push(view_function(pf)));
                                assert(view_function_seq(fns0) + (seq![view_function(pf)] + rest)
                                    =~= view_function_seq(functions@) + rest);
                            },
                            Err(e) => {},
                        }
                    }
                },
                Err(err) => {
                    return Err(err);
                },
            }
            i += 1;
        }
        proof {
            assert(all.skip(n as int) =~= Seq::<SpecFunction>::empty());
            assert(view_function_seq(functions@) + Seq::<SpecFunction>::empty()
                =~= view_function_seq(functions@));
        }
        Ok(TypedProg { functions })
    }
}

/// Propagating a sequence of expressions preserves its length.
pub proof fn lemma_prop_typed_seq_len(s: Seq<SpecExpression>, env: SpecEnv)
    ensures
        prop_typed_seq(s, env) matches Ok(o) ==> o.len() == s.len(),
    decreases s.len(),
{
    if s.len() > 0 {
        lemma_prop_typed_seq_len(s.drop_first(), env);
    }
}

/// Function-boundary opacity: for any function call in the input, the
/// corresponding node in the output has the same identifier and the same
/// arity; only the arguments are rewritten. The call itself is neither
/// inlined nor evaluated.
pub proof fn lemma_function_call_opacity(id: Seq<char>, args: Seq<SpecExpression>, env: SpecEnv)
    ensures
        prop_fe(SpecFieldExpression::FunctionCall(id, args), env) matches Ok(out) ==> {
            &&& out matches SpecFieldExpression::FunctionCall(oid, oargs)
            &&& out->FunctionCall_0 == id
            &&& out->FunctionCall_1.len() == args.len()
        },
{
    lemma_prop_typed_seq_len(args, env);
}

/// Function-boundary opacity for multiple definitions: the call on the
/// right-hand side keeps its identifier, its arity and its result types.
pub proof fn lemma_exprlist_opacity(
    id: Seq<char>,
    args: Seq<SpecExpression>,
    types: Seq<Type>,
    env: SpecEnv,
)
    ensures
        prop_exprlist(SpecExpressionList::FunctionCall(id, args, types), env) matches Ok(out)
            ==> {
            &&& out->0 == id
            &&& out->1.len() == args.len()
            &&& out->2 == types
        },
{
    lemma_prop_typed_seq_len(args, env);
}

} // verus!
