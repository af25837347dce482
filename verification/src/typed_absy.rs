//! The typed abstract syntax of the language: expressions over prime-field
//! elements, booleans and fixed-length field arrays, together with the
//! statements, functions and programs built from them.
//!
//! Each executable node has a mathematical model (`Spec...`) reached through
//! its view; the propagation pass's contracts and laws are stated over those
//! models.

use crate::field::FieldElement;
use vstd::prelude::*;

verus! {

/// The type of a variable: a field element, a boolean, or a field array of
/// a fixed size.
#[derive(Clone, Copy, Debug, PartialEq, Eq, Structural)]
pub enum Type {
    FieldElement,
    Boolean,
    FieldElementArray(usize),
}

/// A named, typed reference. A boolean `x` and a field `x` are distinct.
#[derive(Debug, PartialEq, Eq)]
pub struct Variable {
    pub id: String,
    pub ty: Type,
}

/// The model of a variable: its name and its type.
#[verifier::ext_equal]
pub struct SpecVariable {
    pub id: Seq<char>,
    pub ty: Type,
}

impl View for Variable {
    type V = SpecVariable;

    open spec fn view(&self) -> SpecVariable {
        SpecVariable { id: self.id@, ty: self.ty }
    }
}

impl Variable {
    /// A field-element variable of the given name.
    pub fn field_element(id: String) -> (r: Variable)
        ensures
            r@ == (SpecVariable { id: id@, ty: Type::FieldElement }),
    {
        Variable { id, ty: Type::FieldElement }
    }

    /// A boolean variable of the given name.
    pub fn boolean(id: String) -> (r: Variable)
        ensures
            r@ == (SpecVariable { id: id@, ty: Type::Boolean }),
    {
        Variable { id, ty: Type::Boolean }
    }

    /// A field-array variable of the given name and size.
    pub fn field_array(id: String, size: usize) -> (r: Variable)
        ensures
            r@ == (SpecVariable { id: id@, ty: Type::FieldElementArray(size) }),
    {
        Variable { id, ty: Type::FieldElementArray(size) }
    }
}

impl Clone for Variable {
    fn clone(&self) -> (r: Variable)
        ensures
            r@ == self@,
    {
        Variable { id: self.id.clone(), ty: self.ty }
    }
}

/// An expression of field-element type.
#[derive(Debug, PartialEq, Eq)]
pub enum FieldElementExpression {
    Number(FieldElement),
    Identifier(String),
    Add(Box<FieldElementExpression>, Box<FieldElementExpression>),
    Sub(Box<FieldElementExpression>, Box<FieldElementExpression>),
    Mult(Box<FieldElementExpression>, Box<FieldElementExpression>),
    Div(Box<FieldElementExpression>, Box<FieldElementExpression>),
    Pow(Box<FieldElementExpression>, Box<FieldElementExpression>),
    IfElse(
        Box<BooleanExpression>,
        Box<FieldElementExpression>,
        Box<FieldElementExpression>,
    ),
    FunctionCall(String, Vec<TypedExpression>),
    Select(Box<FieldElementArrayExpression>, Box<FieldElementExpression>),
}

/// An expression of boolean type: a literal, an identifier, or a comparison
/// of two field-element expressions.
#[derive(Debug, PartialEq, Eq)]
pub enum BooleanExpression {
    Value(bool),
    Identifier(String),
    Eq(Box<FieldElementExpression>, Box<FieldElementExpression>),
    Lt(Box<FieldElementExpression>, Box<FieldElementExpression>),
    Le(Box<FieldElementExpression>, Box<FieldElementExpression>),
    Gt(Box<FieldElementExpression>, Box<FieldElementExpression>),
    Ge(Box<FieldElementExpression>, Box<FieldElementExpression>),
}

/// An expression of field-array type: a whole-array identifier or an ordered
/// sequence of element expressions.
#[derive(Debug, PartialEq, Eq)]
pub enum FieldElementArrayExpression {
    Identifier(usize, String),
    Value(usize, Vec<FieldElementExpression>),
}

/// Any typed expression: the union of the three sorts.
#[derive(Debug, PartialEq, Eq)]
pub enum TypedExpression {
    FieldElement(FieldElementExpression),
    Boolean(BooleanExpression),
    FieldElementArray(FieldElementArrayExpression),
}

/// A write target: a whole variable or an indexed element of one.
#[derive(Debug, PartialEq, Eq)]
pub enum TypedAssignee {
    Identifier(Variable),
    ArrayElement(Box<TypedAssignee>, Box<FieldElementExpression>),
}

/// The model of a field-element expression.
#[verifier::ext_equal]
pub enum SpecFieldExpression {
    Number(nat),
    Identifier(Seq<char>),
    Add(Box<SpecFieldExpression>, Box<SpecFieldExpression>),
    Sub(Box<SpecFieldExpression>, Box<SpecFieldExpression>),
    Mult(Box<SpecFieldExpression>, Box<SpecFieldExpression>),
    Div(Box<SpecFieldExpression>, Box<SpecFieldExpression>),
    Pow(Box<SpecFieldExpression>, Box<SpecFieldExpression>),
    IfElse(
        Box<SpecBooleanExpression>,
        Box<SpecFieldExpression>,
        Box<SpecFieldExpression>,
    ),
    FunctionCall(Seq<char>, Seq<SpecExpression>),
    Select(Box<SpecArrayExpression>, Box<SpecFieldExpression>),
}

/// The model of a boolean expression.
#[verifier::ext_equal]
pub enum SpecBooleanExpression {
    Value(bool),
    Identifier(Seq<char>),
    Eq(Box<SpecFieldExpression>, Box<SpecFieldExpression>),
    Lt(Box<SpecFieldExpression>, Box<SpecFieldExpression>),
    Le(Box<SpecFieldExpression>, Box<SpecFieldExpression>),
    Gt(Box<SpecFieldExpression>, Box<SpecFieldExpression>),
    Ge(Box<SpecFieldExpression>, Box<SpecFieldExpression>),
}

/// The model of a field-array expression.
#[verifier::ext_equal]
pub enum SpecArrayExpression {
    Identifier(nat, Seq<char>),
    Value(nat, Seq<SpecFieldExpression>),
}

/// The model of a typed expression.
#[verifier::ext_equal]
pub enum SpecExpression {
    FieldElement(SpecFieldExpression),
    Boolean(SpecBooleanExpression),
    FieldElementArray(SpecArrayExpression),
}

/// The model of an assignee.
#[verifier::ext_equal]
pub enum SpecAssignee {
    Identifier(SpecVariable),
    ArrayElement(Box<SpecAssignee>, Box<SpecFieldExpression>),
}

/// The models of a sequence of typed expressions, in order.
pub open spec fn view_typed_seq(s: Seq<TypedExpression>) -> Seq<SpecExpression>
    decreases s,
{
    if s.len() == 0 {
        Seq::empty()
    } else {
        view_typed_seq(s.drop_last()).push(view_typed(s.last()))
    }
}

/// The models of a sequence of field-element expressions, in order.
pub open spec fn view_fe_seq(s: Seq<FieldElementExpression>) -> Seq<SpecFieldExpression>
    decreases s,
{
    if s.len() == 0 {
        Seq::empty()
    } else {
        view_fe_seq(s.drop_last()).push(view_fe(s.last()))
    }
}

/// The model of a field-element expression node.
pub open spec fn view_fe(e: FieldElementExpression) -> SpecFieldExpression
    decreases e,
{
    match e {
        FieldElementExpression::Number(n) => SpecFieldExpression::Number(n@),
        FieldElementExpression::Identifier(id) => SpecFieldExpression::Identifier(id@),
        FieldElementExpression::Add(e1, e2) => SpecFieldExpression::Add(
            Box::new(view_fe(*e1)),
            Box::new(view_fe(*e2)),
        ),
        FieldElementExpression::Sub(e1, e2) => SpecFieldExpression::Sub(
            Box::new(view_fe(*e1)),
            Box::new(view_fe(*e2)),
        ),
        FieldElementExpression::Mult(e1, e2) => SpecFieldExpression::Mult(
            Box::new(view_fe(*e1)),
            Box::new(view_fe(*e2)),
        ),
        FieldElementExpression::Div(e1, e2) => SpecFieldExpression::Div(
            Box::new(view_fe(*e1)),
            Box::new(view_fe(*e2)),
        ),
        FieldElementExpression::Pow(e1, e2) => SpecFieldExpression::Pow(
            Box::new(view_fe(*e1)),
            Box::new(view_fe(*e2)),
        ),
        FieldElementExpression::IfElse(c, t, f) => SpecFieldExpression::IfElse(
            Box::new(view_bool(*c)),
            Box::new(view_fe(*t)),
            Box::new(view_fe(*f)),
        ),
        FieldElementExpression::FunctionCall(id, args) => SpecFieldExpression::FunctionCall(
            id@,
            view_typed_seq(args@),
        ),
        FieldElementExpression::Select(a, i) => SpecFieldExpression::Select(
            Box::new(view_array(*a)),
            Box::new(view_fe(*i)),
        ),
    }
}

/// The model of a boolean expression node.
pub open spec fn view_bool(e: BooleanExpression) -> SpecBooleanExpression
    decreases e,
{
    match e {
        BooleanExpression::Value(v) => SpecBooleanExpression::Value(v),
        BooleanExpression::Identifier(id) => SpecBooleanExpression::Identifier(id@),
        BooleanExpression::Eq(e1, e2) => SpecBooleanExpression::Eq(
            Box::new(view_fe(*e1)),
            Box::new(view_fe(*e2)),
        ),
        BooleanExpression::Lt(e1, e2) => SpecBooleanExpression::Lt(
            Box::new(view_fe(*e1)),
            Box::new(view_fe(*e2)),
        ),
        BooleanExpression::Le(e1, e2) => SpecBooleanExpression::Le(
            Box::new(view_fe(*e1)),
            Box::new(view_fe(*e2)),
        ),
        BooleanExpression::Gt(e1, e2) => SpecBooleanExpression::Gt(
            Box::new(view_fe(*e1)),
            Box::new(view_fe(*e2)),
        ),
        BooleanExpression::Ge(e1, e2) => SpecBooleanExpression::Ge(
            Box::new(view_fe(*e1)),
            Box::new(view_fe(*e2)),
        ),
    }
}

/// The model of a field-array expression node.
pub open spec fn view_array(e: FieldElementArrayExpression) -> SpecArrayExpression
    decreases e,
{
    match e {
        FieldElementArrayExpression::Identifier(size, id) => SpecArrayExpression::Identifier(
            size as nat,
            id@,
        ),
        FieldElementArrayExpression::Value(size, elems) => SpecArrayExpression::Value(
            size as nat,
            view_fe_seq(elems@),
        ),
    }
}

/// The model of a typed expression node.
pub open spec fn view_typed(e: TypedExpression) -> SpecExpression
    decreases e,
{
    match e {
        TypedExpression::FieldElement(e) => SpecExpression::FieldElement(view_fe(e)),
        TypedExpression::Boolean(e) => SpecExpression::Boolean(view_bool(e)),
        TypedExpression::FieldElementArray(e) => SpecExpression::FieldElementArray(view_array(e)),
    }
}

/// The model of an assignee node.
pub open spec fn view_assignee(a: TypedAssignee) -> SpecAssignee
    decreases a,
{
    match a {
        TypedAssignee::Identifier(v) => SpecAssignee::Identifier(v@),
        TypedAssignee::ArrayElement(base, index) => SpecAssignee::ArrayElement(
            Box::new(view_assignee(*base)),
            Box::new(view_fe(*index)),
        ),
    }
}

/// The model of a sequence of typed expressions is the sequence of models.
pub proof fn lemma_view_typed_seq(s: Seq<TypedExpression>)
    ensures
        view_typed_seq(s).len() == s.len(),
        forall|i: int| 0 <= i < s.len() ==> view_typed_seq(s)[i] == view_typed(s[i]),
    decreases s.len(),
{
    if s.len() > 0 {
        lemma_view_typed_seq(s.drop_last());
        assert(forall|i: int| 0 <= i < s.len() - 1 ==> s.drop_last()[i] == s[i]);
    }
}

/// The model of a sequence of field-element expressions is the sequence of
/// models.
pub proof fn lemma_view_fe_seq(s: Seq<FieldElementExpression>)
    ensures
        view_fe_seq(s).len() == s.len(),
        forall|i: int| 0 <= i < s.len() ==> view_fe_seq(s)[i] == view_fe(s[i]),
    decreases s.len(),
{
    if s.len() > 0 {
        lemma_view_fe_seq(s.drop_last());
        assert(forall|i: int| 0 <= i < s.len() - 1 ==> s.drop_last()[i] == s[i]);
    }
}

impl View for FieldElementExpression {
    type V = SpecFieldExpression;

    open spec fn view(&self) -> SpecFieldExpression {
        view_fe(*self)
    }
}

impl View for BooleanExpression {
    type V = SpecBooleanExpression;

    open spec fn view(&self) -> SpecBooleanExpression {
        view_bool(*self)
    }
}

impl View for FieldElementArrayExpression {
    type V = SpecArrayExpression;

    open spec fn view(&self) -> SpecArrayExpression {
        view_array(*self)
    }
}

impl View for TypedExpression {
    type V = SpecExpression;

    open spec fn view(&self) -> SpecExpression {
        view_typed(*self)
    }
}

impl View for TypedAssignee {
    type V = SpecAssignee;

    open spec fn view(&self) -> SpecAssignee {
        view_assignee(*self)
    }
}

impl Clone for FieldElementExpression {
    fn clone(&self) -> (r: Self)
        ensures
            r@ == self@,
        decreases self,
    {
        match self {
            FieldElementExpression::Number(n) => FieldElementExpression::Number(*n),
            FieldElementExpression::Identifier(id) => FieldElementExpression::Identifier(
                id.clone(),
            ),
            FieldElementExpression::Add(e1, e2) => FieldElementExpression::Add(
                Box::new((**e1).clone()),
                Box::new((**e2).clone()),
            ),
            FieldElementExpression::Sub(e1, e2) => FieldElementExpression::Sub(
                Box::new((**e1).clone()),
                Box::new((**e2).clone()),
            ),
            FieldElementExpression::Mult(e1, e2) => FieldElementExpression::Mult(
                Box::new((**e1).clone()),
                Box::new((**e2).clone()),
            ),
            FieldElementExpression::Div(e1, e2) => FieldElementExpression::Div(
                Box::new((**e1).clone()),
                Box::new((**e2).clone()),
            ),
            FieldElementExpression::Pow(e1, e2) => FieldElementExpression::Pow(
                Box::new((**e1).clone()),
                Box::new((**e2).clone()),
            ),
            FieldElementExpression::IfElse(c, t, f) => FieldElementExpression::IfElse(
                Box::new((**c).clone()),
                Box::new((**t).clone()),
                Box::new((**f).clone()),
            ),
            FieldElementExpression::FunctionCall(id, args) => FieldElementExpression::FunctionCall(
                id.clone(),
                clone_typed_vec(args),
            ),
            FieldElementExpression::Select(a, i) => FieldElementExpression::Select(
                Box::new((**a).clone()),
                Box::new((**i).clone()),
            ),
        }
    }
}

impl Clone for BooleanExpression {
    fn clone(&self) -> (r: Self)
        ensures
            r@ == self@,
        decreases self,
    {
        match self {
            BooleanExpression::Value(v) => BooleanExpression::Value(*v),
            BooleanExpression::Identifier(id) => BooleanExpression::Identifier(id.clone()),
            BooleanExpression::Eq(e1, e2) => BooleanExpression::Eq(
                Box::new((**e1).clone()),
                Box::new((**e2).clone()),
            ),
            BooleanExpression::Lt(e1, e2) => BooleanExpression::Lt(
                Box::new((**e1).clone()),
                Box::new((**e2).clone()),
            ),
            BooleanExpression::Le(e1, e2) => BooleanExpression::Le(
                Box::new((**e1).clone()),
                Box::new((**e2).clone()),
            ),
            BooleanExpression::Gt(e1, e2) => BooleanExpression::Gt(
                Box::new((**e1).clone()),
                Box::new((**e2).clone()),
            ),
            BooleanExpression::Ge(e1, e2) => BooleanExpression::Ge(
                Box::new((**e1).clone()),
                Box::new((**e2).clone()),
            ),
        }
    }
}

impl Clone for FieldElementArrayExpression {
    fn clone(&self) -> (r: Self)
        ensures
            r@ == self@,
        decreases self,
    {
        match self {
            FieldElementArrayExpression::Identifier(size, id) => {
                FieldElementArrayExpression::Identifier(*size, id.clone())
            },
            FieldElementArrayExpression::Value(size, elems) => {
                FieldElementArrayExpression::Value(*size, clone_fe_vec(elems))
            },
        }
    }
}

impl Clone for TypedExpression {
    fn clone(&self) -> (r: Self)
        ensures
            r@ == self@,
        decreases self,
    {
        match self {
            TypedExpression::FieldElement(e) => TypedExpression::FieldElement(e.clone()),
            TypedExpression::Boolean(e) => TypedExpression::Boolean(e.clone()),
            TypedExpression::FieldElementArray(e) => TypedExpression::FieldElementArray(e.clone()),
        }
    }
}

impl Clone for TypedAssignee {
    fn clone(&self) -> (r: Self)
        ensures
            r@ == self@,
        decreases self,
    {
        match self {
            TypedAssignee::Identifier(v) => TypedAssignee::Identifier(v.clone()),
            TypedAssignee::ArrayElement(base, index) => TypedAssignee::ArrayElement(
                Box::new((**base).clone()),
                Box::new((**index).clone()),
            ),
        }
    }
}

/// Clones a sequence of variables, preserving its models.
pub(crate) fn clone_var_vec(v: &Vec<Variable>) -> (r: Vec<Variable>)
    ensures
        view_var_seq(r@) == view_var_seq(v@),
{
    let mut out: Vec<Variable> = Vec::new();
    let n = v.len();
    let mut i: usize = 0;
    while i < n
        invariant
            n == v@.len(),
            i <= n,
            out@.len() == i,
            forall|j: int| 0 <= j < i ==> out@[j]@ == v@[j]@,
        decreases n - i,
    {
        out.push(v[i].clone());
        i += 1;
    }
    proof {
        assert(view_var_seq(out@) =~= view_var_seq(v@));
    }
    out
}

/// Clones a sequence of types.
pub(crate) fn clone_type_vec(v: &Vec<Type>) -> (r: Vec<Type>)
    ensures
        r@ == v@,
{
    let mut out: Vec<Type> = Vec::new();
    let n = v.len();
    let mut i: usize = 0;
    while i < n
        invariant
            n == v@.len(),
            i <= n,
            out@.len() == i,
            forall|j: int| 0 <= j < i ==> out@[j] == v@[j],
        decreases n - i,
    {
        out.push(v[i]);
        i += 1;
    }
    proof {
        assert(out@ =~= v@);
    }
    out
}

/// Clones a sequence of typed expressions, preserving its model.
pub(crate) fn clone_typed_vec(v: &Vec<TypedExpression>) -> (r: Vec<TypedExpression>)
    ensures
        view_typed_seq(r@) == view_typed_seq(v@),
    decreases v,
{
    let mut out: Vec<TypedExpression> = Vec::new();
    let n = v.len();
    let mut i: usize = 0;
    while i < n
        invariant
            n == v@.len(),
            i <= n,
            out@.len() == i,
            forall|j: int| 0 <= j < i ==> view_typed(out@[j]) == view_typed(v@[j]),
        decreases n - i,
    {
        assert(decreases_to!(v => v@[i as int])) by {
            assert(decreases_to!(v => v@));
        }
        out.push(v[i].clone());
        i += 1;
    }
    proof {
        lemma_view_typed_seq(out@);
        lemma_view_typed_seq(v@);
        assert(view_typed_seq(out@) =~= view_typed_seq(v@));
    }
    out
}

/// Clones a sequence of field-element expressions, preserving its model.
fn clone_fe_vec(v: &Vec<FieldElementExpression>) -> (r: Vec<FieldElementExpression>)
    ensures
        view_fe_seq(r@) == view_fe_seq(v@),
    decreases v,
{
    let mut out: Vec<FieldElementExpression> = Vec::new();
    let n = v.len();
    let mut i: usize = 0;
    while i < n
        invariant
            n == v@.len(),
            i <= n,
            out@.len() == i,
            forall|j: int| 0 <= j < i ==> view_fe(out@[j]) == view_fe(v@[j]),
        decreases n - i,
    {
        assert(decreases_to!(v => v@[i as int])) by {
            assert(decreases_to!(v => v@));
        }
        out.push(v[i].clone());
        i += 1;
    }
    proof {
        lemma_view_fe_seq(out@);
        lemma_view_fe_seq(v@);
        assert(view_fe_seq(out@) =~= view_fe_seq(v@));
    }
    out
}

/// Whether two variables have the same model.
pub(crate) fn var_eq(a: &Variable, b: &Variable) -> (r: bool)
    ensures
        r == (a@ == b@),
{
    let r = a.id == b.id && a.ty == b.ty;
    proof {
        if r {
            assert(a@ =~= b@);
        }
    }
    r
}

/// Whether two field-element expressions have the same model.
pub(crate) fn fe_eq(a: &FieldElementExpression, b: &FieldElementExpression) -> (r: bool)
    ensures
        r == (a@ == b@),
    decreases a,
{
    match (a, b) {
        (FieldElementExpression::Number(n1), FieldElementExpression::Number(n2)) => n1.eq_value(
            n2,
        ),
        (FieldElementExpression::Identifier(i1), FieldElementExpression::Identifier(i2)) => *i1
            == *i2,
        (FieldElementExpression::Add(a1, a2), FieldElementExpression::Add(b1, b2)) => fe_eq(
            a1,
            b1,
        ) && fe_eq(a2, b2),
        (FieldElementExpression::Sub(a1, a2), FieldElementExpression::Sub(b1, b2)) => fe_eq(
            a1,
            b1,
        ) && fe_eq(a2, b2),
        (FieldElementExpression::Mult(a1, a2), FieldElementExpression::Mult(b1, b2)) => fe_eq(
            a1,
            b1,
        ) && fe_eq(a2, b2),
        (FieldElementExpression::Div(a1, a2), FieldElementExpression::Div(b1, b2)) => fe_eq(
            a1,
            b1,
        ) && fe_eq(a2, b2),
        (FieldElementExpression::Pow(a1, a2), FieldElementExpression::Pow(b1, b2)) => fe_eq(
            a1,
            b1,
        ) && fe_eq(a2, b2),
        (
            FieldElementExpression::IfElse(c1, t1, f1),
            FieldElementExpression::IfElse(c2, t2, f2),
        ) => bool_eq(c1, c2) && fe_eq(t1, t2) && fe_eq(f1, f2),
        (
            FieldElementExpression::FunctionCall(i1, a1),
            FieldElementExpression::FunctionCall(i2, a2),
        ) => *i1 == *i2 && typed_vec_eq(a1, a2),
        (FieldElementExpression::Select(r1, x1), FieldElementExpression::Select(r2, x2)) => {
            array_eq(r1, r2) && fe_eq(x1, x2)
        },
        _ => false,
    }
}

/// Whether two boolean expressions have the same model.
pub(crate) fn bool_eq(a: &BooleanExpression, b: &BooleanExpression) -> (r: bool)
    ensures
        r == (a@ == b@),
    decreases a,
{
    match (a, b) {
        (BooleanExpression::Value(v1), BooleanExpression::Value(v2)) => *v1 == *v2,
        (BooleanExpression::Identifier(i1), BooleanExpression::Identifier(i2)) => *i1 == *i2,
        (BooleanExpression::Eq(a1, a2), BooleanExpression::Eq(b1, b2)) => fe_eq(a1, b1) && fe_eq(
            a2,
            b2,
        ),
        (BooleanExpression::Lt(a1, a2), BooleanExpression::Lt(b1, b2)) => fe_eq(a1, b1) && fe_eq(
            a2,
            b2,
        ),
        (BooleanExpression::Le(a1, a2), BooleanExpression::Le(b1, b2)) => fe_eq(a1, b1) && fe_eq(
            a2,
            b2,
        ),
        (BooleanExpression::Gt(a1, a2), BooleanExpression::Gt(b1, b2)) => fe_eq(a1, b1) && fe_eq(
            a2,
            b2,
        ),
        (BooleanExpression::Ge(a1, a2), BooleanExpression::Ge(b1, b2)) => fe_eq(a1, b1) && fe_eq(
            a2,
            b2,
        ),
        _ => false,
    }
}

/// Whether two field-array expressions have the same model.
pub(crate) fn array_eq(a: &FieldElementArrayExpression, b: &FieldElementArrayExpression) -> (r:
    bool)
    ensures
        r == (a@ == b@),
    decreases a,
{
    match (a, b) {
        (
            FieldElementArrayExpression::Identifier(s1, i1),
            FieldElementArrayExpression::Identifier(s2, i2),
        ) => *s1 == *s2 && *i1 == *i2,
        (
            FieldElementArrayExpression::Value(s1, e1),
            FieldElementArrayExpression::Value(s2, e2),
        ) => *s1 == *s2 && fe_vec_eq(e1, e2),
        _ => false,
    }
}

/// Whether two typed expressions have the same model.
pub(crate) fn typed_eq(a: &TypedExpression, b: &TypedExpression) -> (r: bool)
    ensures
        r == (a@ == b@),
    decreases a,
{
    match (a, b) {
        (TypedExpression::FieldElement(e1), TypedExpression::FieldElement(e2)) => fe_eq(e1, e2),
        (TypedExpression::Boolean(e1), TypedExpression::Boolean(e2)) => bool_eq(e1, e2),
        (TypedExpression::FieldElementArray(e1), TypedExpression::FieldElementArray(e2)) => {
            array_eq(e1, e2)
        },
        _ => false,
    }
}

/// Whether two sequences of typed expressions have the same models.
pub(crate) fn typed_vec_eq(a: &Vec<TypedExpression>, b: &Vec<TypedExpression>) -> (r: bool)
    ensures
        r == (view_typed_seq(a@) == view_typed_seq(b@)),
    decreases a,
{
    proof {
        lemma_view_typed_seq(a@);
        lemma_view_typed_seq(b@);
    }
    if a.len() != b.len() {
        return false;
    }
    let n = a.len();
    let mut i: usize = 0;
    while i < n
        invariant
            n == a@.len(),
            n == b@.len(),
            i <= n,
            forall|j: int| 0 <= j < i ==> view_typed(a@[j]) == view_typed(b@[j]),
            view_typed_seq(a@).len() == n,
            view_typed_seq(b@).len() == n,
            forall|j: int| 0 <= j < n ==> view_typed_seq(a@)[j] == view_typed(a@[j]),
            forall|j: int| 0 <= j < n ==> view_typed_seq(b@)[j] == view_typed(b@[j]),
        decreases n - i,
    {
        assert(decreases_to!(a => a@[i as int])) by {
            assert(decreases_to!(a => a@));
        }
        if !typed_eq(&a[i], &b[i]) {
            proof {
                assert(view_typed(a@[i as int]) != view_typed(b@[i as int]));
                assert(view_typed_seq(a@)[i as int] != view_typed_seq(b@)[i as int]);
            }
            return false;
        }
        i += 1;
    }
    proof {
        assert(view_typed_seq(a@) =~= view_typed_seq(b@));
    }
    true
}

/// Whether two sequences of field-element expressions have the same models.
pub(crate) fn fe_vec_eq(a: &Vec<FieldElementExpression>, b: &Vec<FieldElementExpression>) -> (r:
    bool)
    ensures
        r == (view_fe_seq(a@) == view_fe_seq(b@)),
    decreases a,
{
    proof {
        lemma_view_fe_seq(a@);
        lemma_view_fe_seq(b@);
    }
    if a.len() != b.len() {
        return false;
    }
    let n = a.len();
    let mut i: usize = 0;
    while i < n
        invariant
            n == a@.len(),
            n == b@.len(),
            i <= n,
            forall|j: int| 0 <= j < i ==> view_fe(a@[j]) == view_fe(b@[j]),
            view_fe_seq(a@).len() == n,
            view_fe_seq(b@).len() == n,
            forall|j: int| 0 <= j < n ==> view_fe_seq(a@)[j] == view_fe(a@[j]),
            forall|j: int| 0 <= j < n ==> view_fe_seq(b@)[j] == view_fe(b@[j]),
        decreases n - i,
    {
        assert(decreases_to!(a => a@[i as int])) by {
            assert(decreases_to!(a => a@));
        }
        if !fe_eq(&a[i], &b[i]) {
            proof {
                assert(view_fe(a@[i as int]) != view_fe(b@[i as int]));
                assert(view_fe_seq(a@)[i as int] != view_fe_seq(b@)[i as int]);
            }
            return false;
        }
        i += 1;
    }
    proof {
        assert(view_fe_seq(a@) =~= view_fe_seq(b@));
    }
    true
}

/// Whether two assignees have the same model.
pub(crate) fn assignee_eq(a: &TypedAssignee, b: &TypedAssignee) -> (r: bool)
    ensures
        r == (a@ == b@),
    decreases a,
{
    match (a, b) {
        (TypedAssignee::Identifier(v1), TypedAssignee::Identifier(v2)) => var_eq(v1, v2),
        (TypedAssignee::ArrayElement(b1, i1), TypedAssignee::ArrayElement(b2, i2)) => assignee_eq(
            b1,
            b2,
        ) && fe_eq(i1, i2),
        _ => false,
    }
}

/// A list-producing expression: presently only a function call, with the
/// types of its results.
#[derive(Debug, PartialEq, Eq)]
pub enum TypedExpressionList {
    FunctionCall(String, Vec<TypedExpression>, Vec<Type>),
}

/// A statement of the language. `For` is an invariant violation if it
/// reaches the propagation pass: loops are unrolled upstream.
#[derive(Debug, PartialEq, Eq)]
pub enum TypedStatement {
    Return(Vec<TypedExpression>),
    Definition(TypedAssignee, TypedExpression),
    Declaration(Variable),
    Condition(TypedExpression, TypedExpression),
    For(Variable, FieldElement, FieldElement, Vec<TypedStatement>),
    MultipleDefinition(Vec<Variable>, TypedExpressionList),
}

/// A function: its signature plus an ordered sequence of statements.
#[derive(Debug, PartialEq, Eq)]
pub struct TypedFunction {
    pub id: String,
    pub arguments: Vec<Variable>,
    pub returns: Vec<Type>,
    pub statements: Vec<TypedStatement>,
}

/// A program: an ordered sequence of functions, the first being the entry
/// point.
#[derive(Debug, PartialEq, Eq)]
pub struct TypedProg {
    pub functions: Vec<TypedFunction>,
}

/// The model of a list-producing expression.
#[verifier::ext_equal]
pub enum SpecExpressionList {
    FunctionCall(Seq<char>, Seq<SpecExpression>, Seq<Type>),
}

/// The model of a statement.
#[verifier::ext_equal]
pub enum SpecStatement {
    Return(Seq<SpecExpression>),
    Definition(SpecAssignee, SpecExpression),
    Declaration(SpecVariable),
    Condition(SpecExpression, SpecExpression),
    For(SpecVariable, nat, nat, Seq<SpecStatement>),
    MultipleDefinition(Seq<SpecVariable>, SpecExpressionList),
}

/// The model of a function.
#[verifier::ext_equal]
pub struct SpecFunction {
    pub id: Seq<char>,
    pub arguments: Seq<SpecVariable>,
    pub returns: Seq<Type>,
    pub statements: Seq<SpecStatement>,
}

/// The model of a program.
#[verifier::ext_equal]
pub struct SpecProg {
    pub functions: Seq<SpecFunction>,
}

/// The models of a sequence of variables, in order.
pub open spec fn view_var_seq(s: Seq<Variable>) -> Seq<SpecVariable> {
    Seq::new(s.len(), |i: int| s[i]@)
}

/// The model of a list-producing expression node.
pub open spec fn view_exprlist(l: TypedExpressionList) -> SpecExpressionList {
    match l {
        TypedExpressionList::FunctionCall(id, args, types) => SpecExpressionList::FunctionCall(
            id@,
            view_typed_seq(args@),
            types@,
        ),
    }
}

/// The model of a statement node.
pub open spec fn view_stmt(s: TypedStatement) -> SpecStatement
    decreases s,
{
    match s {
        TypedStatement::Return(exprs) => SpecStatement::Return(view_typed_seq(exprs@)),
        TypedStatement::Definition(a, e) => SpecStatement::Definition(
            view_assignee(a),
            view_typed(e),
        ),
        TypedStatement::Declaration(v) => SpecStatement::Declaration(v@),
        TypedStatement::Condition(e1, e2) => SpecStatement::Condition(
            view_typed(e1),
            view_typed(e2),
        ),
        TypedStatement::For(v, from, to, body) => SpecStatement::For(
            v@,
            from@,
            to@,
            view_stmt_seq(body@),
        ),
        TypedStatement::MultipleDefinition(vars, l) => SpecStatement::MultipleDefinition(
            view_var_seq(vars@),
            view_exprlist(l),
        ),
    }
}

/// The models of a sequence of statements, in order.
pub open spec fn view_stmt_seq(s: Seq<TypedStatement>) -> Seq<SpecStatement>
    decreases s,
{
    if s.len() == 0 {
        Seq::empty()
    } else {
        view_stmt_seq(s.drop_last()).push(view_stmt(s.last()))
    }
}

/// The model of a sequence of statements is the sequence of models.
pub proof fn lemma_view_stmt_seq(s: Seq<TypedStatement>)
    ensures
        view_stmt_seq(s).len() == s.len(),
        forall|i: int| 0 <= i < s.len() ==> view_stmt_seq(s)[i] == view_stmt(s[i]),
    decreases s.len(),
{
    if s.len() > 0 {
        lemma_view_stmt_seq(s.drop_last());
        assert(forall|i: int| 0 <= i < s.len() - 1 ==> s.drop_last()[i] == s[i]);
    }
}

/// The model of a function node.
pub open spec fn view_function(f: TypedFunction) -> SpecFunction {
    SpecFunction {
        id: f.id@,
        arguments: view_var_seq(f.arguments@),
        returns: f.returns@,
        statements: view_stmt_seq(f.statements@),
    }
}

/// The models of a sequence of functions, in order.
pub open spec fn view_function_seq(s: Seq<TypedFunction>) -> Seq<SpecFunction> {
    Seq::new(s.len(), |i: int| view_function(s[i]))
}

/// Whether a field-element expression model is a literal.
pub open spec fn is_literal_fe(e: SpecFieldExpression) -> bool {
    e is Number
}

/// Whether a boolean expression model is a literal.
pub open spec fn is_literal_bool(e: SpecBooleanExpression) -> bool {
    e is Value
}

/// Whether an array expression model is a fully literal array: a `Value` of
/// the stated size whose every element is a `Number`.
pub open spec fn is_literal_array(e: SpecArrayExpression) -> bool {
    match e {
        SpecArrayExpression::Identifier(_, _) => false,
        SpecArrayExpression::Value(size, elems) => elems.len() == size && forall|i: int|
            0 <= i < elems.len() ==> is_literal_fe(#[trigger] elems[i]),
    }
}

/// Whether a typed expression model is fully literal: the only shapes the
/// propagation environment stores.
pub open spec fn is_literal(e: SpecExpression) -> bool {
    match e {
        SpecExpression::FieldElement(f) => is_literal_fe(f),
        SpecExpression::Boolean(b) => is_literal_bool(b),
        SpecExpression::FieldElementArray(a) => is_literal_array(a),
    }
}

impl View for TypedExpressionList {
    type V = SpecExpressionList;

    open spec fn view(&self) -> SpecExpressionList {
        view_exprlist(*self)
    }
}

impl View for TypedStatement {
    type V = SpecStatement;

    open spec fn view(&self) -> SpecStatement {
        view_stmt(*self)
    }
}

impl View for TypedFunction {
    type V = SpecFunction;

    open spec fn view(&self) -> SpecFunction {
        view_function(*self)
    }
}

impl View for TypedProg {
    type V = SpecProg;

    open spec fn view(&self) -> SpecProg {
        SpecProg { functions: view_function_seq(self.functions@) }
    }
}

} // verus!
