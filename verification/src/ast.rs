//! The syntax tree that the evaluator walks, and its mathematical view.
//!
//! Every executable node type has a view in which strings are `Seq<char>` and
//! vectors are `Seq`; the semantics of the language is stated over the views.

use vstd::prelude::*;

verus! {

/// A place in the source text.
#[derive(Clone, Copy, Debug, PartialEq, Eq, Structural)]
pub struct Position {
    pub line: u32,
    pub column: u32,
}

/// The stretch of source text that a node was read from.
#[derive(Clone, Copy, Debug, PartialEq, Eq, Structural)]
pub struct Range {
    pub start: Position,
    pub end: Position,
}

/// The operator of a binary expression.
#[derive(Clone, Copy, Debug, PartialEq, Eq, Structural)]
pub enum Operator {
    Plus,
    Minus,
    Multiply,
    Divide,
    Exponent,
    Equals,
    Dot,
    Percent,
    Ampersand,
    Pipe,
}

/// A type as it is written in the source.
#[derive(Debug, PartialEq, Eq)]
pub enum TypeName {
    Integer { width: u8, signed: bool },
    Float { width: u8 },
    Ident(String),
}

/// A written type as mathematics: names are sequences of characters.
pub enum TypeNameView {
    Integer { width: u8, signed: bool },
    Float { width: u8 },
    Ident(Seq<char>),
}

impl View for TypeName {
    type V = TypeNameView;

    open spec fn view(&self) -> TypeNameView {
        match *self {
            TypeName::Integer { width, signed } => TypeNameView::Integer { width, signed },
            TypeName::Float { width } => TypeNameView::Float { width },
            TypeName::Ident(name) => TypeNameView::Ident(name@),
        }
    }
}

impl Clone for TypeName {
    fn clone(&self) -> (r: Self)
        ensures
            r@ == self@,
    {
        match self {
            TypeName::Integer { width, signed } => TypeName::Integer {
                width: *width,
                signed: *signed,
            },
            TypeName::Float { width } => TypeName::Float { width: *width },
            TypeName::Ident(name) => TypeName::Ident(name.clone()),
        }
    }
}

/// One entry of a parameter list or of a record literal.
#[derive(Debug, PartialEq, Eq)]
pub struct Parameter {
    pub name: Option<String>,
    pub ty: Option<TypeName>,
}

/// An entry of a parameter list as mathematics.
pub struct ParameterView {
    pub name: Option<Seq<char>>,
    pub ty: Option<TypeNameView>,
}

impl View for Parameter {
    type V = ParameterView;

    open spec fn view(&self) -> ParameterView {
        ParameterView {
            name: match self.name {
                Some(n) => Some(n@),
                None => None,
            },
            ty: match self.ty {
                Some(t) => Some(t@),
                None => None,
            },
        }
    }
}

impl Clone for Parameter {
    fn clone(&self) -> (r: Self)
        ensures
            r@ == self@,
    {
        let name = match &self.name {
            Some(n) => Some(n.clone()),
            None => None,
        };
        let ty = match &self.ty {
            Some(t) => Some(t.clone()),
            None => None,
        };
        Parameter { name, ty }
    }
}

/// The views of a run of parameters, in order.
pub open spec fn parameters_view(ps: Seq<Parameter>) -> Seq<ParameterView> {
    Seq::new(ps.len(), |i: int| ps[i]@)
}

pub fn clone_parameters(ps: &Vec<Parameter>) -> (r: Vec<Parameter>)
    ensures
        parameters_view(r@) == parameters_view(ps@),
{
    let mut out: Vec<Parameter> = Vec::new();
    let mut i: usize = 0;
    while i < ps.len()
        invariant
            i <= ps.len(),
            out@.len() == i,
            forall|j: int| 0 <= j < i ==> out@[j]@ == ps@[j]@,
        decreases ps.len() - i,
    {
        out.push(ps[i].clone());
        i += 1;
    }
    assert(parameters_view(out@) =~= parameters_view(ps@));
    out
}

/// An expression of the language.
#[derive(Debug, PartialEq, Eq)]
pub enum Expression {
    /// An integer literal with its raw bits.
    Integer(u64, Range),
    /// A float literal, carried as the bits of its double-precision form.
    Float(u64, Range),
    Ident(String, Range),
    /// `left op right`; its range runs from the start of `left` to the end
    /// of `right`.
    BinaryExpression { left: Box<Expression>, op: Operator, right: Box<Expression> },
    FunctionCall { expr: Box<Expression>, args: Vec<Expression>, range: Range },
    Function {
        parameters: Vec<Parameter>,
        return_parameters: Vec<Parameter>,
        body: Option<Box<Statement>>,
        range: Range,
    },
    Record { parameters: Vec<Parameter>, range: Range },
}

/// A statement of the language.
#[derive(Debug, PartialEq, Eq)]
pub enum Statement {
    Declaration { ident: String, ty: Option<TypeName>, expr: Option<Expression> },
    Expression(Expression),
    List(Vec<Statement>),
    /// Any statement form that the evaluator attaches no meaning to.
    Other,
}

/// An expression as mathematics: names are sequences of characters, and
/// runs of nodes are sequences.
pub enum ExpressionView {
    Integer(u64, Range),
    Float(u64, Range),
    Ident(Seq<char>, Range),
    BinaryExpression { left: Box<ExpressionView>, op: Operator, right: Box<ExpressionView> },
    FunctionCall { expr: Box<ExpressionView>, args: Seq<ExpressionView>, range: Range },
    Function {
        parameters: Seq<ParameterView>,
        return_parameters: Seq<ParameterView>,
        body: Option<Box<StatementView>>,
        range: Range,
    },
    Record { parameters: Seq<ParameterView>, range: Range },
}

/// A statement as mathematics.
pub enum StatementView {
    Declaration { ident: Seq<char>, ty: Option<TypeNameView>, expr: Option<ExpressionView> },
    Expression(ExpressionView),
    List(Seq<StatementView>),
    Other,
}

pub open spec fn expression_view(e: Expression) -> ExpressionView
    decreases e,
{
    match e {
        Expression::Integer(bits, range) => ExpressionView::Integer(bits, range),
        Expression::Float(bits, range) => ExpressionView::Float(bits, range),
        Expression::Ident(name, range) => ExpressionView::Ident(name@, range),
        Expression::BinaryExpression { left, op, right } => ExpressionView::BinaryExpression {
            left: Box::new(expression_view(*left)),
            op,
            right: Box::new(expression_view(*right)),
        },
        Expression::FunctionCall { expr, args, range } => ExpressionView::FunctionCall {
            expr: Box::new(expression_view(*expr)),
            args: expressions_view(args@),
            range,
        },
        Expression::Function { parameters, return_parameters, body, range } => ExpressionView::Function {
            parameters: parameters_view(parameters@),
            return_parameters: parameters_view(return_parameters@),
            body: match body {
                Some(b) => Some(Box::new(statement_view(*b))),
                None => None,
            },
            range,
        },
        Expression::Record { parameters, range } => ExpressionView::Record {
            parameters: parameters_view(parameters@),
            range,
        },
    }
}

pub open spec fn expressions_view(es: Seq<Expression>) -> Seq<ExpressionView>
    decreases es,
{
    Seq::new(
        es.len(),
        |i: int|
            if 0 <= i < es.len() {
                expression_view(es[i])
            } else {
                arbitrary()
            },
    )
}

pub open spec fn statement_view(s: Statement) -> StatementView
    decreases s,
{
    match s {
        Statement::Declaration { ident, ty, expr } => StatementView::Declaration {
            ident: ident@,
            ty: match ty {
                Some(t) => Some(t@),
                None => None,
            },
            expr: match expr {
                Some(e) => Some(expression_view(e)),
                None => None,
            },
        },
        Statement::Expression(e) => StatementView::Expression(expression_view(e)),
        Statement::List(items) => StatementView::List(statements_view(items@)),
        Statement::Other => StatementView::Other,
    }
}

pub open spec fn statements_view(ss: Seq<Statement>) -> Seq<StatementView>
    decreases ss,
{
    Seq::new(
        ss.len(),
        |i: int|
            if 0 <= i < ss.len() {
                statement_view(ss[i])
            } else {
                arbitrary()
            },
    )
}

impl View for Expression {
    type V = ExpressionView;

    open spec fn view(&self) -> ExpressionView {
        expression_view(*self)
    }
}

impl View for Statement {
    type V = StatementView;

    open spec fn view(&self) -> StatementView {
        statement_view(*self)
    }
}

impl ExpressionView {
    /// The source range of the node.
    pub open spec fn range(self) -> Range
        decreases self,
    {
        match self {
            ExpressionView::Integer(_, range) => range,
            ExpressionView::Float(_, range) => range,
            ExpressionView::Ident(_, range) => range,
            ExpressionView::BinaryExpression { left, right, .. } => Range {
                start: left.range().start,
                end: right.range().end,
            },
            ExpressionView::FunctionCall { range, .. } => range,
            ExpressionView::Function { range, .. } => range,
            ExpressionView::Record { range, .. } => range,
        }
    }
}

impl Expression {
    /// The source range of the node.
    pub fn get_range(&self) -> (r: Range)
        ensures
            r == self@.range(),
        decreases self,
    {
        match self {
            Expression::Integer(_, range) => *range,
            Expression::Float(_, range) => *range,
            Expression::Ident(_, range) => *range,
            Expression::BinaryExpression { left, right, .. } => Range {
                start: left.get_range().start,
                end: right.get_range().end,
            },
            Expression::FunctionCall { range, .. } => *range,
            Expression::Function { range, .. } => *range,
            Expression::Record { range, .. } => *range,
        }
    }
}

pub fn clone_expressions(es: &Vec<Expression>) -> (r: Vec<Expression>)
    ensures
        expressions_view(r@) == expressions_view(es@),
    decreases es,
{
    let mut out: Vec<Expression> = Vec::new();
    let mut i: usize = 0;
    while i < es.len()
        invariant
            i <= es.len(),
            out@.len() == i,
            forall|j: int| 0 <= j < i ==> expression_view(out@[j]) == expression_view(es@[j]),
        decreases es.len() - i,
    {
        out.push(es[i].clone());
        i += 1;
    }
    assert(expressions_view(out@) =~= expressions_view(es@));
    out
}

pub fn clone_statements(ss: &Vec<Statement>) -> (r: Vec<Statement>)
    ensures
        statements_view(r@) == statements_view(ss@),
    decreases ss,
{
    let mut out: Vec<Statement> = Vec::new();
    let mut i: usize = 0;
    while i < ss.len()
        invariant
            i <= ss.len(),
            out@.len() == i,
            forall|j: int| 0 <= j < i ==> statement_view(out@[j]) == statement_view(ss@[j]),
        decreases ss.len() - i,
    {
        out.push(ss[i].clone());
        i += 1;
    }
    assert(statements_view(out@) =~= statements_view(ss@));
    out
}

impl Clone for Expression {
    fn clone(&self) -> (r: Self)
        ensures
            r@ == self@,
        decreases self,
    {
        match self {
            Expression::Integer(bits, range) => Expression::Integer(*bits, *range),
            Expression::Float(bits, range) => Expression::Float(*bits, *range),
            Expression::Ident(name, range) => Expression::Ident(name.clone(), *range),
            Expression::BinaryExpression { left, op, right } => {
                let l = (**left).clone();
                let r = (**right).clone();
                Expression::BinaryExpression { left: Box::new(l), op: *op, right: Box::new(r) }
            },
            Expression::FunctionCall { expr, args, range } => {
                let callee = (**expr).clone();
                let copies = clone_expressions(args);
                Expression::FunctionCall { expr: Box::new(callee), args: copies, range: *range }
            },
            Expression::Function { parameters, return_parameters, body, range } => {
                let b = match body {
                    Some(b) => Some(Box::new((**b).clone())),
                    None => None,
                };
                Expression::Function {
                    parameters: clone_parameters(parameters),
                    return_parameters: clone_parameters(return_parameters),
                    body: b,
                    range: *range,
                }
            },
            Expression::Record { parameters, range } => Expression::Record {
                parameters: clone_parameters(parameters),
                range: *range,
            },
        }
    }
}

impl Clone for Statement {
    fn clone(&self) -> (r: Self)
        ensures
            r@ == self@,
        decreases self,
    {
        match self {
            Statement::Declaration { ident, ty, expr } => {
                let t = match ty {
                    Some(t) => Some(t.clone()),
                    None => None,
                };
                let e = match expr {
                    Some(e) => Some(e.clone()),
                    None => None,
                };
                Statement::Declaration { ident: ident.clone(), ty: t, expr: e }
            },
            Statement::Expression(e) => Statement::Expression(e.clone()),
            Statement::List(items) => Statement::List(clone_statements(items)),
            Statement::Other => Statement::Other,
        }
    }
}

/// A parsed source unit: its top-level statements in source order.
#[derive(Debug)]
pub struct Module {
    pub stmts: Vec<Statement>,
}

} // verus!
