use crate::types::{FunctionType, StructType, Type, TypeView};
use vstd::prelude::*;

verus! {

/// An item at the top of a source file.
#[derive(Debug, PartialEq)]
pub enum TopLevel {
    /// Name, signature, parameter names and body.
    FnDecl(String, FunctionType, Vec<String>, Vec<Statement>),
    /// A function defined elsewhere: name and signature only.
    Extern(String, FunctionType),
    StructDecl(StructType),
}

#[derive(Debug, PartialEq)]
pub enum Statement {
    While(Expression, Vec<Statement>),
    If(Expression, Vec<Statement>, Vec<Statement>),
    /// `let name [: T] = init;` with the declared (or to be inferred) type in its cell.
    Assignment(String, Type, Expression),
    Mutate(String, Expression),
    FnCall(FunctionCall),
    Return(Option<Expression>),
}

/// An expression; each `Type` field is a cell that starts out `Unknown` and is
/// filled by the type pass.
#[derive(Debug, PartialEq)]
pub enum Expression {
    BinExpr(BinOp, Box<Expression>, Box<Expression>, Type),
    UnaryExpr(UnOp, Box<Expression>, Type),
    Literal(Literal),
    FnCall(FunctionCall),
    Variable(String, Type),
}

/// A literal. A float keeps its source text; an array literal carries a cell
/// for its element type.
#[derive(Debug, PartialEq)]
pub enum Literal {
    Int(i64),
    Float(String),
    String(String),
    Bool(bool),
    Array(Vec<Expression>, Type),
}

#[derive(Debug, PartialEq)]
pub struct FunctionCall {
    pub name: String,
    pub args: Vec<Expression>,
}

impl FunctionCall {
    pub fn new(name: String, args: Vec<Expression>) -> (r: Self)
        ensures
            r.name == name,
            r.args == args,
    {
        FunctionCall { name, args }
    }
}

#[derive(Debug, Clone, Copy, PartialEq, Eq, Structural)]
pub enum BinOp {
    Add,
    Sub,
    Mul,
    Div,
    Equal,
    NEqual,
    Lesser,
    LEq,
    Greater,
    GEq,
}

#[derive(Debug, Clone, Copy, PartialEq, Eq, Structural)]
pub enum UnOp {
    ArithmeticNeg,
}

impl BinOp {
    /// `+ - * /`: the result has the operands' type.
    pub open spec fn spec_is_arithmetic(self) -> bool {
        self is Add || self is Sub || self is Mul || self is Div
    }

    /// `< <= > >=`: defined on numbers only.
    pub open spec fn spec_is_ordering(self) -> bool {
        self is Lesser || self is LEq || self is Greater || self is GEq
    }

    pub fn is_arithmetic(&self) -> (r: bool)
        ensures
            r == self.spec_is_arithmetic(),
    {
        match self {
            BinOp::Add | BinOp::Sub | BinOp::Mul | BinOp::Div => true,
            _ => false,
        }
    }

    pub fn is_ordering(&self) -> (r: bool)
        ensures
            r == self.spec_is_ordering(),
    {
        match self {
            BinOp::Lesser | BinOp::LEq | BinOp::Greater | BinOp::GEq => true,
            _ => false,
        }
    }
}

/// The mathematical value of an expression.
pub enum ExprV {
    Bin(BinOp, Box<ExprV>, Box<ExprV>, TypeView),
    Unary(UnOp, Box<ExprV>, TypeView),
    Int(i64),
    Float(Seq<char>),
    Str(Seq<char>),
    Bool(bool),
    Array(Seq<ExprV>, TypeView),
    Call(Seq<char>, Seq<ExprV>),
    Var(Seq<char>, TypeView),
}

/// The mathematical value of a statement.
pub enum StmtV {
    While(ExprV, Seq<StmtV>),
    If(ExprV, Seq<StmtV>, Seq<StmtV>),
    Assign(Seq<char>, TypeView, ExprV),
    Mutate(Seq<char>, ExprV),
    Call(Seq<char>, Seq<ExprV>),
    Return(Option<ExprV>),
}

/// The mathematical value of a top-level item.
pub enum TopV {
    FnDecl(Seq<char>, TypeView, Seq<Seq<char>>, Seq<StmtV>),
    Extern(Seq<char>, TypeView),
    Struct,
}

pub open spec fn expr_view(e: Expression) -> ExprV
    decreases e,
{
    match e {
        Expression::BinExpr(op, l, r, t) => ExprV::Bin(op, Box::new(expr_view(*l)), Box::new(expr_view(*r)), t@),
        Expression::UnaryExpr(op, x, t) => ExprV::Unary(op, Box::new(expr_view(*x)), t@),
        Expression::Literal(Literal::Int(i)) => ExprV::Int(i),
        Expression::Literal(Literal::Float(s)) => ExprV::Float(s@),
        Expression::Literal(Literal::String(s)) => ExprV::Str(s@),
        Expression::Literal(Literal::Bool(b)) => ExprV::Bool(b),
        Expression::Literal(Literal::Array(es, t)) => ExprV::Array(exprs_view(es@), t@),
        Expression::FnCall(c) => ExprV::Call(c.name@, exprs_view(c.args@)),
        Expression::Variable(n, t) => ExprV::Var(n@, t@),
    }
}

pub open spec fn exprs_view(s: Seq<Expression>) -> Seq<ExprV>
    decreases s,
{
    if s.len() == 0 {
        seq![]
    } else {
        exprs_view(s.drop_last()).push(expr_view(s.last()))
    }
}

pub open spec fn stmt_view(s: Statement) -> StmtV
    decreases s,
{
    match s {
        Statement::While(c, b) => StmtV::While(expr_view(c), stmts_view(b@)),
        Statement::If(c, a, b) => StmtV::If(expr_view(c), stmts_view(a@), stmts_view(b@)),
        Statement::Assignment(n, t, e) => StmtV::Assign(n@, t@, expr_view(e)),
        Statement::Mutate(n, e) => StmtV::Mutate(n@, expr_view(e)),
        Statement::FnCall(c) => StmtV::Call(c.name@, exprs_view(c.args@)),
        Statement::Return(None) => StmtV::Return(None),
        Statement::Return(Some(e)) => StmtV::Return(Some(expr_view(e))),
    }
}

pub open spec fn stmts_view(s: Seq<Statement>) -> Seq<StmtV>
    decreases s,
{
    if s.len() == 0 {
        seq![]
    } else {
        stmts_view(s.drop_last()).push(stmt_view(s.last()))
    }
}

pub open spec fn names_view(s: Seq<String>) -> Seq<Seq<char>> {
    s.map_values(|n: String| n@)
}

pub open spec fn top_view(t: TopLevel) -> TopV {
    match t {
        TopLevel::FnDecl(n, ft, ps, body) => TopV::FnDecl(n@, ft@, names_view(ps@), stmts_view(body@)),
        TopLevel::Extern(n, ft) => TopV::Extern(n@, ft@),
        TopLevel::StructDecl(_) => TopV::Struct,
    }
}

pub open spec fn tops_view(s: Seq<TopLevel>) -> Seq<TopV> {
    s.map_values(|t: TopLevel| top_view(t))
}

} // verus!
