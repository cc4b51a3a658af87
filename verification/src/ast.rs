use vstd::prelude::*;
use crate::token::{Token, TokenV};

verus! {

/// One node of the expression tree that the parser builds.  A parent node
/// owns its children outright; nodes are never mutated after construction.
#[derive(Debug)]
pub enum Expr {
    /// A number literal, as the IEEE 754 bit pattern of its double value.
    Number(u64),
    /// A string literal, already unescaped by the lexer.
    StringLiteral(String),
    /// A variable reference.
    Variable(String),
    /// A binary operation such as `1 + 2`.
    Binary { left: Box<Expr>, op: Token, right: Box<Expr> },
    /// An assignment such as `x = 10`.
    Assignment { name: String, expr: Box<Expr> },
    /// A block `{ expr1; expr2; }`.
    Block(Vec<Expr>),
    /// An `if` expression with an optional `else` branch.
    If { condition: Box<Expr>, then_branch: Box<Expr>, else_branch: Option<Box<Expr>> },
    /// A `while` loop.
    While { condition: Box<Expr>, body: Box<Expr> },
    /// A function definition; it is parsed into the tree but never invoked.
    FunctionDef { name: String, params: Vec<String>, body: Box<Expr> },
    /// A function call such as `print(x)`.
    FunctionCall { name: String, args: Vec<Expr> },
    /// A `return` statement.
    Return(Box<Expr>),
    /// A `break` statement.
    Break,
    /// A `continue` statement.
    Continue,
}

/// The mathematical image of an `Expr`: text becomes `Seq<char>`, child
/// vectors become `Seq`.
pub enum ExprV {
    Number(u64),
    StringLiteral(Seq<char>),
    Variable(Seq<char>),
    Binary { left: Box<ExprV>, op: TokenV, right: Box<ExprV> },
    Assignment { name: Seq<char>, expr: Box<ExprV> },
    Block(Seq<ExprV>),
    If { condition: Box<ExprV>, then_branch: Box<ExprV>, else_branch: Option<Box<ExprV>> },
    While { condition: Box<ExprV>, body: Box<ExprV> },
    FunctionDef { name: Seq<char>, params: Seq<Seq<char>>, body: Box<ExprV> },
    FunctionCall { name: Seq<char>, args: Seq<ExprV> },
    Return(Box<ExprV>),
    Break,
    Continue,
}

/// The image of an expression tree in `ExprV`.
pub open spec fn expr_view(e: Expr) -> ExprV
    decreases e,
{
    match e {
        Expr::Number(n) => ExprV::Number(n),
        Expr::StringLiteral(s) => ExprV::StringLiteral(s@),
        Expr::Variable(s) => ExprV::Variable(s@),
        Expr::Binary { left, op, right } => ExprV::Binary {
            left: Box::new(expr_view(*left)),
            op: op@,
            right: Box::new(expr_view(*right)),
        },
        Expr::Assignment { name, expr } => ExprV::Assignment {
            name: name@,
            expr: Box::new(expr_view(*expr)),
        },
        Expr::Block(stmts) => ExprV::Block(
            Seq::new(
                stmts@.len(),
                |i: int|
                    if 0 <= i < stmts@.len() {
                        expr_view(stmts@[i])
                    } else {
                        ExprV::Break
                    },
            ),
        ),
        Expr::If { condition, then_branch, else_branch } => ExprV::If {
            condition: Box::new(expr_view(*condition)),
            then_branch: Box::new(expr_view(*then_branch)),
            else_branch: match else_branch {
                Some(e) => Some(Box::new(expr_view(*e))),
                None => None,
            },
        },
        Expr::While { condition, body } => ExprV::While {
            condition: Box::new(expr_view(*condition)),
            body: Box::new(expr_view(*body)),
        },
        Expr::FunctionDef { name, params, body } => ExprV::FunctionDef {
            name: name@,
            params: Seq::new(params@.len(), |i: int| params@[i]@),
            body: Box::new(expr_view(*body)),
        },
        Expr::FunctionCall { name, args } => ExprV::FunctionCall {
            name: name@,
            args: Seq::new(
                args@.len(),
                |i: int|
                    if 0 <= i < args@.len() {
                        expr_view(args@[i])
                    } else {
                        ExprV::Break
                    },
            ),
        },
        Expr::Return(e) => ExprV::Return(Box::new(expr_view(*e))),
        Expr::Break => ExprV::Break,
        Expr::Continue => ExprV::Continue,
    }
}

/// The elementwise image of a statement list.
pub open spec fn exprs_view(s: Seq<Expr>) -> Seq<ExprV> {
    Seq::new(s.len(), |i: int| expr_view(s[i]))
}

impl View for Expr {
    type V = ExprV;

    open spec fn view(&self) -> ExprV {
        expr_view(*self)
    }
}

} // verus!
