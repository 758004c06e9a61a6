//! A small message-passing scripting language for a collaborative game:
//! a lexer and parser for node programs, an interpreter that runs every
//! scheduled node once per tick, and an engine that queues world updates
//! and applies them right before the next successful tick.

pub mod text;
pub mod ast;
pub mod strmap;
pub mod lexer;
pub mod parser;
pub mod eval;
pub mod tick;
pub mod engine;
pub mod session;
pub mod api;
pub mod properties;

use vstd::prelude::*;

verus! {

/// A statement of the first, tree-shaped form of the language.
pub enum Op {
    If { cond: Expr, yes: Box<Op>, no: Option<Box<Op>> },
    Send { from: Expr, value: Expr },
    Assign { name: String, value: Expr },
    Exp(Expr),
}

/// A constant of the first form of the language.
#[derive(Clone)]
pub enum Value {
    Bool(bool),
    Str(String),
    Int(i64),
}

/// An expression of the first form of the language; binary operators hold their two
/// operands in order.
pub enum Expr {
    Const(Value),
    Recive { to: Value },
    Var { name: String },
    And(Box<[Expr; 2]>),
    Or(Box<[Expr; 2]>),
    Not(Box<Expr>),
    Equal(Box<[Expr; 2]>),
    NotEqual(Box<[Expr; 2]>),
    LessEqual(Box<[Expr; 2]>),
    Less(Box<[Expr; 2]>),
    Greater(Box<[Expr; 2]>),
    GreaterEqual(Box<[Expr; 2]>),
    Index { base: Box<Expr>, spot: Box<Expr> },
    RangeIndex { base: Box<Expr>, start: Option<Box<Expr>>, end: Option<Box<Expr>> },
    Add(Box<[Expr; 2]>),
    Sub(Box<[Expr; 2]>),
    Mul(Box<[Expr; 2]>),
    Div(Box<[Expr; 2]>),
}

} // verus!
