//! Source locations, runtime values and the syntax tree of node programs,
//! together with their mathematical views.

use std::ops::Range;
use vstd::prelude::*;

use crate::text::{int_text, push_int, push_str};

verus! {

/// A span of the source: byte offsets and the (1-based, end-exclusive) lines it covers.
#[derive(Debug, PartialEq, Eq, Hash)]
pub struct Loc {
    pub range: Range<usize>,
    pub line_range: Range<usize>,
}

/// Builds a location from its four bounds.
pub open spec fn mk_loc(start: usize, end: usize, line_start: usize, line_end: usize) -> Loc {
    Loc {
        range: Range { start: start, end: end },
        line_range: Range { start: line_start, end: line_end },
    }
}

impl Loc {
    /// Attaches this location to a value.
    pub fn with<T>(self, value: T) -> (r: Located<T>)
        ensures
            r.loc == self,
            r.value == value,
    {
        Located { value, loc: self }
    }

    /// A copy of this location.
    pub fn duplicate(&self) -> (r: Loc)
        ensures
            r == *self,
    {
        Loc {
            range: self.range.start..self.range.end,
            line_range: self.line_range.start..self.line_range.end,
        }
    }
}

/// A value together with the source span it came from.
#[derive(Debug, PartialEq, Eq)]
pub struct Located<T> {
    pub loc: Loc,
    pub value: T,
}

impl<T> Located<T> {
    /// Transforms the value and keeps the location.
    pub fn map<U, F: FnOnce(T) -> U>(self, f: F) -> (r: Located<U>)
        requires
            f.requires((self.value,)),
        ensures
            r.loc == self.loc,
            f.ensures((self.value,), r.value),
    {
        Located { loc: self.loc, value: f(self.value) }
    }
}

pub type LStmt = Located<Stmt>;

pub type LExpr = Located<Expr>;

/// A statement of a node program.
#[derive(Debug, PartialEq, Eq)]
pub enum Stmt {
    Block(Vec<LStmt>),
    If { cond: LExpr, yes: Box<LStmt>, no: Option<Box<LStmt>> },
    Send { value: LExpr, to: LExpr },
    SetColor { value: LExpr },
    Assign { name: String, value: LExpr },
    Expr(LExpr),
}

/// An expression of a node program.
#[derive(Debug, PartialEq, Eq)]
pub enum Expr {
    Const(Value),
    Var(String),
    Len(Box<LExpr>),
    Receive { from: Box<LExpr> },
    Index { base: Box<LExpr>, index: Box<LExpr> },
    Slice { base: Box<LExpr>, start: Option<Box<LExpr>>, end: Option<Box<LExpr>> },
    UnaryNot(Box<LExpr>),
    Binary { op: BinaryOp, left: Box<LExpr>, right: Box<LExpr> },
}

/// The binary operators, from the loosest binding to the tightest.
#[derive(Clone, Copy, Debug, PartialEq, Eq, Structural)]
pub enum BinaryOp {
    Or,
    And,
    Equal,
    NotEqual,
    Less,
    LessEqual,
    Greater,
    GreaterEqual,
    Add,
    Sub,
    Mul,
    Div,
    Mod,
}

/// A runtime value.
#[derive(Debug, Clone, PartialEq, Eq)]
pub enum Value {
    Bool(bool),
    Int(i64),
    Str(String),
    Nil,
}

/// The mathematical view of a runtime value: strings are character sequences.
pub enum SValue {
    Bool(bool),
    Int(i64),
    Str(Seq<char>),
    Nil,
}

impl View for Value {
    type V = SValue;

    open spec fn view(&self) -> SValue {
        match self {
            Value::Bool(b) => SValue::Bool(*b),
            Value::Int(i) => SValue::Int(*i),
            Value::Str(s) => SValue::Str(s@),
            Value::Nil => SValue::Nil,
        }
    }
}

/// How a value is displayed: booleans as `true`/`false`, integers in decimal,
/// strings as themselves and the absent value as `none`.
pub open spec fn display_value(v: SValue) -> Seq<char> {
    match v {
        SValue::Bool(b) => if b {
            seq!['t', 'r', 'u', 'e']
        } else {
            seq!['f', 'a', 'l', 's', 'e']
        },
        SValue::Int(i) => int_text(i as int),
        SValue::Str(s) => s,
        SValue::Nil => seq!['n', 'o', 'n', 'e'],
    }
}

impl Value {
    /// A copy of this value.
    pub fn duplicate(&self) -> (r: Value)
        ensures
            r@ == self@,
    {
        match self {
            Value::Bool(b) => Value::Bool(*b),
            Value::Int(i) => Value::Int(*i),
            Value::Str(s) => Value::Str(s.clone()),
            Value::Nil => Value::Nil,
        }
    }

    /// Whether two values are equal: same variant and same contents.
    pub fn equals(&self, other: &Value) -> (r: bool)
        ensures
            r == (self@ == other@),
    {
        match (self, other) {
            (Value::Bool(a), Value::Bool(b)) => *a == *b,
            (Value::Int(a), Value::Int(b)) => *a == *b,
            (Value::Str(a), Value::Str(b)) => *a == *b,
            (Value::Nil, Value::Nil) => true,
            _ => false,
        }
    }

    /// The text of this value as it is displayed.
    pub fn to_display_string(&self) -> (r: String)
        ensures
            r@ == display_value(self@),
    {
        let mut out = String::new();
        match self {
            Value::Bool(b) => {
                if *b {
                    push_str(&mut out, "true");
                    proof {
                        reveal_strlit("true");
                    }
                } else {
                    push_str(&mut out, "false");
                    proof {
                        reveal_strlit("false");
                    }
                }
            },
            Value::Int(i) => {
                push_int(&mut out, *i);
            },
            Value::Str(s) => {
                push_str(&mut out, s.as_str());
            },
            Value::Nil => {
                push_str(&mut out, "none");
                proof {
                    reveal_strlit("none");
                }
            },
        }
        assert(out@ =~= display_value(self@));
        out
    }
}

// ---------------------------------------------------------------------------
// Views of the syntax tree.
// ---------------------------------------------------------------------------

/// The view of an expression: every string is a character sequence.
pub enum VExpr {
    Const(SValue),
    Var(Seq<char>),
    Len(Box<Located<VExpr>>),
    Receive { from: Box<Located<VExpr>> },
    Index { base: Box<Located<VExpr>>, index: Box<Located<VExpr>> },
    Slice {
        base: Box<Located<VExpr>>,
        start: Option<Box<Located<VExpr>>>,
        end: Option<Box<Located<VExpr>>>,
    },
    UnaryNot(Box<Located<VExpr>>),
    Binary { op: BinaryOp, left: Box<Located<VExpr>>, right: Box<Located<VExpr>> },
}

/// The view of a statement: blocks hold sequences.
pub enum VStmt {
    Block(Seq<Located<VStmt>>),
    If { cond: Located<VExpr>, yes: Box<Located<VStmt>>, no: Option<Box<Located<VStmt>>> },
    Send { value: Located<VExpr>, to: Located<VExpr> },
    SetColor { value: Located<VExpr> },
    Assign { name: Seq<char>, value: Located<VExpr> },
    Expr(Located<VExpr>),
}

pub type VLExpr = Located<VExpr>;

pub type VLStmt = Located<VStmt>;

pub open spec fn view_lexpr(e: LExpr) -> VLExpr
    decreases e,
{
    Located { loc: e.loc, value: view_expr(e.value) }
}

pub open spec fn view_opt_lexpr(e: Option<Box<LExpr>>) -> Option<Box<VLExpr>>
    decreases e,
{
    match e {
        Some(b) => Some(Box::new(view_lexpr(*b))),
        None => None,
    }
}

pub open spec fn view_expr(e: Expr) -> VExpr
    decreases e,
{
    match e {
        Expr::Const(v) => VExpr::Const(v@),
        Expr::Var(n) => VExpr::Var(n@),
        Expr::Len(b) => VExpr::Len(Box::new(view_lexpr(*b))),
        Expr::Receive { from } => VExpr::Receive { from: Box::new(view_lexpr(*from)) },
        Expr::Index { base, index } => VExpr::Index {
            base: Box::new(view_lexpr(*base)),
            index: Box::new(view_lexpr(*index)),
        },
        Expr::Slice { base, start, end } => VExpr::Slice {
            base: Box::new(view_lexpr(*base)),
            start: view_opt_lexpr(start),
            end: view_opt_lexpr(end),
        },
        Expr::UnaryNot(b) => VExpr::UnaryNot(Box::new(view_lexpr(*b))),
        Expr::Binary { op, left, right } => VExpr::Binary {
            op: op,
            left: Box::new(view_lexpr(*left)),
            right: Box::new(view_lexpr(*right)),
        },
    }
}

pub open spec fn view_lstmt(s: LStmt) -> VLStmt
    decreases s,
{
    Located { loc: s.loc, value: view_stmt(s.value) }
}

pub open spec fn view_stmts(v: Seq<LStmt>) -> Seq<VLStmt>
    decreases v,
{
    if v.len() == 0 {
        seq![]
    } else {
        view_stmts(v.subrange(0, v.len() - 1)).push(view_lstmt(v[v.len() - 1]))
    }
}

pub open spec fn view_stmt(s: Stmt) -> VStmt
    decreases s,
{
    match s {
        Stmt::Block(items) => VStmt::Block(view_stmts(items@)),
        Stmt::If { cond, yes, no } => VStmt::If {
            cond: view_lexpr(cond),
            yes: Box::new(view_lstmt(*yes)),
            no: match no {
                Some(b) => Some(Box::new(view_lstmt(*b))),
                None => None,
            },
        },
        Stmt::Send { value, to } => VStmt::Send { value: view_lexpr(value), to: view_lexpr(to) },
        Stmt::SetColor { value } => VStmt::SetColor { value: view_lexpr(value) },
        Stmt::Assign { name, value } => VStmt::Assign { name: name@, value: view_lexpr(value) },
        Stmt::Expr(e) => VStmt::Expr(view_lexpr(e)),
    }
}

impl View for Expr {
    type V = VExpr;

    open spec fn view(&self) -> VExpr {
        view_expr(*self)
    }
}

impl View for Stmt {
    type V = VStmt;

    open spec fn view(&self) -> VStmt {
        view_stmt(*self)
    }
}

/// Every entry of the view of a statement list is the view of the entry.
pub proof fn lemma_view_stmts(v: Seq<LStmt>)
    ensures
        view_stmts(v).len() == v.len(),
        forall|i: int| 0 <= i < v.len() ==> #[trigger] view_stmts(v)[i] == view_lstmt(v[i]),
    decreases v.len(),
{
    if v.len() > 0 {
        lemma_view_stmts(v.subrange(0, v.len() - 1));
    }
}

} // verus!
