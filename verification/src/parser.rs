//! The grammar of node programs, as a recursive-descent parser over tokens.
//!
//! ```text
//! program  := stmt*
//! stmt     := "if" expr block ("else" block)?
//!           | "send" ( "(" expr "," expr ")" | expr "to" expr )
//!           | "set" "(" expr ")"
//!           | ident "=" expr
//!           | expr
//! block    := "{" stmt* "}"
//! expr     := or;  or := and ("||" and)*;  and := cmp ("&&" cmp)*
//! cmp      := add (("=="|"!="|"<"|"<="|">"|">=") add)*
//! add      := mul (("+"|"-") mul)*;  mul := unary (("*"|"/"|"%") unary)*
//! unary    := "!" unary | postfix
//! postfix  := primary ("[" (expr)? (":" (expr)?)? "]")*
//! primary  := int | string | "none" | "true" | "false" | "len" "(" expr ")"
//!           | ("receive"|"recive") ( "(" expr ")" | "from" expr ) | ident | "(" expr ")"
//! ```

use vstd::prelude::*;

use crate::ast::{BinaryOp, Expr, LExpr, LStmt, Loc, Located, SValue, Stmt, VExpr, VLExpr, VLStmt, VStmt, Value, view_lexpr, view_opt_lexpr, view_lstmt, view_stmts, lemma_view_stmts};
use crate::lexer::{SToken, STokKind, Sym, Token, TokenKind, loc_for, loc_of, merge_loc, spec_merge_loc, tokenize, view_tokens, lex, ints_fit};
use crate::text::{push_str, str_eq};
use vstd::string::StringSliceAdditionalSpecFns;

verus! {

// ---------------------------------------------------------------------------
// Errors.
// ---------------------------------------------------------------------------

/// What went wrong while parsing.
#[derive(Debug, PartialEq, Eq)]
pub enum ParseErrorKind {
    Message(String),
    UnexpectedToken,
    UnexpectedEnd,
}

/// A parse error and where it happened.
#[derive(Debug, PartialEq, Eq)]
pub struct ParseError {
    pub loc: Loc,
    pub kind: ParseErrorKind,
}

pub enum SParseErrorKind {
    Message(Seq<char>),
    UnexpectedToken,
    UnexpectedEnd,
}

/// The view of a parse error.
pub struct SParseError {
    pub loc: Loc,
    pub kind: SParseErrorKind,
}

impl View for ParseError {
    type V = SParseError;

    open spec fn view(&self) -> SParseError {
        SParseError {
            loc: self.loc,
            kind: match self.kind {
                ParseErrorKind::Message(m) => SParseErrorKind::Message(m@),
                ParseErrorKind::UnexpectedToken => SParseErrorKind::UnexpectedToken,
                ParseErrorKind::UnexpectedEnd => SParseErrorKind::UnexpectedEnd,
            },
        }
    }
}

pub type PRes<T> = Result<(T, int), SParseError>;

pub open spec fn end_err(eof: Loc) -> SParseError {
    SParseError { loc: eof, kind: SParseErrorKind::UnexpectedEnd }
}

/// The text of a symbol.
pub open spec fn sym_text(s: Sym) -> Seq<char> {
    match s {
        Sym::LBrace => "{"@,
        Sym::RBrace => "}"@,
        Sym::LParen => "("@,
        Sym::RParen => ")"@,
        Sym::LBracket => "["@,
        Sym::RBracket => "]"@,
        Sym::Colon => ":"@,
        Sym::Comma => ","@,
        Sym::Plus => "+"@,
        Sym::Minus => "-"@,
        Sym::Star => "*"@,
        Sym::Slash => "/"@,
        Sym::Percent => "%"@,
        Sym::Less => "<"@,
        Sym::Greater => ">"@,
        Sym::Assign => "="@,
        Sym::Bang => "!"@,
        Sym::EqEq => "=="@,
        Sym::NotEq => "!="@,
        Sym::LessEq => "<="@,
        Sym::GreaterEq => ">="@,
        Sym::AndAnd => "&&"@,
        Sym::OrOr => "||"@,
    }
}

/// The message of an error about a missing symbol or keyword.
pub open spec fn expected_msg(t: Seq<char>) -> Seq<char> {
    "expected `"@ + t + "`"@
}

// ---------------------------------------------------------------------------
// The grammar, as spec functions over token views.
// ---------------------------------------------------------------------------

pub open spec fn tok_is_sym(ts: Seq<SToken>, pos: int, s: Sym) -> bool {
    0 <= pos < ts.len() && ts[pos].kind == STokKind::Symbol(s)
}

pub open spec fn tok_is_ident(ts: Seq<SToken>, pos: int, name: Seq<char>) -> bool {
    0 <= pos < ts.len() && ts[pos].kind == STokKind::Ident(name)
}

pub open spec fn s_expect_sym(ts: Seq<SToken>, eof: Loc, pos: int, s: Sym) -> PRes<Loc> {
    if pos < 0 || pos >= ts.len() {
        Err(end_err(eof))
    } else if ts[pos].kind == STokKind::Symbol(s) {
        Ok((ts[pos].loc, pos + 1))
    } else {
        Err(
            SParseError {
                loc: ts[pos].loc,
                kind: SParseErrorKind::Message(expected_msg(sym_text(s))),
            },
        )
    }
}

pub open spec fn s_expect_ident(ts: Seq<SToken>, eof: Loc, pos: int, name: Seq<char>) -> PRes<()> {
    if pos < 0 || pos >= ts.len() {
        Err(end_err(eof))
    } else if ts[pos].kind == STokKind::Ident(name) {
        Ok(((), pos + 1))
    } else {
        Err(SParseError { loc: ts[pos].loc, kind: SParseErrorKind::Message(expected_msg(name)) })
    }
}

/// The operator of precedence level `level` (1 = `* / %` up to 5 = `||`) that `s` stands for.
pub open spec fn level_op(level: nat, s: Sym) -> Option<BinaryOp> {
    if level == 5 {
        if s == Sym::OrOr {
            Some(BinaryOp::Or)
        } else {
            None
        }
    } else if level == 4 {
        if s == Sym::AndAnd {
            Some(BinaryOp::And)
        } else {
            None
        }
    } else if level == 3 {
        match s {
            Sym::EqEq => Some(BinaryOp::Equal),
            Sym::NotEq => Some(BinaryOp::NotEqual),
            Sym::Less => Some(BinaryOp::Less),
            Sym::LessEq => Some(BinaryOp::LessEqual),
            Sym::Greater => Some(BinaryOp::Greater),
            Sym::GreaterEq => Some(BinaryOp::GreaterEqual),
            _ => None,
        }
    } else if level == 2 {
        match s {
            Sym::Plus => Some(BinaryOp::Add),
            Sym::Minus => Some(BinaryOp::Sub),
            _ => None,
        }
    } else if level == 1 {
        match s {
            Sym::Star => Some(BinaryOp::Mul),
            Sym::Slash => Some(BinaryOp::Div),
            Sym::Percent => Some(BinaryOp::Mod),
            _ => None,
        }
    } else {
        None
    }
}

pub open spec fn op_at(ts: Seq<SToken>, pos: int, level: nat) -> Option<BinaryOp> {
    if 0 <= pos < ts.len() {
        match ts[pos].kind {
            STokKind::Symbol(s) => level_op(level, s),
            _ => None,
        }
    } else {
        None
    }
}

pub open spec fn located<T>(loc: Loc, value: T) -> Located<T> {
    Located { loc: loc, value: value }
}

pub open spec fn s_primary(ts: Seq<SToken>, eof: Loc, pos: int) -> PRes<VLExpr>
    decreases ts.len() - pos, 0nat,
{
    if pos < 0 || pos >= ts.len() {
        Err(end_err(eof))
    } else {
        let tok = ts[pos];
        match tok.kind {
            STokKind::Int(v) => Ok((located(tok.loc, VExpr::Const(SValue::Int(v as i64))), pos + 1)),
            STokKind::Str(s) => Ok((located(tok.loc, VExpr::Const(SValue::Str(s))), pos + 1)),
            STokKind::Ident(name) => {
                if name == "none"@ {
                    Ok((located(tok.loc, VExpr::Const(SValue::Nil)), pos + 1))
                } else if name == "true"@ {
                    Ok((located(tok.loc, VExpr::Const(SValue::Bool(true))), pos + 1))
                } else if name == "false"@ {
                    Ok((located(tok.loc, VExpr::Const(SValue::Bool(false))), pos + 1))
                } else if name == "len"@ {
                    if !tok_is_sym(ts, pos + 1, Sym::LParen) {
                        match s_expect_sym(ts, eof, pos + 1, Sym::LParen) {
                            Err(e) => Err(e),
                            Ok(_) => Err(end_err(eof)),
                        }
                    } else {
                        match s_expr(ts, eof, pos + 2) {
                            Err(e) => Err(e),
                            Ok((inner, p)) => match s_expect_sym(ts, eof, p, Sym::RParen) {
                                Err(e) => Err(e),
                                Ok((close, p2)) => Ok(
                                    (
                                        located(
                                            spec_merge_loc(tok.loc, close),
                                            VExpr::Len(Box::new(inner)),
                                        ),
                                        p2,
                                    ),
                                ),
                            },
                        }
                    }
                } else if name == "receive"@ || name == "recive"@ {
                    if tok_is_sym(ts, pos + 1, Sym::LParen) {
                        match s_expr(ts, eof, pos + 2) {
                            Err(e) => Err(e),
                            Ok((from, p)) => match s_expect_sym(ts, eof, p, Sym::RParen) {
                                Err(e) => Err(e),
                                Ok((close, p2)) => Ok(
                                    (
                                        located(
                                            spec_merge_loc(tok.loc, close),
                                            VExpr::Receive { from: Box::new(from) },
                                        ),
                                        p2,
                                    ),
                                ),
                            },
                        }
                    } else if !tok_is_ident(ts, pos + 1, "from"@) {
                        match s_expect_ident(ts, eof, pos + 1, "from"@) {
                            Err(e) => Err(e),
                            Ok(_) => Err(end_err(eof)),
                        }
                    } else {
                        match s_expr(ts, eof, pos + 2) {
                            Err(e) => Err(e),
                            Ok((from, p)) => Ok(
                                (
                                    located(
                                        spec_merge_loc(tok.loc, from.loc),
                                        VExpr::Receive { from: Box::new(from) },
                                    ),
                                    p,
                                ),
                            ),
                        }
                    }
                } else {
                    Ok((located(tok.loc, VExpr::Var(name)), pos + 1))
                }
            },
            STokKind::Symbol(Sym::LParen) => match s_expr(ts, eof, pos + 1) {
                Err(e) => Err(e),
                Ok((e, p)) => match s_expect_sym(ts, eof, p, Sym::RParen) {
                    Err(err) => Err(err),
                    Ok((_, p2)) => Ok((e, p2)),
                },
            },
            _ => Err(SParseError { loc: tok.loc, kind: SParseErrorKind::UnexpectedToken }),
        }
    }
}

/// The optional upper bound of a slice, starting at `pos`.
pub open spec fn s_slice_end(ts: Seq<SToken>, eof: Loc, pos: int) -> PRes<Option<Box<VLExpr>>>
    decreases ts.len() - pos, 16nat,
{
    if tok_is_sym(ts, pos, Sym::RBracket) {
        Ok((None, pos))
    } else {
        match s_expr(ts, eof, pos) {
            Err(e) => Err(e),
            Ok((x, p)) => Ok((Some(Box::new(x)), p)),
        }
    }
}

/// The postfix operators that follow `e`, starting at `pos`.
pub open spec fn s_postfix_rest(ts: Seq<SToken>, eof: Loc, pos: int, e: VLExpr) -> PRes<VLExpr>
    decreases ts.len() - pos, 1nat,
{
    if !tok_is_sym(ts, pos, Sym::LBracket) {
        Ok((e, pos))
    } else if tok_is_sym(ts, pos + 1, Sym::Colon) {
        match s_slice_end(ts, eof, pos + 2) {
            Err(err) => Err(err),
            Ok((end, p)) => match s_expect_sym(ts, eof, p, Sym::RBracket) {
                Err(err) => Err(err),
                Ok((close, p2)) => if p2 <= pos || p2 > ts.len() {
                    Err(end_err(eof))
                } else {
                    s_postfix_rest(
                        ts,
                        eof,
                        p2,
                        located(
                            spec_merge_loc(e.loc, close),
                            VExpr::Slice { base: Box::new(e), start: None, end: end },
                        ),
                    )
                },
            },
        }
    } else {
        match s_expr(ts, eof, pos + 1) {
            Err(err) => Err(err),
            Ok((first, p)) => if p <= pos || p > ts.len() {
                Err(end_err(eof))
            } else if tok_is_sym(ts, p, Sym::Colon) {
                match s_slice_end(ts, eof, p + 1) {
                    Err(err) => Err(err),
                    Ok((end, p2)) => match s_expect_sym(ts, eof, p2, Sym::RBracket) {
                        Err(err) => Err(err),
                        Ok((close, p3)) => if p3 <= pos || p3 > ts.len() {
                            Err(end_err(eof))
                        } else {
                            s_postfix_rest(
                                ts,
                                eof,
                                p3,
                                located(
                                    spec_merge_loc(e.loc, close),
                                    VExpr::Slice {
                                        base: Box::new(e),
                                        start: Some(Box::new(first)),
                                        end: end,
                                    },
                                ),
                            )
                        },
                    },
                }
            } else {
                match s_expect_sym(ts, eof, p, Sym::RBracket) {
                    Err(err) => Err(err),
                    Ok((close, p2)) => if p2 <= pos || p2 > ts.len() {
                        Err(end_err(eof))
                    } else {
                        s_postfix_rest(
                            ts,
                            eof,
                            p2,
                            located(
                                spec_merge_loc(e.loc, close),
                                VExpr::Index { base: Box::new(e), index: Box::new(first) },
                            ),
                        )
                    },
                }
            },
        }
    }
}

pub open spec fn s_postfix(ts: Seq<SToken>, eof: Loc, pos: int) -> PRes<VLExpr>
    decreases ts.len() - pos, 2nat,
{
    match s_primary(ts, eof, pos) {
        Err(e) => Err(e),
        Ok((e, p)) => if p < pos || p > ts.len() {
            Err(end_err(eof))
        } else {
            s_postfix_rest(ts, eof, p, e)
        },
    }
}

pub open spec fn s_unary(ts: Seq<SToken>, eof: Loc, pos: int) -> PRes<VLExpr>
    decreases ts.len() - pos, 3nat,
{
    if tok_is_sym(ts, pos, Sym::Bang) {
        match s_unary(ts, eof, pos + 1) {
            Err(e) => Err(e),
            Ok((inner, p)) => Ok(
                (
                    located(
                        spec_merge_loc(ts[pos].loc, inner.loc),
                        VExpr::UnaryNot(Box::new(inner)),
                    ),
                    p,
                ),
            ),
        }
    } else {
        s_postfix(ts, eof, pos)
    }
}

/// The operators of level `level` and their right operands that follow `e`, from `pos`.
pub open spec fn s_left_rest(ts: Seq<SToken>, eof: Loc, level: nat, pos: int, e: VLExpr) -> PRes<
    VLExpr,
>
    decreases ts.len() - pos, 2 * level + 3,
{
    match op_at(ts, pos, level) {
        None => Ok((e, pos)),
        Some(op) => {
            let right = if level <= 1 {
                s_unary(ts, eof, pos + 1)
            } else {
                s_left(ts, eof, (level - 1) as nat, pos + 1)
            };
            match right {
                Err(err) => Err(err),
                Ok((r, p)) => if p <= pos || p > ts.len() {
                    Err(end_err(eof))
                } else {
                    s_left_rest(
                        ts,
                        eof,
                        level,
                        p,
                        located(
                            spec_merge_loc(e.loc, r.loc),
                            VExpr::Binary { op: op, left: Box::new(e), right: Box::new(r) },
                        ),
                    )
                },
            }
        },
    }
}

/// A left-associative chain of operators of level `level`.
pub open spec fn s_left(ts: Seq<SToken>, eof: Loc, level: nat, pos: int) -> PRes<VLExpr>
    decreases ts.len() - pos, 2 * level + 4,
{
    let first = if level <= 1 {
        s_unary(ts, eof, pos)
    } else {
        s_left(ts, eof, (level - 1) as nat, pos)
    };
    match first {
        Err(e) => Err(e),
        Ok((e, p)) => if p < pos || p > ts.len() {
            Err(end_err(eof))
        } else {
            s_left_rest(ts, eof, level, p, e)
        },
    }
}

pub open spec fn s_expr(ts: Seq<SToken>, eof: Loc, pos: int) -> PRes<VLExpr>
    decreases ts.len() - pos, 15nat,
{
    s_left(ts, eof, 5, pos)
}

pub open spec fn s_set(ts: Seq<SToken>, eof: Loc, pos: int) -> PRes<VLStmt> {
    if !tok_is_sym(ts, pos + 1, Sym::LParen) {
        match s_expect_sym(ts, eof, pos + 1, Sym::LParen) {
            Err(e) => Err(e),
            Ok(_) => Err(end_err(eof)),
        }
    } else {
        match s_expr(ts, eof, pos + 2) {
            Err(e) => Err(e),
            Ok((value, p)) => match s_expect_sym(ts, eof, p, Sym::RParen) {
                Err(e) => Err(e),
                Ok((close, p2)) => Ok(
                    (
                        located(spec_merge_loc(ts[pos].loc, close), VStmt::SetColor { value: value }),
                        p2,
                    ),
                ),
            },
        }
    }
}

pub open spec fn s_send(ts: Seq<SToken>, eof: Loc, pos: int) -> PRes<VLStmt> {
    let start = ts[pos - 1].loc;
    if tok_is_sym(ts, pos, Sym::LParen) {
        match s_expr(ts, eof, pos + 1) {
            Err(e) => Err(e),
            Ok((value, p)) => if !tok_is_sym(ts, p, Sym::Comma) {
                match s_expect_sym(ts, eof, p, Sym::Comma) {
                    Err(e) => Err(e),
                    Ok(_) => Err(end_err(eof)),
                }
            } else {
                match s_expr(ts, eof, p + 1) {
                    Err(e) => Err(e),
                    Ok((to, p2)) => match s_expect_sym(ts, eof, p2, Sym::RParen) {
                        Err(e) => Err(e),
                        Ok((close, p3)) => Ok(
                            (
                                located(
                                    spec_merge_loc(start, close),
                                    VStmt::Send { value: value, to: to },
                                ),
                                p3,
                            ),
                        ),
                    },
                }
            },
        }
    } else {
        match s_expr(ts, eof, pos) {
            Err(e) => Err(e),
            Ok((value, p)) => if !tok_is_ident(ts, p, "to"@) {
                match s_expect_ident(ts, eof, p, "to"@) {
                    Err(e) => Err(e),
                    Ok(_) => Err(end_err(eof)),
                }
            } else {
                match s_expr(ts, eof, p + 1) {
                    Err(e) => Err(e),
                    Ok((to, p2)) => Ok(
                        (
                            located(
                                spec_merge_loc(start, to.loc),
                                VStmt::Send { value: value, to: to },
                            ),
                            p2,
                        ),
                    ),
                }
            },
        }
    }
}

pub open spec fn s_stmt(ts: Seq<SToken>, eof: Loc, pos: int) -> PRes<VLStmt>
    decreases ts.len() - pos, 20nat,
{
    if tok_is_ident(ts, pos, "if"@) {
        s_if(ts, eof, pos + 1)
    } else if tok_is_ident(ts, pos, "send"@) {
        s_send(ts, eof, pos + 1)
    } else if tok_is_ident(ts, pos, "set"@) {
        s_set(ts, eof, pos)
    } else if 0 <= pos && pos + 1 < ts.len() && ts[pos].kind is Ident && tok_is_sym(
        ts,
        pos + 1,
        Sym::Assign,
    ) {
        match s_expr(ts, eof, pos + 2) {
            Err(e) => Err(e),
            Ok((value, p)) => Ok(
                (
                    located(
                        spec_merge_loc(ts[pos].loc, value.loc),
                        VStmt::Assign { name: ts[pos].kind->Ident_0, value: value },
                    ),
                    p,
                ),
            ),
        }
    } else {
        match s_expr(ts, eof, pos) {
            Err(e) => Err(e),
            Ok((e, p)) => Ok((located(e.loc, VStmt::Expr(e)), p)),
        }
    }
}

pub open spec fn s_if(ts: Seq<SToken>, eof: Loc, pos: int) -> PRes<VLStmt>
    decreases ts.len() - pos, 19nat,
{
    if pos < 1 || pos > ts.len() {
        Err(end_err(eof))
    } else {
        let start = ts[pos - 1].loc;
        match s_expr(ts, eof, pos) {
            Err(e) => Err(e),
            Ok((cond, p)) => if p < pos || p > ts.len() {
                Err(end_err(eof))
            } else {
                match s_block(ts, eof, p) {
                    Err(e) => Err(e),
                    Ok((yes, p2)) => if p2 < p || p2 > ts.len() {
                        Err(end_err(eof))
                    } else if tok_is_ident(ts, p2, "else"@) {
                        match s_block(ts, eof, p2 + 1) {
                            Err(e) => Err(e),
                            Ok((no, p3)) => Ok(
                                (
                                    located(
                                        spec_merge_loc(start, no.loc),
                                        VStmt::If {
                                            cond: cond,
                                            yes: Box::new(yes),
                                            no: Some(Box::new(no)),
                                        },
                                    ),
                                    p3,
                                ),
                            ),
                        }
                    } else {
                        Ok(
                            (
                                located(
                                    spec_merge_loc(start, yes.loc),
                                    VStmt::If { cond: cond, yes: Box::new(yes), no: None },
                                ),
                                p2,
                            ),
                        )
                    },
                }
            },
        }
    }
}

/// The statements of a block that started at `start`, from `pos` up to the closing brace.
pub open spec fn s_block_items(
    ts: Seq<SToken>,
    eof: Loc,
    pos: int,
    start: Loc,
    acc: Seq<VLStmt>,
) -> PRes<Seq<VLStmt>>
    decreases ts.len() - pos, 21nat,
{
    if tok_is_sym(ts, pos, Sym::RBrace) {
        Ok((acc, pos))
    } else if pos < 0 || pos >= ts.len() {
        Err(SParseError { loc: start, kind: SParseErrorKind::UnexpectedEnd })
    } else {
        match s_stmt(ts, eof, pos) {
            Err(e) => Err(e),
            Ok((s, p)) => if p <= pos || p > ts.len() {
                Err(end_err(eof))
            } else {
                s_block_items(ts, eof, p, start, acc.push(s))
            },
        }
    }
}

pub open spec fn s_block(ts: Seq<SToken>, eof: Loc, pos: int) -> PRes<VLStmt>
    decreases ts.len() - pos, 18nat,
{
    match s_expect_sym(ts, eof, pos, Sym::LBrace) {
        Err(e) => Err(e),
        Ok((start, p)) => match s_block_items(ts, eof, p, start, seq![]) {
            Err(e) => Err(e),
            Ok((items, p2)) => match s_expect_sym(ts, eof, p2, Sym::RBrace) {
                Err(e) => Err(e),
                Ok((end, p3)) => Ok((located(spec_merge_loc(start, end), VStmt::Block(items)), p3)),
            },
        },
    }
}

/// The statements of a whole program, from `pos` to the end.
pub open spec fn s_program_items(ts: Seq<SToken>, eof: Loc, pos: int, acc: Seq<VLStmt>) -> Result<
    Seq<VLStmt>,
    SParseError,
>
    decreases ts.len() - pos,
{
    if pos < 0 || pos >= ts.len() {
        Ok(acc)
    } else {
        match s_stmt(ts, eof, pos) {
            Err(e) => Err(e),
            Ok((s, p)) => if p <= pos || p > ts.len() {
                Err(end_err(eof))
            } else {
                s_program_items(ts, eof, p, acc.push(s))
            },
        }
    }
}

/// A whole program: a block of all its statements, spanning from the first token
/// (or `empty` when there is none) to the end of the last statement.
pub open spec fn s_program(ts: Seq<SToken>, eof: Loc, empty: Loc) -> Result<VLStmt, SParseError> {
    let start = if ts.len() > 0 {
        ts[0].loc
    } else {
        empty
    };
    match s_program_items(ts, eof, 0, seq![]) {
        Err(e) => Err(e),
        Ok(stmts) => {
            let end = if stmts.len() > 0 {
                stmts[stmts.len() - 1].loc
            } else {
                start
            };
            Ok(located(spec_merge_loc(start, end), VStmt::Block(stmts)))
        },
    }
}


// ---------------------------------------------------------------------------
// The executable parser.
// ---------------------------------------------------------------------------

pub open spec fn expr_result(r: Result<LExpr, ParseError>, spec: PRes<VLExpr>, start: int, end: int) -> bool {
    match r {
        Ok(e) => spec == Ok::<(VLExpr, int), SParseError>((view_lexpr(e), end)) && start < end,
        Err(err) => spec == Err::<(VLExpr, int), SParseError>(err@),
    }
}

pub open spec fn stmt_result(r: Result<LStmt, ParseError>, spec: PRes<VLStmt>, start: int, end: int) -> bool {
    match r {
        Ok(s) => spec == Ok::<(VLStmt, int), SParseError>((view_lstmt(s), end)) && start < end,
        Err(err) => spec == Err::<(VLStmt, int), SParseError>(err@),
    }
}

/// A cursor over the tokens of one source.
pub struct Parser {
    tokens: Vec<Token>,
    cursor: usize,
    eof: Loc,
}

fn sym_str(s: Sym) -> (r: &'static str)
    ensures
        r@ == sym_text(s),
{
    match s {
        Sym::LBrace => "{",
        Sym::RBrace => "}",
        Sym::LParen => "(",
        Sym::RParen => ")",
        Sym::LBracket => "[",
        Sym::RBracket => "]",
        Sym::Colon => ":",
        Sym::Comma => ",",
        Sym::Plus => "+",
        Sym::Minus => "-",
        Sym::Star => "*",
        Sym::Slash => "/",
        Sym::Percent => "%",
        Sym::Less => "<",
        Sym::Greater => ">",
        Sym::Assign => "=",
        Sym::Bang => "!",
        Sym::EqEq => "==",
        Sym::NotEq => "!=",
        Sym::LessEq => "<=",
        Sym::GreaterEq => ">=",
        Sym::AndAnd => "&&",
        Sym::OrOr => "||",
    }
}

fn expected_message(text: &str) -> (r: String)
    ensures
        r@ == expected_msg(text@),
{
    let mut m = String::new();
    push_str(&mut m, "expected `");
    push_str(&mut m, text);
    push_str(&mut m, "`");
    m
}

/// The operator of precedence level `level` that the symbol stands for.
fn map_binary_op(level: u8, s: Sym) -> (r: Option<BinaryOp>)
    ensures
        r == level_op(level as nat, s),
{
    if level == 5 {
        if s == Sym::OrOr {
            Some(BinaryOp::Or)
        } else {
            None
        }
    } else if level == 4 {
        if s == Sym::AndAnd {
            Some(BinaryOp::And)
        } else {
            None
        }
    } else if level == 3 {
        match s {
            Sym::EqEq => Some(BinaryOp::Equal),
            Sym::NotEq => Some(BinaryOp::NotEqual),
            Sym::Less => Some(BinaryOp::Less),
            Sym::LessEq => Some(BinaryOp::LessEqual),
            Sym::Greater => Some(BinaryOp::Greater),
            Sym::GreaterEq => Some(BinaryOp::GreaterEqual),
            _ => None,
        }
    } else if level == 2 {
        match s {
            Sym::Plus => Some(BinaryOp::Add),
            Sym::Minus => Some(BinaryOp::Sub),
            _ => None,
        }
    } else if level == 1 {
        match s {
            Sym::Star => Some(BinaryOp::Mul),
            Sym::Slash => Some(BinaryOp::Div),
            Sym::Percent => Some(BinaryOp::Mod),
            _ => None,
        }
    } else {
        None
    }
}

impl Parser {
    pub closed spec fn ts(self) -> Seq<SToken> {
        view_tokens(self.tokens@)
    }

    pub closed spec fn pos(self) -> int {
        self.cursor as int
    }

    pub closed spec fn wf(self) -> bool {
        self.cursor <= self.tokens@.len()
    }

    /// The parser moved on over the same tokens.
    pub closed spec fn same_input(self, other: Parser) -> bool {
        &&& self.tokens == other.tokens
        &&& self.eof == other.eof
        &&& other.cursor <= other.tokens@.len()
    }

    fn is_done(&self) -> (r: bool)
        ensures
            r == (self.cursor >= self.tokens@.len()),
    {
        self.cursor >= self.tokens.len()
    }

    fn peek_symbol(&self, s: Sym) -> (r: bool)
        ensures
            r == tok_is_sym(self.ts(), self.cursor as int, s),
    {
        if self.cursor < self.tokens.len() {
            match &self.tokens[self.cursor].kind {
                TokenKind::Symbol(t) => *t == s,
                _ => false,
            }
        } else {
            false
        }
    }

    fn match_symbol(&mut self, s: Sym) -> (r: bool)
        requires
            old(self).wf(),
        ensures
            old(self).same_input(*final(self)),
            r == tok_is_sym(old(self).ts(), old(self).cursor as int, s),
            final(self).cursor == if r {
                old(self).cursor + 1
            } else {
                old(self).cursor as int
            },
    {
        if self.peek_symbol(s) {
            let n = self.tokens.len();
            assert(self.ts().len() == n);
            self.cursor = self.cursor + 1;
            true
        } else {
            false
        }
    }

    fn peek_ident(&self, name: &str) -> (r: bool)
        ensures
            r == tok_is_ident(self.ts(), self.cursor as int, name@),
    {
        if self.cursor < self.tokens.len() {
            match &self.tokens[self.cursor].kind {
                TokenKind::Ident(t) => str_eq(t.as_str(), name),
                _ => false,
            }
        } else {
            false
        }
    }

    fn match_ident(&mut self, name: &str) -> (r: bool)
        requires
            old(self).wf(),
        ensures
            old(self).same_input(*final(self)),
            r == tok_is_ident(old(self).ts(), old(self).cursor as int, name@),
            final(self).cursor == if r {
                old(self).cursor + 1
            } else {
                old(self).cursor as int
            },
    {
        if self.peek_ident(name) {
            let n = self.tokens.len();
            assert(self.ts().len() == n);
            self.cursor = self.cursor + 1;
            true
        } else {
            false
        }
    }

    /// The location of the token just before the cursor.
    fn previous(&self) -> (r: Loc)
        requires
            0 < self.cursor <= self.tokens@.len(),
        ensures
            r == self.ts()[self.cursor - 1].loc,
    {
        self.tokens[self.cursor - 1].loc.duplicate()
    }

    /// Consumes the next token when it is an operator of precedence level `level`.
    fn match_any_symbol(&mut self, level: u8) -> (r: Option<BinaryOp>)
        requires
            old(self).wf(),
        ensures
            old(self).same_input(*final(self)),
            r == op_at(old(self).ts(), old(self).cursor as int, level as nat),
            final(self).cursor == if r is Some {
                old(self).cursor + 1
            } else {
                old(self).cursor as int
            },
    {
        if self.cursor < self.tokens.len() {
            match &self.tokens[self.cursor].kind {
                TokenKind::Symbol(t) => {
                    let op = map_binary_op(level, *t);
                    if op.is_some() {
                        self.cursor = self.cursor + 1;
                    }
                    op
                },
                _ => None,
            }
        } else {
            None
        }
    }

    fn expect_symbol(&mut self, s: Sym) -> (r: Result<Loc, ParseError>)
        requires
            old(self).wf(),
        ensures
            old(self).same_input(*final(self)),
            match r {
                Ok(l) => s_expect_sym(old(self).ts(), old(self).eof, old(self).cursor as int, s)
                    == Ok::<(Loc, int), SParseError>((l, final(self).cursor as int)),
                Err(e) => s_expect_sym(old(self).ts(), old(self).eof, old(self).cursor as int, s)
                    == Err::<(Loc, int), SParseError>(e@),
            },
    {
        if self.cursor >= self.tokens.len() {
            return Err(ParseError { loc: self.eof.duplicate(), kind: ParseErrorKind::UnexpectedEnd });
        }
        let i = self.cursor;
        self.cursor = self.cursor + 1;
        match &self.tokens[i].kind {
            TokenKind::Symbol(t) => {
                if *t == s {
                    return Ok(self.tokens[i].loc.duplicate());
                }
            },
            _ => {},
        }
        Err(
            ParseError {
                loc: self.tokens[i].loc.duplicate(),
                kind: ParseErrorKind::Message(expected_message(sym_str(s))),
            },
        )
    }

    fn expect_ident(&mut self, name: &str) -> (r: Result<(), ParseError>)
        requires
            old(self).wf(),
        ensures
            old(self).same_input(*final(self)),
            match r {
                Ok(_) => s_expect_ident(old(self).ts(), old(self).eof, old(self).cursor as int, name@)
                    == Ok::<((), int), SParseError>(((), final(self).cursor as int)),
                Err(e) => s_expect_ident(old(self).ts(), old(self).eof, old(self).cursor as int, name@)
                    == Err::<((), int), SParseError>(e@),
            },
    {
        if self.cursor >= self.tokens.len() {
            return Err(ParseError { loc: self.eof.duplicate(), kind: ParseErrorKind::UnexpectedEnd });
        }
        let i = self.cursor;
        self.cursor = self.cursor + 1;
        match &self.tokens[i].kind {
            TokenKind::Ident(t) => {
                if str_eq(t.as_str(), name) {
                    return Ok(());
                }
            },
            _ => {},
        }
        Err(
            ParseError {
                loc: self.tokens[i].loc.duplicate(),
                kind: ParseErrorKind::Message(expected_message(name)),
            },
        )
    }

    /// The name of an assignment that starts at the cursor (`name =`), if any.
    fn peek_assign_name(&self) -> (r: Option<String>)
        requires
            self.wf(),
        ensures
            match r {
                Some(n) => self.cursor + 1 < self.tokens@.len() && self.ts()[self.cursor as int].kind
                    == STokKind::Ident(n@) && tok_is_sym(self.ts(), self.cursor + 1, Sym::Assign),
                None => !(self.cursor + 1 < self.tokens@.len() && self.ts()[self.cursor as int].kind is Ident
                    && tok_is_sym(self.ts(), self.cursor + 1, Sym::Assign)),
            },
    {
        if self.cursor >= self.tokens.len() || self.tokens.len() - self.cursor < 2 {
            return None;
        }
        match (&self.tokens[self.cursor].kind, &self.tokens[self.cursor + 1].kind) {
            (TokenKind::Ident(name), TokenKind::Symbol(Sym::Assign)) => Some(name.clone()),
            _ => None,
        }
    }
}


impl Parser {
    fn parse_primary(&mut self) -> (r: Result<LExpr, ParseError>)
        requires
            old(self).wf(),
        ensures
            old(self).same_input(*final(self)),
            expr_result(
                r,
                s_primary(old(self).ts(), old(self).eof, old(self).cursor as int),
                old(self).cursor as int,
                final(self).cursor as int,
            ),
        decreases old(self).tokens@.len() - old(self).cursor, 0nat,
    {
        if self.cursor >= self.tokens.len() {
            return Err(ParseError { loc: self.eof.duplicate(), kind: ParseErrorKind::UnexpectedEnd });
        }
        let token = self.tokens[self.cursor].duplicate();
        self.cursor = self.cursor + 1;
        let Token { kind, loc } = token;
        match kind {
            TokenKind::Int(v) => Ok(Located { loc, value: Expr::Const(Value::Int(v)) }),
            TokenKind::Str(text) => Ok(Located { loc, value: Expr::Const(Value::Str(text)) }),
            TokenKind::Ident(name) => {
                if str_eq(name.as_str(), "none") {
                    Ok(Located { loc, value: Expr::Const(Value::Nil) })
                } else if str_eq(name.as_str(), "true") {
                    Ok(Located { loc, value: Expr::Const(Value::Bool(true)) })
                } else if str_eq(name.as_str(), "false") {
                    Ok(Located { loc, value: Expr::Const(Value::Bool(false)) })
                } else if str_eq(name.as_str(), "len") {
                    match self.expect_symbol(Sym::LParen) {
                        Err(e) => return Err(e),
                        Ok(_) => {},
                    }
                    let inner = match self.parse_expr() {
                        Err(e) => return Err(e),
                        Ok(x) => x,
                    };
                    let close = match self.expect_symbol(Sym::RParen) {
                        Err(e) => return Err(e),
                        Ok(l) => l,
                    };
                    Ok(Located { loc: merge_loc(&loc, &close), value: Expr::Len(Box::new(inner)) })
                } else if str_eq(name.as_str(), "receive") || str_eq(name.as_str(), "recive") {
                    if self.match_symbol(Sym::LParen) {
                        let from = match self.parse_expr() {
                            Err(e) => return Err(e),
                            Ok(x) => x,
                        };
                        let close = match self.expect_symbol(Sym::RParen) {
                            Err(e) => return Err(e),
                            Ok(l) => l,
                        };
                        Ok(
                            Located {
                                loc: merge_loc(&loc, &close),
                                value: Expr::Receive { from: Box::new(from) },
                            },
                        )
                    } else {
                        match self.expect_ident("from") {
                            Err(e) => return Err(e),
                            Ok(_) => {},
                        }
                        let from = match self.parse_expr() {
                            Err(e) => return Err(e),
                            Ok(x) => x,
                        };
                        let end = from.loc.duplicate();
                        Ok(
                            Located {
                                loc: merge_loc(&loc, &end),
                                value: Expr::Receive { from: Box::new(from) },
                            },
                        )
                    }
                } else {
                    Ok(Located { loc, value: Expr::Var(name) })
                }
            },
            TokenKind::Symbol(Sym::LParen) => {
                let e = match self.parse_expr() {
                    Err(e) => return Err(e),
                    Ok(x) => x,
                };
                match self.expect_symbol(Sym::RParen) {
                    Err(err) => return Err(err),
                    Ok(_) => {},
                }
                Ok(e)
            },
            _ => Err(ParseError { loc, kind: ParseErrorKind::UnexpectedToken }),
        }
    }

    /// The optional upper bound of a slice, up to the closing bracket.
    fn parse_slice_end(&mut self) -> (r: Result<Option<Box<LExpr>>, ParseError>)
        requires
            old(self).wf(),
        ensures
            old(self).same_input(*final(self)),
            match r {
                Ok(x) => s_slice_end(old(self).ts(), old(self).eof, old(self).cursor as int) == Ok::<
                    (Option<Box<VLExpr>>, int),
                    SParseError,
                >((view_opt_lexpr(x), final(self).cursor as int)) && old(self).cursor
                    <= final(self).cursor,
                Err(e) => s_slice_end(old(self).ts(), old(self).eof, old(self).cursor as int)
                    == Err::<(Option<Box<VLExpr>>, int), SParseError>(e@),
            },
        decreases old(self).tokens@.len() - old(self).cursor, 22nat,
    {
        if self.peek_symbol(Sym::RBracket) {
            Ok(None)
        } else {
            match self.parse_expr() {
                Err(e) => Err(e),
                Ok(x) => Ok(Some(Box::new(x))),
            }
        }
    }

    /// One `[...]` suffix (index or slice) applied to `expr`; the cursor is on the `[`.
    fn parse_index_suffix(&mut self, expr: LExpr) -> (r: Result<LExpr, ParseError>)
        requires
            old(self).wf(),
            tok_is_sym(old(self).ts(), old(self).cursor as int, Sym::LBracket),
        ensures
            old(self).same_input(*final(self)),
            match r {
                Ok(x) => s_postfix_rest(old(self).ts(), old(self).eof, old(self).cursor as int, view_lexpr(expr))
                    == s_postfix_rest(old(self).ts(), old(self).eof, final(self).cursor as int, view_lexpr(x))
                    && old(self).cursor < final(self).cursor,
                Err(e) => s_postfix_rest(old(self).ts(), old(self).eof, old(self).cursor as int, view_lexpr(expr))
                    == Err::<(VLExpr, int), SParseError>(e@),
            },
        decreases old(self).tokens@.len() - old(self).cursor, 1nat,
    {
        let ghost ts = self.ts();
        let ghost eof = self.eof;
        let ghost p0 = self.cursor as int;
        let ghost e0 = view_lexpr(expr);
        let n = self.tokens.len();
        self.cursor = self.cursor + 1;
        if self.match_symbol(Sym::Colon) {
            let end = match self.parse_slice_end() {
                Err(e) => return Err(e),
                Ok(x) => x,
            };
            let close = match self.expect_symbol(Sym::RBracket) {
                Err(e) => return Err(e),
                Ok(l) => l,
            };
            let loc = merge_loc(&expr.loc, &close);
            let r = Located { loc, value: Expr::Slice { base: Box::new(expr), start: None, end } };
            assert(view_opt_lexpr(None) == None::<Box<VLExpr>>);
            assert(view_lexpr(r) == located(spec_merge_loc(e0.loc, close), VExpr::Slice { base: Box::new(e0), start: None, end: view_opt_lexpr(end) }));
            assert(s_slice_end(ts, eof, p0 + 2) == Ok::<(Option<Box<VLExpr>>, int), SParseError>((view_opt_lexpr(end), self.cursor - 1)));
            assert(s_postfix_rest(ts, eof, p0, e0) == s_postfix_rest(ts, eof, self.cursor as int, view_lexpr(r)));
            Ok(r)
        } else {
            let first = match self.parse_expr() {
                Err(e) => return Err(e),
                Ok(x) => x,
            };
            if self.match_symbol(Sym::Colon) {
                let end = match self.parse_slice_end() {
                    Err(e) => return Err(e),
                    Ok(x) => x,
                };
                let close = match self.expect_symbol(Sym::RBracket) {
                    Err(e) => return Err(e),
                    Ok(l) => l,
                };
                let loc = merge_loc(&expr.loc, &close);
                let r = Located {
                    loc,
                    value: Expr::Slice { base: Box::new(expr), start: Some(Box::new(first)), end },
                };
                assert(view_opt_lexpr(Some(Box::new(first))) == Some(Box::new(view_lexpr(first))));
                assert(s_postfix_rest(ts, eof, p0, e0) == s_postfix_rest(ts, eof, self.cursor as int, view_lexpr(r)));
                Ok(r)
            } else {
                let close = match self.expect_symbol(Sym::RBracket) {
                    Err(e) => return Err(e),
                    Ok(l) => l,
                };
                let loc = merge_loc(&expr.loc, &close);
                let r = Located { loc, value: Expr::Index { base: Box::new(expr), index: Box::new(first) } };
                assert(s_postfix_rest(ts, eof, p0, e0) == s_postfix_rest(ts, eof, self.cursor as int, view_lexpr(r)));
                Ok(r)
            }
        }
    }

    fn parse_postfix(&mut self) -> (r: Result<LExpr, ParseError>)
        requires
            old(self).wf(),
        ensures
            old(self).same_input(*final(self)),
            expr_result(
                r,
                s_postfix(old(self).ts(), old(self).eof, old(self).cursor as int),
                old(self).cursor as int,
                final(self).cursor as int,
            ),
        decreases old(self).tokens@.len() - old(self).cursor, 2nat,
    {
        let ghost ts = self.ts();
        let ghost eof = self.eof;
        let ghost c0 = self.cursor as int;
        let mut expr = match self.parse_primary() {
            Err(e) => return Err(e),
            Ok(x) => x,
        };
        while self.peek_symbol(Sym::LBracket)
            invariant
                old(self).same_input(*self),
                ts == self.ts(),
                eof == self.eof,
                c0 < self.cursor,
                c0 == old(self).cursor,
                s_postfix(ts, eof, c0) == s_postfix_rest(ts, eof, self.cursor as int, view_lexpr(expr)),
            decreases self.tokens@.len() - self.cursor,
        {
            expr = match self.parse_index_suffix(expr) {
                Err(e) => return Err(e),
                Ok(x) => x,
            };
        }
        Ok(expr)
    }

    fn parse_unary(&mut self) -> (r: Result<LExpr, ParseError>)
        requires
            old(self).wf(),
        ensures
            old(self).same_input(*final(self)),
            expr_result(
                r,
                s_unary(old(self).ts(), old(self).eof, old(self).cursor as int),
                old(self).cursor as int,
                final(self).cursor as int,
            ),
        decreases old(self).tokens@.len() - old(self).cursor, 3nat,
    {
        if self.match_symbol(Sym::Bang) {
            let start = self.previous();
            let inner = match self.parse_unary() {
                Err(e) => return Err(e),
                Ok(x) => x,
            };
            let loc = merge_loc(&start, &inner.loc);
            return Ok(Located { loc, value: Expr::UnaryNot(Box::new(inner)) });
        }
        self.parse_postfix()
    }

    /// The operand of an operator of precedence level `level`.
    fn parse_operand(&mut self, level: u8) -> (r: Result<LExpr, ParseError>)
        requires
            old(self).wf(),
            1 <= level <= 5,
        ensures
            old(self).same_input(*final(self)),
            expr_result(
                r,
                if level <= 1 {
                    s_unary(old(self).ts(), old(self).eof, old(self).cursor as int)
                } else {
                    s_left(old(self).ts(), old(self).eof, (level - 1) as nat, old(self).cursor as int)
                },
                old(self).cursor as int,
                final(self).cursor as int,
            ),
        decreases old(self).tokens@.len() - old(self).cursor, 3 * level + 3,
    {
        if level == 1 {
            self.parse_unary()
        } else if level == 2 {
            self.parse_mul()
        } else if level == 3 {
            self.parse_add()
        } else if level == 4 {
            self.parse_compare()
        } else {
            self.parse_and()
        }
    }

    /// A left-associative chain of operators of precedence level `level`.
    fn parse_left_assoc(&mut self, level: u8) -> (r: Result<LExpr, ParseError>)
        requires
            old(self).wf(),
            1 <= level <= 5,
        ensures
            old(self).same_input(*final(self)),
            expr_result(
                r,
                s_left(old(self).ts(), old(self).eof, level as nat, old(self).cursor as int),
                old(self).cursor as int,
                final(self).cursor as int,
            ),
        decreases old(self).tokens@.len() - old(self).cursor, 3 * level + 4,
    {
        let ghost ts = self.ts();
        let ghost eof = self.eof;
        let ghost c0 = self.cursor as int;
        let mut expr = match self.parse_operand(level) {
            Err(e) => return Err(e),
            Ok(x) => x,
        };
        loop
            invariant
                old(self).same_input(*self),
                ts == self.ts(),
                eof == self.eof,
                c0 < self.cursor,
                c0 == old(self).cursor,
                1 <= level <= 5,
                s_left(ts, eof, level as nat, c0) == s_left_rest(
                    ts,
                    eof,
                    level as nat,
                    self.cursor as int,
                    view_lexpr(expr),
                ),
            decreases self.tokens@.len() - self.cursor,
        {
            let op = match self.match_any_symbol(level) {
                None => return Ok(expr),
                Some(op) => op,
            };
            let right = match self.parse_operand(level) {
                Err(e) => return Err(e),
                Ok(x) => x,
            };
            let loc = merge_loc(&expr.loc, &right.loc);
            expr = Located { loc, value: Expr::Binary { op, left: Box::new(expr), right: Box::new(right) } };
        }
    }

    fn parse_mul(&mut self) -> (r: Result<LExpr, ParseError>)
        requires
            old(self).wf(),
        ensures
            old(self).same_input(*final(self)),
            expr_result(
                r,
                s_left(old(self).ts(), old(self).eof, 1, old(self).cursor as int),
                old(self).cursor as int,
                final(self).cursor as int,
            ),
        decreases old(self).tokens@.len() - old(self).cursor, 8nat,
    {
        self.parse_left_assoc(1)
    }

    fn parse_add(&mut self) -> (r: Result<LExpr, ParseError>)
        requires
            old(self).wf(),
        ensures
            old(self).same_input(*final(self)),
            expr_result(
                r,
                s_left(old(self).ts(), old(self).eof, 2, old(self).cursor as int),
                old(self).cursor as int,
                final(self).cursor as int,
            ),
        decreases old(self).tokens@.len() - old(self).cursor, 11nat,
    {
        self.parse_left_assoc(2)
    }

    fn parse_compare(&mut self) -> (r: Result<LExpr, ParseError>)
        requires
            old(self).wf(),
        ensures
            old(self).same_input(*final(self)),
            expr_result(
                r,
                s_left(old(self).ts(), old(self).eof, 3, old(self).cursor as int),
                old(self).cursor as int,
                final(self).cursor as int,
            ),
        decreases old(self).tokens@.len() - old(self).cursor, 14nat,
    {
        self.parse_left_assoc(3)
    }

    fn parse_and(&mut self) -> (r: Result<LExpr, ParseError>)
        requires
            old(self).wf(),
        ensures
            old(self).same_input(*final(self)),
            expr_result(
                r,
                s_left(old(self).ts(), old(self).eof, 4, old(self).cursor as int),
                old(self).cursor as int,
                final(self).cursor as int,
            ),
        decreases old(self).tokens@.len() - old(self).cursor, 17nat,
    {
        self.parse_left_assoc(4)
    }

    fn parse_or(&mut self) -> (r: Result<LExpr, ParseError>)
        requires
            old(self).wf(),
        ensures
            old(self).same_input(*final(self)),
            expr_result(
                r,
                s_left(old(self).ts(), old(self).eof, 5, old(self).cursor as int),
                old(self).cursor as int,
                final(self).cursor as int,
            ),
        decreases old(self).tokens@.len() - old(self).cursor, 20nat,
    {
        self.parse_left_assoc(5)
    }

    fn parse_expr(&mut self) -> (r: Result<LExpr, ParseError>)
        requires
            old(self).wf(),
        ensures
            old(self).same_input(*final(self)),
            expr_result(
                r,
                s_expr(old(self).ts(), old(self).eof, old(self).cursor as int),
                old(self).cursor as int,
                final(self).cursor as int,
            ),
        decreases old(self).tokens@.len() - old(self).cursor, 21nat,
    {
        self.parse_or()
    }
}


impl Parser {
    fn parse_set(&mut self) -> (r: Result<LStmt, ParseError>)
        requires
            old(self).wf(),
            old(self).cursor < old(self).tokens@.len(),
        ensures
            old(self).same_input(*final(self)),
            stmt_result(
                r,
                s_set(old(self).ts(), old(self).eof, old(self).cursor as int),
                old(self).cursor as int,
                final(self).cursor as int,
            ),
        decreases old(self).tokens@.len() - old(self).cursor, 25nat,
    {
        let n = self.tokens.len();
        let start = self.tokens[self.cursor].loc.duplicate();
        self.cursor = self.cursor + 1;
        match self.expect_symbol(Sym::LParen) {
            Err(e) => return Err(e),
            Ok(_) => {},
        }
        let value = match self.parse_expr() {
            Err(e) => return Err(e),
            Ok(x) => x,
        };
        let end = match self.expect_symbol(Sym::RParen) {
            Err(e) => return Err(e),
            Ok(l) => l,
        };
        Ok(Located { loc: merge_loc(&start, &end), value: Stmt::SetColor { value } })
    }

    fn parse_send(&mut self) -> (r: Result<LStmt, ParseError>)
        requires
            old(self).wf(),
            0 < old(self).cursor,
        ensures
            old(self).same_input(*final(self)),
            stmt_result(
                r,
                s_send(old(self).ts(), old(self).eof, old(self).cursor as int),
                old(self).cursor as int,
                final(self).cursor as int,
            ),
        decreases old(self).tokens@.len() - old(self).cursor, 25nat,
    {
        let start = self.previous();
        if self.match_symbol(Sym::LParen) {
            let value = match self.parse_expr() {
                Err(e) => return Err(e),
                Ok(x) => x,
            };
            match self.expect_symbol(Sym::Comma) {
                Err(e) => return Err(e),
                Ok(_) => {},
            }
            let to = match self.parse_expr() {
                Err(e) => return Err(e),
                Ok(x) => x,
            };
            let end = match self.expect_symbol(Sym::RParen) {
                Err(e) => return Err(e),
                Ok(l) => l,
            };
            Ok(Located { loc: merge_loc(&start, &end), value: Stmt::Send { value, to } })
        } else {
            let value = match self.parse_expr() {
                Err(e) => return Err(e),
                Ok(x) => x,
            };
            match self.expect_ident("to") {
                Err(e) => return Err(e),
                Ok(_) => {},
            }
            let to = match self.parse_expr() {
                Err(e) => return Err(e),
                Ok(x) => x,
            };
            let end = to.loc.duplicate();
            Ok(Located { loc: merge_loc(&start, &end), value: Stmt::Send { value, to } })
        }
    }

    fn parse_if(&mut self) -> (r: Result<LStmt, ParseError>)
        requires
            old(self).wf(),
            0 < old(self).cursor,
        ensures
            old(self).same_input(*final(self)),
            stmt_result(
                r,
                s_if(old(self).ts(), old(self).eof, old(self).cursor as int),
                old(self).cursor as int,
                final(self).cursor as int,
            ),
        decreases old(self).tokens@.len() - old(self).cursor, 29nat,
    {
        let start = self.previous();
        let cond = match self.parse_expr() {
            Err(e) => return Err(e),
            Ok(x) => x,
        };
        let yes = match self.parse_block() {
            Err(e) => return Err(e),
            Ok(x) => x,
        };
        if self.match_ident("else") {
            let no = match self.parse_block() {
                Err(e) => return Err(e),
                Ok(x) => x,
            };
            let loc = merge_loc(&start, &no.loc);
            Ok(Located { loc, value: Stmt::If { cond, yes: Box::new(yes), no: Some(Box::new(no)) } })
        } else {
            let loc = merge_loc(&start, &yes.loc);
            Ok(Located { loc, value: Stmt::If { cond, yes: Box::new(yes), no: None } })
        }
    }

    /// One statement of a block that started at `start`; the cursor is not on `}`.
    fn parse_block_item(&mut self, start: &Loc, stmts: Vec<LStmt>) -> (r: Result<Vec<LStmt>, ParseError>)
        requires
            old(self).wf(),
            !tok_is_sym(old(self).ts(), old(self).cursor as int, Sym::RBrace),
        ensures
            old(self).same_input(*final(self)),
            match r {
                Ok(v) => s_block_items(old(self).ts(), old(self).eof, old(self).cursor as int, *start, view_stmts(stmts@))
                    == s_block_items(old(self).ts(), old(self).eof, final(self).cursor as int, *start, view_stmts(v@))
                    && old(self).cursor < final(self).cursor,
                Err(e) => s_block_items(old(self).ts(), old(self).eof, old(self).cursor as int, *start, view_stmts(stmts@))
                    == Err::<(Seq<VLStmt>, int), SParseError>(e@),
            },
        decreases old(self).tokens@.len() - old(self).cursor, 31nat,
    {
        if self.is_done() {
            return Err(ParseError { loc: start.duplicate(), kind: ParseErrorKind::UnexpectedEnd });
        }
        let mut stmts = stmts;
        let ghost before = stmts@;
        let stmt = match self.parse_stmt() {
            Err(e) => return Err(e),
            Ok(x) => x,
        };
        stmts.push(stmt);
        proof {
            assert(stmts@.subrange(0, stmts@.len() - 1) =~= before);
            assert(view_stmts(stmts@) == view_stmts(before).push(view_lstmt(stmt)));
        }
        Ok(stmts)
    }

    fn parse_block(&mut self) -> (r: Result<LStmt, ParseError>)
        requires
            old(self).wf(),
        ensures
            old(self).same_input(*final(self)),
            stmt_result(
                r,
                s_block(old(self).ts(), old(self).eof, old(self).cursor as int),
                old(self).cursor as int,
                final(self).cursor as int,
            ),
        decreases old(self).tokens@.len() - old(self).cursor, 28nat,
    {
        let ghost ts = self.ts();
        let ghost eof = self.eof;
        let start = match self.expect_symbol(Sym::LBrace) {
            Err(e) => return Err(e),
            Ok(l) => l,
        };
        let ghost p1 = self.cursor as int;
        let mut stmts: Vec<LStmt> = Vec::new();
        while !self.peek_symbol(Sym::RBrace)
            invariant
                old(self).same_input(*self),
                ts == self.ts(),
                eof == self.eof,
                old(self).cursor < p1 <= self.cursor,
                s_expect_sym(ts, eof, old(self).cursor as int, Sym::LBrace) == Ok::<(Loc, int), SParseError>((start, p1)),
                s_block_items(ts, eof, p1, start, seq![]) == s_block_items(
                    ts,
                    eof,
                    self.cursor as int,
                    start,
                    view_stmts(stmts@),
                ),
            decreases self.tokens@.len() - self.cursor,
        {
            stmts = match self.parse_block_item(&start, stmts) {
                Err(e) => return Err(e),
                Ok(v) => v,
            };
        }
        let end = match self.expect_symbol(Sym::RBrace) {
            Err(e) => return Err(e),
            Ok(l) => l,
        };
        let loc = merge_loc(&start, &end);
        Ok(Located { loc, value: Stmt::Block(stmts) })
    }

    fn parse_stmt(&mut self) -> (r: Result<LStmt, ParseError>)
        requires
            old(self).wf(),
        ensures
            old(self).same_input(*final(self)),
            stmt_result(
                r,
                s_stmt(old(self).ts(), old(self).eof, old(self).cursor as int),
                old(self).cursor as int,
                final(self).cursor as int,
            ),
        decreases old(self).tokens@.len() - old(self).cursor, 30nat,
    {
        if self.match_ident("if") {
            return self.parse_if();
        }
        if self.match_ident("send") {
            return self.parse_send();
        }
        if self.peek_ident("set") {
            return self.parse_set();
        }
        match self.peek_assign_name() {
            Some(name) => {
                let n = self.tokens.len();
                let name_loc = self.tokens[self.cursor].loc.duplicate();
                self.cursor = self.cursor + 1;
                match self.expect_symbol(Sym::Assign) {
                    Err(e) => return Err(e),
                    Ok(_) => {},
                }
                let value = match self.parse_expr() {
                    Err(e) => return Err(e),
                    Ok(x) => x,
                };
                let loc = merge_loc(&name_loc, &value.loc);
                return Ok(Located { loc, value: Stmt::Assign { name, value } });
            },
            None => {},
        }
        let expr = match self.parse_expr() {
            Err(e) => return Err(e),
            Ok(x) => x,
        };
        let loc = expr.loc.duplicate();
        Ok(Located { loc, value: Stmt::Expr(expr) })
    }

    /// Parses all statements into one block.
    fn parse_program(&mut self, empty: Loc) -> (r: Result<LStmt, ParseError>)
        requires
            old(self).wf(),
            old(self).cursor == 0,
        ensures
            match r {
                Ok(s) => s_program(old(self).ts(), old(self).eof, empty) == Ok::<VLStmt, SParseError>(
                    view_lstmt(s),
                ),
                Err(e) => s_program(old(self).ts(), old(self).eof, empty) == Err::<
                    VLStmt,
                    SParseError,
                >(e@),
            },
    {
        let ghost ts = self.ts();
        let ghost eof = self.eof;
        let start = if self.tokens.len() > 0 {
            self.tokens[0].loc.duplicate()
        } else {
            empty
        };
        let mut stmts: Vec<LStmt> = Vec::new();
        while !self.is_done()
            invariant
                old(self).same_input(*self),
                ts == self.ts(),
                eof == self.eof,
                s_program_items(ts, eof, 0, seq![]) == s_program_items(
                    ts,
                    eof,
                    self.cursor as int,
                    view_stmts(stmts@),
                ),
            decreases self.tokens@.len() - self.cursor,
        {
            let ghost before = stmts@;
            let stmt = match self.parse_stmt() {
                Err(e) => return Err(e),
                Ok(x) => x,
            };
            stmts.push(stmt);
            proof {
                assert(stmts@.subrange(0, stmts@.len() - 1) =~= before);
            }
        }
        proof {
            lemma_view_stmts(stmts@);
        }
        let end = if stmts.len() > 0 {
            stmts[stmts.len() - 1].loc.duplicate()
        } else {
            start.duplicate()
        };
        let loc = merge_loc(&start, &end);
        Ok(Located { loc, value: Stmt::Block(stmts) })
    }
}

/// Parsing panics on these sources: an integer literal does not fit in an `i64`,
/// or the source has no tokens and starts with a multi-byte character (its first
/// line number cannot be computed at a character boundary).
pub open spec fn parse_panics(b: Seq<u8>) -> bool {
    ||| !ints_fit(lex(b))
    ||| (lex(b).len() == 0 && b.len() > 0 && b[0] >= 128)
}

/// The result of parsing the source bytes `b` as a program.
pub open spec fn spec_parse_program(b: Seq<u8>) -> Result<VLStmt, SParseError> {
    s_program(lex(b), loc_of(b, b.len() as int, b.len() as int), loc_of(b, 0, 0))
}

/// Parses a program, or gives `None` on the sources on which parsing panics.
pub fn try_parse_program(source: &str) -> (r: Option<Result<LStmt, ParseError>>)
    requires
        source.spec_bytes().len() < usize::MAX,
    ensures
        r is None <==> parse_panics(source.spec_bytes()),
        match r {
            Some(Ok(s)) => spec_parse_program(source.spec_bytes()) == Ok::<VLStmt, SParseError>(
                view_lstmt(s),
            ),
            Some(Err(e)) => spec_parse_program(source.spec_bytes()) == Err::<VLStmt, SParseError>(
                e@,
            ),
            None => true,
        },
{
    let bytes = source.as_bytes();
    let tokens = match tokenize(bytes) {
        None => return None,
        Some(ts) => ts,
    };
    let len = bytes.len();
    if tokens.len() == 0 && len > 0 && bytes[0] >= 128u8 {
        return None;
    }
    let eof = loc_for(bytes, len, len);
    let empty = if tokens.len() == 0 {
        loc_for(bytes, 0, 0)
    } else {
        tokens[0].loc.duplicate()
    };
    let mut parser = Parser { tokens, cursor: 0, eof };
    proof {
        assert(parser.ts() == lex(bytes@));
    }
    Some(parser.parse_program(empty))
}

/// Parses the source of a node program into one block of statements.
pub fn parse_program(source: &str) -> (r: Result<LStmt, ParseError>)
    requires
        source.spec_bytes().len() < usize::MAX,
        !parse_panics(source.spec_bytes()),
    ensures
        match r {
            Ok(s) => spec_parse_program(source.spec_bytes()) == Ok::<VLStmt, SParseError>(
                view_lstmt(s),
            ),
            Err(e) => spec_parse_program(source.spec_bytes()) == Err::<VLStmt, SParseError>(e@),
        },
{
    match try_parse_program(source) {
        Some(r) => r,
        None => Err(ParseError { loc: Loc { range: 0..0, line_range: 1..1 }, kind: ParseErrorKind::UnexpectedEnd }),
    }
}
} // verus!
