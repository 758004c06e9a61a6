//! The interpreter: how one node runs its program during a tick.

use vstd::prelude::*;

use crate::ast::{BinaryOp, Expr, LExpr, LStmt, Loc, SValue, Stmt, VExpr, VLExpr, VLStmt, VStmt, Value, view_lexpr, view_lstmt, view_stmts, lemma_view_stmts};
use crate::strmap::StrMap;
use crate::text::{div_trunc, rem_trunc, trunc_div, trunc_rem, push_str, string_push};

verus! {

// ---------------------------------------------------------------------------
// Errors.
// ---------------------------------------------------------------------------

/// What went wrong while a node ran.
#[derive(Debug, PartialEq, Eq)]
pub enum RuntimeError {
    Type(&'static str),
    MissingVariable(String),
    MissingNode(String),
    OutOfBounds,
    DivisionByZero,
    InvalidReceiveTarget,
}

pub enum SRuntimeError {
    Type(Seq<char>),
    MissingVariable(Seq<char>),
    MissingNode(Seq<char>),
    OutOfBounds,
    DivisionByZero,
    InvalidReceiveTarget,
}

impl View for RuntimeError {
    type V = SRuntimeError;

    open spec fn view(&self) -> SRuntimeError {
        match self {
            RuntimeError::Type(m) => SRuntimeError::Type(m@),
            RuntimeError::MissingVariable(n) => SRuntimeError::MissingVariable(n@),
            RuntimeError::MissingNode(n) => SRuntimeError::MissingNode(n@),
            RuntimeError::OutOfBounds => SRuntimeError::OutOfBounds,
            RuntimeError::DivisionByZero => SRuntimeError::DivisionByZero,
            RuntimeError::InvalidReceiveTarget => SRuntimeError::InvalidReceiveTarget,
        }
    }
}

/// Why evaluation stopped early: a runtime error at a location, or a panic
/// (an arithmetic overflow, or more statements than the step counter can count).
pub enum Fault {
    Runtime(Loc, RuntimeError),
    Panic,
}

pub enum SFault {
    Runtime(Loc, SRuntimeError),
    Panic,
}

impl View for Fault {
    type V = SFault;

    open spec fn view(&self) -> SFault {
        match self {
            Fault::Runtime(l, e) => SFault::Runtime(*l, e@),
            Fault::Panic => SFault::Panic,
        }
    }
}

pub open spec fn type_error(loc: Loc, msg: Seq<char>) -> SFault {
    SFault::Runtime(loc, SRuntimeError::Type(msg))
}

pub open spec fn s_truthy(v: SValue) -> Result<bool, SRuntimeError> {
    match v {
        SValue::Bool(b) => Ok(b),
        _ => Err(SRuntimeError::Type("expected bool"@)),
    }
}

pub open spec fn s_as_int(v: SValue) -> Result<i64, SRuntimeError> {
    match v {
        SValue::Int(i) => Ok(i),
        _ => Err(SRuntimeError::Type("expected int"@)),
    }
}

pub open spec fn s_as_str(v: SValue) -> Result<Seq<char>, SRuntimeError> {
    match v {
        SValue::Str(s) => Ok(s),
        _ => Err(SRuntimeError::Type("expected string"@)),
    }
}

impl Value {
    pub fn truthy(&self) -> (r: Result<bool, RuntimeError>)
        ensures
            match r {
                Ok(b) => s_truthy(self@) == Ok::<bool, SRuntimeError>(b),
                Err(e) => s_truthy(self@) == Err::<bool, SRuntimeError>(e@),
            },
    {
        match self {
            Value::Bool(value) => Ok(*value),
            _ => Err(RuntimeError::Type("expected bool")),
        }
    }

    pub fn as_int(&self) -> (r: Result<i64, RuntimeError>)
        ensures
            match r {
                Ok(i) => s_as_int(self@) == Ok::<i64, SRuntimeError>(i),
                Err(e) => s_as_int(self@) == Err::<i64, SRuntimeError>(e@),
            },
    {
        match self {
            Value::Int(value) => Ok(*value),
            _ => Err(RuntimeError::Type("expected int")),
        }
    }

    pub fn as_str(&self) -> (r: Result<&str, RuntimeError>)
        ensures
            match r {
                Ok(s) => s_as_str(self@) == Ok::<Seq<char>, SRuntimeError>(s@),
                Err(e) => s_as_str(self@) == Err::<Seq<char>, SRuntimeError>(e@),
            },
    {
        match self {
            Value::Str(value) => Ok(value.as_str()),
            _ => Err(RuntimeError::Type("expected string")),
        }
    }
}

// ---------------------------------------------------------------------------
// The state of a running node, and its view.
// ---------------------------------------------------------------------------

/// A message that a node sent during its run, before it gets its global step number.
pub struct PendingSentMessageLog {
    pub local_step: usize,
    pub from: String,
    pub to: String,
    pub value: Value,
    pub loc: Loc,
}

pub struct SPending {
    pub local_step: int,
    pub from: Seq<char>,
    pub to: Seq<char>,
    pub value: SValue,
    pub loc: Loc,
}

impl View for PendingSentMessageLog {
    type V = SPending;

    open spec fn view(&self) -> SPending {
        SPending {
            local_step: self.local_step as int,
            from: self.from@,
            to: self.to@,
            value: self.value@,
            loc: self.loc,
        }
    }
}

/// What a running node reads and changes.
pub struct SCtx {
    pub vars: Map<Seq<char>, SValue>,
    pub color: Seq<char>,
    pub inbox: Map<Seq<char>, Seq<SValue>>,
    pub executed: Seq<Loc>,
    pub sent: Seq<SPending>,
}

/// The state of a running node.
pub struct EvalCtx {
    pub vars: StrMap<Value>,
    pub color: String,
    pub inbox: StrMap<Vec<Value>>,
    pub executed: Vec<Loc>,
    pub sent: Vec<PendingSentMessageLog>,
    pub local_step: usize,
}

pub open spec fn values_view(q: Seq<Value>) -> Seq<SValue> {
    q.map_values(|v: Value| v@)
}

pub open spec fn inbox_view(m: Map<Seq<char>, Vec<Value>>) -> Map<Seq<char>, Seq<SValue>> {
    m.map_values(|q: Vec<Value>| values_view(q@))
}

pub open spec fn vars_view(m: Map<Seq<char>, Value>) -> Map<Seq<char>, SValue> {
    m.map_values(|v: Value| v@)
}

pub open spec fn pending_view(s: Seq<PendingSentMessageLog>) -> Seq<SPending> {
    s.map_values(|p: PendingSentMessageLog| p@)
}

impl View for EvalCtx {
    type V = SCtx;

    open spec fn view(&self) -> SCtx {
        SCtx {
            vars: vars_view(self.vars.map()),
            color: self.color@,
            inbox: inbox_view(self.inbox.map()),
            executed: self.executed@,
            sent: pending_view(self.sent@),
        }
    }
}

/// Every message sent so far was sent at one of the executed steps.
pub open spec fn sent_steps_valid(c: SCtx) -> bool {
    forall|i: int|
        0 <= i < c.sent.len() ==> 1 <= #[trigger] c.sent[i].local_step <= c.executed.len()
}

impl EvalCtx {
    pub open spec fn wf(&self) -> bool {
        &&& self.vars.wf()
        &&& self.inbox.wf()
        &&& self.local_step == self.executed@.len()
        &&& sent_steps_valid(self@)
    }
}

// ---------------------------------------------------------------------------
// The semantics, as spec functions over views.
// ---------------------------------------------------------------------------

pub type SEval = (SCtx, Result<SValue, SFault>);

/// The expression semantics. `node` is the running node, `nodes` the nodes that exist.
pub open spec fn s_eval_expr(e: VLExpr, node: Seq<char>, nodes: Set<Seq<char>>, c: SCtx) -> SEval
    decreases e, 1nat,
{
    match e.value {
        VExpr::Const(v) => (c, Ok(v)),
        VExpr::Var(name) => if c.vars.dom().contains(name) {
            (c, Ok(c.vars[name]))
        } else {
            (c, Err(SFault::Runtime(e.loc, SRuntimeError::MissingVariable(name))))
        },
        VExpr::Len(inner) => {
            let (c1, r) = s_eval_expr(*inner, node, nodes, c);
            match r {
                Err(f) => (c1, Err(f)),
                Ok(SValue::Str(s)) => (c1, Ok(SValue::Int(s.len() as i64))),
                Ok(_) => (c1, Err(type_error(inner.loc, "len() expects a string"@))),
            }
        },
        VExpr::Receive { from } => {
            let (c1, r) = s_eval_expr(*from, node, nodes, c);
            match r {
                Err(f) => (c1, Err(f)),
                Ok(SValue::Str(name)) => if c1.inbox.dom().contains(name) && c1.inbox[name].len()
                    > 0 {
                    (
                        SCtx { inbox: c1.inbox.insert(name, c1.inbox[name].drop_first()), ..c1 },
                        Ok(c1.inbox[name][0]),
                    )
                } else {
                    (c1, Ok(SValue::Nil))
                },
                Ok(_) => (c1, Err(SFault::Runtime(from.loc, SRuntimeError::InvalidReceiveTarget))),
            }
        },
        VExpr::Index { base, index } => {
            let (c1, rb) = s_eval_expr(*base, node, nodes, c);
            match rb {
                Err(f) => (c1, Err(f)),
                Ok(vb) => {
                    let (c2, ri) = s_eval_expr(*index, node, nodes, c1);
                    match ri {
                        Err(f) => (c2, Err(f)),
                        Ok(vi) => match s_as_str(vb) {
                            Err(err) => (c2, Err(SFault::Runtime(base.loc, err))),
                            Ok(text) => match s_as_int(vi) {
                                Err(err) => (c2, Err(SFault::Runtime(index.loc, err))),
                                Ok(i) => if i < 0 || i > usize::MAX {
                                    (c2, Err(SFault::Runtime(index.loc, SRuntimeError::OutOfBounds)))
                                } else if i >= text.len() {
                                    (c2, Err(SFault::Runtime(e.loc, SRuntimeError::OutOfBounds)))
                                } else {
                                    (c2, Ok(SValue::Str(seq![text[i as int]])))
                                },
                            },
                        },
                    }
                },
            }
        },
        VExpr::Slice { base, start, end } => {
            let (c1, rb) = s_eval_expr(*base, node, nodes, c);
            match rb {
                Err(f) => (c1, Err(f)),
                Ok(vb) => match s_as_str(vb) {
                    Err(err) => (c1, Err(SFault::Runtime(base.loc, err))),
                    Ok(text) => {
                        let (c2, rs) = match start {
                            Some(x) => s_eval_int(*x, node, nodes, c1),
                            None => (c1, Ok(0i64)),
                        };
                        match rs {
                            Err(f) => (c2, Err(f)),
                            Ok(lo) => {
                                let (c3, re) = match end {
                                    Some(x) => s_eval_int(*x, node, nodes, c2),
                                    None => (c2, Ok(text.len() as i64)),
                                };
                                match re {
                                    Err(f) => (c3, Err(f)),
                                    Ok(hi) => if lo < 0 || lo > usize::MAX || hi < 0 || hi
                                        > usize::MAX {
                                        (c3, Err(SFault::Runtime(e.loc, SRuntimeError::OutOfBounds)))
                                    } else if lo > hi || hi > text.len() {
                                        (c3, Err(SFault::Runtime(e.loc, SRuntimeError::OutOfBounds)))
                                    } else {
                                        (c3, Ok(SValue::Str(text.subrange(lo as int, hi as int))))
                                    },
                                }
                            },
                        }
                    },
                },
            }
        },
        VExpr::UnaryNot(inner) => {
            let (c1, r) = s_eval_expr(*inner, node, nodes, c);
            match r {
                Err(f) => (c1, Err(f)),
                Ok(v) => match s_truthy(v) {
                    Err(err) => (c1, Err(SFault::Runtime(inner.loc, err))),
                    Ok(b) => (c1, Ok(SValue::Bool(!b))),
                },
            }
        },
        VExpr::Binary { .. } => s_eval_binary(e, node, nodes, c),
    }
}

/// Evaluates an operand that must be an integer.
pub open spec fn s_eval_int(e: VLExpr, node: Seq<char>, nodes: Set<Seq<char>>, c: SCtx) -> (
    SCtx,
    Result<i64, SFault>,
)
    decreases e, 2nat,
{
    let (c1, r) = s_eval_expr(e, node, nodes, c);
    match r {
        Err(f) => (c1, Err(f)),
        Ok(v) => match s_as_int(v) {
            Err(err) => (c1, Err(SFault::Runtime(e.loc, err))),
            Ok(i) => (c1, Ok(i)),
        },
    }
}

/// Evaluates an operand that must be a boolean.
pub open spec fn s_eval_bool(e: VLExpr, node: Seq<char>, nodes: Set<Seq<char>>, c: SCtx) -> (
    SCtx,
    Result<bool, SFault>,
)
    decreases e, 2nat,
{
    let (c1, r) = s_eval_expr(e, node, nodes, c);
    match r {
        Err(f) => (c1, Err(f)),
        Ok(v) => match s_truthy(v) {
            Err(err) => (c1, Err(SFault::Runtime(e.loc, err))),
            Ok(b) => (c1, Ok(b)),
        },
    }
}

/// Whether an integer fits in an `i64` (otherwise the operation that produced it panics).
pub open spec fn fits_i64(x: int) -> bool {
    i64::MIN <= x <= i64::MAX
}

/// The result of integer arithmetic: the value, or a panic on overflow.
pub open spec fn checked(x: int) -> Result<SValue, SFault> {
    if fits_i64(x) {
        Ok(SValue::Int(x as i64))
    } else {
        Err(SFault::Panic)
    }
}

/// The semantics of a binary operation `e`.
pub open spec fn s_eval_binary(e: VLExpr, node: Seq<char>, nodes: Set<Seq<char>>, c: SCtx) -> SEval
    decreases e, 0nat,
{
    let (op, left, right) = match e.value {
        VExpr::Binary { op, left, right } => (op, *left, *right),
        _ => (BinaryOp::Or, e, e),
    };
    if !(e.value is Binary) {
        (c, Err(SFault::Panic))
    } else {
    match op {
        BinaryOp::Or => {
            let (c1, l) = s_eval_bool(left, node, nodes, c);
            match l {
                Err(f) => (c1, Err(f)),
                Ok(true) => (c1, Ok(SValue::Bool(true))),
                Ok(false) => {
                    let (c2, r) = s_eval_bool(right, node, nodes, c1);
                    match r {
                        Err(f) => (c2, Err(f)),
                        Ok(b) => (c2, Ok(SValue::Bool(b))),
                    }
                },
            }
        },
        BinaryOp::And => {
            let (c1, l) = s_eval_bool(left, node, nodes, c);
            match l {
                Err(f) => (c1, Err(f)),
                Ok(false) => (c1, Ok(SValue::Bool(false))),
                Ok(true) => {
                    let (c2, r) = s_eval_bool(right, node, nodes, c1);
                    match r {
                        Err(f) => (c2, Err(f)),
                        Ok(b) => (c2, Ok(SValue::Bool(b))),
                    }
                },
            }
        },
        BinaryOp::Equal | BinaryOp::NotEqual => {
            let (c1, l) = s_eval_expr(left, node, nodes, c);
            match l {
                Err(f) => (c1, Err(f)),
                Ok(a) => {
                    let (c2, r) = s_eval_expr(right, node, nodes, c1);
                    match r {
                        Err(f) => (c2, Err(f)),
                        Ok(b) => (
                            c2,
                            Ok(
                                SValue::Bool(
                                    if op == BinaryOp::Equal {
                                        a == b
                                    } else {
                                        a != b
                                    },
                                ),
                            ),
                        ),
                    }
                },
            }
        },
        BinaryOp::Add => {
            let (c1, l) = s_eval_expr(left, node, nodes, c);
            match l {
                Err(f) => (c1, Err(f)),
                Ok(a) => {
                    let (c2, r) = s_eval_expr(right, node, nodes, c1);
                    match r {
                        Err(f) => (c2, Err(f)),
                        Ok(b) => match (a, b) {
                            (SValue::Int(x), SValue::Int(y)) => (c2, checked(x + y)),
                            (SValue::Str(x), SValue::Str(y)) => (c2, Ok(SValue::Str(x + y))),
                            _ => (
                                c2,
                                Err(type_error(left.loc, "+ expects matching ints or strings"@)),
                            ),
                        },
                    }
                },
            }
        },
        BinaryOp::Div | BinaryOp::Mod => {
            let (c1, r) = s_eval_int(right, node, nodes, c);
            match r {
                Err(f) => (c1, Err(f)),
                Ok(y) => if y == 0 {
                    (c1, Err(SFault::Runtime(right.loc, SRuntimeError::DivisionByZero)))
                } else {
                    let (c2, l) = s_eval_int(left, node, nodes, c1);
                    match l {
                        Err(f) => (c2, Err(f)),
                        Ok(x) => if x == i64::MIN && y == -1 {
                            (c2, Err(SFault::Panic))
                        } else if op == BinaryOp::Div {
                            (c2, Ok(SValue::Int(trunc_div(x as int, y as int) as i64)))
                        } else {
                            (c2, Ok(SValue::Int(trunc_rem(x as int, y as int) as i64)))
                        },
                    }
                },
            }
        },
        _ => {
            let (c1, l) = s_eval_int(left, node, nodes, c);
            match l {
                Err(f) => (c1, Err(f)),
                Ok(x) => {
                    let (c2, r) = s_eval_int(right, node, nodes, c1);
                    match r {
                        Err(f) => (c2, Err(f)),
                        Ok(y) => (
                            c2,
                            match op {
                                BinaryOp::Less => Ok(SValue::Bool(x < y)),
                                BinaryOp::LessEqual => Ok(SValue::Bool(x <= y)),
                                BinaryOp::Greater => Ok(SValue::Bool(x > y)),
                                BinaryOp::GreaterEqual => Ok(SValue::Bool(x >= y)),
                                BinaryOp::Sub => checked(x - y),
                                _ => checked(x * y),
                            },
                        ),
                    }
                },
            }
        },
    }
    }
}

pub type SRun = (SCtx, Result<(), SFault>);

/// Records that a statement at `loc` runs; panics when the step counter would overflow.
pub open spec fn s_record(c: SCtx, loc: Loc) -> SRun {
    if c.executed.len() >= usize::MAX {
        (c, Err(SFault::Panic))
    } else {
        (SCtx { executed: c.executed.push(loc), ..c }, Ok(()))
    }
}

/// The statement semantics.
pub open spec fn s_eval_stmt(s: VLStmt, node: Seq<char>, nodes: Set<Seq<char>>, c: SCtx) -> SRun
    decreases s,
{
    match s.value {
        VStmt::Block(items) => s_eval_stmts(items, node, nodes, c),
        VStmt::If { cond, yes, no } => {
            let (c0, rec) = s_record(c, s.loc);
            match rec {
                Err(f) => (c0, Err(f)),
                Ok(_) => {
                    let (c1, b) = s_eval_bool(cond, node, nodes, c0);
                    match b {
                        Err(f) => (c1, Err(f)),
                        Ok(true) => s_eval_stmt(*yes, node, nodes, c1),
                        Ok(false) => match no {
                            Some(n) => s_eval_stmt(*n, node, nodes, c1),
                            None => (c1, Ok(())),
                        },
                    }
                },
            }
        },
        VStmt::Send { value, to } => {
            let (c0, rec) = s_record(c, s.loc);
            match rec {
                Err(f) => (c0, Err(f)),
                Ok(_) => {
                    let (c1, rv) = s_eval_expr(value, node, nodes, c0);
                    match rv {
                        Err(f) => (c1, Err(f)),
                        Ok(payload) => {
                            let (c2, rt) = s_eval_expr(to, node, nodes, c1);
                            match rt {
                                Err(f) => (c2, Err(f)),
                                Ok(SValue::Str(target)) => if !nodes.contains(target) {
                                    (
                                        c2,
                                        Err(
                                            SFault::Runtime(
                                                to.loc,
                                                SRuntimeError::MissingNode(target),
                                            ),
                                        ),
                                    )
                                } else {
                                    (
                                        SCtx {
                                            sent: c2.sent.push(
                                                SPending {
                                                    local_step: c2.executed.len() as int,
                                                    from: node,
                                                    to: target,
                                                    value: payload,
                                                    loc: s.loc,
                                                },
                                            ),
                                            ..c2
                                        },
                                        Ok(()),
                                    )
                                },
                                Ok(_) => (
                                    c2,
                                    Err(type_error(to.loc, "send target must be a string"@)),
                                ),
                            }
                        },
                    }
                },
            }
        },
        VStmt::SetColor { value } => {
            let (c0, rec) = s_record(c, s.loc);
            match rec {
                Err(f) => (c0, Err(f)),
                Ok(_) => {
                    let (c1, r) = s_eval_expr(value, node, nodes, c0);
                    match r {
                        Err(f) => (c1, Err(f)),
                        Ok(SValue::Str(color)) => (SCtx { color: color, ..c1 }, Ok(())),
                        Ok(_) => (c1, Err(type_error(value.loc, "set() expects a string"@))),
                    }
                },
            }
        },
        VStmt::Assign { name, value } => {
            let (c0, rec) = s_record(c, s.loc);
            match rec {
                Err(f) => (c0, Err(f)),
                Ok(_) => {
                    let (c1, r) = s_eval_expr(value, node, nodes, c0);
                    match r {
                        Err(f) => (c1, Err(f)),
                        Ok(v) => (SCtx { vars: c1.vars.insert(name, v), ..c1 }, Ok(())),
                    }
                },
            }
        },
        VStmt::Expr(e) => {
            let (c0, rec) = s_record(c, s.loc);
            match rec {
                Err(f) => (c0, Err(f)),
                Ok(_) => {
                    let (c1, r) = s_eval_expr(e, node, nodes, c0);
                    match r {
                        Err(f) => (c1, Err(f)),
                        Ok(_) => (c1, Ok(())),
                    }
                },
            }
        },
    }
}

/// Runs statements in order, stopping at the first fault.
pub open spec fn s_eval_stmts(items: Seq<VLStmt>, node: Seq<char>, nodes: Set<Seq<char>>, c: SCtx) -> SRun
    decreases items,
{
    if items.len() == 0 {
        (c, Ok(()))
    } else {
        let (c1, r) = s_eval_stmt(items[0], node, nodes, c);
        match r {
            Err(f) => (c1, Err(f)),
            Ok(_) => s_eval_stmts(items.subrange(1, items.len() as int), node, nodes, c1),
        }
    }
}


// ---------------------------------------------------------------------------
// The executable interpreter.
// ---------------------------------------------------------------------------

pub open spec fn value_result(r: Result<Value, Fault>) -> Result<SValue, SFault> {
    match r {
        Ok(v) => Ok(v@),
        Err(f) => Err(f@),
    }
}

pub open spec fn unit_result(r: Result<(), Fault>) -> Result<(), SFault> {
    match r {
        Ok(_) => Ok(()),
        Err(f) => Err(f@),
    }
}

fn runtime(loc: &Loc, error: RuntimeError) -> (r: Fault)
    ensures
        r@ == SFault::Runtime(*loc, error@),
{
    Fault::Runtime(loc.duplicate(), error)
}

pub proof fn lemma_inbox_insert(m: Map<Seq<char>, Vec<Value>>, k: Seq<char>, q: Vec<Value>)
    ensures
        inbox_view(m.insert(k, q)) == inbox_view(m).insert(k, values_view(q@)),
{
    assert(inbox_view(m.insert(k, q)) =~= inbox_view(m).insert(k, values_view(q@)));
}

proof fn lemma_inbox_reinsert(m: Map<Seq<char>, Vec<Value>>, k: Seq<char>, q: Vec<Value>)
    requires
        m.dom().contains(k),
        values_view(q@) == values_view(m[k]@),
    ensures
        inbox_view(m.remove(k).insert(k, q)) == inbox_view(m),
{
    assert(inbox_view(m.remove(k).insert(k, q)) =~= inbox_view(m));
}

pub proof fn lemma_vars_insert(m: Map<Seq<char>, Value>, k: Seq<char>, v: Value)
    ensures
        vars_view(m.insert(k, v)) == vars_view(m).insert(k, v@),
{
    assert(vars_view(m.insert(k, v)) =~= vars_view(m).insert(k, v@));
}

/// Takes the first message from `from`'s queue in the inbox, if there is one.
fn receive_from<N>(ctx: &mut EvalCtx, from: String) -> (r: Value)
    requires
        old(ctx).wf(),
    ensures
        final(ctx).wf(),
        ({
            let c = old(ctx)@;
            if c.inbox.dom().contains(from@) && c.inbox[from@].len() > 0 {
                final(ctx)@ == SCtx { inbox: c.inbox.insert(from@, c.inbox[from@].drop_first()), ..c }
                    && r@ == c.inbox[from@][0]
            } else {
                final(ctx)@ == c && r@ == SValue::Nil
            }
        }),
        final(ctx)@.executed == old(ctx)@.executed,
        final(ctx)@.sent == old(ctx)@.sent,
{
    let ghost m0 = ctx.inbox.map();
    match ctx.inbox.remove(from.as_str()) {
        Some(queue) => {
            let mut queue = queue;
            if queue.len() > 0 {
                let ghost q0 = queue@;
                let v = queue.remove(0);
                proof {
                    assert(values_view(queue@) =~= values_view(q0).drop_first());
                    lemma_inbox_insert(m0.remove(from@), from@, queue);
                    assert(m0.remove(from@).insert(from@, queue) =~= m0.insert(from@, queue));
                    lemma_inbox_insert(m0, from@, queue);
                }
                ctx.inbox.insert(from, queue);
                v
            } else {
                proof {
                    lemma_inbox_reinsert(m0, from@, queue);
                    assert(values_view(queue@).len() == 0);
                }
                ctx.inbox.insert(from, queue);
                Value::Nil
            }
        },
        None => {
            proof {
                assert(m0.remove(from@) =~= m0);
            }
            Value::Nil
        },
    }
}

fn eval_expr<N>(expr: &LExpr, node_id: &str, nodes: &StrMap<N>, ctx: &mut EvalCtx) -> (r: Result<Value, Fault>)
    requires
        old(ctx).wf(),
        nodes.wf(),
    ensures
        final(ctx).wf(),
        (final(ctx)@, value_result(r)) == s_eval_expr(view_lexpr(*expr), node_id@, nodes.map().dom(), old(ctx)@),
        final(ctx)@.executed == old(ctx)@.executed,
        final(ctx)@.sent == old(ctx)@.sent,
    decreases *expr, 1nat,
{
    match &expr.value {
        Expr::Const(value) => Ok(value.duplicate()),
        Expr::Var(name) => match ctx.vars.get(name.as_str()) {
            Some(v) => Ok(v.duplicate()),
            None => Err(runtime(&expr.loc, RuntimeError::MissingVariable(name.clone()))),
        },
        Expr::Len(inner) => {
            let value = match eval_expr(inner, node_id, nodes, ctx) {
                Err(f) => return Err(f),
                Ok(v) => v,
            };
            match value {
                Value::Str(text) => Ok(Value::Int(text.as_str().unicode_len() as i64)),
                _ => Err(runtime(&inner.loc, RuntimeError::Type("len() expects a string"))),
            }
        },
        Expr::Receive { from } => {
            let from_value = match eval_expr(from, node_id, nodes, ctx) {
                Err(f) => return Err(f),
                Ok(v) => v,
            };
            match from_value {
                Value::Str(name) => Ok(receive_from::<N>(ctx, name)),
                _ => Err(runtime(&from.loc, RuntimeError::InvalidReceiveTarget)),
            }
        },
        Expr::Index { base, index } => {
            let base_value = match eval_expr(base, node_id, nodes, ctx) {
                Err(f) => return Err(f),
                Ok(v) => v,
            };
            let index_value = match eval_expr(index, node_id, nodes, ctx) {
                Err(f) => return Err(f),
                Ok(v) => v,
            };
            let text = match base_value.as_str() {
                Err(e) => return Err(runtime(&base.loc, e)),
                Ok(t) => t,
            };
            let i = match index_value.as_int() {
                Err(e) => return Err(runtime(&index.loc, e)),
                Ok(i) => i,
            };
            if i < 0 || (i as u64) > (usize::MAX as u64) {
                return Err(runtime(&index.loc, RuntimeError::OutOfBounds));
            }
            let i = i as usize;
            if i >= text.unicode_len() {
                return Err(runtime(&expr.loc, RuntimeError::OutOfBounds));
            }
            let ch = text.get_char(i);
            let mut out = String::new();
            string_push(&mut out, ch);
            assert(out@ =~= seq![ch]);
            Ok(Value::Str(out))
        },
        Expr::Slice { base, start, end } => eval_slice(expr, node_id, nodes, ctx),
        Expr::UnaryNot(inner) => {
            let value = match eval_expr(inner, node_id, nodes, ctx) {
                Err(f) => return Err(f),
                Ok(v) => v,
            };
            match value.truthy() {
                Err(e) => Err(runtime(&inner.loc, e)),
                Ok(b) => Ok(Value::Bool(!b)),
            }
        },
        Expr::Binary { .. } => eval_binary(expr, node_id, nodes, ctx),
    }
}

fn eval_slice<N>(expr: &LExpr, node_id: &str, nodes: &StrMap<N>, ctx: &mut EvalCtx) -> (r: Result<Value, Fault>)
    requires
        old(ctx).wf(),
        nodes.wf(),
        expr.value is Slice,
    ensures
        final(ctx).wf(),
        (final(ctx)@, value_result(r)) == s_eval_expr(view_lexpr(*expr), node_id@, nodes.map().dom(), old(ctx)@),
        final(ctx)@.executed == old(ctx)@.executed,
        final(ctx)@.sent == old(ctx)@.sent,
    decreases *expr, 0nat,
{
    match &expr.value {
        Expr::Slice { base, start, end } => {
            let base_value = match eval_expr(base, node_id, nodes, ctx) {
                Err(f) => return Err(f),
                Ok(v) => v,
            };
            let text = match base_value.as_str() {
                Err(e) => return Err(runtime(&base.loc, e)),
                Ok(t) => t,
            };
            let len = text.unicode_len();
            let lo: i64 = match start {
                Some(s) => match {
                    assert(crate::ast::view_opt_lexpr(*start) == Some(Box::new(view_lexpr(**s))));
                    eval_int(s, node_id, nodes, ctx)
                } {
                    Err(f) => return Err(f),
                    Ok(i) => i,
                },
                None => 0,
            };
            let hi: i64 = match end {
                Some(x) => match {
                    assert(crate::ast::view_opt_lexpr(*end) == Some(Box::new(view_lexpr(**x))));
                    eval_int(x, node_id, nodes, ctx)
                } {
                    Err(f) => return Err(f),
                    Ok(i) => i,
                },
                None => #[verifier::truncate] (len as i64),
            };
            if lo < 0 || (lo as u64) > (usize::MAX as u64) || hi < 0 || (hi as u64) > (usize::MAX as u64) {
                return Err(runtime(&expr.loc, RuntimeError::OutOfBounds));
            }
            let lo = lo as usize;
            let hi = hi as usize;
            if lo > hi || hi > len {
                return Err(runtime(&expr.loc, RuntimeError::OutOfBounds));
            }
            let part = text.substring_char(lo, hi);
            Ok(Value::Str(part.to_owned()))
        },
        _ => Err(Fault::Panic),
    }
}

/// Evaluates an operand that must be an integer.
fn eval_int<N>(expr: &LExpr, node_id: &str, nodes: &StrMap<N>, ctx: &mut EvalCtx) -> (r: Result<i64, Fault>)
    requires
        old(ctx).wf(),
        nodes.wf(),
    ensures
        final(ctx).wf(),
        (final(ctx)@, match r {
            Ok(i) => Ok::<i64, SFault>(i),
            Err(f) => Err::<i64, SFault>(f@),
        }) == s_eval_int(view_lexpr(*expr), node_id@, nodes.map().dom(), old(ctx)@),
        final(ctx)@.executed == old(ctx)@.executed,
        final(ctx)@.sent == old(ctx)@.sent,
    decreases *expr, 2nat,
{
    let value = match eval_expr(expr, node_id, nodes, ctx) {
        Err(f) => return Err(f),
        Ok(v) => v,
    };
    match value.as_int() {
        Err(e) => Err(runtime(&expr.loc, e)),
        Ok(i) => Ok(i),
    }
}

/// Evaluates an operand that must be a boolean.
fn eval_bool<N>(expr: &LExpr, node_id: &str, nodes: &StrMap<N>, ctx: &mut EvalCtx) -> (r: Result<bool, Fault>)
    requires
        old(ctx).wf(),
        nodes.wf(),
    ensures
        final(ctx).wf(),
        (final(ctx)@, match r {
            Ok(b) => Ok::<bool, SFault>(b),
            Err(f) => Err::<bool, SFault>(f@),
        }) == s_eval_bool(view_lexpr(*expr), node_id@, nodes.map().dom(), old(ctx)@),
        final(ctx)@.executed == old(ctx)@.executed,
        final(ctx)@.sent == old(ctx)@.sent,
    decreases *expr, 2nat,
{
    let value = match eval_expr(expr, node_id, nodes, ctx) {
        Err(f) => return Err(f),
        Ok(v) => v,
    };
    match value.truthy() {
        Err(e) => Err(runtime(&expr.loc, e)),
        Ok(b) => Ok(b),
    }
}

fn eval_binary<N>(expr: &LExpr, node_id: &str, nodes: &StrMap<N>, ctx: &mut EvalCtx) -> (r: Result<Value, Fault>)
    requires
        old(ctx).wf(),
        nodes.wf(),
        expr.value is Binary,
    ensures
        final(ctx).wf(),
        (final(ctx)@, value_result(r)) == s_eval_binary(view_lexpr(*expr), node_id@, nodes.map().dom(), old(ctx)@),
        final(ctx)@.executed == old(ctx)@.executed,
        final(ctx)@.sent == old(ctx)@.sent,
    decreases *expr, 0nat,
{
    let (op, left, right) = match &expr.value {
        Expr::Binary { op, left, right } => (*op, left, right),
        _ => return Err(Fault::Panic),
    };
    match op {
        BinaryOp::Or => {
            if match eval_bool(left, node_id, nodes, ctx) {
                Err(f) => return Err(f),
                Ok(b) => b,
            } {
                return Ok(Value::Bool(true));
            }
            match eval_bool(right, node_id, nodes, ctx) {
                Err(f) => Err(f),
                Ok(b) => Ok(Value::Bool(b)),
            }
        },
        BinaryOp::And => {
            if !match eval_bool(left, node_id, nodes, ctx) {
                Err(f) => return Err(f),
                Ok(b) => b,
            } {
                return Ok(Value::Bool(false));
            }
            match eval_bool(right, node_id, nodes, ctx) {
                Err(f) => Err(f),
                Ok(b) => Ok(Value::Bool(b)),
            }
        },
        BinaryOp::Equal | BinaryOp::NotEqual => {
            let a = match eval_expr(left, node_id, nodes, ctx) {
                Err(f) => return Err(f),
                Ok(v) => v,
            };
            let b = match eval_expr(right, node_id, nodes, ctx) {
                Err(f) => return Err(f),
                Ok(v) => v,
            };
            let same = a.equals(&b);
            Ok(Value::Bool(if op == BinaryOp::Equal { same } else { !same }))
        },
        BinaryOp::Add => {
            let a = match eval_expr(left, node_id, nodes, ctx) {
                Err(f) => return Err(f),
                Ok(v) => v,
            };
            let b = match eval_expr(right, node_id, nodes, ctx) {
                Err(f) => return Err(f),
                Ok(v) => v,
            };
            match (a, b) {
                (Value::Int(x), Value::Int(y)) => match x.checked_add(y) {
                    Some(z) => Ok(Value::Int(z)),
                    None => Err(Fault::Panic),
                },
                (Value::Str(x), Value::Str(y)) => {
                    let mut joined = x;
                    push_str(&mut joined, y.as_str());
                    Ok(Value::Str(joined))
                },
                _ => Err(runtime(&left.loc, RuntimeError::Type("+ expects matching ints or strings"))),
            }
        },
        BinaryOp::Div | BinaryOp::Mod => {
            let y = match eval_int(right, node_id, nodes, ctx) {
                Err(f) => return Err(f),
                Ok(i) => i,
            };
            if y == 0 {
                return Err(runtime(&right.loc, RuntimeError::DivisionByZero));
            }
            let x = match eval_int(left, node_id, nodes, ctx) {
                Err(f) => return Err(f),
                Ok(i) => i,
            };
            if x == i64::MIN && y == -1 {
                return Err(Fault::Panic);
            }
            if op == BinaryOp::Div {
                Ok(Value::Int(div_trunc(x, y)))
            } else {
                Ok(Value::Int(rem_trunc(x, y)))
            }
        },
        _ => {
            let x = match eval_int(left, node_id, nodes, ctx) {
                Err(f) => return Err(f),
                Ok(i) => i,
            };
            let y = match eval_int(right, node_id, nodes, ctx) {
                Err(f) => return Err(f),
                Ok(i) => i,
            };
            match op {
                BinaryOp::Less => Ok(Value::Bool(x < y)),
                BinaryOp::LessEqual => Ok(Value::Bool(x <= y)),
                BinaryOp::Greater => Ok(Value::Bool(x > y)),
                BinaryOp::GreaterEqual => Ok(Value::Bool(x >= y)),
                BinaryOp::Sub => match x.checked_sub(y) {
                    Some(z) => Ok(Value::Int(z)),
                    None => Err(Fault::Panic),
                },
                _ => match x.checked_mul(y) {
                    Some(z) => Ok(Value::Int(z)),
                    None => Err(Fault::Panic),
                },
            }
        },
    }
}


/// Records that the statement at `loc` runs.
fn record_step(loc: &Loc, ctx: &mut EvalCtx) -> (r: Result<(), Fault>)
    requires
        old(ctx).wf(),
    ensures
        final(ctx).wf(),
        (final(ctx)@, unit_result(r)) == s_record(old(ctx)@, *loc),
{
    if ctx.executed.len() == usize::MAX {
        return Err(Fault::Panic);
    }
    ctx.executed.push(loc.duplicate());
    ctx.local_step = ctx.executed.len();
    Ok(())
}


/// Runs the statements of a block in order.
fn eval_block<N>(stmt: &LStmt, node_id: &str, nodes: &StrMap<N>, ctx: &mut EvalCtx) -> (r: Result<(), Fault>)
    requires
        old(ctx).wf(),
        nodes.wf(),
        stmt.value is Block,
    ensures
        final(ctx).wf(),
        (final(ctx)@, unit_result(r)) == s_eval_stmt(view_lstmt(*stmt), node_id@, nodes.map().dom(), old(ctx)@),
    decreases *stmt, 0nat,
{
    let items = match &stmt.value {
        Stmt::Block(items) => items,
        _ => return Err(Fault::Panic),
    };
    let ghost vs = view_stmts(items@);
    let ghost c0 = ctx@;
    proof {
        lemma_view_stmts(items@);
        assert(vs.subrange(0, vs.len() as int) =~= vs);
    }
    let n = items.len();
    let mut i: usize = 0;
    assert(s_eval_stmt(view_lstmt(*stmt), node_id@, nodes.map().dom(), c0) == s_eval_stmts(vs, node_id@, nodes.map().dom(), c0));
    while i < n
        invariant
            c0 == old(ctx)@,
            stmt.value == Stmt::Block(*items),
            s_eval_stmt(view_lstmt(*stmt), node_id@, nodes.map().dom(), c0) == s_eval_stmts(vs, node_id@, nodes.map().dom(), c0),
            n == items@.len(),
            vs == view_stmts(items@),
            vs.len() == n,
            forall|j: int| 0 <= j < n ==> #[trigger] vs[j] == view_lstmt(items@[j]),
            i <= n,
            ctx.wf(),
            nodes.wf(),
            s_eval_stmts(vs, node_id@, nodes.map().dom(), c0) == s_eval_stmts(
                vs.subrange(i as int, n as int),
                node_id@,
                nodes.map().dom(),
                ctx@,
            ),
        decreases n - i,
    {
        let ghost rest = vs.subrange(i as int, n as int);
        assert(rest[0] == vs[i as int]);
        assert(rest.subrange(1, rest.len() as int) =~= vs.subrange(i + 1, n as int));
        proof {
            assert(decreases_to!(*stmt => stmt.value));
            assert(decreases_to!(stmt.value => *items));
            assert(decreases_to!(*items => items@));
            assert(decreases_to!(items@ => items@[i as int]));
            assert(decreases_to!(*stmt => items@[i as int]));
        }
        let ghost cb = ctx@;
        match eval_stmt(&items[i], node_id, nodes, ctx) {
            Err(f) => {
                assert(s_eval_stmts(rest, node_id@, nodes.map().dom(), cb) == (ctx@, Err::<(), SFault>(f@)));
                return Err(f);
            },
            Ok(_) => {},
        }
        i = i + 1;
    }
    assert(vs.subrange(n as int, n as int) =~= Seq::<VLStmt>::empty());
    Ok(())
}

/// Runs a `send` statement: evaluates the payload and the target, which must be an existing node.
fn eval_send<N>(stmt: &LStmt, node_id: &str, nodes: &StrMap<N>, ctx: &mut EvalCtx) -> (r: Result<(), Fault>)
    requires
        old(ctx).wf(),
        nodes.wf(),
        stmt.value is Send,
    ensures
        final(ctx).wf(),
        (final(ctx)@, unit_result(r)) == s_eval_stmt(view_lstmt(*stmt), node_id@, nodes.map().dom(), old(ctx)@),
{
    let (value, to) = match &stmt.value {
        Stmt::Send { value, to } => (value, to),
        _ => return Err(Fault::Panic),
    };
            match record_step(&stmt.loc, ctx) {
                Err(f) => return Err(f),
                Ok(_) => {},
            }
            let payload = match eval_expr(value, node_id, nodes, ctx) {
                Err(f) => return Err(f),
                Ok(v) => v,
            };
            let target = match eval_expr(to, node_id, nodes, ctx) {
                Err(f) => return Err(f),
                Ok(v) => v,
            };
            let target = match target {
                Value::Str(t) => t,
                _ => return Err(runtime(&to.loc, RuntimeError::Type("send target must be a string"))),
            };
            if !nodes.contains_key(target.as_str()) {
                return Err(runtime(&to.loc, RuntimeError::MissingNode(target)));
            }
            let log = PendingSentMessageLog {
                local_step: ctx.local_step,
                from: node_id.to_owned(),
                to: target,
                value: payload,
                loc: stmt.loc.duplicate(),
            };
            let ghost before = ctx.sent@;
            ctx.sent.push(log);
            proof {
                assert(pending_view(ctx.sent@) =~= pending_view(before).push(log@));
                assert(ctx.executed@.len() >= 1);
                assert(sent_steps_valid(ctx@));
            }
            Ok(())
}

pub fn eval_stmt<N>(stmt: &LStmt, node_id: &str, nodes: &StrMap<N>, ctx: &mut EvalCtx) -> (r: Result<(), Fault>)
    requires
        old(ctx).wf(),
        nodes.wf(),
    ensures
        final(ctx).wf(),
        (final(ctx)@, unit_result(r)) == s_eval_stmt(view_lstmt(*stmt), node_id@, nodes.map().dom(), old(ctx)@),
    decreases *stmt, 1nat,
{
    match &stmt.value {
        Stmt::Block(_) => eval_block(stmt, node_id, nodes, ctx),
        Stmt::If { cond, yes, no } => {
            match record_step(&stmt.loc, ctx) {
                Err(f) => return Err(f),
                Ok(_) => {},
            }
            let b = match eval_bool(cond, node_id, nodes, ctx) {
                Err(f) => return Err(f),
                Ok(b) => b,
            };
            if b {
                eval_stmt(yes, node_id, nodes, ctx)
            } else {
                match no {
                    Some(n) => eval_stmt(n, node_id, nodes, ctx),
                    None => Ok(()),
                }
            }
        },
        Stmt::Send { .. } => eval_send(stmt, node_id, nodes, ctx),
        Stmt::SetColor { value } => {
            match record_step(&stmt.loc, ctx) {
                Err(f) => return Err(f),
                Ok(_) => {},
            }
            let color = match eval_expr(value, node_id, nodes, ctx) {
                Err(f) => return Err(f),
                Ok(v) => v,
            };
            match color {
                Value::Str(c) => {
                    ctx.color = c;
                    Ok(())
                },
                _ => Err(runtime(&value.loc, RuntimeError::Type("set() expects a string"))),
            }
        },
        Stmt::Assign { name, value } => {
            match record_step(&stmt.loc, ctx) {
                Err(f) => return Err(f),
                Ok(_) => {},
            }
            let result = match eval_expr(value, node_id, nodes, ctx) {
                Err(f) => return Err(f),
                Ok(v) => v,
            };
            proof {
                lemma_vars_insert(ctx.vars.map(), name@, result);
            }
            ctx.vars.insert(name.clone(), result);
            Ok(())
        },
        Stmt::Expr(expr) => {
            match record_step(&stmt.loc, ctx) {
                Err(f) => return Err(f),
                Ok(_) => {},
            }
            match eval_expr(expr, node_id, nodes, ctx) {
                Err(f) => Err(f),
                Ok(_) => Ok(()),
            }
        },
    }
}

} // verus!
