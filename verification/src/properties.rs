//! Properties of ticks and of the engine that span several operations.

use vstd::prelude::*;

use crate::ast::{BinaryOp, Loc, Located, SValue, VExpr, VLExpr, VStmt};
use crate::eval::{SPending, s_eval_stmt};
use crate::eval::{SCtx, SFault, SRuntimeError, s_eval_binary, s_eval_bool, s_eval_expr, s_eval_int};
use crate::text::{magnitude, trunc_div, trunc_rem};
use crate::lexer::{SToken, STokKind, Sym, lex, lex_from, lex_step};
use crate::lexer::spec_merge_loc;
use crate::parser::{PRes, SParseError, level_op, located, op_at, s_expr, s_left, s_left_rest, s_postfix, s_postfix_rest, s_primary, s_unary, sym_text, tok_is_sym};
use crate::engine::{
    SAction, add_action, history_of, record_executed, record_sent, s_record,
    Projection, SEngine, SEngineError, SUpdate, SWorld, other_than, s_advance, s_apply_all,
    s_apply_projected, s_apply_update,
};
use crate::tick::{
    Mailboxes, ParsedNode, SExecuted, STickLog, SMessage, SNodeOutcome, SNodeResult, SSent, STick, STickState,
    done_result, empty_tick_state, job_inbox, node_messages, node_outcomes, registry_colors,
    s_collect, s_deliver, s_enqueue, s_send, s_tick,
};

verus! {

// ---------------------------------------------------------------------------
// Ticks.
// ---------------------------------------------------------------------------

/// The state that a sequence of logged messages makes from nothing: each schedules its
/// target and is put in the target's mailbox, in order.
pub open spec fn delivered(ms: Seq<SSent>) -> STickState
    decreases ms.len(),
{
    if ms.len() == 0 {
        empty_tick_state()
    } else {
        let m = ms.last();
        s_send(s_enqueue(delivered(ms.drop_last()), m.to), SMessage { from: m.from, to: m.to, value: m.value })
    }
}

proof fn lemma_deliver_run(ms: Seq<SSent>, base: int, r: SNodeResult)
    ensures
        s_deliver(delivered(ms), r.sent) == delivered(ms + node_messages(base, r)),
    decreases r.sent.len(),
{
    let nm = node_messages(base, r);
    if r.sent.len() == 0 {
        assert(ms + nm =~= ms);
    } else {
        let r2 = SNodeResult { sent: r.sent.drop_last(), ..r };
        let nm2 = node_messages(base, r2);
        lemma_deliver_run(ms, base, r2);
        assert(nm2 =~= nm.drop_last());
        assert((ms + nm).drop_last() =~= ms + nm2);
        assert((ms + nm).last() == nm.last());
    }
}

proof fn lemma_collect_delivers(results: Seq<SNodeResult>, colors: Map<Seq<char>, Seq<char>>)
    ensures
        s_collect(results, colors).next == delivered(s_collect(results, colors).messages),
    decreases results.len(),
{
    if results.len() > 0 {
        let a = s_collect(results.drop_last(), colors);
        lemma_collect_delivers(results.drop_last(), colors);
        lemma_deliver_run(a.messages, a.step, results.last());
    }
}

/// A message is only visible in the tick after it was sent, and messages that were not
/// received are dropped: after a successful tick the next state is made of exactly the
/// messages sent during the tick, in the order of its log. Each schedules its target and
/// waits in the target's mailbox; nothing of the state before the tick is kept.
pub proof fn lemma_tick_delivers_its_messages(st: STickState, reg: Map<Seq<char>, ParsedNode>)
    ensures
        s_tick(st, reg) matches STick::Done(log, next) ==> next == delivered(log.messages),
{
    let os = node_outcomes(st, reg);
    lemma_collect_delivers(os.map_values(|o: SNodeOutcome| done_result(o)), registry_colors(reg));
}

/// A node scheduled several times in one tick reads its mailbox only in its first run;
/// the later runs get an empty inbox.
pub proof fn lemma_inbox_read_once(queue: Seq<Seq<char>>, mail: Mailboxes, i: int)
    requires
        0 <= i < queue.len(),
        queue.subrange(0, i).contains(queue[i]),
    ensures
        job_inbox(queue, mail, i) == Map::<Seq<char>, Seq<crate::ast::SValue>>::empty(),
{
}

// ---------------------------------------------------------------------------
// The engine.
// ---------------------------------------------------------------------------

/// Queued updates are applied right before a tick runs: a tick that runs sees the world
/// with the whole queue applied, empties the queue, and takes the next tick number.
pub proof fn lemma_tick_applies_queue_first(e: SEngine)
    requires
        s_advance(e).0 is Done,
        e.tick < u64::MAX,
    ensures
        ({
            let w = s_apply_all(e.world, e.pending)->Ok_0;
            let after = s_advance(e).1;
            &&& after.world.registry == w.registry
            &&& after.world.owners == w.owners
            &&& s_tick(w.tick_state, w.registry) matches STick::Done(log, next) && after.world.tick_state == next
                && after.last_tick == Some(log)
            &&& after.pending.len() == 0
            &&& after.tick == e.tick + 1
        }),
{
}

/// A tick that fails keeps the queued work: the queue was applied to the world, and the
/// work queue and mailboxes are those of the applied world, ready for a retry.
pub proof fn lemma_failed_tick_keeps_work(e: SEngine)
    requires
        s_advance(e).0 is Failed,
    ensures
        s_advance(e).1.world == s_apply_all(e.world, e.pending)->Ok_0,
        s_advance(e).1.pending.len() == 0,
        s_advance(e).1.tick == e.tick,
        s_advance(e).1.last_tick == e.last_tick,
{
}

/// An admin update of a node keeps the node's owner, in the world and in a projection.
pub proof fn lemma_admin_upsert_keeps_owner(w: SWorld, p: Projection, node: ParsedNode)
    ensures
        s_apply_update(w, SUpdate::UpsertNode { node, owner: None })->Ok_0.owners == w.owners,
        p.dom().contains(node.id@) ==> s_apply_projected(p, SUpdate::UpsertNode { node, owner: None })
            == Ok::<Projection, SEngineError>(p),
{
}

/// Removing a node removes every trace of it: its entry, its owner, its runs in the work
/// queue, its mailbox, its queues in the other mailboxes, and its history.
pub proof fn lemma_remove_forgets_node(w: SWorld, id: Seq<char>)
    requires
        w.registry.dom().contains(id),
    ensures
        s_apply_update(w, SUpdate::RemoveNode(id)) matches Ok(v) && {
            &&& !v.registry.dom().contains(id)
            &&& !v.owners.dom().contains(id)
            &&& !v.tick_state.work_queue.contains(id)
            &&& !v.tick_state.mailboxes.dom().contains(id)
            &&& forall|k: Seq<char>| #[trigger] v.tick_state.mailboxes.dom().contains(k) ==> !v.tick_state.mailboxes[k].dom().contains(id)
            &&& !v.actions.dom().contains(id)
        },
{
    let v = s_apply_update(w, SUpdate::RemoveNode(id))->Ok_0;
    let q = w.tick_state.work_queue.filter(other_than(id));
    assert(v.tick_state.work_queue == q);
    if q.contains(id) {
        let i = choose|i: int| 0 <= i < q.len() && q[i] == id;
        w.tick_state.work_queue.lemma_filter_pred(other_than(id), i);
    }
}


// ---------------------------------------------------------------------------
// Operators on literal operands.
// ---------------------------------------------------------------------------

/// A literal operand.
pub open spec fn lit(loc: Loc, v: SValue) -> VLExpr {
    Located { loc, value: VExpr::Const(v) }
}

/// A binary operation on two operands.
pub open spec fn bin(loc: Loc, op: BinaryOp, a: VLExpr, b: VLExpr) -> VLExpr {
    Located { loc, value: VExpr::Binary { op, left: Box::new(a), right: Box::new(b) } }
}

/// The value of a binary operation on two literals, step by step.
proof fn lemma_binary_unfolds(loc: Loc, op: BinaryOp, a: VLExpr, b: VLExpr, node: Seq<char>, nodes: Set<Seq<char>>, c: SCtx)
    requires
        a.value is Const,
        b.value is Const,
    ensures
        s_eval_expr(bin(loc, op, a, b), node, nodes, c) == s_eval_binary(bin(loc, op, a, b), node, nodes, c),
        s_eval_expr(a, node, nodes, c) == (c, Ok::<SValue, SFault>(a.value->Const_0)),
        s_eval_expr(b, node, nodes, c) == (c, Ok::<SValue, SFault>(b.value->Const_0)),
        s_eval_int(a, node, nodes, c) == match a.value->Const_0 {
            SValue::Int(i) => (c, Ok::<i64, SFault>(i)),
            _ => (c, Err(SFault::Runtime(a.loc, SRuntimeError::Type("expected int"@)))),
        },
        s_eval_int(b, node, nodes, c) == match b.value->Const_0 {
            SValue::Int(i) => (c, Ok::<i64, SFault>(i)),
            _ => (c, Err(SFault::Runtime(b.loc, SRuntimeError::Type("expected int"@)))),
        },
        s_eval_bool(a, node, nodes, c) == match a.value->Const_0 {
            SValue::Bool(v) => (c, Ok::<bool, SFault>(v)),
            _ => (c, Err(SFault::Runtime(a.loc, SRuntimeError::Type("expected bool"@)))),
        },
        s_eval_bool(b, node, nodes, c) == match b.value->Const_0 {
            SValue::Bool(v) => (c, Ok::<bool, SFault>(v)),
            _ => (c, Err(SFault::Runtime(b.loc, SRuntimeError::Type("expected bool"@)))),
        },
{
}

/// Comparisons of two integer literals give the truth of the comparison, and leave the
/// node's state as it was.
pub proof fn lemma_comparisons_on_literals(
    loc: Loc,
    la: Loc,
    lb: Loc,
    x: i64,
    y: i64,
    node: Seq<char>,
    nodes: Set<Seq<char>>,
    c: SCtx,
)
    ensures
        s_eval_expr(bin(loc, BinaryOp::Less, lit(la, SValue::Int(x)), lit(lb, SValue::Int(y))), node, nodes, c)
            == (c, Ok::<SValue, SFault>(SValue::Bool(x < y))),
        s_eval_expr(bin(loc, BinaryOp::LessEqual, lit(la, SValue::Int(x)), lit(lb, SValue::Int(y))), node, nodes, c)
            == (c, Ok::<SValue, SFault>(SValue::Bool(x <= y))),
        s_eval_expr(bin(loc, BinaryOp::Greater, lit(la, SValue::Int(x)), lit(lb, SValue::Int(y))), node, nodes, c)
            == (c, Ok::<SValue, SFault>(SValue::Bool(x > y))),
        s_eval_expr(bin(loc, BinaryOp::GreaterEqual, lit(la, SValue::Int(x)), lit(lb, SValue::Int(y))), node, nodes, c)
            == (c, Ok::<SValue, SFault>(SValue::Bool(x >= y))),
        s_eval_expr(bin(loc, BinaryOp::Equal, lit(la, SValue::Int(x)), lit(lb, SValue::Int(y))), node, nodes, c)
            == (c, Ok::<SValue, SFault>(SValue::Bool(x == y))),
        s_eval_expr(bin(loc, BinaryOp::NotEqual, lit(la, SValue::Int(x)), lit(lb, SValue::Int(y))), node, nodes, c)
            == (c, Ok::<SValue, SFault>(SValue::Bool(x != y))),
{
    let a = lit(la, SValue::Int(x));
    let b = lit(lb, SValue::Int(y));
    lemma_binary_unfolds(loc, BinaryOp::Less, a, b, node, nodes, c);
    lemma_binary_unfolds(loc, BinaryOp::LessEqual, a, b, node, nodes, c);
    lemma_binary_unfolds(loc, BinaryOp::Greater, a, b, node, nodes, c);
    lemma_binary_unfolds(loc, BinaryOp::GreaterEqual, a, b, node, nodes, c);
    lemma_binary_unfolds(loc, BinaryOp::Equal, a, b, node, nodes, c);
    lemma_binary_unfolds(loc, BinaryOp::NotEqual, a, b, node, nodes, c);
    lemma_binary_unfolds(loc, BinaryOp::Add, a, b, node, nodes, c);
    lemma_binary_unfolds(loc, BinaryOp::Sub, a, b, node, nodes, c);
    lemma_binary_unfolds(loc, BinaryOp::Mul, a, b, node, nodes, c);
    lemma_binary_unfolds(loc, BinaryOp::Div, a, b, node, nodes, c);
    lemma_binary_unfolds(loc, BinaryOp::Mod, a, b, node, nodes, c);
}

/// Sums, differences and products of two integer literals are the mathematical ones when
/// they fit in an `i64`, and panic when they do not.
pub proof fn lemma_arithmetic_on_literals(
    loc: Loc,
    la: Loc,
    lb: Loc,
    x: i64,
    y: i64,
    node: Seq<char>,
    nodes: Set<Seq<char>>,
    c: SCtx,
)
    ensures
        s_eval_expr(bin(loc, BinaryOp::Add, lit(la, SValue::Int(x)), lit(lb, SValue::Int(y))), node, nodes, c)
            == (c, if i64::MIN <= x + y <= i64::MAX {
                Ok::<SValue, SFault>(SValue::Int((x + y) as i64))
            } else {
                Err(SFault::Panic)
            }),
        s_eval_expr(bin(loc, BinaryOp::Sub, lit(la, SValue::Int(x)), lit(lb, SValue::Int(y))), node, nodes, c)
            == (c, if i64::MIN <= x - y <= i64::MAX {
                Ok::<SValue, SFault>(SValue::Int((x - y) as i64))
            } else {
                Err(SFault::Panic)
            }),
        s_eval_expr(bin(loc, BinaryOp::Mul, lit(la, SValue::Int(x)), lit(lb, SValue::Int(y))), node, nodes, c)
            == (c, if i64::MIN <= x * y <= i64::MAX {
                Ok::<SValue, SFault>(SValue::Int((x * y) as i64))
            } else {
                Err(SFault::Panic)
            }),
{
    let a = lit(la, SValue::Int(x));
    let b = lit(lb, SValue::Int(y));
    lemma_binary_unfolds(loc, BinaryOp::Less, a, b, node, nodes, c);
    lemma_binary_unfolds(loc, BinaryOp::LessEqual, a, b, node, nodes, c);
    lemma_binary_unfolds(loc, BinaryOp::Greater, a, b, node, nodes, c);
    lemma_binary_unfolds(loc, BinaryOp::GreaterEqual, a, b, node, nodes, c);
    lemma_binary_unfolds(loc, BinaryOp::Equal, a, b, node, nodes, c);
    lemma_binary_unfolds(loc, BinaryOp::NotEqual, a, b, node, nodes, c);
    lemma_binary_unfolds(loc, BinaryOp::Add, a, b, node, nodes, c);
    lemma_binary_unfolds(loc, BinaryOp::Sub, a, b, node, nodes, c);
    lemma_binary_unfolds(loc, BinaryOp::Mul, a, b, node, nodes, c);
    lemma_binary_unfolds(loc, BinaryOp::Div, a, b, node, nodes, c);
    lemma_binary_unfolds(loc, BinaryOp::Mod, a, b, node, nodes, c);
}

/// Division and remainder of two integer literals: division by zero is an error at the
/// divisor; otherwise (but for `i64::MIN / -1`, which panics) the quotient `q` and
/// remainder `r` satisfy `q * y + r == x`, with `r` smaller than `y` in magnitude and
/// never of the opposite sign to `x`: division rounds toward zero.
pub proof fn lemma_division_on_literals(
    loc: Loc,
    la: Loc,
    lb: Loc,
    x: i64,
    y: i64,
    node: Seq<char>,
    nodes: Set<Seq<char>>,
    c: SCtx,
)
    ensures
        y == 0 ==> s_eval_expr(bin(loc, BinaryOp::Div, lit(la, SValue::Int(x)), lit(lb, SValue::Int(y))), node, nodes, c)
            == (c, Err::<SValue, SFault>(SFault::Runtime(lb, SRuntimeError::DivisionByZero))),
        y == 0 ==> s_eval_expr(bin(loc, BinaryOp::Mod, lit(la, SValue::Int(x)), lit(lb, SValue::Int(y))), node, nodes, c)
            == (c, Err::<SValue, SFault>(SFault::Runtime(lb, SRuntimeError::DivisionByZero))),
        x == i64::MIN && y == -1 ==> s_eval_expr(bin(loc, BinaryOp::Div, lit(la, SValue::Int(x)), lit(lb, SValue::Int(y))), node, nodes, c)
            == (c, Err::<SValue, SFault>(SFault::Panic)),
        y != 0 && !(x == i64::MIN && y == -1) ==> ({
            let (cq, q) = s_eval_expr(bin(loc, BinaryOp::Div, lit(la, SValue::Int(x)), lit(lb, SValue::Int(y))), node, nodes, c);
            let (cr, r) = s_eval_expr(bin(loc, BinaryOp::Mod, lit(la, SValue::Int(x)), lit(lb, SValue::Int(y))), node, nodes, c);
            &&& cq == c
            &&& cr == c
            &&& q matches Ok(SValue::Int(qv))
            &&& r matches Ok(SValue::Int(rv))
            &&& qv * y + rv == x
            &&& (if rv < 0 { -rv } else { rv as int }) < (if y < 0 { -y } else { y as int })
            &&& (rv == 0 || ((rv < 0) == (x < 0)))
        }),
{
    let a = lit(la, SValue::Int(x));
    let b = lit(lb, SValue::Int(y));
    lemma_binary_unfolds(loc, BinaryOp::Less, a, b, node, nodes, c);
    lemma_binary_unfolds(loc, BinaryOp::LessEqual, a, b, node, nodes, c);
    lemma_binary_unfolds(loc, BinaryOp::Greater, a, b, node, nodes, c);
    lemma_binary_unfolds(loc, BinaryOp::GreaterEqual, a, b, node, nodes, c);
    lemma_binary_unfolds(loc, BinaryOp::Equal, a, b, node, nodes, c);
    lemma_binary_unfolds(loc, BinaryOp::NotEqual, a, b, node, nodes, c);
    lemma_binary_unfolds(loc, BinaryOp::Add, a, b, node, nodes, c);
    lemma_binary_unfolds(loc, BinaryOp::Sub, a, b, node, nodes, c);
    lemma_binary_unfolds(loc, BinaryOp::Mul, a, b, node, nodes, c);
    lemma_binary_unfolds(loc, BinaryOp::Div, a, b, node, nodes, c);
    lemma_binary_unfolds(loc, BinaryOp::Mod, a, b, node, nodes, c);
    if y != 0 && !(x == i64::MIN && y == -1) {
        let ax = magnitude(x as int);
        let ay = magnitude(y as int);
        let q = ax / ay;
        let r = ax % ay;
        assert(ax == q * ay + r && 0 <= r < ay) by (nonlinear_arith)
            requires
                ay > 0,
                ax >= 0,
                q == ax / ay,
                r == ax % ay,
        ;
        assert(0 <= q <= ax) by (nonlinear_arith)
            requires
                ay > 0,
                ax >= 0,
                q == ax / ay,
        ;
        let tq = trunc_div(x as int, y as int);
        let tr = trunc_rem(x as int, y as int);
        assert(tq * (y as int) + tr == x) by (nonlinear_arith)
            requires
                ax == q * ay + r,
                ax == (if x < 0 { -x } else { x as int }),
                ay == (if y < 0 { -y } else { y as int }),
                tq == (if (x < 0) != (y < 0) { -q } else { q }),
                tr == (if x < 0 { -r } else { r }),
        ;
        assert(ax <= 0x8000_0000_0000_0000);
        assert(ax == 0x8000_0000_0000_0000 ==> x == i64::MIN);
        if (x < 0) != (y < 0) {
            assert(i64::MIN <= tq <= 0);
        } else if ay == 1 {
            assert(q == ax) by (nonlinear_arith)
                requires
                    ax == q * ay + r,
                    ay == 1,
                    0 <= r < ay,
            ;
            assert(tq <= i64::MAX);
        } else {
            assert(2 * q <= ax) by (nonlinear_arith)
                requires
                    ax == q * ay + r,
                    ay >= 2,
                    r >= 0,
                    q >= 0,
            ;
            assert(0 <= tq <= i64::MAX);
        }
    }
}

/// `!` negates a boolean literal, and `len` gives the length of a string literal.
pub proof fn lemma_not_and_len_on_literals(
    loc: Loc,
    la: Loc,
    p: bool,
    t: Seq<char>,
    node: Seq<char>,
    nodes: Set<Seq<char>>,
    c: SCtx,
)
    requires
        t.len() <= i64::MAX,
    ensures
        s_eval_expr(Located { loc, value: VExpr::UnaryNot(Box::new(lit(la, SValue::Bool(p)))) }, node, nodes, c)
            == (c, Ok::<SValue, SFault>(SValue::Bool(!p))),
        s_eval_expr(Located { loc, value: VExpr::Len(Box::new(lit(la, SValue::Str(t)))) }, node, nodes, c)
            == (c, Ok::<SValue, SFault>(SValue::Int(t.len() as i64))),
{
    assert(s_eval_expr(lit(la, SValue::Bool(p)), node, nodes, c) == (c, Ok::<SValue, SFault>(SValue::Bool(p))));
    assert(s_eval_expr(lit(la, SValue::Str(t)), node, nodes, c) == (c, Ok::<SValue, SFault>(SValue::Str(t))));
}

/// Statements on literal operands: each records its location as an executed step; an
/// assignment binds the variable to the value; `set` changes the node's color; `send`
/// to an existing node adds a pending message from the running node to that node, with
/// the value and the number of the step; `send` to a node that does not exist is an
/// error at the target.
pub proof fn lemma_statements_on_literals(
    loc: Loc,
    la: Loc,
    lb: Loc,
    name: Seq<char>,
    v: SValue,
    color: Seq<char>,
    target: Seq<char>,
    node: Seq<char>,
    nodes: Set<Seq<char>>,
    c: SCtx,
)
    requires
        c.executed.len() < usize::MAX,
    ensures
        s_eval_stmt(Located { loc, value: VStmt::Assign { name, value: lit(la, v) } }, node, nodes, c) == (
            SCtx { vars: c.vars.insert(name, v), executed: c.executed.push(loc), ..c },
            Ok::<(), SFault>(()),
        ),
        s_eval_stmt(Located { loc, value: VStmt::SetColor { value: lit(la, SValue::Str(color)) } }, node, nodes, c) == (
            SCtx { color: color, executed: c.executed.push(loc), ..c },
            Ok::<(), SFault>(()),
        ),
        nodes.contains(target) ==> s_eval_stmt(
            Located { loc, value: VStmt::Send { value: lit(la, v), to: lit(lb, SValue::Str(target)) } },
            node,
            nodes,
            c,
        ) == (
            SCtx {
                executed: c.executed.push(loc),
                sent: c.sent.push(
                    SPending { local_step: c.executed.len() as int + 1, from: node, to: target, value: v, loc: loc },
                ),
                ..c
            },
            Ok::<(), SFault>(()),
        ),
        !nodes.contains(target) ==> s_eval_stmt(
            Located { loc, value: VStmt::Send { value: lit(la, v), to: lit(lb, SValue::Str(target)) } },
            node,
            nodes,
            c,
        ).1 == Err::<(), SFault>(SFault::Runtime(lb, SRuntimeError::MissingNode(target))),
{
    let c0 = SCtx { executed: c.executed.push(loc), ..c };
    assert(s_eval_expr(lit(la, v), node, nodes, c0) == (c0, Ok::<SValue, SFault>(v)));
    assert(s_eval_expr(lit(la, SValue::Str(color)), node, nodes, c0) == (c0, Ok::<SValue, SFault>(SValue::Str(color))));
    assert(s_eval_expr(lit(lb, SValue::Str(target)), node, nodes, c0) == (c0, Ok::<SValue, SFault>(SValue::Str(target))));
}

/// Receiving from a sender named by a string literal takes the first value waiting from
/// it, and removes it from the inbox; with nothing waiting it gives `none`.
pub proof fn lemma_receive_from_literal(
    loc: Loc,
    la: Loc,
    from: Seq<char>,
    node: Seq<char>,
    nodes: Set<Seq<char>>,
    c: SCtx,
)
    ensures
        ({
            let r = s_eval_expr(Located { loc, value: VExpr::Receive { from: Box::new(lit(la, SValue::Str(from))) } }, node, nodes, c);
            if c.inbox.dom().contains(from) && c.inbox[from].len() > 0 {
                r == (SCtx { inbox: c.inbox.insert(from, c.inbox[from].subrange(1, c.inbox[from].len() as int)), ..c },
                    Ok::<SValue, SFault>(c.inbox[from][0]))
            } else {
                r == (c, Ok::<SValue, SFault>(SValue::Nil))
            }
        }),
{
    assert(s_eval_expr(lit(la, SValue::Str(from)), node, nodes, c) == (c, Ok::<SValue, SFault>(SValue::Str(from))));
    if c.inbox.dom().contains(from) && c.inbox[from].len() > 0 {
        assert(c.inbox[from].drop_first() =~= c.inbox[from].subrange(1, c.inbox[from].len() as int));
    }
}

/// `&&` and `||` on boolean literals, and `+` on string literals.
pub proof fn lemma_logic_and_concat_on_literals(
    loc: Loc,
    la: Loc,
    lb: Loc,
    p: bool,
    q: bool,
    s: Seq<char>,
    t: Seq<char>,
    node: Seq<char>,
    nodes: Set<Seq<char>>,
    c: SCtx,
)
    ensures
        s_eval_expr(bin(loc, BinaryOp::And, lit(la, SValue::Bool(p)), lit(lb, SValue::Bool(q))), node, nodes, c)
            == (c, Ok::<SValue, SFault>(SValue::Bool(p && q))),
        s_eval_expr(bin(loc, BinaryOp::Or, lit(la, SValue::Bool(p)), lit(lb, SValue::Bool(q))), node, nodes, c)
            == (c, Ok::<SValue, SFault>(SValue::Bool(p || q))),
        s_eval_expr(bin(loc, BinaryOp::Add, lit(la, SValue::Str(s)), lit(lb, SValue::Str(t))), node, nodes, c)
            == (c, Ok::<SValue, SFault>(SValue::Str(s + t))),
{
    let a = lit(la, SValue::Bool(p));
    let b = lit(lb, SValue::Bool(q));
    lemma_binary_unfolds(loc, BinaryOp::And, a, b, node, nodes, c);
    lemma_binary_unfolds(loc, BinaryOp::Or, a, b, node, nodes, c);
    lemma_binary_unfolds(loc, BinaryOp::Add, lit(la, SValue::Str(s)), lit(lb, SValue::Str(t)), node, nodes, c);
}


// ---------------------------------------------------------------------------
// Mailboxes and histories.
// ---------------------------------------------------------------------------

/// The queue of values waiting in `to`'s mailbox from `from` (empty when there is none).
pub open spec fn queue_of(mail: Mailboxes, to: Seq<char>, from: Seq<char>) -> Seq<SValue> {
    if mail.dom().contains(to) && mail[to].dom().contains(from) {
        mail[to][from]
    } else {
        seq![]
    }
}

/// Sending a message appends its value to the queue from its sender in its target's
/// mailbox; every other queue, and the work queue, stay as they were.
pub proof fn lemma_send_appends_to_target_mailbox(st: STickState, m: SMessage)
    ensures
        queue_of(s_send(st, m).mailboxes, m.to, m.from) == queue_of(st.mailboxes, m.to, m.from).push(m.value),
        forall|to: Seq<char>, from: Seq<char>|
            !(to == m.to && from == m.from) ==> #[trigger] queue_of(s_send(st, m).mailboxes, to, from)
                == queue_of(st.mailboxes, to, from),
        s_send(st, m).work_queue == st.work_queue,
{
}

/// Scheduling a node appends it to the work queue and leaves the mailboxes alone.
pub proof fn lemma_enqueue_appends(st: STickState, id: Seq<char>)
    ensures
        s_enqueue(st, id).work_queue == st.work_queue.push(id),
        s_enqueue(st, id).mailboxes == st.mailboxes,
{
}

/// A queued message, once applied, waits in its target's mailbox at the end of the queue
/// from its sender; the nodes, the owners, the work queue, every other queue and the
/// histories stay as they were.
pub proof fn lemma_queued_message_reaches_target(w: SWorld, m: SMessage)
    requires
        w.registry.dom().contains(m.from),
        w.registry.dom().contains(m.to),
    ensures
        s_apply_update(w, SUpdate::SendMessage(m)) matches Ok(v) && {
            &&& queue_of(v.tick_state.mailboxes, m.to, m.from) == queue_of(w.tick_state.mailboxes, m.to, m.from).push(
                m.value,
            )
            &&& forall|to: Seq<char>, from: Seq<char>|
                !(to == m.to && from == m.from) ==> #[trigger] queue_of(v.tick_state.mailboxes, to, from)
                    == queue_of(w.tick_state.mailboxes, to, from)
            &&& v.tick_state.work_queue == w.tick_state.work_queue
            &&& v.registry == w.registry
            &&& v.owners == w.owners
            &&& v.actions == w.actions
        },
{
    lemma_send_appends_to_target_mailbox(w.tick_state, m);
}

/// The lines a node executed, in the order of the log.
pub open spec fn executed_by(es: Seq<SExecuted>, id: Seq<char>) -> Seq<SExecuted> {
    es.filter(|e: SExecuted| e.node_id == id)
}

/// The messages a node sent, in the order of the log.
pub open spec fn sent_by(ms: Seq<SSent>, id: Seq<char>) -> Seq<SSent> {
    ms.filter(|m: SSent| m.from == id)
}

/// The history entries for executed lines of a tick.
pub open spec fn line_actions(es: Seq<SExecuted>, tick: u64) -> Seq<SAction> {
    es.map_values(|e: SExecuted| SAction::ExecutedLine { tick, step: e.step, loc: e.loc })
}

/// The history entries for messages sent during a tick.
pub open spec fn message_actions(ms: Seq<SSent>, tick: u64) -> Seq<SAction> {
    ms.map_values(|m: SSent| SAction::SentMessage { tick, step: m.step, to: m.to, value: m.value, loc: m.loc })
}

proof fn lemma_add_action_history(h: Map<Seq<char>, Seq<SAction>>, who: Seq<char>, a: SAction, id: Seq<char>)
    ensures
        history_of(add_action(h, who, a), id) == if who == id {
            history_of(h, id).push(a)
        } else {
            history_of(h, id)
        },
{
}

proof fn lemma_record_executed_history(h: Map<Seq<char>, Seq<SAction>>, tick: u64, es: Seq<SExecuted>, id: Seq<char>)
    ensures
        history_of(record_executed(h, tick, es), id) == history_of(h, id) + line_actions(executed_by(es, id), tick),
    decreases es.len(),
{
    reveal(Seq::filter);
    if es.len() == 0 {
        assert(executed_by(es, id) =~= Seq::<SExecuted>::empty());
        assert(history_of(h, id) + line_actions(executed_by(es, id), tick) =~= history_of(h, id));
    } else {
        let e = es.last();
        lemma_record_executed_history(h, tick, es.drop_last(), id);
        lemma_add_action_history(
            record_executed(h, tick, es.drop_last()),
            e.node_id,
            SAction::ExecutedLine { tick, step: e.step, loc: e.loc },
            id,
        );
        assert(executed_by(es, id) == if e.node_id == id {
            executed_by(es.drop_last(), id).push(e)
        } else {
            executed_by(es.drop_last(), id)
        });
        if e.node_id == id {
            assert(line_actions(executed_by(es, id), tick) =~= line_actions(executed_by(es.drop_last(), id), tick).push(
                SAction::ExecutedLine { tick, step: e.step, loc: e.loc },
            ));
            assert(history_of(h, id) + line_actions(executed_by(es, id), tick) =~= (history_of(h, id) + line_actions(
                executed_by(es.drop_last(), id),
                tick,
            )).push(SAction::ExecutedLine { tick, step: e.step, loc: e.loc }));
        }
    }
}

proof fn lemma_record_sent_history(h: Map<Seq<char>, Seq<SAction>>, tick: u64, ms: Seq<SSent>, id: Seq<char>)
    ensures
        history_of(record_sent(h, tick, ms), id) == history_of(h, id) + message_actions(sent_by(ms, id), tick),
    decreases ms.len(),
{
    reveal(Seq::filter);
    if ms.len() == 0 {
        assert(sent_by(ms, id) =~= Seq::<SSent>::empty());
        assert(history_of(h, id) + message_actions(sent_by(ms, id), tick) =~= history_of(h, id));
    } else {
        let m = ms.last();
        let a = SAction::SentMessage { tick, step: m.step, to: m.to, value: m.value, loc: m.loc };
        lemma_record_sent_history(h, tick, ms.drop_last(), id);
        lemma_add_action_history(record_sent(h, tick, ms.drop_last()), m.from, a, id);
        assert(sent_by(ms, id) == if m.from == id {
            sent_by(ms.drop_last(), id).push(m)
        } else {
            sent_by(ms.drop_last(), id)
        });
        if m.from == id {
            assert(message_actions(sent_by(ms, id), tick) =~= message_actions(sent_by(ms.drop_last(), id), tick).push(a));
            assert(history_of(h, id) + message_actions(sent_by(ms, id), tick) =~= (history_of(h, id) + message_actions(
                sent_by(ms.drop_last(), id),
                tick,
            )).push(a));
        }
    }
}

/// After a tick, each node's history is its history before, then one entry for each
/// line it executed, then one entry for each message it sent, in the order of the log:
/// an executed line keeps its step and location, a sent message its step, target, value
/// and location, and every entry carries the tick's number.
pub proof fn lemma_tick_history(h: Map<Seq<char>, Seq<SAction>>, tick: u64, log: STickLog, id: Seq<char>)
    ensures
        history_of(s_record(h, tick, log), id) == history_of(h, id) + line_actions(executed_by(log.executed, id), tick)
            + message_actions(sent_by(log.messages, id), tick),
{
    lemma_record_executed_history(h, tick, log.executed, id);
    lemma_record_sent_history(record_executed(h, tick, log.executed), tick, log.messages, id);
}

/// Every message in a tick's log is in its sender's history as a sent message with the
/// message's target and value.
pub proof fn lemma_sent_messages_recorded(h: Map<Seq<char>, Seq<SAction>>, tick: u64, log: STickLog, i: int)
    requires
        0 <= i < log.messages.len(),
    ensures
        history_of(s_record(h, tick, log), log.messages[i].from).contains(
            SAction::SentMessage {
                tick,
                step: log.messages[i].step,
                to: log.messages[i].to,
                value: log.messages[i].value,
                loc: log.messages[i].loc,
            },
        ),
{
    let m = log.messages[i];
    let id = m.from;
    lemma_tick_history(h, tick, log, id);
    let pred = |x: SSent| x.from == id;
    log.messages.lemma_filter_contains(pred, i);
    let f = sent_by(log.messages, id);
    assert(f.contains(m));
    let j = choose|j: int| 0 <= j < f.len() && f[j] == m;
    let ma = message_actions(f, tick);
    let pre = history_of(h, id) + line_actions(executed_by(log.executed, id), tick);
    assert((pre + ma)[pre.len() + j] == ma[j]);
}


// ---------------------------------------------------------------------------
// Tokens.
// ---------------------------------------------------------------------------

/// The bytes of a symbol's spelling.
pub open spec fn spelling(s: Sym) -> Seq<u8> {
    sym_text(s).map_values(|c: char| c as u8)
}

/// Every symbol's spelling lexes to that symbol, whatever follows it after a space.
pub proof fn lemma_symbols_lex_to_themselves(s: Sym, rest: Seq<u8>)
    requires
        rest.len() == 0 || rest[0] == 32u8,
    ensures
        lex(spelling(s) + rest).len() >= 1,
        lex(spelling(s) + rest)[0].kind == STokKind::Symbol(s),
{
    match s {
        Sym::LBrace => {
            reveal_strlit("{");
        },
        Sym::RBrace => {
            reveal_strlit("}");
        },
        Sym::LParen => {
            reveal_strlit("(");
        },
        Sym::RParen => {
            reveal_strlit(")");
        },
        Sym::LBracket => {
            reveal_strlit("[");
        },
        Sym::RBracket => {
            reveal_strlit("]");
        },
        Sym::Colon => {
            reveal_strlit(":");
        },
        Sym::Comma => {
            reveal_strlit(",");
        },
        Sym::Plus => {
            reveal_strlit("+");
        },
        Sym::Minus => {
            reveal_strlit("-");
        },
        Sym::Star => {
            reveal_strlit("*");
        },
        Sym::Slash => {
            reveal_strlit("/");
        },
        Sym::Percent => {
            reveal_strlit("%");
        },
        Sym::Less => {
            reveal_strlit("<");
        },
        Sym::Greater => {
            reveal_strlit(">");
        },
        Sym::Assign => {
            reveal_strlit("=");
        },
        Sym::Bang => {
            reveal_strlit("!");
        },
        Sym::EqEq => {
            reveal_strlit("==");
        },
        Sym::NotEq => {
            reveal_strlit("!=");
        },
        Sym::LessEq => {
            reveal_strlit("<=");
        },
        Sym::GreaterEq => {
            reveal_strlit(">=");
        },
        Sym::AndAnd => {
            reveal_strlit("&&");
        },
        Sym::OrOr => {
            reveal_strlit("||");
        },
    }
    let b = spelling(s) + rest;
    assert(1 <= spelling(s).len() <= 2);
    if spelling(s).len() == 2 {
        assert(b[0] == spelling(s)[0] && b[1] == spelling(s)[1]);
    } else {
        assert(b[0] == spelling(s)[0]);
        assert(b.len() > 1 ==> b[1] == 32u8);
    }
    let (t, next) = lex_step(b, 0);
    assert(t == Some(SToken { kind: STokKind::Symbol(s), loc: t->0.loc }));
    assert(next == spelling(s).len());
    assert(lex(b) == seq![t->0] + lex_from(b, next));
}


// ---------------------------------------------------------------------------
// Operator precedence.
// ---------------------------------------------------------------------------

/// The operation a binary operator symbol stands for.
pub open spec fn binary_op_of(s: Sym) -> Option<BinaryOp> {
    match s {
        Sym::OrOr => Some(BinaryOp::Or),
        Sym::AndAnd => Some(BinaryOp::And),
        Sym::EqEq => Some(BinaryOp::Equal),
        Sym::NotEq => Some(BinaryOp::NotEqual),
        Sym::Less => Some(BinaryOp::Less),
        Sym::LessEq => Some(BinaryOp::LessEqual),
        Sym::Greater => Some(BinaryOp::Greater),
        Sym::GreaterEq => Some(BinaryOp::GreaterEqual),
        Sym::Plus => Some(BinaryOp::Add),
        Sym::Minus => Some(BinaryOp::Sub),
        Sym::Star => Some(BinaryOp::Mul),
        Sym::Slash => Some(BinaryOp::Div),
        Sym::Percent => Some(BinaryOp::Mod),
        _ => None,
    }
}

/// How loosely a binary operator binds: `* / %` bind tightest, then `+ -`, then the
/// comparisons, then `&&`, then `||`.
pub open spec fn looseness(s: Sym) -> nat {
    match s {
        Sym::Star | Sym::Slash | Sym::Percent => 1,
        Sym::Plus | Sym::Minus => 2,
        Sym::EqEq | Sym::NotEq | Sym::Less | Sym::LessEq | Sym::Greater | Sym::GreaterEq => 3,
        Sym::AndAnd => 4,
        Sym::OrOr => 5,
        _ => 0,
    }
}

/// An integer literal.
pub open spec fn is_int(e: VLExpr, v: i64) -> bool {
    e.value == VExpr::Const(SValue::Int(v))
}

/// `op1(a, op2(b, c))`
pub open spec fn is_right_nested(e: VLExpr, op1: BinaryOp, a: i64, op2: BinaryOp, b: i64, c: i64) -> bool {
    &&& e.value is Binary
    &&& e.value->Binary_op == op1
    &&& is_int(*e.value->Binary_left, a)
    &&& e.value->Binary_right.value is Binary
    &&& e.value->Binary_right.value->Binary_op == op2
    &&& is_int(*e.value->Binary_right.value->Binary_left, b)
    &&& is_int(*e.value->Binary_right.value->Binary_right, c)
}

/// `op2(op1(a, b), c)`
pub open spec fn is_left_nested(e: VLExpr, op1: BinaryOp, a: i64, b: i64, op2: BinaryOp, c: i64) -> bool {
    &&& e.value is Binary
    &&& e.value->Binary_op == op2
    &&& e.value->Binary_left.value is Binary
    &&& e.value->Binary_left.value->Binary_op == op1
    &&& is_int(*e.value->Binary_left.value->Binary_left, a)
    &&& is_int(*e.value->Binary_left.value->Binary_right, b)
    &&& is_int(*e.value->Binary_right, c)
}

proof fn lemma_level_op_table(l: nat, s: Sym)
    requires
        1 <= l <= 5,
    ensures
        level_op(l, s) == if binary_op_of(s) is Some && looseness(s) == l {
            binary_op_of(s)
        } else {
            None
        },
{
}

/// The parse of an operand at level `l`: a unary expression at level 0, a chain of
/// operators of level at most `l` above it.
spec fn level_parse(ts: Seq<SToken>, eof: Loc, l: nat, pos: int) -> PRes<VLExpr> {
    if l == 0 {
        s_unary(ts, eof, pos)
    } else {
        s_left(ts, eof, l, pos)
    }
}

proof fn lemma_atom(ts: Seq<SToken>, eof: Loc, pos: int, v: i64)
    requires
        0 <= pos < ts.len(),
        ts[pos].kind == STokKind::Int(v as int),
        !tok_is_sym(ts, pos + 1, Sym::LBracket),
    ensures
        level_parse(ts, eof, 0, pos) == Ok::<(VLExpr, int), SParseError>(
            (located(ts[pos].loc, VExpr::Const(SValue::Int(v))), pos + 1),
        ),
{
    let e = located(ts[pos].loc, VExpr::Const(SValue::Int(v)));
    assert(s_primary(ts, eof, pos) == Ok::<(VLExpr, int), SParseError>((e, pos + 1)));
    assert(s_postfix_rest(ts, eof, pos + 1, e) == Ok::<(VLExpr, int), SParseError>((e, pos + 1)));
    assert(s_postfix(ts, eof, pos) == Ok::<(VLExpr, int), SParseError>((e, pos + 1)));
}

proof fn lemma_lift(ts: Seq<SToken>, eof: Loc, l0: nat, k: nat, pos: int, e: VLExpr, p: int)
    requires
        l0 <= k <= 5,
        level_parse(ts, eof, l0, pos) == Ok::<(VLExpr, int), SParseError>((e, p)),
        pos <= p <= ts.len(),
        forall|l: nat| l0 < l <= k ==> #[trigger] op_at(ts, p, l) is None,
    ensures
        level_parse(ts, eof, k, pos) == Ok::<(VLExpr, int), SParseError>((e, p)),
    decreases k,
{
    if k > l0 {
        lemma_lift(ts, eof, l0, (k - 1) as nat, pos, e, p);
        assert(op_at(ts, p, k) is None);
        assert(s_left_rest(ts, eof, k, p, e) == Ok::<(VLExpr, int), SParseError>((e, p)));
    }
}

proof fn lemma_step(
    ts: Seq<SToken>,
    eof: Loc,
    l: nat,
    pos: int,
    e: VLExpr,
    p: int,
    o: BinaryOp,
    r: VLExpr,
    q: int,
)
    requires
        1 <= l <= 5,
        level_parse(ts, eof, (l - 1) as nat, pos) == Ok::<(VLExpr, int), SParseError>((e, p)),
        pos <= p < q <= ts.len(),
        op_at(ts, p, l) == Some(o),
        level_parse(ts, eof, (l - 1) as nat, p + 1) == Ok::<(VLExpr, int), SParseError>((r, q)),
        op_at(ts, q, l) is None,
    ensures
        level_parse(ts, eof, l, pos) == Ok::<(VLExpr, int), SParseError>(
            (located(spec_merge_loc(e.loc, r.loc), VExpr::Binary { op: o, left: Box::new(e), right: Box::new(r) }), q),
        ),
{
    let b = located(spec_merge_loc(e.loc, r.loc), VExpr::Binary { op: o, left: Box::new(e), right: Box::new(r) });
    assert(s_left_rest(ts, eof, l, q, b) == Ok::<(VLExpr, int), SParseError>((b, q)));
    assert(s_left_rest(ts, eof, l, p, e) == Ok::<(VLExpr, int), SParseError>((b, q)));
}

proof fn lemma_step2(
    ts: Seq<SToken>,
    eof: Loc,
    l: nat,
    pos: int,
    e: VLExpr,
    p: int,
    o1: BinaryOp,
    r1: VLExpr,
    q1: int,
    o2: BinaryOp,
    r2: VLExpr,
    q2: int,
)
    requires
        1 <= l <= 5,
        level_parse(ts, eof, (l - 1) as nat, pos) == Ok::<(VLExpr, int), SParseError>((e, p)),
        pos <= p < q1 < q2 <= ts.len(),
        op_at(ts, p, l) == Some(o1),
        level_parse(ts, eof, (l - 1) as nat, p + 1) == Ok::<(VLExpr, int), SParseError>((r1, q1)),
        op_at(ts, q1, l) == Some(o2),
        level_parse(ts, eof, (l - 1) as nat, q1 + 1) == Ok::<(VLExpr, int), SParseError>((r2, q2)),
        op_at(ts, q2, l) is None,
    ensures
        ({
            let b1 = located(spec_merge_loc(e.loc, r1.loc), VExpr::Binary { op: o1, left: Box::new(e), right: Box::new(r1) });
            level_parse(ts, eof, l, pos) == Ok::<(VLExpr, int), SParseError>(
                (located(spec_merge_loc(b1.loc, r2.loc), VExpr::Binary { op: o2, left: Box::new(b1), right: Box::new(r2) }), q2),
            )
        }),
{
    let b1 = located(spec_merge_loc(e.loc, r1.loc), VExpr::Binary { op: o1, left: Box::new(e), right: Box::new(r1) });
    let b2 = located(spec_merge_loc(b1.loc, r2.loc), VExpr::Binary { op: o2, left: Box::new(b1), right: Box::new(r2) });
    assert(s_left_rest(ts, eof, l, q2, b2) == Ok::<(VLExpr, int), SParseError>((b2, q2)));
    assert(s_left_rest(ts, eof, l, q1, b1) == Ok::<(VLExpr, int), SParseError>((b2, q2)));
    assert(s_left_rest(ts, eof, l, p, e) == Ok::<(VLExpr, int), SParseError>((b2, q2)));
}

/// Precedence and associativity: in `a s1 b s2 c`, an operator that binds tighter takes
/// its operands first, and of two operators that bind alike the left one does. So
/// `a + b * c` parses as `a + (b * c)`, `a * b + c` as `(a * b) + c`, `a - b - c` as
/// `(a - b) - c`, `a || b && c` as `a || (b && c)` and `a < b + c` as `a < (b + c)`.
pub proof fn lemma_precedence(ts: Seq<SToken>, eof: Loc, a: i64, s1: Sym, b: i64, s2: Sym, c: i64)
    requires
        ts.len() == 5,
        ts[0].kind == STokKind::Int(a as int),
        ts[1].kind == STokKind::Symbol(s1),
        ts[2].kind == STokKind::Int(b as int),
        ts[3].kind == STokKind::Symbol(s2),
        ts[4].kind == STokKind::Int(c as int),
        binary_op_of(s1) is Some,
        binary_op_of(s2) is Some,
    ensures
        s_expr(ts, eof, 0) matches Ok((e, p)) && p == 5 && if looseness(s2) < looseness(s1) {
            is_right_nested(e, binary_op_of(s1)->0, a, binary_op_of(s2)->0, b, c)
        } else {
            is_left_nested(e, binary_op_of(s1)->0, a, b, binary_op_of(s2)->0, c)
        },
{
    let p1 = looseness(s1);
    let p2 = looseness(s2);
    let o1 = binary_op_of(s1)->0;
    let o2 = binary_op_of(s2)->0;
    assert(1 <= p1 <= 5 && 1 <= p2 <= 5);
    assert forall|l: nat| 1 <= l <= 5 implies #[trigger] op_at(ts, 1, l) == (if l == p1 { Some(o1) } else { None }) by {
        lemma_level_op_table(l, s1);
    }
    assert forall|l: nat| 1 <= l <= 5 implies #[trigger] op_at(ts, 3, l) == (if l == p2 { Some(o2) } else { None }) by {
        lemma_level_op_table(l, s2);
    }
    assert forall|l: nat| #[trigger] op_at(ts, 5, l) is None by {}
    lemma_atom(ts, eof, 0, a);
    lemma_atom(ts, eof, 2, b);
    lemma_atom(ts, eof, 4, c);
    let ea = located(ts[0].loc, VExpr::Const(SValue::Int(a)));
    let eb = located(ts[2].loc, VExpr::Const(SValue::Int(b)));
    let ec = located(ts[4].loc, VExpr::Const(SValue::Int(c)));
    if p2 < p1 {
        lemma_lift(ts, eof, 0, (p2 - 1) as nat, 2, eb, 3);
        lemma_lift(ts, eof, 0, (p2 - 1) as nat, 4, ec, 5);
        lemma_step(ts, eof, p2, 2, eb, 3, o2, ec, 5);
        let inner = located(spec_merge_loc(eb.loc, ec.loc), VExpr::Binary { op: o2, left: Box::new(eb), right: Box::new(ec) });
        lemma_lift(ts, eof, p2, (p1 - 1) as nat, 2, inner, 5);
        lemma_lift(ts, eof, 0, (p1 - 1) as nat, 0, ea, 1);
        lemma_step(ts, eof, p1, 0, ea, 1, o1, inner, 5);
        let outer = located(spec_merge_loc(ea.loc, inner.loc), VExpr::Binary { op: o1, left: Box::new(ea), right: Box::new(inner) });
        lemma_lift(ts, eof, p1, 5, 0, outer, 5);
    } else if p1 == p2 {
        lemma_lift(ts, eof, 0, (p1 - 1) as nat, 0, ea, 1);
        lemma_lift(ts, eof, 0, (p1 - 1) as nat, 2, eb, 3);
        lemma_lift(ts, eof, 0, (p1 - 1) as nat, 4, ec, 5);
        lemma_step2(ts, eof, p1, 0, ea, 1, o1, eb, 3, o2, ec, 5);
        let b1 = located(spec_merge_loc(ea.loc, eb.loc), VExpr::Binary { op: o1, left: Box::new(ea), right: Box::new(eb) });
        let b2 = located(spec_merge_loc(b1.loc, ec.loc), VExpr::Binary { op: o2, left: Box::new(b1), right: Box::new(ec) });
        lemma_lift(ts, eof, p1, 5, 0, b2, 5);
    } else {
        lemma_lift(ts, eof, 0, (p1 - 1) as nat, 0, ea, 1);
        lemma_lift(ts, eof, 0, (p1 - 1) as nat, 2, eb, 3);
        lemma_step(ts, eof, p1, 0, ea, 1, o1, eb, 3);
        let b1 = located(spec_merge_loc(ea.loc, eb.loc), VExpr::Binary { op: o1, left: Box::new(ea), right: Box::new(eb) });
        lemma_lift(ts, eof, p1, (p2 - 1) as nat, 0, b1, 3);
        lemma_lift(ts, eof, 0, (p2 - 1) as nat, 4, ec, 5);
        lemma_step(ts, eof, p2, 0, b1, 3, o2, ec, 5);
        let b2 = located(spec_merge_loc(b1.loc, ec.loc), VExpr::Binary { op: o2, left: Box::new(b1), right: Box::new(ec) });
        lemma_lift(ts, eof, p2, 5, 0, b2, 5);
    }
}

} // verus!
