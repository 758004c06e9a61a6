//! Nodes, mailboxes and ticks: every scheduled node runs once per tick, and the
//! messages it sends are delivered, and their targets scheduled, for the next tick.

use rayon::iter::{IndexedParallelIterator, IntoParallelIterator, ParallelIterator};
use vstd::prelude::*;
use vstd::utf8::encode_utf8;

use crate::ast::{mk_loc, LStmt, Loc, SValue, Value, view_lstmt};
use crate::eval::{EvalCtx, Fault, PendingSentMessageLog, RuntimeError, SCtx, SFault, SPending, SRuntimeError, eval_stmt, inbox_view, lemma_inbox_insert, pending_view, s_eval_stmt, values_view, vars_view};
use crate::parser::{parse_panics, spec_parse_program, try_parse_program, ParseError, SParseError};
use crate::strmap::{StrMap, alist_map, lemma_alist_entries, lemma_alist_prefix};

verus! {

/// A node as users describe it: an id, the source of its program and its color.
#[derive(Debug, PartialEq, Eq)]
pub struct NodeSpec {
    pub id: String,
    pub source: String,
    pub color: String,
}

/// A node whose program has been parsed.
#[derive(Debug, PartialEq, Eq)]
pub struct ParsedNode {
    pub id: String,
    pub source: String,
    pub color: String,
    pub program: LStmt,
}

/// Parses a node's program, or gives `None` on the sources on which parsing panics.
pub fn try_parse_node(spec: NodeSpec) -> (r: Option<Result<ParsedNode, ParseError>>)
    requires
        encode_utf8(spec.source@).len() < usize::MAX,
    ensures
        r is None <==> parse_panics(encode_utf8(spec.source@)),
        match r {
            Some(Ok(n)) => n.id == spec.id && n.source == spec.source && n.color == spec.color
                && spec_parse_program(encode_utf8(spec.source@)) == Ok::<
                crate::ast::VLStmt,
                SParseError,
            >(view_lstmt(n.program)),
            Some(Err(e)) => spec_parse_program(encode_utf8(spec.source@)) == Err::<
                crate::ast::VLStmt,
                SParseError,
            >(e@),
            None => true,
        },
{
    let program = match try_parse_program(spec.source.as_str()) {
        None => return None,
        Some(Err(e)) => return Some(Err(e)),
        Some(Ok(p)) => p,
    };
    Some(Ok(ParsedNode { id: spec.id, source: spec.source, color: spec.color, program }))
}


/// Parses a node's program.
pub fn parse_node(spec: NodeSpec) -> (r: Result<ParsedNode, ParseError>)
    requires
        encode_utf8(spec.source@).len() < usize::MAX,
        !parse_panics(encode_utf8(spec.source@)),
    ensures
        match r {
            Ok(n) => n.id == spec.id && n.source == spec.source && n.color == spec.color
                && spec_parse_program(encode_utf8(spec.source@)) == Ok::<
                crate::ast::VLStmt,
                SParseError,
            >(view_lstmt(n.program)),
            Err(e) => spec_parse_program(encode_utf8(spec.source@)) == Err::<
                crate::ast::VLStmt,
                SParseError,
            >(e@),
        },
{
    match try_parse_node(spec) {
        Some(r) => r,
        None => Err(
            ParseError {
                loc: Loc { range: 0..0, line_range: 1..1 },
                kind: crate::parser::ParseErrorKind::UnexpectedEnd,
            },
        ),
    }
}

// ---------------------------------------------------------------------------
// Messages and the state carried from one tick to the next.
// ---------------------------------------------------------------------------

/// A message from one node to another.
#[derive(Debug, PartialEq, Eq)]
pub struct Message {
    pub from: String,
    pub to: String,
    pub value: Value,
}

pub struct SMessage {
    pub from: Seq<char>,
    pub to: Seq<char>,
    pub value: SValue,
}

impl View for Message {
    type V = SMessage;

    open spec fn view(&self) -> SMessage {
        SMessage { from: self.from@, to: self.to@, value: self.value@ }
    }
}

/// Mailboxes by recipient, then by sender: queues of values.
pub type Mailboxes = Map<Seq<char>, Map<Seq<char>, Seq<SValue>>>;

/// The view of the state between ticks.
pub struct STickState {
    pub work_queue: Seq<Seq<char>>,
    pub mailboxes: Mailboxes,
}

/// The nodes scheduled for the next tick, and the messages waiting for them.
#[derive(Debug, PartialEq, Eq)]
pub struct TickState {
    pub work_queue: Vec<String>,
    pub mailboxes: StrMap<StrMap<Vec<Value>>>,
}

pub open spec fn strings_view(s: Seq<String>) -> Seq<Seq<char>> {
    s.map_values(|x: String| x@)
}

pub open spec fn mailboxes_view(m: Map<Seq<char>, StrMap<Vec<Value>>>) -> Mailboxes {
    m.map_values(|inner: StrMap<Vec<Value>>| inbox_view(inner.map()))
}

pub open spec fn inner_maps_wf(m: Map<Seq<char>, StrMap<Vec<Value>>>) -> bool {
    forall|k: Seq<char>| #[trigger] m.dom().contains(k) ==> m[k].wf()
}

impl View for TickState {
    type V = STickState;

    open spec fn view(&self) -> STickState {
        STickState {
            work_queue: strings_view(self.work_queue@),
            mailboxes: mailboxes_view(self.mailboxes.map()),
        }
    }
}

pub open spec fn empty_tick_state() -> STickState {
    STickState { work_queue: seq![], mailboxes: Map::empty() }
}

/// Schedules a node for the next tick.
pub open spec fn s_enqueue(st: STickState, id: Seq<char>) -> STickState {
    STickState { work_queue: st.work_queue.push(id), ..st }
}

/// Puts a message at the end of the queue from its sender in its recipient's mailbox.
pub open spec fn s_send(st: STickState, m: SMessage) -> STickState {
    let inner = if st.mailboxes.dom().contains(m.to) {
        st.mailboxes[m.to]
    } else {
        Map::empty()
    };
    let queue = if inner.dom().contains(m.from) {
        inner[m.from]
    } else {
        seq![]
    };
    STickState {
        mailboxes: st.mailboxes.insert(m.to, inner.insert(m.from, queue.push(m.value))),
        ..st
    }
}

impl Default for TickState {
    fn default() -> (r: TickState)
        ensures
            r.wf(),
            r@ == empty_tick_state(),
    {
        TickState::new()
    }
}

impl TickState {
    pub open spec fn wf(&self) -> bool {
        self.mailboxes.wf() && inner_maps_wf(self.mailboxes.map())
    }

    /// No node scheduled and no message waiting.
    pub fn new() -> (r: TickState)
        ensures
            r.wf(),
            r@ == empty_tick_state(),
    {
        let r = TickState { work_queue: Vec::new(), mailboxes: StrMap::new() };
        assert(r@.work_queue =~= Seq::<Seq<char>>::empty());
        assert(r@.mailboxes =~= Map::<Seq<char>, Map<Seq<char>, Seq<SValue>>>::empty());
        r
    }

    /// Schedules `node_id` for the next tick.
    pub fn enqueue(&mut self, node_id: String)
        requires
            old(self).wf(),
        ensures
            final(self).wf(),
            final(self)@ == s_enqueue(old(self)@, node_id@),
    {
        self.work_queue.push(node_id);
        assert(self@.work_queue =~= old(self)@.work_queue.push(node_id@));
    }

    /// Delivers a message into its recipient's mailbox.
    pub fn send(&mut self, message: Message)
        requires
            old(self).wf(),
        ensures
            final(self).wf(),
            final(self)@ == s_send(old(self)@, message@),
    {
        let Message { from, to, value } = message;
        let ghost m0 = self.mailboxes.map();
        let ghost inner_v = if m0.dom().contains(to@) {
            inbox_view(m0[to@].map())
        } else {
            Map::empty()
        };
        let mut inner = match self.mailboxes.remove(to.as_str()) {
            Some(m) => m,
            None => StrMap::new(),
        };
        assert(inbox_view(inner.map()) =~= inner_v);
        let ghost i0 = inner.map();
        let mut queue = match inner.remove(from.as_str()) {
            Some(q) => q,
            None => Vec::new(),
        };
        let ghost qv = if inner_v.dom().contains(from@) {
            inner_v[from@]
        } else {
            seq![]
        };
        assert(values_view(queue@) =~= qv);
        queue.push(value);
        assert(values_view(queue@) =~= qv.push(value@));
        inner.insert(from, queue);
        assert(inbox_view(inner.map()) =~= inner_v.insert(from@, qv.push(value@)));
        self.mailboxes.insert(to, inner);
        assert(inner_maps_wf(self.mailboxes.map()));
        assert(self@.mailboxes =~= mailboxes_view(m0).insert(to@, inner_v.insert(from@, qv.push(value@))));
    }
}


// ---------------------------------------------------------------------------
// Running one node.
// ---------------------------------------------------------------------------

/// A runtime error of a node, with the node and the location.
#[derive(Debug, PartialEq, Eq)]
pub struct NodeRuntimeError {
    pub node_id: String,
    pub loc: Loc,
    pub error: RuntimeError,
}

pub struct SNodeError {
    pub node_id: Seq<char>,
    pub loc: Loc,
    pub error: SRuntimeError,
}

impl View for NodeRuntimeError {
    type V = SNodeError;

    open spec fn view(&self) -> SNodeError {
        SNodeError { node_id: self.node_id@, loc: self.loc, error: self.error@ }
    }
}

/// What one node did during a tick.
pub struct NodeTickResult {
    pub queue_index: usize,
    pub node_id: String,
    pub color: String,
    pub executed: Vec<Loc>,
    pub sent: Vec<PendingSentMessageLog>,
}

pub struct SNodeResult {
    pub node_id: Seq<char>,
    pub color: Seq<char>,
    pub executed: Seq<Loc>,
    pub sent: Seq<SPending>,
}

impl View for NodeTickResult {
    type V = SNodeResult;

    open spec fn view(&self) -> SNodeResult {
        SNodeResult {
            node_id: self.node_id@,
            color: self.color@,
            executed: self.executed@,
            sent: pending_view(self.sent@),
        }
    }
}

/// How a node's run ended.
pub enum SNodeOutcome {
    Done(SNodeResult),
    Failed(SNodeError),
    Panicked,
}

/// The state a node starts its run in: no variables, its own color and its inbox.
pub open spec fn initial_ctx(color: Seq<char>, inbox: Map<Seq<char>, Seq<SValue>>) -> SCtx {
    SCtx { vars: Map::empty(), color: color, inbox: inbox, executed: seq![], sent: seq![] }
}

/// Runs `node`'s program once; `nodes` are the nodes that exist.
pub open spec fn s_run_node(node: ParsedNode, nodes: Set<Seq<char>>, inbox: Map<Seq<char>, Seq<SValue>>) -> SNodeOutcome {
    let (c, r) = s_eval_stmt(view_lstmt(node.program), node.id@, nodes, initial_ctx(node.color@, inbox));
    match r {
        Ok(_) => SNodeOutcome::Done(
            SNodeResult { node_id: node.id@, color: c.color, executed: c.executed, sent: c.sent },
        ),
        Err(SFault::Runtime(loc, e)) => SNodeOutcome::Failed(SNodeError { node_id: node.id@, loc: loc, error: e }),
        Err(SFault::Panic) => SNodeOutcome::Panicked,
    }
}

/// One scheduled run: the position in the work queue, the node (by its position among
/// the registry's entries) and the inbox it reads.
pub struct NodeJob {
    pub queue_index: usize,
    pub node_index: usize,
    pub inbox: StrMap<Vec<Value>>,
}

pub open spec fn job_ok(registry: StrMap<ParsedNode>, job: NodeJob) -> bool {
    &&& job.node_index < registry.entries().len()
    &&& job.inbox.wf()
}

/// The view of how a node's run ended; `None` stands for a panic.
pub open spec fn outcome_view(r: Option<Result<NodeTickResult, NodeRuntimeError>>) -> SNodeOutcome {
    match r {
        None => SNodeOutcome::Panicked,
        Some(Err(e)) => SNodeOutcome::Failed(e@),
        Some(Ok(t)) => SNodeOutcome::Done(t@),
    }
}

/// Every message of a node's run was sent at one of its executed steps.
pub open spec fn result_steps_valid(res: SNodeResult) -> bool {
    forall|i: int| 0 <= i < res.sent.len() ==> 1 <= #[trigger] res.sent[i].local_step <= res.executed.len()
}

/// What running `job` gives.
pub open spec fn run_node_post(registry: StrMap<ParsedNode>, job: NodeJob, r: Option<Result<NodeTickResult, NodeRuntimeError>>) -> bool {
    let node = registry.entries()[job.node_index as int].1;
    &&& outcome_view(r) == s_run_node(node, registry.map().dom(), inbox_view(job.inbox.map()))
    &&& r matches Some(Ok(t)) ==> t.queue_index == job.queue_index && result_steps_valid(t@)
}

/// Runs one scheduled node: its program once, from its color and the given inbox.
pub fn run_node(registry: &StrMap<ParsedNode>, job: NodeJob) -> (r: Option<Result<NodeTickResult, NodeRuntimeError>>)
    requires
        registry.wf(),
        job_ok(*registry, job),
    ensures
        run_node_post(*registry, job, r),
{
    let ghost job0 = job;
    let NodeJob { queue_index, node_index, inbox } = job;
    let node = registry.value_at(node_index);
    let mut ctx = EvalCtx {
        vars: StrMap::new(),
        color: node.color.clone(),
        inbox,
        executed: Vec::new(),
        sent: Vec::new(),
        local_step: 0,
    };
    proof {
        assert(vars_view(ctx.vars.map()) =~= Map::<Seq<char>, SValue>::empty());
        assert(pending_view(ctx.sent@) =~= Seq::<SPending>::empty());
        assert(ctx@ == initial_ctx(node.color@, inbox_view(job0.inbox.map())));
    }
    match eval_stmt(&node.program, node.id.as_str(), registry, &mut ctx) {
        Err(Fault::Panic) => None,
        Err(Fault::Runtime(loc, error)) => Some(Err(NodeRuntimeError { node_id: node.id.clone(), loc, error })),
        Ok(_) => {
            let EvalCtx { color, executed, sent, .. } = ctx;
            Some(Ok(NodeTickResult { queue_index, node_id: node.id.clone(), color, executed, sent }))
        },
    }
}

/// Runs the jobs in parallel and gives their results in the order of the jobs.
///
/// Trusted: calls rayon's `into_par_iter`, `map` and `collect_into_vec`; rayon's
/// documentation promises that `collect_into_vec` on an indexed parallel iterator
/// yields one result per job, in order, each the closure's result on that job.
/// The closure only calls `run_node`.
#[verifier::external_body]
fn run_nodes_parallel(registry: &StrMap<ParsedNode>, jobs: Vec<NodeJob>) -> (r: Vec<Option<Result<NodeTickResult, NodeRuntimeError>>>)
    requires
        registry.wf(),
        forall|i: int| 0 <= i < jobs@.len() ==> #[trigger] job_ok(*registry, jobs@[i]),
    ensures
        r@.len() == jobs@.len(),
        forall|i: int| 0 <= i < jobs@.len() ==> #[trigger] run_node_post(*registry, jobs@[i], r@[i]),
{
    let mut out = Vec::new();
    jobs.into_par_iter().map(|job| run_node(registry, job)).collect_into_vec(&mut out);
    out
}


// ---------------------------------------------------------------------------
// Logs of a tick.
// ---------------------------------------------------------------------------

/// A statement that ran, with its global step number.
#[derive(Debug, PartialEq, Eq)]
pub struct ExecutedLine {
    pub step: usize,
    pub node_id: String,
    pub loc: Loc,
}

/// A message that was sent, with the global step number of its `send`.
#[derive(Debug, PartialEq, Eq)]
pub struct SentMessageLog {
    pub step: usize,
    pub from: String,
    pub to: String,
    pub value: Value,
    pub loc: Loc,
}

/// What happened during a tick, and each node's color at its end.
#[derive(Debug, PartialEq, Eq)]
pub struct TickLog {
    pub executed: Vec<ExecutedLine>,
    pub messages: Vec<SentMessageLog>,
    pub final_colors: StrMap<String>,
}

/// The outcome of a successful tick.
#[derive(Debug, PartialEq, Eq)]
pub struct TickResult {
    pub log: TickLog,
}

pub struct SExecuted {
    pub step: int,
    pub node_id: Seq<char>,
    pub loc: Loc,
}

pub struct SSent {
    pub step: int,
    pub from: Seq<char>,
    pub to: Seq<char>,
    pub value: SValue,
    pub loc: Loc,
}

pub struct STickLog {
    pub executed: Seq<SExecuted>,
    pub messages: Seq<SSent>,
    pub final_colors: Map<Seq<char>, Seq<char>>,
}

impl View for ExecutedLine {
    type V = SExecuted;

    open spec fn view(&self) -> SExecuted {
        SExecuted { step: self.step as int, node_id: self.node_id@, loc: self.loc }
    }
}

impl View for SentMessageLog {
    type V = SSent;

    open spec fn view(&self) -> SSent {
        SSent {
            step: self.step as int,
            from: self.from@,
            to: self.to@,
            value: self.value@,
            loc: self.loc,
        }
    }
}

pub open spec fn executed_view(s: Seq<ExecutedLine>) -> Seq<SExecuted> {
    s.map_values(|e: ExecutedLine| e@)
}

pub open spec fn messages_view(s: Seq<SentMessageLog>) -> Seq<SSent> {
    s.map_values(|m: SentMessageLog| m@)
}

pub open spec fn colors_view(m: Map<Seq<char>, String>) -> Map<Seq<char>, Seq<char>> {
    m.map_values(|c: String| c@)
}

impl View for TickLog {
    type V = STickLog;

    open spec fn view(&self) -> STickLog {
        STickLog {
            executed: executed_view(self.executed@),
            messages: messages_view(self.messages@),
            final_colors: colors_view(self.final_colors.map()),
        }
    }
}

fn clone_lines(v: &Vec<ExecutedLine>) -> (r: Vec<ExecutedLine>)
    ensures
        executed_view(r@) == executed_view(v@),
{
    let mut out: Vec<ExecutedLine> = Vec::new();
    let n = v.len();
    let mut i: usize = 0;
    while i < n
        invariant
            n == v@.len(),
            i <= n,
            executed_view(out@) == executed_view(v@.take(i as int)),
        decreases n - i,
    {
        let e = &v[i];
        let ghost before = out@;
        out.push(ExecutedLine { step: e.step, node_id: e.node_id.clone(), loc: e.loc.duplicate() });
        assert(executed_view(out@) =~= executed_view(before).push(e@));
        assert(v@.take(i + 1) =~= v@.take(i as int).push(v@[i as int]));
        assert(executed_view(v@.take(i + 1)) =~= executed_view(v@.take(i as int)).push(e@));
        i = i + 1;
    }
    assert(v@.take(n as int) =~= v@);
    out
}

fn clone_sent(v: &Vec<SentMessageLog>) -> (r: Vec<SentMessageLog>)
    ensures
        messages_view(r@) == messages_view(v@),
{
    let mut out: Vec<SentMessageLog> = Vec::new();
    let n = v.len();
    let mut i: usize = 0;
    while i < n
        invariant
            n == v@.len(),
            i <= n,
            messages_view(out@) == messages_view(v@.take(i as int)),
        decreases n - i,
    {
        let m = &v[i];
        let ghost before = out@;
        out.push(
            SentMessageLog {
                step: m.step,
                from: m.from.clone(),
                to: m.to.clone(),
                value: m.value.duplicate(),
                loc: m.loc.duplicate(),
            },
        );
        assert(messages_view(out@) =~= messages_view(before).push(m@));
        assert(v@.take(i + 1) =~= v@.take(i as int).push(v@[i as int]));
        assert(messages_view(v@.take(i + 1)) =~= messages_view(v@.take(i as int)).push(m@));
        i = i + 1;
    }
    assert(v@.take(n as int) =~= v@);
    out
}

fn clone_colors(m: &StrMap<String>) -> (r: StrMap<String>)
    requires
        m.wf(),
    ensures
        r.wf(),
        colors_view(r.map()) == colors_view(m.map()),
{
    let mut out: StrMap<String> = StrMap::new();
    let n = m.len();
    let mut i: usize = 0;
    assert(colors_view(out.map()) =~= colors_view(alist_map(m.entries().take(0))));
    while i < n
        invariant
            m.wf(),
            n == m.entries().len(),
            i <= n,
            out.wf(),
            colors_view(out.map()) == colors_view(alist_map(m.entries().take(i as int))),
        decreases n - i,
    {
        proof {
            lemma_alist_prefix(m.entries(), i as int);
        }
        let key = m.key_at(i).clone();
        let value = m.value_at(i).clone();
        let ghost before = out.map();
        out.insert(key, value);
        proof {
            let e = m.entries()[i as int];
            assert(colors_view(out.map()) =~= colors_view(before).insert(e.0@, e.1@));
            assert(colors_view(alist_map(m.entries().take(i + 1))) =~= colors_view(
                alist_map(m.entries().take(i as int)),
            ).insert(e.0@, e.1@));
        }
        i = i + 1;
    }
    assert(m.entries().take(n as int) =~= m.entries());
    out
}

impl TickLog {
    pub open spec fn wf(&self) -> bool {
        self.final_colors.wf()
    }

    /// A copy of the log.
    pub fn duplicate(&self) -> (r: TickLog)
        requires
            self.wf(),
        ensures
            r.wf(),
            r@ == self@,
    {
        TickLog {
            executed: clone_lines(&self.executed),
            messages: clone_sent(&self.messages),
            final_colors: clone_colors(&self.final_colors),
        }
    }

    /// The color that `node_id` ended the tick with, if it is a node.
    pub fn final_color(&self, node_id: &str) -> (r: Option<String>)
        requires
            self.wf(),
        ensures
            match r {
                Some(c) => self@.final_colors.dom().contains(node_id@) && c@ == self@.final_colors[node_id@],
                None => !self@.final_colors.dom().contains(node_id@),
            },
    {
        match self.final_colors.get(node_id) {
            Some(c) => Some(c.clone()),
            None => None,
        }
    }
}

// ---------------------------------------------------------------------------
// The semantics of a tick.
// ---------------------------------------------------------------------------

/// The error for a scheduled node that does not exist.
pub open spec fn missing_error(id: Seq<char>) -> SNodeError {
    SNodeError { node_id: id, loc: mk_loc(0, 0, 1, 1), error: SRuntimeError::MissingNode(id) }
}

/// The first position from `i` on whose node does not exist.
pub open spec fn first_missing(queue: Seq<Seq<char>>, nodes: Set<Seq<char>>, i: int) -> Option<int>
    decreases queue.len() - i,
{
    if i < 0 || i >= queue.len() {
        None
    } else if !nodes.contains(queue[i]) {
        Some(i)
    } else {
        first_missing(queue, nodes, i + 1)
    }
}

/// The inbox of the run at position `i`: a node's first run in a tick takes its mailbox,
/// later runs of the same node get an empty one.
pub open spec fn job_inbox(queue: Seq<Seq<char>>, mail: Mailboxes, i: int) -> Map<Seq<char>, Seq<SValue>> {
    if !queue.subrange(0, i).contains(queue[i]) && mail.dom().contains(queue[i]) {
        mail[queue[i]]
    } else {
        Map::empty()
    }
}

/// How each scheduled run ends.
pub open spec fn node_outcomes(st: STickState, reg: Map<Seq<char>, ParsedNode>) -> Seq<SNodeOutcome> {
    Seq::new(
        st.work_queue.len(),
        |i: int| s_run_node(reg[st.work_queue[i]], reg.dom(), job_inbox(st.work_queue, st.mailboxes, i)),
    )
}

pub open spec fn any_panicked(os: Seq<SNodeOutcome>) -> bool {
    exists|i: int| 0 <= i < os.len() && #[trigger] os[i] is Panicked
}

/// The first failure from position `i` on.
pub open spec fn first_failure(os: Seq<SNodeOutcome>, i: int) -> Option<SNodeError>
    decreases os.len() - i,
{
    if i < 0 || i >= os.len() {
        None
    } else if let SNodeOutcome::Failed(e) = os[i] {
        Some(e)
    } else {
        first_failure(os, i + 1)
    }
}

pub open spec fn done_result(o: SNodeOutcome) -> SNodeResult {
    match o {
        SNodeOutcome::Done(r) => r,
        _ => SNodeResult { node_id: seq![], color: seq![], executed: seq![], sent: seq![] },
    }
}

/// The executed lines of a node's run, numbered after `base` earlier steps.
pub open spec fn node_lines(base: int, r: SNodeResult) -> Seq<SExecuted> {
    Seq::new(r.executed.len(), |j: int| SExecuted { step: base + j + 1, node_id: r.node_id, loc: r.executed[j] })
}

/// The messages of a node's run, numbered after `base` earlier steps.
pub open spec fn node_messages(base: int, r: SNodeResult) -> Seq<SSent> {
    Seq::new(
        r.sent.len(),
        |j: int|
            SSent {
                step: base + r.sent[j].local_step,
                from: r.sent[j].from,
                to: r.sent[j].to,
                value: r.sent[j].value,
                loc: r.sent[j].loc,
            },
    )
}

/// Delivers sent messages for the next tick: each schedules its target and goes into its mailbox.
pub open spec fn s_deliver(st: STickState, ps: Seq<SPending>) -> STickState
    decreases ps.len(),
{
    if ps.len() == 0 {
        st
    } else {
        let p = ps.last();
        s_send(s_enqueue(s_deliver(st, ps.drop_last()), p.to), SMessage { from: p.from, to: p.to, value: p.value })
    }
}

/// What the results of the runs add up to.
pub struct SAcc {
    pub step: int,
    pub executed: Seq<SExecuted>,
    pub messages: Seq<SSent>,
    pub colors: Map<Seq<char>, Seq<char>>,
    pub next: STickState,
}

/// Adds up the results of the runs, in the order of the work queue.
pub open spec fn s_collect(results: Seq<SNodeResult>, colors: Map<Seq<char>, Seq<char>>) -> SAcc
    decreases results.len(),
{
    if results.len() == 0 {
        SAcc { step: 0, executed: seq![], messages: seq![], colors: colors, next: empty_tick_state() }
    } else {
        let a = s_collect(results.drop_last(), colors);
        let r = results.last();
        SAcc {
            step: a.step + r.executed.len(),
            executed: a.executed + node_lines(a.step, r),
            messages: a.messages + node_messages(a.step, r),
            colors: a.colors.insert(r.node_id, r.color),
            next: s_deliver(a.next, r.sent),
        }
    }
}

/// How a tick ends.
pub enum STick {
    /// The tick panics.
    Panicked,
    /// The tick fails, and leaves the state as it was.
    Failed(SNodeError),
    /// The tick's log and the state for the next tick.
    Done(STickLog, STickState),
}

pub open spec fn registry_colors(reg: Map<Seq<char>, ParsedNode>) -> Map<Seq<char>, Seq<char>> {
    reg.map_values(|n: ParsedNode| n.color@)
}

/// A tick: every node in the work queue runs once, in parallel, from a fresh state;
/// a node's first run takes its mailbox. A scheduled node that does not exist fails the
/// tick before anything runs; otherwise a panicking run panics the tick, and a failing
/// run fails it. A successful tick numbers the executed lines in queue order, records the
/// colors of the runs on top of the colors of all nodes, and the messages sent make the
/// next state: the targets in the work queue, the values in the mailboxes.
pub open spec fn s_tick(st: STickState, reg: Map<Seq<char>, ParsedNode>) -> STick {
    match first_missing(st.work_queue, reg.dom(), 0) {
        Some(i) => STick::Failed(missing_error(st.work_queue[i])),
        None => {
            let os = node_outcomes(st, reg);
            if any_panicked(os) {
                STick::Panicked
            } else {
                match first_failure(os, 0) {
                    Some(e) => STick::Failed(e),
                    None => {
                        let acc = s_collect(os.map_values(|o: SNodeOutcome| done_result(o)), registry_colors(reg));
                        if acc.step > usize::MAX {
                            STick::Panicked
                        } else {
                            STick::Done(
                                STickLog { executed: acc.executed, messages: acc.messages, final_colors: acc.colors },
                                acc.next,
                            )
                        }
                    },
                }
            }
        },
    }
}

/// Whether running a tick from this state panics.
pub open spec fn tick_panics(st: STickState, reg: Map<Seq<char>, ParsedNode>) -> bool {
    s_tick(st, reg) is Panicked
}


// ---------------------------------------------------------------------------
// Running a tick.
// ---------------------------------------------------------------------------

fn clone_values(q: &Vec<Value>) -> (r: Vec<Value>)
    ensures
        values_view(r@) == values_view(q@),
{
    let mut out: Vec<Value> = Vec::new();
    let n = q.len();
    let mut i: usize = 0;
    while i < n
        invariant
            n == q@.len(),
            i <= n,
            values_view(out@) =~= values_view(q@.take(i as int)),
        decreases n - i,
    {
        let ghost before = out@;
        let v = q[i].duplicate();
        out.push(v);
        assert(values_view(out@) =~= values_view(before).push(q@[i as int]@));
        assert(values_view(q@.take(i + 1)) =~= values_view(q@.take(i as int)).push(q@[i as int]@));
        i = i + 1;
    }
    assert(q@.take(n as int) =~= q@);
    out
}

/// A copy of an inbox.
fn clone_inbox(m: &StrMap<Vec<Value>>) -> (r: StrMap<Vec<Value>>)
    requires
        m.wf(),
    ensures
        r.wf(),
        inbox_view(r.map()) == inbox_view(m.map()),
{
    let mut out: StrMap<Vec<Value>> = StrMap::new();
    let n = m.len();
    let mut i: usize = 0;
    proof {
        assert(alist_map(m.entries().take(0)) =~= Map::<Seq<char>, Vec<Value>>::empty());
        assert(inbox_view(out.map()) =~= inbox_view(alist_map(m.entries().take(0))));
    }
    while i < n
        invariant
            m.wf(),
            n == m.entries().len(),
            i <= n,
            out.wf(),
            inbox_view(out.map()) == inbox_view(alist_map(m.entries().take(i as int))),
        decreases n - i,
    {
        proof {
            lemma_alist_prefix(m.entries(), i as int);
            lemma_inbox_insert(alist_map(m.entries().take(i as int)), m.entries()[i as int].0@, m.entries()[i as int].1);
        }
        let key = m.key_at(i).clone();
        let q = clone_values(m.value_at(i));
        proof {
            lemma_inbox_insert(out.map(), key@, q);
        }
        out.insert(key, q);
        i = i + 1;
    }
    assert(m.entries().take(n as int) =~= m.entries());
    out
}

/// Whether the node at position `i` of the queue was scheduled earlier in it.
fn seen_before(queue: &Vec<String>, i: usize) -> (r: bool)
    requires
        i < queue@.len(),
    ensures
        r == strings_view(queue@).subrange(0, i as int).contains(strings_view(queue@)[i as int]),
{
    let ghost q = strings_view(queue@);
    let mut j: usize = 0;
    while j < i
        invariant
            i < queue@.len(),
            q == strings_view(queue@),
            j <= i,
            forall|k: int| 0 <= k < j ==> #[trigger] q[k] != q[i as int],
        decreases i - j,
    {
        if queue[j] == queue[i] {
            assert(q.subrange(0, i as int)[j as int] == q[i as int]);
            return true;
        }
        j = j + 1;
    }
    assert forall|k: int| 0 <= k < i implies #[trigger] q.subrange(0, i as int)[k] != q[i as int] by {
        assert(q.subrange(0, i as int)[k] == q[k]);
    }
    false
}

/// The facts about the run scheduled at position `k`.
pub open spec fn job_scheduled(
    registry: StrMap<ParsedNode>,
    queue: Seq<Seq<char>>,
    mail: Mailboxes,
    jobs: Seq<NodeJob>,
    k: int,
) -> bool {
    &&& job_ok(registry, jobs[k])
    &&& jobs[k].queue_index == k
    &&& registry.entries()[jobs[k].node_index as int].0@ == queue[k]
    &&& inbox_view(jobs[k].inbox.map()) == job_inbox(queue, mail, k)
}

/// Plans the runs of the work queue, or fails on the first node that does not exist.
fn schedule(
    work_queue: &Vec<String>,
    mailboxes: &StrMap<StrMap<Vec<Value>>>,
    registry: &StrMap<ParsedNode>,
) -> (r: Result<Vec<NodeJob>, NodeRuntimeError>)
    requires
        mailboxes.wf(),
        inner_maps_wf(mailboxes.map()),
        registry.wf(),
    ensures
        match r {
            Err(e) => first_missing(strings_view(work_queue@), registry.map().dom(), 0) matches Some(i)
                && e@ == missing_error(strings_view(work_queue@)[i]),
            Ok(jobs) => first_missing(strings_view(work_queue@), registry.map().dom(), 0) is None
                && jobs@.len() == work_queue@.len() && (forall|k: int|
                0 <= k < jobs@.len() ==> #[trigger] job_scheduled(
                    *registry,
                    strings_view(work_queue@),
                    mailboxes_view(mailboxes.map()),
                    jobs@,
                    k,
                )),
        },
{
    let ghost q = strings_view(work_queue@);
    let ghost mail = mailboxes_view(mailboxes.map());
    let n = work_queue.len();
    let mut jobs: Vec<NodeJob> = Vec::new();
    let mut i: usize = 0;
    while i < n
        invariant
            n == work_queue@.len(),
            q == strings_view(work_queue@),
            mail == mailboxes_view(mailboxes.map()),
            mailboxes.wf(),
            inner_maps_wf(mailboxes.map()),
            registry.wf(),
            i <= n,
            jobs@.len() == i,
            first_missing(q, registry.map().dom(), 0) == first_missing(q, registry.map().dom(), i as int),
            forall|k: int| 0 <= k < i ==> #[trigger] job_scheduled(*registry, q, mail, jobs@, k),
        decreases n - i,
    {
        let node_id = &work_queue[i];
        let idx = match registry.index_of(node_id.as_str()) {
            Some(idx) => idx,
            None => {
                return Err(
                    NodeRuntimeError {
                        node_id: node_id.clone(),
                        loc: Loc { range: 0..0, line_range: 1..1 },
                        error: RuntimeError::MissingNode(node_id.clone()),
                    },
                );
            },
        };
        proof {
            lemma_alist_entries(registry.entries());
        }
        let first = !seen_before(work_queue, i);
        let inbox = if first {
            match mailboxes.get(node_id.as_str()) {
                Some(m) => clone_inbox(m),
                None => {
                    let e = StrMap::new();
                    assert(inbox_view(e.map()) =~= Map::<Seq<char>, Seq<SValue>>::empty());
                    e
                },
            }
        } else {
            let e = StrMap::new();
            assert(inbox_view(e.map()) =~= Map::<Seq<char>, Seq<SValue>>::empty());
            e
        };
        let ghost before = jobs@;
        jobs.push(NodeJob { queue_index: i, node_index: idx, inbox });
        proof {
            assert forall|k: int| 0 <= k <= i implies #[trigger] job_scheduled(*registry, q, mail, jobs@, k) by {
                if k < i {
                    assert(jobs@[k] == before[k]);
                    assert(job_scheduled(*registry, q, mail, before, k));
                }
            }
        }
        i = i + 1;
    }
    Ok(jobs)
}

/// Adds up the results of the runs.
pub open spec fn results_view(rs: Seq<NodeTickResult>) -> Seq<SNodeResult> {
    rs.map_values(|r: NodeTickResult| r@)
}

proof fn lemma_collect_step_monotone(results: Seq<SNodeResult>, colors: Map<Seq<char>, Seq<char>>, k: int)
    requires
        0 <= k <= results.len(),
    ensures
        s_collect(results.take(k), colors).step <= s_collect(results, colors).step,
        s_collect(results, colors).step >= 0,
    decreases results.len(),
{
    if results.len() > 0 {
        if k == results.len() {
            assert(results.take(k) =~= results);
            lemma_collect_step_monotone(results.drop_last(), colors, k - 1);
        } else {
            assert(results.drop_last().take(k) =~= results.take(k));
            lemma_collect_step_monotone(results.drop_last(), colors, k);
        }
    }
}

/// Adds the lines and messages of one run, numbered after `step` earlier steps, and
/// delivers its messages into `next`.
fn append_result(
    step: usize,
    r: &NodeTickResult,
    executed: &mut Vec<ExecutedLine>,
    messages: &mut Vec<SentMessageLog>,
    next: &mut TickState,
)
    requires
        step + r.executed@.len() <= usize::MAX,
        result_steps_valid(r@),
        old(next).wf(),
    ensures
        final(next).wf(),
        executed_view(final(executed)@) == executed_view(old(executed)@) + node_lines(step as int, r@),
        messages_view(final(messages)@) == messages_view(old(messages)@) + node_messages(step as int, r@),
        final(next)@ == s_deliver(old(next)@, r@.sent),
{
    let n = r.executed.len();
    let mut j: usize = 0;
    while j < n
        invariant
            n == r.executed@.len(),
            step + n <= usize::MAX,
            j <= n,
            executed_view(executed@) == executed_view(old(executed)@) + node_lines(step as int, r@).take(j as int),
        decreases n - j,
    {
        let ghost before = executed@;
        let line = ExecutedLine { step: step + j + 1, node_id: r.node_id.clone(), loc: r.executed[j].duplicate() };
        assert(line@ == node_lines(step as int, r@)[j as int]);
        executed.push(line);
        assert(executed_view(executed@) =~= executed_view(before).push(line@));
        assert(node_lines(step as int, r@).take(j + 1) =~= node_lines(step as int, r@).take(j as int).push(line@));
        j = j + 1;
        assert(executed_view(executed@) =~= executed_view(old(executed)@) + node_lines(step as int, r@).take(j as int));
    }
    assert(node_lines(step as int, r@).take(n as int) =~= node_lines(step as int, r@));
    let m = r.sent.len();
    let mut j: usize = 0;
    let ghost ps = r@.sent;
    assert(ps.take(0) =~= Seq::<SPending>::empty());
    while j < m
        invariant
            m == r.sent@.len(),
            ps == r@.sent,
            ps.len() == m,
            result_steps_valid(r@),
            step + r.executed@.len() <= usize::MAX,
            j <= m,
            next.wf(),
            next@ == s_deliver(old(next)@, ps.take(j as int)),
            messages_view(messages@) == messages_view(old(messages)@) + node_messages(step as int, r@).take(j as int),
        decreases m - j,
    {
        let p = &r.sent[j];
        assert(ps[j as int] == p@);
        assert(1 <= ps[j as int].local_step <= r.executed@.len());
        next.enqueue(p.to.clone());
        next.send(Message { from: p.from.clone(), to: p.to.clone(), value: p.value.duplicate() });
        let ghost before = messages@;
        let entry = SentMessageLog {
            step: step + p.local_step,
            from: p.from.clone(),
            to: p.to.clone(),
            value: p.value.duplicate(),
            loc: p.loc.duplicate(),
        };
        assert(entry@ == node_messages(step as int, r@)[j as int]);
        messages.push(entry);
        assert(messages_view(messages@) =~= messages_view(before).push(entry@));
        assert(node_messages(step as int, r@).take(j + 1) =~= node_messages(step as int, r@).take(j as int).push(entry@));
        j = j + 1;
        assert(ps.take(j as int).drop_last() =~= ps.take(j - 1));
        assert(messages_view(messages@) =~= messages_view(old(messages)@) + node_messages(step as int, r@).take(j as int));
    }
    assert(node_messages(step as int, r@).take(m as int) =~= node_messages(step as int, r@));
    assert(ps.take(m as int) =~= ps);
}

/// The colors of all nodes of the registry.
fn registry_color_map(registry: &StrMap<ParsedNode>) -> (r: StrMap<String>)
    requires
        registry.wf(),
    ensures
        r.wf(),
        colors_view(r.map()) == registry_colors(registry.map()),
{
    let mut out: StrMap<String> = StrMap::new();
    let n = registry.len();
    let mut i: usize = 0;
    proof {
        assert(alist_map(registry.entries().take(0)) =~= Map::<Seq<char>, ParsedNode>::empty());
        assert(colors_view(out.map()) =~= registry_colors(alist_map(registry.entries().take(0))));
    }
    while i < n
        invariant
            registry.wf(),
            n == registry.entries().len(),
            i <= n,
            out.wf(),
            colors_view(out.map()) == registry_colors(alist_map(registry.entries().take(i as int))),
        decreases n - i,
    {
        proof {
            lemma_alist_prefix(registry.entries(), i as int);
        }
        let key = registry.key_at(i).clone();
        let color = registry.value_at(i).color.clone();
        let ghost before = out.map();
        out.insert(key, color);
        proof {
            let e = registry.entries()[i as int];
            assert(colors_view(out.map()) =~= colors_view(before).insert(key@, color@));
            assert(registry_colors(alist_map(registry.entries().take(i + 1))) =~= registry_colors(
                alist_map(registry.entries().take(i as int)),
            ).insert(e.0@, e.1.color@));
        }
        i = i + 1;
    }
    assert(registry.entries().take(n as int) =~= registry.entries());
    out
}

/// Adds up the results of the runs; `None` when the step numbers overflow.
fn assemble(results: &Vec<NodeTickResult>, registry: &StrMap<ParsedNode>) -> (r: Option<(TickLog, TickState)>)
    requires
        registry.wf(),
        forall|k: int| 0 <= k < results@.len() ==> #[trigger] result_steps_valid(results@[k]@),
    ensures
        ({
            let acc = s_collect(results_view(results@), registry_colors(registry.map()));
            match r {
                None => acc.step > usize::MAX,
                Some((log, next)) => acc.step <= usize::MAX && log.wf() && next.wf() && log@ == STickLog {
                    executed: acc.executed,
                    messages: acc.messages,
                    final_colors: acc.colors,
                } && next@ == acc.next,
            }
        }),
{
    let ghost rv = results_view(results@);
    let ghost colors0 = registry_colors(registry.map());
    let n = results.len();
    let mut final_colors = registry_color_map(registry);
    let mut executed: Vec<ExecutedLine> = Vec::new();
    let mut messages: Vec<SentMessageLog> = Vec::new();
    let mut next = TickState::new();
    let mut step: usize = 0;
    let mut k: usize = 0;
    proof {
        assert(rv.take(0) =~= Seq::<SNodeResult>::empty());
        assert(executed_view(executed@) =~= Seq::<SExecuted>::empty());
        assert(messages_view(messages@) =~= Seq::<SSent>::empty());
    }
    while k < n
        invariant
            n == results@.len(),
            rv == results_view(results@),
            colors0 == registry_colors(registry.map()),
            forall|j: int| 0 <= j < results@.len() ==> #[trigger] result_steps_valid(results@[j]@),
            k <= n,
            final_colors.wf(),
            next.wf(),
            s_collect(rv.take(k as int), colors0) == (SAcc {
                step: step as int,
                executed: executed_view(executed@),
                messages: messages_view(messages@),
                colors: colors_view(final_colors.map()),
                next: next@,
            }),
        decreases n - k,
    {
        let r = &results[k];
        assert(rv.take(k + 1).drop_last() =~= rv.take(k as int));
        assert(rv.take(k + 1).last() == r@);
        if r.executed.len() > usize::MAX - step {
            proof {
                lemma_collect_step_monotone(rv, colors0, k + 1);
                assert(rv.take(n as int) =~= rv);
            }
            return None;
        }
        append_result(step, r, &mut executed, &mut messages, &mut next);
        let ghost before = final_colors.map();
        final_colors.insert(r.node_id.clone(), r.color.clone());
        assert(colors_view(final_colors.map()) =~= colors_view(before).insert(r@.node_id, r@.color));
        step = step + r.executed.len();
        k = k + 1;
    }
    assert(rv.take(n as int) =~= rv);
    Some((TickLog { executed, messages, final_colors }, next))
}


/// Whether some run panicked.
fn any_panicked_run(outcomes: &Vec<Option<Result<NodeTickResult, NodeRuntimeError>>>) -> (r: bool)
    ensures
        r == exists|k: int| 0 <= k < outcomes@.len() && #[trigger] outcomes@[k] is None,
{
    let n = outcomes.len();
    let mut k: usize = 0;
    while k < n
        invariant
            n == outcomes@.len(),
            k <= n,
            forall|j: int| 0 <= j < k ==> !(#[trigger] outcomes@[j] is None),
        decreases n - k,
    {
        if outcomes[k].is_none() {
            return true;
        }
        k = k + 1;
    }
    false
}

/// The position of the first failed run, if any.
fn first_failed_run(outcomes: &Vec<Option<Result<NodeTickResult, NodeRuntimeError>>>) -> (r: Option<usize>)
    ensures
        first_failure(outcomes@.map_values(|o: Option<Result<NodeTickResult, NodeRuntimeError>>| outcome_view(o)), 0)
            == match r {
            Some(k) => Some(outcome_view(outcomes@[k as int])->Failed_0),
            None => None::<SNodeError>,
        },
        match r {
            Some(k) => k < outcomes@.len() && outcomes@[k as int] matches Some(Err(_)),
            None => true,
        },
{
    let ghost os = outcomes@.map_values(|o: Option<Result<NodeTickResult, NodeRuntimeError>>| outcome_view(o));
    let n = outcomes.len();
    let mut k: usize = 0;
    while k < n
        invariant
            n == outcomes@.len(),
            os == outcomes@.map_values(|o: Option<Result<NodeTickResult, NodeRuntimeError>>| outcome_view(o)),
            k <= n,
            first_failure(os, 0) == first_failure(os, k as int),
        decreases n - k,
    {
        match &outcomes[k] {
            Some(Err(_)) => {
                return Some(k);
            },
            _ => {},
        }
        k = k + 1;
    }
    None
}

/// The results of the runs, when every run succeeded.
fn unwrap_results(outcomes: Vec<Option<Result<NodeTickResult, NodeRuntimeError>>>) -> (r: Vec<NodeTickResult>)
    requires
        forall|k: int| 0 <= k < outcomes@.len() ==> #[trigger] outcomes@[k] matches Some(Ok(_)),
    ensures
        r@.len() == outcomes@.len(),
        forall|k: int| 0 <= k < outcomes@.len() ==> (#[trigger] outcomes@[k] matches Some(Ok(t)) && r@[k] == t),
{
    let ghost all = outcomes@;
    let n = outcomes.len();
    let mut rest = outcomes;
    let mut out: Vec<NodeTickResult> = Vec::new();
    while rest.len() > 0
        invariant
            n == all.len(),
            out@.len() + rest@.len() == n,
            rest@ == all.subrange(out@.len() as int, n as int),
            forall|k: int| 0 <= k < all.len() ==> #[trigger] all[k] matches Some(Ok(_)),
            forall|k: int| 0 <= k < out@.len() ==> (#[trigger] all[k] matches Some(Ok(t)) && out@[k] == t),
        decreases rest@.len(),
    {
        let ghost i = out@.len() as int;
        assert(rest@[0] == all[i]);
        let o = rest.remove(0);
        match o {
            Some(Ok(t)) => {
                out.push(t);
            },
            _ => {
                assert(false);
                return out;
            },
        }
        assert(rest@ =~= all.subrange(out@.len() as int, n as int));
    }
    out
}

/// Runs a tick, or gives `None` when the tick panics (then the state is left empty).
pub fn try_run_tick(state: &mut TickState, registry: &StrMap<ParsedNode>) -> (r: Option<Result<TickResult, NodeRuntimeError>>)
    requires
        old(state).wf(),
        registry.wf(),
    ensures
        final(state).wf(),
        match s_tick(old(state)@, registry.map()) {
            STick::Panicked => r is None && final(state)@ == empty_tick_state(),
            STick::Failed(e) => r matches Some(Err(x)) && x@ == e && final(state)@ == old(state)@,
            STick::Done(log, next) => r matches Some(Ok(t)) && t.log@ == log && t.log.wf() && final(state)@ == next,
        },
{
    let ghost st0 = state@;
    let ghost reg = registry.map();
    let mut work_queue: Vec<String> = Vec::new();
    std::mem::swap(&mut work_queue, &mut state.work_queue);
    let mut mailboxes: StrMap<StrMap<Vec<Value>>> = StrMap::new();
    std::mem::swap(&mut mailboxes, &mut state.mailboxes);
    assert(state@ == empty_tick_state()) by {
        assert(state@.work_queue =~= Seq::<Seq<char>>::empty());
        assert(state@.mailboxes =~= Map::<Seq<char>, Map<Seq<char>, Seq<SValue>>>::empty());
    }
    let jobs = match schedule(&work_queue, &mailboxes, registry) {
        Err(e) => {
            state.work_queue = work_queue;
            state.mailboxes = mailboxes;
            return Some(Err(e));
        },
        Ok(jobs) => jobs,
    };
    let ghost jobs_v = jobs@;
    assert forall|i: int| 0 <= i < jobs@.len() implies #[trigger] job_ok(*registry, jobs@[i]) by {
        assert(job_scheduled(*registry, st0.work_queue, st0.mailboxes, jobs_v, i));
    }
    let outcomes = run_nodes_parallel(registry, jobs);
    let ghost os = node_outcomes(st0, reg);
    proof {
        lemma_alist_entries(registry.entries());
        assert forall|k: int| 0 <= k < outcomes@.len() implies #[trigger] outcome_view(outcomes@[k]) == os[k] by {
            assert(job_scheduled(*registry, st0.work_queue, st0.mailboxes, jobs_v, k));
            assert(run_node_post(*registry, jobs_v[k], outcomes@[k]));
        }
        assert(outcomes@.map_values(|o: Option<Result<NodeTickResult, NodeRuntimeError>>| outcome_view(o)) =~= os);
    }
    if any_panicked_run(&outcomes) {
        proof {
            let k = choose|k: int| 0 <= k < outcomes@.len() && #[trigger] outcomes@[k] is None;
            assert(os[k] is Panicked);
        }
        return None;
    }
    assert(!any_panicked(os)) by {
        if any_panicked(os) {
            let k = choose|k: int| 0 <= k < os.len() && #[trigger] os[k] is Panicked;
            assert(outcome_view(outcomes@[k]) == os[k]);
        }
    }
    match first_failed_run(&outcomes) {
        Some(k) => {
            let mut outcomes = outcomes;
            let o = outcomes.swap_remove(k);
            state.work_queue = work_queue;
            state.mailboxes = mailboxes;
            match o {
                Some(Err(e)) => {
                    return Some(Err(e));
                },
                _ => {
                    return None;
                },
            }
        },
        None => {},
    }
    proof {
        assert forall|k: int| 0 <= k < outcomes@.len() implies #[trigger] outcomes@[k] matches Some(Ok(_)) by {
            if !(outcomes@[k] matches Some(Ok(_))) {
                assert(outcome_view(outcomes@[k]) == os[k]);
                if outcomes@[k] is None {
                    assert(os[k] is Panicked);
                } else {
                    lemma_first_failure_found(os, k);
                }
            }
        }
    }
    let ghost outs = outcomes@;
    let results = unwrap_results(outcomes);
    proof {
        assert forall|k: int| 0 <= k < results@.len() implies #[trigger] result_steps_valid(results@[k]@) by {
            assert(run_node_post(*registry, jobs_v[k], outs[k]));
        }
        assert(results_view(results@) =~= os.map_values(|o: SNodeOutcome| done_result(o))) by {
            assert forall|k: int| 0 <= k < results@.len() implies results_view(results@)[k] == done_result(os[k]) by {
                assert(outcome_view(outs[k]) == os[k]);
            }
        }
    }
    match assemble(&results, registry) {
        None => None,
        Some((log, next)) => {
            *state = next;
            Some(Ok(TickResult { log }))
        },
    }
}

/// A run that fails at position `k` makes `first_failure` find a failure.
proof fn lemma_first_failure_found(os: Seq<SNodeOutcome>, k: int)
    requires
        0 <= k < os.len(),
        os[k] is Failed,
    ensures
        forall|i: int| 0 <= i <= k ==> first_failure(os, i) is Some,
    decreases k,
{
    assert forall|i: int| 0 <= i <= k implies first_failure(os, i) is Some by {
        lemma_first_failure_from(os, i, k);
    }
}

proof fn lemma_first_failure_from(os: Seq<SNodeOutcome>, i: int, k: int)
    requires
        0 <= i <= k < os.len(),
        os[k] is Failed,
    ensures
        first_failure(os, i) is Some,
    decreases k - i,
{
    if i < k && !(os[i] is Failed) {
        lemma_first_failure_from(os, i + 1, k);
    }
}

/// Runs a tick on the inputs on which it does not panic.
///
/// Every node in the work queue runs once, in parallel; a node's first run in the tick
/// reads its mailbox. On success the state becomes what the sent messages make of an
/// empty state; on failure the state is left as it was.
pub fn run_tick(state: &mut TickState, registry: &StrMap<ParsedNode>) -> (r: Result<TickResult, NodeRuntimeError>)
    requires
        old(state).wf(),
        registry.wf(),
        !tick_panics(old(state)@, registry.map()),
    ensures
        final(state).wf(),
        match s_tick(old(state)@, registry.map()) {
            STick::Failed(e) => r matches Err(x) && x@ == e && final(state)@ == old(state)@,
            STick::Done(log, next) => r matches Ok(t) && t.log@ == log && t.log.wf() && final(state)@ == next,
            STick::Panicked => false,
        },
{
    match try_run_tick(state, registry) {
        Some(r) => r,
        None => Err(
            NodeRuntimeError {
                node_id: String::new(),
                loc: Loc { range: 0..0, line_range: 1..1 },
                error: RuntimeError::OutOfBounds,
            },
        ),
    }
}

} // verus!
