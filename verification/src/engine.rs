//! The world: nodes, their owners, and the updates queued for the next tick.
//!
//! Every change is queued. Each queued change is checked against the *projected* world
//! (the applied world with the queue applied on top), and the queue is applied just
//! before the next tick runs. A tick that fails keeps the work it was given.

use vstd::prelude::*;
use vstd::utf8::encode_utf8;

use crate::ast::{Loc, SValue, Value, VLStmt, view_lstmt};
use crate::parser::{parse_panics, spec_parse_program, ParseError, SParseError};
use crate::strmap::{StrMap, alist_map, holds_string, keys_distinct, lemma_alist_entries, lemma_alist_prefix};
use crate::tick::{Mailboxes, Message, NodeRuntimeError, NodeSpec, ParsedNode, SExecuted, SMessage, SNodeError, SSent, STick, STickLog, STickState, TickLog, TickState, empty_tick_state, inner_maps_wf, mailboxes_view, s_enqueue, s_send, s_tick, strings_view, try_run_tick};
use crate::eval::inbox_view;
use crate::text::{push_str, str_before, str_eq};

verus! {

// ---------------------------------------------------------------------------
// Requests, responses and errors.
// ---------------------------------------------------------------------------

/// The number of updates waiting in the queue after a change was queued.
#[derive(Debug)]
pub struct MutationResponse {
    pub pending_updates: usize,
}

/// A browser session handle.
#[derive(Debug)]
pub struct SessionResponse {
    pub session_id: String,
}

/// A new program and color for a node.
#[derive(Debug)]
pub struct PutNodeRequest {
    pub source: String,
    pub color: String,
}

/// A message to queue.
#[derive(Debug)]
pub struct SendMessageRequest {
    pub from: String,
    pub to: String,
    pub value: Value,
}

/// Why an update or a tick was refused.
#[derive(Debug)]
pub enum EngineError {
    Parse(ParseError),
    Runtime(NodeRuntimeError),
    InvalidUpdate(String),
    Forbidden(String),
}

pub enum SEngineError {
    Parse(SParseError),
    Runtime(SNodeError),
    InvalidUpdate(Seq<char>),
    Forbidden(Seq<char>),
}

impl View for EngineError {
    type V = SEngineError;

    open spec fn view(&self) -> SEngineError {
        match self {
            EngineError::Parse(e) => SEngineError::Parse(e@),
            EngineError::Runtime(e) => SEngineError::Runtime(e@),
            EngineError::InvalidUpdate(m) => SEngineError::InvalidUpdate(m@),
            EngineError::Forbidden(m) => SEngineError::Forbidden(m@),
        }
    }
}

impl EngineError {
    pub fn from_parse(value: ParseError) -> (r: Self)
        ensures
            r@ == SEngineError::Parse(value@),
    {
        EngineError::Parse(value)
    }

    pub fn from_runtime(value: NodeRuntimeError) -> (r: Self)
        ensures
            r@ == SEngineError::Runtime(value@),
    {
        EngineError::Runtime(value)
    }
}

/// "node `id` does not exist"
pub open spec fn no_such_node(id: Seq<char>) -> Seq<char> {
    "node `"@ + id + "` does not exist"@
}

/// "node `id` is owned by another session"
pub open spec fn owned_elsewhere(id: Seq<char>) -> Seq<char> {
    "node `"@ + id + "` is owned by another session"@
}

/// "node `id` is admin-managed"
pub open spec fn admin_managed(id: Seq<char>) -> Seq<char> {
    "node `"@ + id + "` is admin-managed"@
}

/// "message source `id` does not exist"
pub open spec fn no_such_source(id: Seq<char>) -> Seq<char> {
    "message source `"@ + id + "` does not exist"@
}

/// "message target `id` does not exist"
pub open spec fn no_such_target(id: Seq<char>) -> Seq<char> {
    "message target `"@ + id + "` does not exist"@
}

fn message_about(prefix: &str, id: &str, suffix: &str) -> (r: String)
    ensures
        r@ == prefix@ + id@ + suffix@,
{
    let mut m = String::new();
    push_str(&mut m, prefix);
    push_str(&mut m, id);
    push_str(&mut m, suffix);
    m
}

// ---------------------------------------------------------------------------
// Queued updates and the projected world.
// ---------------------------------------------------------------------------

/// What an upsert does to a node's owner.
#[derive(Debug)]
pub enum NodeOwnerUpdate {
    Preserve,
    SetTo(String),
}

/// A change waiting for the next tick.
#[derive(Debug)]
pub enum QueuedUpdate {
    UpsertNode { node: ParsedNode, owner: NodeOwnerUpdate },
    RemoveNode { node_id: String },
    EnqueueNode { node_id: String },
    SendMessage { message: Message },
}

pub enum SUpdate {
    /// `owner` is `None` when the owner stays as it is.
    UpsertNode { node: ParsedNode, owner: Option<Seq<char>> },
    RemoveNode(Seq<char>),
    EnqueueNode(Seq<char>),
    SendMessage(SMessage),
}

impl View for QueuedUpdate {
    type V = SUpdate;

    open spec fn view(&self) -> SUpdate {
        match self {
            QueuedUpdate::UpsertNode { node, owner } => SUpdate::UpsertNode {
                node: *node,
                owner: match owner {
                    NodeOwnerUpdate::Preserve => None,
                    NodeOwnerUpdate::SetTo(o) => Some(o@),
                },
            },
            QueuedUpdate::RemoveNode { node_id } => SUpdate::RemoveNode(node_id@),
            QueuedUpdate::EnqueueNode { node_id } => SUpdate::EnqueueNode(node_id@),
            QueuedUpdate::SendMessage { message } => SUpdate::SendMessage(message@),
        }
    }
}

pub open spec fn updates_view(us: Seq<QueuedUpdate>) -> Seq<SUpdate> {
    us.map_values(|u: QueuedUpdate| u@)
}

/// The nodes of a world and their owners (`None`: admin-managed).
pub type Projection = Map<Seq<char>, Option<Seq<char>>>;

pub open spec fn owner_of(owners: Map<Seq<char>, Seq<char>>, id: Seq<char>) -> Option<Seq<char>> {
    if owners.dom().contains(id) {
        Some(owners[id])
    } else {
        None
    }
}

/// The nodes of a world with their owners.
pub open spec fn projection_of(registry: Set<Seq<char>>, owners: Map<Seq<char>, Seq<char>>) -> Projection {
    Map::new(|k: Seq<char>| registry.contains(k), |k: Seq<char>| owner_of(owners, k))
}

/// Checks that `id` is a node of the projection.
pub open spec fn s_ensure_exists(p: Projection, id: Seq<char>) -> Result<(), SEngineError> {
    if p.dom().contains(id) {
        Ok(())
    } else {
        Err(SEngineError::InvalidUpdate(no_such_node(id)))
    }
}

/// One queued update applied to the projection.
pub open spec fn s_apply_projected(p: Projection, u: SUpdate) -> Result<Projection, SEngineError> {
    match u {
        SUpdate::UpsertNode { node, owner } => match owner {
            None => if p.dom().contains(node.id@) {
                Ok(p)
            } else {
                Ok(p.insert(node.id@, None))
            },
            Some(o) => Ok(p.insert(node.id@, Some(o))),
        },
        SUpdate::RemoveNode(id) => if p.dom().contains(id) {
            Ok(p.remove(id))
        } else {
            Err(SEngineError::InvalidUpdate(no_such_node(id)))
        },
        SUpdate::EnqueueNode(id) => match s_ensure_exists(p, id) {
            Err(e) => Err(e),
            Ok(_) => Ok(p),
        },
        SUpdate::SendMessage(m) => match s_ensure_exists(p, m.from) {
            Err(e) => Err(e),
            Ok(_) => match s_ensure_exists(p, m.to) {
                Err(e) => Err(e),
                Ok(_) => Ok(p),
            },
        },
    }
}

/// The projection after the queued updates, in order; the first invalid one fails it.
pub open spec fn s_project(p: Projection, us: Seq<SUpdate>) -> Result<Projection, SEngineError>
    decreases us.len(),
{
    if us.len() == 0 {
        Ok(p)
    } else {
        match s_apply_projected(p, us[0]) {
            Err(e) => Err(e),
            Ok(q) => s_project(q, us.subrange(1, us.len() as int)),
        }
    }
}

// ---------------------------------------------------------------------------
// Applying updates to the world.
// ---------------------------------------------------------------------------

/// What a node did, as kept for its history.
#[derive(Debug, PartialEq, Eq)]
pub enum NodeAction {
    ExecutedLine { tick: u64, step: usize, loc: Loc },
    SentMessage { tick: u64, step: usize, to: String, value: Value, loc: Loc },
}

pub enum SAction {
    ExecutedLine { tick: u64, step: int, loc: Loc },
    SentMessage { tick: u64, step: int, to: Seq<char>, value: SValue, loc: Loc },
}

impl View for NodeAction {
    type V = SAction;

    open spec fn view(&self) -> SAction {
        match self {
            NodeAction::ExecutedLine { tick, step, loc } => SAction::ExecutedLine {
                tick: *tick,
                step: *step as int,
                loc: *loc,
            },
            NodeAction::SentMessage { tick, step, to, value, loc } => SAction::SentMessage {
                tick: *tick,
                step: *step as int,
                to: to@,
                value: value@,
                loc: *loc,
            },
        }
    }
}

pub open spec fn actions_view(s: Seq<NodeAction>) -> Seq<SAction> {
    s.map_values(|a: NodeAction| a@)
}

pub open spec fn history_view(m: Map<Seq<char>, Vec<NodeAction>>) -> Map<Seq<char>, Seq<SAction>> {
    m.map_values(|v: Vec<NodeAction>| actions_view(v@))
}

/// The part of the world that queued updates change.
pub struct SWorld {
    pub registry: Map<Seq<char>, ParsedNode>,
    pub owners: Map<Seq<char>, Seq<char>>,
    pub tick_state: STickState,
    pub actions: Map<Seq<char>, Seq<SAction>>,
}

/// Whether a scheduled node is not `id`.
pub open spec fn other_than(id: Seq<char>) -> spec_fn(Seq<char>) -> bool {
    |q: Seq<char>| q != id
}

/// Removes a node's mailbox, and its queues in every other mailbox.
pub open spec fn remove_mail_of(m: Mailboxes, id: Seq<char>) -> Mailboxes {
    m.remove(id).map_values(|inner: Map<Seq<char>, Seq<SValue>>| inner.remove(id))
}

/// One queued update applied to the world.
pub open spec fn s_apply_update(w: SWorld, u: SUpdate) -> Result<SWorld, SEngineError> {
    match u {
        SUpdate::UpsertNode { node, owner } => Ok(
            SWorld {
                registry: w.registry.insert(node.id@, node),
                owners: match owner {
                    None => w.owners,
                    Some(o) => w.owners.insert(node.id@, o),
                },
                ..w
            },
        ),
        SUpdate::RemoveNode(id) => if !w.registry.dom().contains(id) {
            Err(SEngineError::InvalidUpdate(no_such_node(id)))
        } else {
            Ok(
                SWorld {
                    registry: w.registry.remove(id),
                    owners: w.owners.remove(id),
                    tick_state: STickState {
                        work_queue: w.tick_state.work_queue.filter(other_than(id)),
                        mailboxes: remove_mail_of(w.tick_state.mailboxes, id),
                    },
                    actions: w.actions.remove(id),
                },
            )
        },
        SUpdate::EnqueueNode(id) => if !w.registry.dom().contains(id) {
            Err(SEngineError::InvalidUpdate(no_such_node(id)))
        } else {
            Ok(SWorld { tick_state: s_enqueue(w.tick_state, id), ..w })
        },
        SUpdate::SendMessage(m) => if !w.registry.dom().contains(m.from) {
            Err(SEngineError::InvalidUpdate(no_such_source(m.from)))
        } else if !w.registry.dom().contains(m.to) {
            Err(SEngineError::InvalidUpdate(no_such_target(m.to)))
        } else {
            Ok(SWorld { tick_state: s_send(w.tick_state, m), ..w })
        },
    }
}

/// The world after the queued updates, in order.
pub open spec fn s_apply_all(w: SWorld, us: Seq<SUpdate>) -> Result<SWorld, SEngineError>
    decreases us.len(),
{
    if us.len() == 0 {
        Ok(w)
    } else {
        match s_apply_update(w, us[0]) {
            Err(e) => Err(e),
            Ok(v) => s_apply_all(v, us.subrange(1, us.len() as int)),
        }
    }
}

/// The projection of a world.
pub open spec fn world_projection(w: SWorld) -> Projection {
    projection_of(w.registry.dom(), w.owners)
}

/// Every owner is the owner of a node.
pub open spec fn owners_of_nodes(w: SWorld) -> bool {
    w.owners.dom().subset_of(w.registry.dom())
}

/// Applying one update to the world succeeds exactly when it succeeds on the world's
/// projection, and projects to the updated projection.
pub proof fn lemma_apply_update_projects(w: SWorld, u: SUpdate)
    requires
        owners_of_nodes(w),
    ensures
        s_apply_update(w, u) is Ok <==> s_apply_projected(world_projection(w), u) is Ok,
        s_apply_update(w, u) matches Ok(v) ==> owners_of_nodes(v) && s_apply_projected(
            world_projection(w),
            u,
        ) == Ok::<Projection, SEngineError>(world_projection(v)),
{
    let p = world_projection(w);
    match u {
        SUpdate::UpsertNode { node, owner } => {
            let v = s_apply_update(w, u)->Ok_0;
            match owner {
                None => {
                    if p.dom().contains(node.id@) {
                        assert(world_projection(v) =~= p);
                    } else {
                        assert(!w.owners.dom().contains(node.id@));
                        assert(world_projection(v) =~= p.insert(node.id@, None));
                    }
                },
                Some(o) => {
                    assert(world_projection(v) =~= p.insert(node.id@, Some(o)));
                },
            }
        },
        SUpdate::RemoveNode(id) => {
            if w.registry.dom().contains(id) {
                let v = s_apply_update(w, u)->Ok_0;
                assert(world_projection(v) =~= p.remove(id));
            }
        },
        SUpdate::EnqueueNode(id) => {},
        SUpdate::SendMessage(m) => {},
    }
}

/// Applying the whole queue to a world succeeds exactly when projecting it does, and the
/// projection then is the projection of the world the queue makes.
pub proof fn lemma_apply_all_projects(w: SWorld, us: Seq<SUpdate>)
    requires
        owners_of_nodes(w),
    ensures
        s_apply_all(w, us) is Ok <==> s_project(world_projection(w), us) is Ok,
        s_apply_all(w, us) matches Ok(v) ==> owners_of_nodes(v) && s_project(world_projection(w), us)
            == Ok::<Projection, SEngineError>(world_projection(v)),
    decreases us.len(),
{
    if us.len() > 0 {
        lemma_apply_update_projects(w, us[0]);
        if let Ok(v) = s_apply_update(w, us[0]) {
            lemma_apply_all_projects(v, us.subrange(1, us.len() as int));
        }
    }
}


// ---------------------------------------------------------------------------
// The engine.
// ---------------------------------------------------------------------------

/// The view of the engine.
pub struct SEngine {
    pub world: SWorld,
    pub pending: Seq<SUpdate>,
    pub tick: u64,
    pub last_tick: Option<STickLog>,
}

/// The world and the updates queued for it.
#[derive(Debug)]
pub struct Engine {
    registry: StrMap<ParsedNode>,
    node_owners: StrMap<String>,
    tick_state: TickState,
    pending_updates: Vec<QueuedUpdate>,
    tick: u64,
    last_tick: Option<TickLog>,
    node_actions: StrMap<Vec<NodeAction>>,
}

pub open spec fn owners_view(m: Map<Seq<char>, String>) -> Map<Seq<char>, Seq<char>> {
    m.map_values(|s: String| s@)
}

pub open spec fn projection_view(m: Map<Seq<char>, Option<String>>) -> Projection {
    m.map_values(
        |o: Option<String>|
            match o {
                Some(s) => Some(s@),
                None => None,
            },
    )
}

impl View for Engine {
    type V = SEngine;

    closed spec fn view(&self) -> SEngine {
        SEngine {
            world: SWorld {
                registry: self.registry.map(),
                owners: owners_view(self.node_owners.map()),
                tick_state: self.tick_state@,
                actions: history_view(self.node_actions.map()),
            },
            pending: updates_view(self.pending_updates@),
            tick: self.tick,
            last_tick: match self.last_tick {
                Some(l) => Some(l@),
                None => None,
            },
        }
    }
}

/// The projection of the engine: its world with the queue applied.
pub open spec fn engine_projection(e: SEngine) -> Result<Projection, SEngineError> {
    s_project(world_projection(e.world), e.pending)
}

impl Engine {
    /// The engine's internal invariant.
    pub closed spec fn wf(&self) -> bool {
        &&& self.registry.wf()
        &&& self.node_owners.wf()
        &&& self.tick_state.wf()
        &&& self.node_actions.wf()
        &&& (self.last_tick matches Some(l) ==> l.wf())
        &&& owners_of_nodes(self@.world)
        &&& engine_projection(self@) is Ok
    }

    /// The nodes of the world, with their owners.
    fn current_nodes_projection(&self) -> (r: StrMap<Option<String>>)
        requires
            self.wf(),
        ensures
            r.wf(),
            projection_view(r.map()) == world_projection(self@.world),
    {
        let mut out: StrMap<Option<String>> = StrMap::new();
        let n = self.registry.len();
        let mut i: usize = 0;
        let ghost owners = owners_view(self.node_owners.map());
        proof {
            assert(projection_view(out.map()) =~= projection_of(alist_map(self.registry.entries().take(0)).dom(), owners));
        }
        while i < n
            invariant
                self.wf(),
                owners == owners_view(self.node_owners.map()),
                n == self.registry.entries().len(),
                i <= n,
                out.wf(),
                projection_view(out.map()) == projection_of(alist_map(self.registry.entries().take(i as int)).dom(), owners),
            decreases n - i,
        {
            proof {
                lemma_alist_prefix(self.registry.entries(), i as int);
            }
            let key = self.registry.key_at(i).clone();
            let owner = match self.node_owners.get(key.as_str()) {
                Some(o) => Some(o.clone()),
                None => None,
            };
            let ghost before = out.map();
            out.insert(key, owner);
            proof {
                let k = self.registry.entries()[i as int].0@;
                assert(projection_view(out.map()) =~= projection_view(before).insert(k, owner_of(owners, k)));
                assert(projection_of(alist_map(self.registry.entries().take(i + 1)).dom(), owners) =~= projection_of(
                    alist_map(self.registry.entries().take(i as int)).dom(),
                    owners,
                ).insert(k, owner_of(owners, k)));
            }
            i = i + 1;
        }
        assert(self.registry.entries().take(n as int) =~= self.registry.entries());
        out
    }
}

/// Checks that `node_id` is a node of the projection.
pub fn ensure_node_exists(projected: &StrMap<Option<String>>, node_id: &str) -> (r: Result<(), EngineError>)
    requires
        projected.wf(),
    ensures
        match s_ensure_exists(projection_view(projected.map()), node_id@) {
            Ok(_) => r is Ok,
            Err(e) => r matches Err(x) && x@ == e,
        },
{
    if projected.contains_key(node_id) {
        Ok(())
    } else {
        Err(EngineError::InvalidUpdate(message_about("node `", node_id, "` does not exist")))
    }
}

/// Whether the node `id` of the projection is owned by the session: an error for a node
/// that does not exist, for another session's node and for an admin-managed one.
pub open spec fn s_owned_by(p: Projection, session: Seq<char>, id: Seq<char>) -> Result<(), SEngineError> {
    if !p.dom().contains(id) {
        Err(SEngineError::InvalidUpdate(no_such_node(id)))
    } else {
        match p[id] {
            Some(o) => if o == session {
                Ok(())
            } else {
                Err(SEngineError::Forbidden(owned_elsewhere(id)))
            },
            None => Err(SEngineError::Forbidden(admin_managed(id))),
        }
    }
}

/// Checks that the node a message comes from is owned by the session.
pub fn ensure_session_owned_message_source(
    projected: &StrMap<Option<String>>,
    session_id: &str,
    node_id: &str,
) -> (r: Result<(), EngineError>)
    requires
        projected.wf(),
    ensures
        match s_owned_by(projection_view(projected.map()), session_id@, node_id@) {
            Ok(_) => r is Ok,
            Err(e) => r matches Err(x) && x@ == e,
        },
{
    match projected.get(node_id) {
        Some(Some(owner)) => {
            if str_eq(owner.as_str(), session_id) {
                Ok(())
            } else {
                Err(EngineError::Forbidden(message_about("node `", node_id, "` is owned by another session")))
            }
        },
        Some(None) => Err(EngineError::Forbidden(message_about("node `", node_id, "` is admin-managed"))),
        None => Err(EngineError::InvalidUpdate(message_about("node `", node_id, "` does not exist"))),
    }
}

/// Applies one queued update to a projection.
fn apply_projected_update(projected: &mut StrMap<Option<String>>, update: &QueuedUpdate) -> (r: Result<(), EngineError>)
    requires
        old(projected).wf(),
    ensures
        final(projected).wf(),
        match s_apply_projected(projection_view(old(projected).map()), update@) {
            Ok(p) => r is Ok && projection_view(final(projected).map()) == p,
            Err(e) => r matches Err(x) && x@ == e,
        },
{
    let ghost p0 = projection_view(projected.map());
    match update {
        QueuedUpdate::UpsertNode { node, owner } => match owner {
            NodeOwnerUpdate::Preserve => {
                if !projected.contains_key(node.id.as_str()) {
                    projected.insert(node.id.clone(), None);
                    assert(projection_view(projected.map()) =~= p0.insert(node.id@, None));
                }
            },
            NodeOwnerUpdate::SetTo(owner) => {
                projected.insert(node.id.clone(), Some(owner.clone()));
                assert(projection_view(projected.map()) =~= p0.insert(node.id@, Some(owner@)));
            },
        },
        QueuedUpdate::RemoveNode { node_id } => {
            if projected.remove(node_id.as_str()).is_none() {
                return Err(EngineError::InvalidUpdate(message_about("node `", node_id.as_str(), "` does not exist")));
            }
            assert(projection_view(projected.map()) =~= p0.remove(node_id@));
        },
        QueuedUpdate::EnqueueNode { node_id } => {
            match ensure_node_exists(projected, node_id.as_str()) {
                Err(e) => return Err(e),
                Ok(_) => {},
            }
        },
        QueuedUpdate::SendMessage { message } => {
            match ensure_node_exists(projected, message.from.as_str()) {
                Err(e) => return Err(e),
                Ok(_) => {},
            }
            match ensure_node_exists(projected, message.to.as_str()) {
                Err(e) => return Err(e),
                Ok(_) => {},
            }
        },
    }
    Ok(())
}

impl Engine {
    /// The world's nodes and owners with every queued update applied.
    fn projected_nodes(&self) -> (r: Result<StrMap<Option<String>>, EngineError>)
        requires
            self.wf(),
        ensures
            match engine_projection(self@) {
                Ok(p) => r matches Ok(m) && m.wf() && projection_view(m.map()) == p,
                Err(e) => r matches Err(x) && x@ == e,
            },
    {
        let mut projected = self.current_nodes_projection();
        let n = self.pending_updates.len();
        let ghost us = updates_view(self.pending_updates@);
        let mut i: usize = 0;
        assert(us.subrange(0, n as int) =~= us);
        while i < n
            invariant
                n == self.pending_updates@.len(),
                us == updates_view(self.pending_updates@),
                us.len() == n,
                i <= n,
                projected.wf(),
                engine_projection(self@) == s_project(projection_view(projected.map()), us.subrange(i as int, n as int)),
            decreases n - i,
        {
            assert(us.subrange(i as int, n as int)[0] == self.pending_updates@[i as int]@);
            assert(us.subrange(i as int, n as int).subrange(1, n - i) =~= us.subrange(i + 1, n as int));
            match apply_projected_update(&mut projected, &self.pending_updates[i]) {
                Err(e) => return Err(e),
                Ok(_) => {},
            }
            i = i + 1;
        }
        Ok(projected)
    }

    /// Checks that every queued update can be applied.
    fn validate_pending_updates(&self) -> (r: Result<(), EngineError>)
        requires
            self.wf(),
        ensures
            r is Ok,
    {
        match self.projected_nodes() {
            Err(e) => Err(e),
            Ok(_) => Ok(()),
        }
    }

    /// Checks that the node is owned by the session in the projection.
    fn ensure_session_owned_node(&self, session_id: &str, node_id: &str) -> (r: Result<(), EngineError>)
        requires
            self.wf(),
        ensures
            match s_owned_by(engine_projection(self@)->Ok_0, session_id@, node_id@) {
                Ok(_) => r is Ok,
                Err(e) => r matches Err(x) && x@ == e,
            },
    {
        let projected = match self.projected_nodes() {
            Err(e) => return Err(e),
            Ok(p) => p,
        };
        ensure_session_owned_message_source(&projected, session_id, node_id)
    }
}


/// Projecting a queue with one more update applies that update to the projection of the rest.
pub proof fn lemma_project_push(p: Projection, us: Seq<SUpdate>, u: SUpdate)
    ensures
        s_project(p, us.push(u)) == match s_project(p, us) {
            Ok(q) => s_apply_projected(q, u),
            Err(e) => Err(e),
        },
    decreases us.len(),
{
    if us.len() == 0 {
        assert(us.push(u).subrange(1, 1) =~= Seq::<SUpdate>::empty());
        assert(us.push(u)[0] == u);
        if let Ok(q) = s_apply_projected(p, u) {
            assert(s_project(q, Seq::<SUpdate>::empty()) == Ok::<Projection, SEngineError>(q));
        }
    } else {
        assert(us.push(u)[0] == us[0]);
        assert(us.push(u).subrange(1, (us.len() + 1) as int) =~= us.subrange(1, us.len() as int).push(u));
        if let Ok(q) = s_apply_projected(p, us[0]) {
            lemma_project_push(q, us.subrange(1, us.len() as int), u);
        }
    }
}

/// Whether a session may create or replace the node `id`: a new node, or one it owns.
pub open spec fn s_upsert_allowed(p: Projection, session: Seq<char>, id: Seq<char>) -> Result<(), SEngineError> {
    if !p.dom().contains(id) {
        Ok(())
    } else {
        s_owned_by(p, session, id)
    }
}

/// `new` is `old` with one more update queued, and `r` is the length of the queue.
pub open spec fn queued_one(old: SEngine, new: SEngine, r: Result<usize, EngineError>) -> bool {
    &&& new.world == old.world
    &&& new.tick == old.tick
    &&& new.last_tick == old.last_tick
    &&& new.pending.len() == old.pending.len() + 1
    &&& new.pending.drop_last() == old.pending
    &&& r matches Ok(n) && n == new.pending.len()
}

/// The engine refused the update with `e` and did not change.
pub open spec fn refused(old: SEngine, new: SEngine, r: Result<usize, EngineError>, e: SEngineError) -> bool {
    &&& new == old
    &&& r matches Err(x) && x@ == e
}

/// The update upserts a node parsed from `request` under `node_id`, with `owner`.
pub open spec fn upserts(u: SUpdate, node_id: String, request: PutNodeRequest, prog: VLStmt, owner: Option<Seq<char>>) -> bool {
    &&& u matches SUpdate::UpsertNode { node, owner: o }
    &&& u->node.id == node_id
    &&& u->node.source == request.source
    &&& u->node.color == request.color
    &&& view_lstmt(u->node.program) == prog
    &&& u->owner == owner
}

impl Engine {
    /// Queues an update that the projection accepts.
    fn push_update(&mut self, update: QueuedUpdate) -> (n: usize)
        requires
            old(self).wf(),
            s_apply_projected(engine_projection(old(self)@)->Ok_0, update@) is Ok,
        ensures
            final(self).wf(),
            queued_one(old(self)@, final(self)@, Ok(n)),
            final(self)@.pending.last() == update@,
    {
        proof {
            lemma_project_push(world_projection(self@.world), self@.pending, update@);
        }
        let ghost before = self.pending_updates@;
        self.pending_updates.push(update);
        assert(updates_view(self.pending_updates@) =~= updates_view(before).push(update@));
        assert(updates_view(self.pending_updates@).drop_last() =~= updates_view(before));
        self.pending_updates.len()
    }

    /// Queues a new program and color for a node of the session: a new node, or one the
    /// session owns. The node then belongs to the session.
    pub fn queue_user_node_upsert(&mut self, session_id: &str, node_id: String, request: PutNodeRequest) -> (r: Result<usize, EngineError>)
        requires
            old(self).wf(),
            encode_utf8(request.source@).len() < usize::MAX,
            !parse_panics(encode_utf8(request.source@)),
        ensures
            final(self).wf(),
            match spec_parse_program(encode_utf8(request.source@)) {
                Err(pe) => refused(old(self)@, final(self)@, r, SEngineError::Parse(pe)),
                Ok(prog) => match s_upsert_allowed(engine_projection(old(self)@)->Ok_0, session_id@, node_id@) {
                    Err(e) => refused(old(self)@, final(self)@, r, e),
                    Ok(_) => queued_one(old(self)@, final(self)@, r) && upserts(
                        final(self)@.pending.last(),
                        node_id,
                        request,
                        prog,
                        Some(session_id@),
                    ),
                },
            },
    {
        let ghost req = request;
        let node = match crate::tick::parse_node(NodeSpec { id: node_id.clone(), source: request.source, color: request.color }) {
            Err(e) => return Err(EngineError::Parse(e)),
            Ok(n) => n,
        };
        let projected = match self.projected_nodes() {
            Err(e) => return Err(e),
            Ok(p) => p,
        };
        match projected.get(node_id.as_str()) {
            None => {},
            Some(Some(owner)) => {
                if !str_eq(owner.as_str(), session_id) {
                    return Err(EngineError::Forbidden(message_about("node `", node_id.as_str(), "` is owned by another session")));
                }
            },
            Some(None) => {
                return Err(EngineError::Forbidden(message_about("node `", node_id.as_str(), "` is admin-managed")));
            },
        }
        let update = QueuedUpdate::UpsertNode { node, owner: NodeOwnerUpdate::SetTo(session_id.to_owned()) };
        Ok(self.push_update(update))
    }

    /// Queues a new program and color for any node; the node's owner stays as it is.
    pub fn queue_admin_node_upsert(&mut self, node_id: String, request: PutNodeRequest) -> (r: Result<usize, EngineError>)
        requires
            old(self).wf(),
            encode_utf8(request.source@).len() < usize::MAX,
            !parse_panics(encode_utf8(request.source@)),
        ensures
            final(self).wf(),
            match spec_parse_program(encode_utf8(request.source@)) {
                Err(pe) => refused(old(self)@, final(self)@, r, SEngineError::Parse(pe)),
                Ok(prog) => queued_one(old(self)@, final(self)@, r) && upserts(
                    final(self)@.pending.last(),
                    node_id,
                    request,
                    prog,
                    None,
                ),
            },
    {
        let node = match crate::tick::parse_node(NodeSpec { id: node_id, source: request.source, color: request.color }) {
            Err(e) => return Err(EngineError::Parse(e)),
            Ok(n) => n,
        };
        let update = QueuedUpdate::UpsertNode { node, owner: NodeOwnerUpdate::Preserve };
        Ok(self.push_update(update))
    }

    /// Queues the removal of a node that the session owns.
    pub fn queue_user_node_delete(&mut self, session_id: &str, node_id: String) -> (r: Result<usize, EngineError>)
        requires
            old(self).wf(),
        ensures
            final(self).wf(),
            match s_owned_by(engine_projection(old(self)@)->Ok_0, session_id@, node_id@) {
                Err(e) => refused(old(self)@, final(self)@, r, e),
                Ok(_) => queued_one(old(self)@, final(self)@, r) && final(self)@.pending.last()
                    == SUpdate::RemoveNode(node_id@),
            },
    {
        match self.ensure_session_owned_node(session_id, node_id.as_str()) {
            Err(e) => return Err(e),
            Ok(_) => {},
        }
        Ok(self.push_update(QueuedUpdate::RemoveNode { node_id }))
    }

    /// Queues the removal of any node of the projection.
    pub fn queue_admin_node_delete(&mut self, node_id: String) -> (r: Result<usize, EngineError>)
        requires
            old(self).wf(),
        ensures
            final(self).wf(),
            match s_ensure_exists(engine_projection(old(self)@)->Ok_0, node_id@) {
                Err(e) => refused(old(self)@, final(self)@, r, e),
                Ok(_) => queued_one(old(self)@, final(self)@, r) && final(self)@.pending.last()
                    == SUpdate::RemoveNode(node_id@),
            },
    {
        let projected = match self.projected_nodes() {
            Err(e) => return Err(e),
            Ok(p) => p,
        };
        if !projected.contains_key(node_id.as_str()) {
            return Err(EngineError::InvalidUpdate(message_about("node `", node_id.as_str(), "` does not exist")));
        }
        Ok(self.push_update(QueuedUpdate::RemoveNode { node_id }))
    }

    /// Schedules a node that the session owns for the next tick.
    pub fn queue_user_node_enqueue(&mut self, session_id: &str, node_id: String) -> (r: Result<usize, EngineError>)
        requires
            old(self).wf(),
        ensures
            final(self).wf(),
            match s_owned_by(engine_projection(old(self)@)->Ok_0, session_id@, node_id@) {
                Err(e) => refused(old(self)@, final(self)@, r, e),
                Ok(_) => queued_one(old(self)@, final(self)@, r) && final(self)@.pending.last()
                    == SUpdate::EnqueueNode(node_id@),
            },
    {
        match self.ensure_session_owned_node(session_id, node_id.as_str()) {
            Err(e) => return Err(e),
            Ok(_) => {},
        }
        Ok(self.push_update(QueuedUpdate::EnqueueNode { node_id }))
    }

    /// Schedules any node of the projection for the next tick.
    pub fn queue_admin_node_enqueue(&mut self, node_id: String) -> (r: Result<usize, EngineError>)
        requires
            old(self).wf(),
        ensures
            final(self).wf(),
            match s_ensure_exists(engine_projection(old(self)@)->Ok_0, node_id@) {
                Err(e) => refused(old(self)@, final(self)@, r, e),
                Ok(_) => queued_one(old(self)@, final(self)@, r) && final(self)@.pending.last()
                    == SUpdate::EnqueueNode(node_id@),
            },
    {
        let projected = match self.projected_nodes() {
            Err(e) => return Err(e),
            Ok(p) => p,
        };
        if !projected.contains_key(node_id.as_str()) {
            return Err(EngineError::InvalidUpdate(message_about("node `", node_id.as_str(), "` does not exist")));
        }
        Ok(self.push_update(QueuedUpdate::EnqueueNode { node_id }))
    }

    /// Queues a message from a node the session owns to a node of the projection.
    pub fn queue_user_message(&mut self, session_id: &str, request: SendMessageRequest) -> (r: Result<usize, EngineError>)
        requires
            old(self).wf(),
        ensures
            final(self).wf(),
            ({
                let p = engine_projection(old(self)@)->Ok_0;
                let m = SMessage { from: request.from@, to: request.to@, value: request.value@ };
                match s_owned_by(p, session_id@, m.from) {
                    Err(e) => refused(old(self)@, final(self)@, r, e),
                    Ok(_) => match s_ensure_exists(p, m.to) {
                        Err(e) => refused(old(self)@, final(self)@, r, e),
                        Ok(_) => queued_one(old(self)@, final(self)@, r) && final(self)@.pending.last()
                            == SUpdate::SendMessage(m),
                    },
                }
            }),
    {
        let message = Message { from: request.from, to: request.to, value: request.value };
        let projected = match self.projected_nodes() {
            Err(e) => return Err(e),
            Ok(p) => p,
        };
        match ensure_session_owned_message_source(&projected, session_id, message.from.as_str()) {
            Err(e) => return Err(e),
            Ok(_) => {},
        }
        match ensure_node_exists(&projected, message.to.as_str()) {
            Err(e) => return Err(e),
            Ok(_) => {},
        }
        Ok(self.push_update(QueuedUpdate::SendMessage { message }))
    }

    /// Queues a message between two nodes of the projection.
    pub fn queue_admin_message(&mut self, request: SendMessageRequest) -> (r: Result<usize, EngineError>)
        requires
            old(self).wf(),
        ensures
            final(self).wf(),
            ({
                let p = engine_projection(old(self)@)->Ok_0;
                let m = SMessage { from: request.from@, to: request.to@, value: request.value@ };
                match s_ensure_exists(p, m.from) {
                    Err(e) => refused(old(self)@, final(self)@, r, e),
                    Ok(_) => match s_ensure_exists(p, m.to) {
                        Err(e) => refused(old(self)@, final(self)@, r, e),
                        Ok(_) => queued_one(old(self)@, final(self)@, r) && final(self)@.pending.last()
                            == SUpdate::SendMessage(m),
                    },
                }
            }),
    {
        let message = Message { from: request.from, to: request.to, value: request.value };
        let projected = match self.projected_nodes() {
            Err(e) => return Err(e),
            Ok(p) => p,
        };
        match ensure_node_exists(&projected, message.from.as_str()) {
            Err(e) => return Err(e),
            Ok(_) => {},
        }
        match ensure_node_exists(&projected, message.to.as_str()) {
            Err(e) => return Err(e),
            Ok(_) => {},
        }
        Ok(self.push_update(QueuedUpdate::SendMessage { message }))
    }
}


// ---------------------------------------------------------------------------
// Applying the queue.
// ---------------------------------------------------------------------------

/// The work queue without the runs of `id`.
fn without_node(queue: &Vec<String>, id: &str) -> (r: Vec<String>)
    ensures
        strings_view(r@) == strings_view(queue@).filter(other_than(id@)),
{
    let ghost all = strings_view(queue@);
    let mut out: Vec<String> = Vec::new();
    let n = queue.len();
    let mut i: usize = 0;
    proof {
        reveal(Seq::filter);
        assert(all.take(0) =~= Seq::<Seq<char>>::empty());
        assert(strings_view(out@) =~= all.take(0).filter(other_than(id@)));
    }
    while i < n
        invariant
            n == queue@.len(),
            all == strings_view(queue@),
            i <= n,
            strings_view(out@) == all.take(i as int).filter(other_than(id@)),
        decreases n - i,
    {
        let ghost before = out@;
        proof {
            reveal(Seq::filter);
            assert(all.take(i + 1).drop_last() =~= all.take(i as int));
            assert(all.take(i + 1).last() == queue@[i as int]@);
        }
        if !str_eq(queue[i].as_str(), id) {
            out.push(queue[i].clone());
            assert(strings_view(out@) =~= strings_view(before).push(queue@[i as int]@));
        }
        i = i + 1;
    }
    assert(all.take(n as int) =~= all);
    out
}

/// Every mailbox without the queue from `id`.
fn drop_sender(mailboxes: StrMap<StrMap<Vec<Value>>>, id: &str) -> (r: StrMap<StrMap<Vec<Value>>>)
    requires
        mailboxes.wf(),
        inner_maps_wf(mailboxes.map()),
    ensures
        r.wf(),
        inner_maps_wf(r.map()),
        mailboxes_view(r.map()) == mailboxes_view(mailboxes.map()).map_values(
            |inner: Map<Seq<char>, Seq<SValue>>| inner.remove(id@),
        ),
{
    let ghost s = mailboxes.entries();
    let ghost n = s.len();
    proof {
        lemma_alist_entries(s);
        assert forall|j: int| 0 <= j < s.len() implies #[trigger] s[j].1.wf() by {
            assert(alist_map(s).dom().contains(s[j].0@));
        }
    }
    let mut rest = mailboxes.into_entries();
    let mut out: StrMap<StrMap<Vec<Value>>> = StrMap::new();
    let ghost mut i: int = 0;
    proof {
        assert(rest@ =~= s.subrange(0, n as int));
        assert(mailboxes_view(out.map()) =~= mailboxes_view(alist_map(s.take(0))).map_values(
            |inner: Map<Seq<char>, Seq<SValue>>| inner.remove(id@),
        ));
    }
    while rest.len() > 0
        invariant
            keys_distinct(s),
            forall|j: int| 0 <= j < s.len() ==> #[trigger] s[j].1.wf(),
            n == s.len(),
            0 <= i <= n,
            rest@ == s.subrange(i, n as int),
            out.wf(),
            inner_maps_wf(out.map()),
            mailboxes_view(out.map()) == mailboxes_view(alist_map(s.take(i))).map_values(
                |inner: Map<Seq<char>, Seq<SValue>>| inner.remove(id@),
            ),
        decreases rest@.len(),
    {
        proof {
            lemma_alist_prefix(s, i);
            assert(rest@[0] == s[i]);
        }
        let (key, mut inner) = rest.remove(0);
        let ghost before = out.map();
        let ghost iv = inbox_view(inner.map());
        inner.remove(id);
        assert(inbox_view(inner.map()) =~= iv.remove(id@));
        out.insert(key, inner);
        proof {
            let f = |inner: Map<Seq<char>, Seq<SValue>>| inner.remove(id@);
            assert(mailboxes_view(out.map()) =~= mailboxes_view(before).insert(s[i].0@, iv.remove(id@)));
            assert(mailboxes_view(alist_map(s.take(i + 1))) =~= mailboxes_view(alist_map(s.take(i))).insert(s[i].0@, iv));
            assert(mailboxes_view(out.map()) =~= mailboxes_view(alist_map(s.take(i + 1))).map_values(f));
            assert(rest@ =~= s.subrange(i + 1, n as int));
            i = i + 1;
        }
    }
    proof {
        assert(s.take(n as int) =~= s);
    }
    out
}

impl Engine {
    /// The parts of the world are well formed.
    closed spec fn world_wf(&self) -> bool {
        &&& self.registry.wf()
        &&& self.node_owners.wf()
        &&& self.tick_state.wf()
        &&& self.node_actions.wf()
    }

    /// Applies one update to the world.
    fn apply_update(&mut self, update: QueuedUpdate) -> (r: Result<(), EngineError>)
        requires
            old(self).world_wf(),
        ensures
            final(self).world_wf(),
            final(self).pending_updates == old(self).pending_updates,
            final(self).tick == old(self).tick,
            final(self).last_tick == old(self).last_tick,
            match s_apply_update(old(self)@.world, update@) {
                Ok(w) => r is Ok && final(self)@.world == w,
                Err(e) => r matches Err(x) && x@ == e,
            },
    {
        let ghost w0 = self@.world;
        let ghost u = update@;
        match update {
            QueuedUpdate::UpsertNode { node, owner } => {
                let node_id = node.id.clone();
                let ghost nv = node;
                self.registry.insert(node_id.clone(), node);
                match owner {
                    NodeOwnerUpdate::Preserve => {},
                    NodeOwnerUpdate::SetTo(o) => {
                        let ghost before = self.node_owners.map();
                        self.node_owners.insert(node_id, o);
                        assert(owners_view(self.node_owners.map()) =~= owners_view(before).insert(nv.id@, o@));
                    },
                }
                assert(self@.world.registry =~= w0.registry.insert(nv.id@, nv));
            },
            QueuedUpdate::RemoveNode { node_id } => {
                if self.registry.remove(node_id.as_str()).is_none() {
                    return Err(EngineError::InvalidUpdate(message_about("node `", node_id.as_str(), "` does not exist")));
                }
                let ghost owners0 = self.node_owners.map();
                self.node_owners.remove(node_id.as_str());
                assert(owners_view(self.node_owners.map()) =~= owners_view(owners0).remove(node_id@));
                let queue = without_node(&self.tick_state.work_queue, node_id.as_str());
                self.tick_state.work_queue = queue;
                let ghost mail0 = self.tick_state.mailboxes.map();
                let mut mailboxes: StrMap<StrMap<Vec<Value>>> = StrMap::new();
                std::mem::swap(&mut mailboxes, &mut self.tick_state.mailboxes);
                mailboxes.remove(node_id.as_str());
                assert(mailboxes_view(mailboxes.map()) =~= mailboxes_view(mail0).remove(node_id@));
                let mailboxes = drop_sender(mailboxes, node_id.as_str());
                self.tick_state.mailboxes = mailboxes;
                assert(self@.world.tick_state.mailboxes =~= remove_mail_of(w0.tick_state.mailboxes, node_id@));
                let ghost actions0 = self.node_actions.map();
                self.node_actions.remove(node_id.as_str());
                assert(history_view(self.node_actions.map()) =~= history_view(actions0).remove(node_id@));
            },
            QueuedUpdate::EnqueueNode { node_id } => {
                if !self.registry.contains_key(node_id.as_str()) {
                    return Err(EngineError::InvalidUpdate(message_about("node `", node_id.as_str(), "` does not exist")));
                }
                self.tick_state.enqueue(node_id);
            },
            QueuedUpdate::SendMessage { message } => {
                if !self.registry.contains_key(message.from.as_str()) {
                    return Err(EngineError::InvalidUpdate(message_about("message source `", message.from.as_str(), "` does not exist")));
                }
                if !self.registry.contains_key(message.to.as_str()) {
                    return Err(EngineError::InvalidUpdate(message_about("message target `", message.to.as_str(), "` does not exist")));
                }
                self.tick_state.send(message);
            },
        }
        Ok(())
    }
}


impl Engine {
    /// Applies every queued update, in order, and empties the queue. The queue of a
    /// well-formed engine always applies.
    fn apply_pending_updates(&mut self) -> (r: Result<(), EngineError>)
        requires
            old(self).wf(),
        ensures
            r is Ok,
            final(self).wf(),
            final(self)@.world == s_apply_all(old(self)@.world, old(self)@.pending)->Ok_0,
            final(self)@.pending == Seq::<SUpdate>::empty(),
            final(self)@.tick == old(self)@.tick,
            final(self)@.last_tick == old(self)@.last_tick,
    {
        proof {
            lemma_apply_all_projects(self@.world, self@.pending);
        }
        let ghost target = s_apply_all(self@.world, self@.pending)->Ok_0;
        let ghost tick0 = self.tick;
        let ghost last0 = self.last_tick;
        let mut rest: Vec<QueuedUpdate> = Vec::new();
        std::mem::swap(&mut rest, &mut self.pending_updates);
        while rest.len() > 0
            invariant
                self.world_wf(),
                self.pending_updates@.len() == 0,
                self.tick == tick0,
                self.last_tick == last0,
                s_apply_all(self@.world, updates_view(rest@)) == Ok::<SWorld, SEngineError>(target),
            decreases rest@.len(),
        {
            let ghost us = updates_view(rest@);
            let update = rest.remove(0);
            assert(us[0] == update@);
            assert(us.subrange(1, us.len() as int) =~= updates_view(rest@));
            match self.apply_update(update) {
                Err(e) => return Err(e),
                Ok(_) => {},
            }
        }
        proof {
            assert(updates_view(rest@) =~= Seq::<SUpdate>::empty());
            assert(self@.pending =~= Seq::<SUpdate>::empty());
            assert(s_project(world_projection(self@.world), self@.pending) == Ok::<Projection, SEngineError>(world_projection(self@.world)));
        }
        Ok(())
    }
}

// ---------------------------------------------------------------------------
// Advancing a tick.
// ---------------------------------------------------------------------------

/// A tick that ran: its number and its log.
#[derive(Debug)]
pub struct TickEvent {
    pub tick: u64,
    pub log: TickLog,
}

/// A node's history with one more action.
pub open spec fn add_action(h: Map<Seq<char>, Seq<SAction>>, id: Seq<char>, a: SAction) -> Map<Seq<char>, Seq<SAction>> {
    h.insert(id, if h.dom().contains(id) { h[id] } else { seq![] }.push(a))
}

/// The histories with each executed line added to its node's, in order.
pub open spec fn record_executed(h: Map<Seq<char>, Seq<SAction>>, tick: u64, es: Seq<SExecuted>) -> Map<Seq<char>, Seq<SAction>>
    decreases es.len(),
{
    if es.len() == 0 {
        h
    } else {
        let e = es.last();
        add_action(
            record_executed(h, tick, es.drop_last()),
            e.node_id,
            SAction::ExecutedLine { tick, step: e.step, loc: e.loc },
        )
    }
}

/// The histories with each sent message added to its sender's, in order.
pub open spec fn record_sent(h: Map<Seq<char>, Seq<SAction>>, tick: u64, ms: Seq<SSent>) -> Map<Seq<char>, Seq<SAction>>
    decreases ms.len(),
{
    if ms.len() == 0 {
        h
    } else {
        let m = ms.last();
        add_action(
            record_sent(h, tick, ms.drop_last()),
            m.from,
            SAction::SentMessage { tick, step: m.step, to: m.to, value: m.value, loc: m.loc },
        )
    }
}

/// The histories after a tick: first its executed lines, then its messages.
pub open spec fn s_record(h: Map<Seq<char>, Seq<SAction>>, tick: u64, log: STickLog) -> Map<Seq<char>, Seq<SAction>> {
    record_sent(record_executed(h, tick, log.executed), tick, log.messages)
}

/// Adds an action to the history of a node.
fn add_node_action(node_actions: &mut StrMap<Vec<NodeAction>>, node_id: &str, action: NodeAction)
    requires
        old(node_actions).wf(),
    ensures
        final(node_actions).wf(),
        history_view(final(node_actions).map()) == add_action(history_view(old(node_actions).map()), node_id@, action@),
{
    let ghost h0 = history_view(node_actions.map());
    let ghost prev = if h0.dom().contains(node_id@) { h0[node_id@] } else { seq![] };
    let mut actions = match node_actions.remove(node_id) {
        Some(v) => v,
        None => Vec::new(),
    };
    assert(actions_view(actions@) =~= prev);
    let ghost a = action@;
    actions.push(action);
    assert(actions_view(actions@) =~= prev.push(a));
    let ghost mid = node_actions.map();
    node_actions.insert(node_id.to_owned(), actions);
    assert(history_view(node_actions.map()) =~= history_view(mid).insert(node_id@, prev.push(a)));
    assert(history_view(node_actions.map()) =~= add_action(h0, node_id@, a));
}

/// Adds what a tick did to the nodes' histories.
fn record_node_actions(node_actions: &mut StrMap<Vec<NodeAction>>, event: &TickEvent)
    requires
        old(node_actions).wf(),
    ensures
        final(node_actions).wf(),
        history_view(final(node_actions).map()) == s_record(
            history_view(old(node_actions).map()),
            event.tick,
            event.log@,
        ),
{
    let ghost h0 = history_view(node_actions.map());
    let ghost es = event.log@.executed;
    let n = event.log.executed.len();
    let mut i: usize = 0;
    assert(es.take(0) =~= Seq::<SExecuted>::empty());
    while i < n
        invariant
            n == es.len(),
            es == event.log@.executed,
            i <= n,
            node_actions.wf(),
            history_view(node_actions.map()) == record_executed(h0, event.tick, es.take(i as int)),
        decreases n - i,
    {
        let e = &event.log.executed[i];
        let action = NodeAction::ExecutedLine { tick: event.tick, step: e.step, loc: e.loc.duplicate() };
        add_node_action(node_actions, e.node_id.as_str(), action);
        assert(es.take(i + 1).drop_last() =~= es.take(i as int));
        i = i + 1;
    }
    assert(es.take(n as int) =~= es);
    let ghost h1 = history_view(node_actions.map());
    let ghost ms = event.log@.messages;
    let n = event.log.messages.len();
    let mut i: usize = 0;
    assert(ms.take(0) =~= Seq::<SSent>::empty());
    while i < n
        invariant
            n == ms.len(),
            ms == event.log@.messages,
            i <= n,
            node_actions.wf(),
            history_view(node_actions.map()) == record_sent(h1, event.tick, ms.take(i as int)),
        decreases n - i,
    {
        let m = &event.log.messages[i];
        let action = NodeAction::SentMessage {
            tick: event.tick,
            step: m.step,
            to: m.to.clone(),
            value: m.value.duplicate(),
            loc: m.loc.duplicate(),
        };
        add_node_action(node_actions, m.from.as_str(), action);
        assert(ms.take(i + 1).drop_last() =~= ms.take(i as int));
        i = i + 1;
    }
    assert(ms.take(n as int) =~= ms);
}

/// How advancing a tick ends.
pub enum SAdvance {
    /// The tick panics.
    Panicked,
    /// The tick was refused.
    Failed(SEngineError),
    /// The tick ran, with this log.
    Done(STickLog),
}

/// Advancing a tick: the queue is applied to the world, then the tick runs on it. A
/// tick that fails leaves the applied world as it is, work queue and mailboxes included;
/// one that runs numbers itself, records what each node did, and keeps its log.
pub open spec fn s_advance(e: SEngine) -> (SAdvance, SEngine) {
    let w = s_apply_all(e.world, e.pending)->Ok_0;
    let applied = SEngine { world: w, pending: seq![], ..e };
    match s_tick(w.tick_state, w.registry) {
        STick::Panicked => (
            SAdvance::Panicked,
            SEngine { world: SWorld { tick_state: empty_tick_state(), ..w }, ..applied },
        ),
        STick::Failed(err) => (SAdvance::Failed(SEngineError::Runtime(err)), applied),
        STick::Done(log, next) => {
            let t = (e.tick + 1) as u64;
            (
                SAdvance::Done(log),
                SEngine {
                    world: SWorld { tick_state: next, actions: s_record(w.actions, t, log), ..w },
                    pending: seq![],
                    tick: t,
                    last_tick: Some(log),
                },
            )
        },
    }
}

/// Whether advancing the engine's tick panics.
pub open spec fn advance_panics(e: SEngine) -> bool {
    s_advance(e).0 is Panicked
}

impl Engine {
    /// Applies the queue and runs a tick, or gives `None` when the tick panics.
    pub fn try_advance_tick(&mut self) -> (r: Option<Result<TickEvent, EngineError>>)
        requires
            old(self).wf(),
            old(self)@.tick < u64::MAX,
        ensures
            final(self).wf(),
            final(self)@ == s_advance(old(self)@).1,
            match s_advance(old(self)@).0 {
                SAdvance::Panicked => r is None,
                SAdvance::Failed(e) => r matches Some(Err(x)) && x@ == e,
                SAdvance::Done(log) => r matches Some(Ok(ev)) && ev.tick == old(self)@.tick + 1
                    && ev.log@ == log && ev.log.wf(),
            },
    {
        match self.validate_pending_updates() {
            Err(e) => return Some(Err(e)),
            Ok(_) => {},
        }
        match self.apply_pending_updates() {
            Err(e) => return Some(Err(e)),
            Ok(_) => {},
        }
        let result = match try_run_tick(&mut self.tick_state, &self.registry) {
            None => return None,
            Some(Err(e)) => return Some(Err(EngineError::Runtime(e))),
            Some(Ok(t)) => t,
        };
        self.tick = self.tick + 1;
        let event = TickEvent { tick: self.tick, log: result.log };
        record_node_actions(&mut self.node_actions, &event);
        self.last_tick = Some(event.log.duplicate());
        Some(Ok(event))
    }
}


impl Engine {
    /// Applies the queue and runs a tick, on engines whose tick does not panic.
    pub fn advance_tick(&mut self) -> (r: Result<TickEvent, EngineError>)
        requires
            old(self).wf(),
            old(self)@.tick < u64::MAX,
            !advance_panics(old(self)@),
        ensures
            final(self).wf(),
            final(self)@ == s_advance(old(self)@).1,
            match s_advance(old(self)@).0 {
                SAdvance::Failed(e) => r matches Err(x) && x@ == e,
                SAdvance::Done(log) => r matches Ok(ev) && ev.tick == old(self)@.tick + 1 && ev.log@ == log
                    && ev.log.wf(),
                SAdvance::Panicked => false,
            },
    {
        match self.try_advance_tick() {
            Some(r) => r,
            None => Err(EngineError::InvalidUpdate(String::new())),
        }
    }
}

// ---------------------------------------------------------------------------
// Reading the engine.
// ---------------------------------------------------------------------------

/// The applied state of the engine.
#[derive(Debug)]
pub struct StatusResponse {
    pub tick: u64,
    pub pending_updates: usize,
    pub nodes: Vec<String>,
    pub last_tick: Option<TickLog>,
}

/// A node's history.
#[derive(Debug)]
pub struct NodeActionResponse {
    pub node_id: String,
    pub actions: Vec<NodeAction>,
}

impl NodeAction {
    /// A copy of the action.
    pub fn duplicate(&self) -> (r: NodeAction)
        ensures
            r@ == self@,
    {
        match self {
            NodeAction::ExecutedLine { tick, step, loc } => NodeAction::ExecutedLine {
                tick: *tick,
                step: *step,
                loc: loc.duplicate(),
            },
            NodeAction::SentMessage { tick, step, to, value, loc } => NodeAction::SentMessage {
                tick: *tick,
                step: *step,
                to: to.clone(),
                value: value.duplicate(),
                loc: loc.duplicate(),
            },
        }
    }
}

fn clone_actions(v: &Vec<NodeAction>) -> (r: Vec<NodeAction>)
    ensures
        actions_view(r@) == actions_view(v@),
{
    let mut out: Vec<NodeAction> = Vec::new();
    let n = v.len();
    let mut i: usize = 0;
    while i < n
        invariant
            n == v@.len(),
            i <= n,
            actions_view(out@) == actions_view(v@.take(i as int)),
        decreases n - i,
    {
        let ghost before = out@;
        out.push(v[i].duplicate());
        assert(actions_view(out@) =~= actions_view(before).push(v@[i as int]@));
        assert(v@.take(i + 1) =~= v@.take(i as int).push(v@[i as int]));
        assert(actions_view(v@.take(i + 1)) =~= actions_view(v@.take(i as int)).push(v@[i as int]@));
        i = i + 1;
    }
    assert(v@.take(n as int) =~= v@);
    out
}

/// The history of a node in a set of histories: empty when it has none.
pub open spec fn history_of(h: Map<Seq<char>, Seq<SAction>>, id: Seq<char>) -> Seq<SAction> {
    if h.dom().contains(id) {
        h[id]
    } else {
        seq![]
    }
}

impl Engine {
    /// The applied state: the tick, the number of queued updates, the nodes in byte
    /// order, and the log of the last tick. Queued changes do not show.
    pub fn status(&self) -> (r: StatusResponse)
        requires
            self.wf(),
        ensures
            r.tick == self@.tick,
            r.pending_updates == self@.pending.len(),
            forall|i: int, j: int|
                0 <= i < j < r.nodes@.len() ==> str_before(#[trigger] r.nodes@[i]@, #[trigger] r.nodes@[j]@),
            forall|k: Seq<char>| self@.world.registry.dom().contains(k) <==> #[trigger] holds_string(r.nodes@, k),
            match r.last_tick {
                Some(l) => self@.last_tick == Some(l@) && l.wf(),
                None => self@.last_tick is None,
            },
    {
        let last_tick = match &self.last_tick {
            Some(l) => Some(l.duplicate()),
            None => None,
        };
        StatusResponse {
            tick: self.tick,
            pending_updates: self.pending_updates.len(),
            nodes: self.registry.sorted_keys(),
            last_tick,
        }
    }

    /// The recorded actions of an applied node, or `None` for a node that is not one.
    pub fn node_actions(&self, node_id: &str) -> (r: Option<Vec<NodeAction>>)
        requires
            self.wf(),
        ensures
            match r {
                Some(v) => self@.world.registry.dom().contains(node_id@) && actions_view(v@) == history_of(
                    self@.world.actions,
                    node_id@,
                ),
                None => !self@.world.registry.dom().contains(node_id@),
            },
    {
        if !self.registry.contains_key(node_id) {
            return None;
        }
        match self.node_actions.get(node_id) {
            Some(v) => Some(clone_actions(v)),
            None => {
                let v: Vec<NodeAction> = Vec::new();
                assert(actions_view(v@) =~= Seq::<SAction>::empty());
                Some(v)
            },
        }
    }
}


// ---------------------------------------------------------------------------
// Building an engine.
// ---------------------------------------------------------------------------

/// Whether a parsed node is what parsing `spec` gives.
pub open spec fn parsed_from(n: ParsedNode, spec: NodeSpec) -> bool {
    &&& n.id == spec.id
    &&& n.source == spec.source
    &&& n.color == spec.color
    &&& spec_parse_program(encode_utf8(spec.source@)) == Ok::<VLStmt, SParseError>(view_lstmt(n.program))
}

/// The last position of a node spec with id `k`, or -1.
pub open spec fn last_spec_index(specs: Seq<NodeSpec>, k: Seq<char>) -> int
    decreases specs.len(),
{
    if specs.len() == 0 {
        -1
    } else if specs.last().id@ == k {
        specs.len() - 1
    } else {
        last_spec_index(specs.drop_last(), k)
    }
}

/// The error of the first node spec whose program does not parse.
#[verifier::opaque]
pub open spec fn first_bad_node(specs: Seq<NodeSpec>) -> Option<SParseError>
    decreases specs.len(),
{
    if specs.len() == 0 {
        None
    } else {
        match spec_parse_program(encode_utf8(specs[0].source@)) {
            Err(e) => Some(e),
            Ok(_) => first_bad_node(specs.drop_first()),
        }
    }
}

/// The registry holds, for each id, the node parsed from the last spec with that id.
pub open spec fn registry_of(reg: Map<Seq<char>, ParsedNode>, specs: Seq<NodeSpec>) -> bool {
    &&& forall|k: Seq<char>| #[trigger] reg.dom().contains(k) <==> last_spec_index(specs, k) >= 0
    &&& forall|k: Seq<char>| #[trigger] reg.dom().contains(k) ==> parsed_from(reg[k], specs[last_spec_index(specs, k)])
}

/// The sources can all be parsed without a panic.
pub open spec fn specs_parseable(specs: Seq<NodeSpec>) -> bool {
    forall|i: int|
        0 <= i < specs.len() ==> encode_utf8(#[trigger] specs[i].source@).len() < usize::MAX && !parse_panics(
            encode_utf8(specs[i].source@),
        )
}

/// One step of `first_bad_node`.
pub proof fn lemma_first_bad_node_step(specs: Seq<NodeSpec>)
    ensures
        specs.len() == 0 ==> first_bad_node(specs) is None,
        specs.len() > 0 ==> first_bad_node(specs) == match spec_parse_program(encode_utf8(specs[0].source@)) {
            Err(e) => Some(e),
            Ok(_) => first_bad_node(specs.drop_first()),
        },
{
    reveal(first_bad_node);
}

proof fn lemma_last_spec_index_bounds(specs: Seq<NodeSpec>, k: Seq<char>)
    ensures
        -1 <= last_spec_index(specs, k) < specs.len(),
        last_spec_index(specs, k) >= 0 ==> specs[last_spec_index(specs, k)].id@ == k,
    decreases specs.len(),
{
    if specs.len() > 0 && specs.last().id@ != k {
        lemma_last_spec_index_bounds(specs.drop_last(), k);
    }
}

/// Adding the node parsed from one more spec keeps the registry that of the specs.
proof fn lemma_registry_step(reg: Map<Seq<char>, ParsedNode>, specs: Seq<NodeSpec>, spec: NodeSpec, n: ParsedNode)
    requires
        registry_of(reg, specs),
        parsed_from(n, spec),
    ensures
        registry_of(reg.insert(n.id@, n), specs.push(spec)),
{
    let t = specs.push(spec);
    let r = reg.insert(n.id@, n);
    assert(t.drop_last() =~= specs);
    assert forall|k: Seq<char>| #[trigger] r.dom().contains(k) <==> last_spec_index(t, k) >= 0 by {}
    assert forall|k: Seq<char>| #[trigger] r.dom().contains(k) implies parsed_from(r[k], t[last_spec_index(t, k)]) by {
        if k != n.id@ {
            assert(reg.dom().contains(k));
            lemma_last_spec_index_bounds(specs, k);
            assert(t[last_spec_index(t, k)] == specs[last_spec_index(specs, k)]);
        }
    }
}

impl Engine {
    /// An engine with the given nodes, none owned, nothing scheduled, nothing queued; or
    /// the error of the first node whose program does not parse. A later spec with the
    /// same id replaces an earlier one.
    pub fn new(nodes: Vec<NodeSpec>) -> (r: Result<Engine, ParseError>)
        requires
            specs_parseable(nodes@),
        ensures
            match first_bad_node(nodes@) {
                Some(e) => r matches Err(x) && x@ == e,
                None => r matches Ok(eng) && eng.wf() && registry_of(eng@.world.registry, nodes@)
                    && eng@.world.owners == Map::<Seq<char>, Seq<char>>::empty()
                    && eng@.world.tick_state == empty_tick_state()
                    && eng@.world.actions == Map::<Seq<char>, Seq<SAction>>::empty()
                    && eng@.pending == Seq::<SUpdate>::empty()
                    && eng@.tick == 0
                    && eng@.last_tick is None,
            },
    {
        let ghost specs = nodes@;
        let ghost n = specs.len();
        let mut rest = nodes;
        let mut registry: StrMap<ParsedNode> = StrMap::new();
        let ghost mut i: int = 0;
        proof {
            assert(rest@ =~= specs.subrange(0, n as int));
            assert(specs.take(0) =~= Seq::<NodeSpec>::empty());
            assert forall|k: Seq<char>| #[trigger] registry.map().dom().contains(k) <==> last_spec_index(specs.take(0), k) >= 0 by {}
        }
        while rest.len() > 0
            invariant
                specs == nodes@,
                specs_parseable(specs),
                n == specs.len(),
                0 <= i <= n,
                rest@ == specs.subrange(i, n as int),
                first_bad_node(specs) == first_bad_node(specs.subrange(i, n as int)),
                registry.wf(),
                registry_of(registry.map(), specs.take(i)),
            decreases rest@.len(),
        {
            assert(rest@[0] == specs[i]);
            proof {
                lemma_first_bad_node_step(specs.subrange(i, n as int));
            }
            let spec = rest.remove(0);
            assert(spec == specs[i]);
            assert(specs.subrange(i, n as int)[0] == specs[i]);
            let parsed = match crate::tick::parse_node(spec) {
                Err(e) => {
                    assert(first_bad_node(specs) == Some(e@));
                    return Err(e);
                },
                Ok(p) => p,
            };
            proof {
                assert(specs.subrange(i, n as int).drop_first() =~= specs.subrange(i + 1, n as int));
                assert(specs.take(i + 1) =~= specs.take(i).push(specs[i]));
            }
            let ghost before = registry.map();
            let ghost pv = parsed;
            registry.insert(parsed.id.clone(), parsed);
            proof {
                lemma_registry_step(before, specs.take(i), specs[i], pv);
                i = i + 1;
            }
        }
        proof {
            assert(specs.take(n as int) =~= specs);
            assert(specs.subrange(n as int, n as int) =~= Seq::<NodeSpec>::empty());
            lemma_first_bad_node_step(specs.subrange(n as int, n as int));
        }
        let tick_state = TickState::new();
        let node_owners: StrMap<String> = StrMap::new();
        let node_actions: StrMap<Vec<NodeAction>> = StrMap::new();
        let engine = Engine {
            registry,
            node_owners,
            tick_state,
            pending_updates: Vec::new(),
            tick: 0,
            last_tick: None,
            node_actions,
        };
        proof {
            assert(engine@.world.owners =~= Map::<Seq<char>, Seq<char>>::empty());
            assert(engine@.world.actions =~= Map::<Seq<char>, Seq<SAction>>::empty());
            assert(engine@.pending =~= Seq::<SUpdate>::empty());
            assert(owners_of_nodes(engine@.world));
            assert(engine_projection(engine@) == Ok::<Projection, SEngineError>(world_projection(engine@.world)));
        }
        Ok(engine)
    }
}


/// The queue of a well-formed engine always applies to its world, so checking it before a
/// tick never fails, and the engine's projection is the projection of the world it makes.
pub proof fn lemma_queue_always_applies(e: &Engine)
    requires
        e.wf(),
    ensures
        s_apply_all(e@.world, e@.pending) matches Ok(w) && engine_projection(e@) == Ok::<
            Projection,
            SEngineError,
        >(world_projection(w)),
{
    lemma_apply_all_projects(e@.world, e@.pending);
}

} // verus!
