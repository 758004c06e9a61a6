use event_game_lang::api::{node_actions_response, ApiError};
use event_game_lang::ast::Value;
use event_game_lang::engine::{Engine, EngineError, PutNodeRequest, SendMessageRequest};
use event_game_lang::session::SessionStore;
use event_game_lang::tick::NodeSpec;

fn put(source: &str) -> PutNodeRequest {
    PutNodeRequest {
        source: source.into(),
        color: "gray".into(),
    }
}

fn message(from: &str, to: &str, value: Value) -> SendMessageRequest {
    SendMessageRequest {
        from: from.into(),
        to: to.into(),
        value,
    }
}

fn engine_error_message(e: EngineError) -> (u16, &'static str, String) {
    let answer = ApiError::from_engine_error(e);
    (answer.status, answer.code, answer.message)
}

#[test]
fn status_shows_applied_state_not_queued_changes() {
    let mut engine = Engine::new(Vec::new()).expect("engine builds");
    assert_eq!(engine.queue_admin_node_upsert("left".into(), put("")).unwrap(), 1);
    assert_eq!(engine.queue_admin_node_enqueue("left".into()).unwrap(), 2);

    let before = engine.status();
    assert_eq!(before.tick, 0);
    assert_eq!(before.pending_updates, 2);
    assert!(before.nodes.is_empty());
    assert!(before.last_tick.is_none());

    engine.advance_tick().expect("tick runs");
    let after = engine.status();
    assert_eq!(after.tick, 1);
    assert_eq!(after.pending_updates, 0);
    assert_eq!(after.nodes, vec!["left".to_string()]);
    assert_eq!(after.last_tick.expect("a tick ran").executed.len(), 0);
}

#[test]
fn failed_tick_applies_the_queue_and_empties_it() {
    let mut engine = Engine::new(Vec::new()).expect("engine builds");
    engine.queue_admin_node_upsert("left".into(), put("set(missing)")).unwrap();
    engine.queue_admin_node_enqueue("left".into()).unwrap();

    let error = engine.advance_tick().expect_err("tick fails");
    let (status, code, text) = engine_error_message(error);
    assert_eq!(status, 400);
    assert_eq!(code, "runtime_error");
    assert_eq!(text, "node `left` failed on lines 1..2: missing variable `missing`");

    let after = engine.status();
    assert_eq!(after.tick, 0);
    assert_eq!(after.pending_updates, 0);
    assert_eq!(after.nodes, vec!["left".to_string()]);
    assert!(after.last_tick.is_none());

    // The same work fails again until the node is fixed.
    assert!(matches!(engine.advance_tick(), Err(EngineError::Runtime(_))));
}

#[test]
fn sends_wait_for_the_next_tick_and_are_recorded() {
    let mut engine = Engine::new(Vec::new()).expect("engine builds");
    engine
        .queue_admin_node_upsert("a".into(), put("send \"red\" to \"b\""))
        .unwrap();
    engine
        .queue_admin_node_upsert("b".into(), put("m = receive from \"a\"\nif m != none {\n    set(m)\n}"))
        .unwrap();
    engine.queue_admin_node_enqueue("a".into()).unwrap();

    let first = engine.advance_tick().expect("first tick runs");
    assert_eq!(first.tick, 1);
    assert_eq!(first.log.messages.len(), 1);
    assert_eq!(first.log.messages[0].from, "a");
    assert_eq!(first.log.messages[0].to, "b");
    assert_eq!(first.log.final_colors.get("b"), Some(&"gray".to_string()));

    let second = engine.advance_tick().expect("second tick runs");
    assert_eq!(second.tick, 2);
    assert_eq!(second.log.final_colors.get("b"), Some(&"red".to_string()));
    assert_eq!(second.log.executed.len(), 3);

    let a = node_actions_response(&engine, "a".into()).expect("a exists");
    assert_eq!(a.actions.len(), 2);
    let b = node_actions_response(&engine, "b".into()).expect("b exists");
    assert_eq!(b.actions.len(), 3);
}

#[test]
fn deleting_a_node_drops_its_history_and_mail() {
    let mut engine = Engine::new(Vec::new()).expect("engine builds");
    engine
        .queue_admin_node_upsert("a".into(), put("send \"red\" to \"b\""))
        .unwrap();
    engine
        .queue_admin_node_upsert("b".into(), put("m = receive from \"a\"\nif m != none {\n    set(m)\n}"))
        .unwrap();
    engine.queue_admin_node_enqueue("a".into()).unwrap();
    engine.advance_tick().expect("first tick runs");

    engine.queue_admin_node_delete("a".into()).unwrap();
    let second = engine.advance_tick().expect("second tick runs");
    // `b` still runs, but the message from `a` went with `a`.
    assert_eq!(second.log.final_colors.get("b"), Some(&"gray".to_string()));
    assert!(!second.log.final_colors.contains_key("a"));

    let missing = node_actions_response(&engine, "a".into()).expect_err("a is gone");
    assert_eq!(missing.status, 404);
    assert_eq!(missing.code, "not_found");
    assert_eq!(missing.message, "node `a` does not exist");
    assert_eq!(engine.status().nodes, vec!["b".to_string()]);
}

#[test]
fn sessions_only_touch_their_own_nodes() {
    let mut engine = Engine::new(Vec::new()).expect("engine builds");
    let mut sessions = SessionStore::default();
    let alice = sessions.issue();
    let bob = sessions.issue();

    engine.queue_user_node_upsert(&alice, "left".into(), put("")).unwrap();
    engine.queue_admin_node_upsert("core".into(), put("")).unwrap();

    let (status, code, text) =
        engine_error_message(engine.queue_user_node_upsert(&bob, "left".into(), put("")).unwrap_err());
    assert_eq!((status, code), (403, "forbidden"));
    assert_eq!(text, "node `left` is owned by another session");

    let (status, _, text) = engine_error_message(engine.queue_user_node_delete(&bob, "left".into()).unwrap_err());
    assert_eq!(status, 403);
    assert_eq!(text, "node `left` is owned by another session");

    let (_, _, text) = engine_error_message(engine.queue_user_node_enqueue(&alice, "core".into()).unwrap_err());
    assert_eq!(text, "node `core` is admin-managed");

    let (_, _, text) = engine_error_message(
        engine
            .queue_user_message(&bob, message("left", "core", Value::Int(1)))
            .unwrap_err(),
    );
    assert_eq!(text, "node `left` is owned by another session");

    let (status, code, text) = engine_error_message(
        engine
            .queue_user_message(&alice, message("left", "ghost", Value::Nil))
            .unwrap_err(),
    );
    assert_eq!((status, code), (400, "invalid_update"));
    assert_eq!(text, "node `ghost` does not exist");

    // Refused requests leave the queue as it was.
    assert_eq!(engine.status().pending_updates, 2);
    assert_eq!(engine.queue_user_node_delete(&alice, "left".into()).unwrap(), 3);
    let (_, _, text) = engine_error_message(engine.queue_user_node_enqueue(&alice, "left".into()).unwrap_err());
    assert_eq!(text, "node `left` does not exist");
}

#[test]
fn admin_requests_need_existing_nodes() {
    let mut engine = Engine::new(Vec::new()).expect("engine builds");
    let (status, code, text) = engine_error_message(engine.queue_admin_node_delete("ghost".into()).unwrap_err());
    assert_eq!((status, code), (400, "invalid_update"));
    assert_eq!(text, "node `ghost` does not exist");
    assert!(engine.queue_admin_node_enqueue("ghost".into()).is_err());
    engine.queue_admin_node_upsert("left".into(), put("")).unwrap();
    let (_, _, text) = engine_error_message(
        engine
            .queue_admin_message(message("left", "ghost", Value::Bool(true)))
            .unwrap_err(),
    );
    assert_eq!(text, "node `ghost` does not exist");
    assert_eq!(engine.queue_admin_message(message("left", "left", Value::Bool(true))).unwrap(), 2);
}

#[test]
fn upsert_reports_parse_errors() {
    let mut engine = Engine::new(Vec::new()).expect("engine builds");
    let (status, code, text) =
        engine_error_message(engine.queue_admin_node_upsert("left".into(), put("if true {")).unwrap_err());
    assert_eq!((status, code), (400, "parse_error"));
    assert_eq!(text, "parse error on lines 1..2: unexpected end of input");
    assert_eq!(engine.status().pending_updates, 0);
}

#[test]
fn engine_new_keeps_the_last_spec_of_an_id() {
    let specs = vec![
        NodeSpec { id: "b".into(), source: "".into(), color: "gray".into() },
        NodeSpec { id: "a".into(), source: "set(\"x\")".into(), color: "gray".into() },
        NodeSpec { id: "b".into(), source: "set(\"y\")".into(), color: "blue".into() },
    ];
    let engine = Engine::new(specs).expect("engine builds");
    assert_eq!(engine.status().nodes, vec!["a".to_string(), "b".to_string()]);

    let bad = vec![
        NodeSpec { id: "a".into(), source: "".into(), color: "gray".into() },
        NodeSpec { id: "b".into(), source: "set(".into(), color: "gray".into() },
    ];
    let error = Engine::new(bad).expect_err("b does not parse");
    assert_eq!(error.loc.line_range, 1..2);
}

#[test]
fn status_lists_nodes_in_byte_order() {
    let mut engine = Engine::new(Vec::new()).expect("engine builds");
    for id in ["b", "a", "é", "B", "ab"] {
        engine.queue_admin_node_upsert(id.into(), put("")).unwrap();
    }
    engine.advance_tick().expect("tick runs");
    assert_eq!(
        engine.status().nodes,
        vec!["B".to_string(), "a".to_string(), "ab".to_string(), "b".to_string(), "é".to_string()]
    );
}

#[test]
fn admin_upsert_keeps_user_owner_after_tick() {
    let mut engine = Engine::new(Vec::new()).expect("engine builds");
    let mut sessions = SessionStore::default();
    let alice = sessions.issue();
    engine.queue_user_node_upsert(&alice, "left".into(), put("")).unwrap();
    engine.advance_tick().expect("tick runs");
    engine.queue_admin_node_upsert("left".into(), put("set(\"red\")")).unwrap();
    engine.advance_tick().expect("tick runs");
    assert!(engine.queue_user_node_enqueue(&alice, "left".into()).is_ok());
}
