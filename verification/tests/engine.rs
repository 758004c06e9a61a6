use event_game_lang::api::{open_session, require_admin, require_session, ApiError, node_actions_response};
use event_game_lang::ast::Value;
use event_game_lang::engine::{Engine, EngineError, PutNodeRequest, SendMessageRequest};
use event_game_lang::session::{session_cookie_value, SessionStore};

fn put(source: &str, color: &str) -> PutNodeRequest {
    PutNodeRequest {
        source: source.into(),
        color: color.into(),
    }
}

/// The `Cookie` header a browser sends back after `Set-Cookie`.
fn cookie_header(set_cookie: &str) -> String {
    set_cookie.split(';').next().unwrap().to_string()
}

fn new_session(sessions: &mut SessionStore) -> String {
    let (session_id, is_new) = open_session(sessions, None);
    assert!(is_new);
    cookie_header(&session_cookie_value(&session_id))
}

fn status_code(result: Result<usize, EngineError>) -> u16 {
    match result {
        Ok(_) => 200,
        Err(e) => ApiError::from_engine_error(e).status,
    }
}

#[test]
fn session_owned_node_can_be_created_and_enqueued_before_tick() {
    let mut engine = Engine::new(Vec::new()).expect("engine builds");
    let mut sessions = SessionStore::default();
    let cookie = new_session(&mut sessions);
    let session = require_session(&sessions, Some(&cookie)).expect("session is valid");

    let put_result =
        engine.queue_user_node_upsert(&session, "left".into(), put("send \"ping\" to \"left\"", "gray"));
    assert_eq!(status_code(put_result), 200);

    let enqueue_result = engine.queue_user_node_enqueue(&session, "left".into());
    assert_eq!(status_code(enqueue_result), 200);
}

#[test]
fn user_cannot_modify_admin_managed_node() {
    let mut engine = Engine::new(Vec::new()).expect("engine builds");
    let mut sessions = SessionStore::default();

    assert!(require_admin(Some("Bearer secret-token"), None, "secret-token").is_ok());
    let admin_put = engine.queue_admin_node_upsert("core".into(), put("", "black"));
    assert_eq!(status_code(admin_put), 200);

    let advance = engine.advance_tick();
    assert!(advance.is_ok());

    let cookie = new_session(&mut sessions);
    let session = require_session(&sessions, Some(&cookie)).expect("session is valid");
    let user_put = engine.queue_user_node_upsert(&session, "core".into(), put("set(\"red\")", "gray"));
    assert_eq!(status_code(user_put), 403);
}

#[test]
fn failed_tick_preserves_work_queue_for_retry() {
    let mut engine = Engine::new(Vec::new()).expect("engine builds");
    engine
        .queue_admin_node_upsert("left".into(), put("set(missing)", "gray"))
        .expect("node queued");
    engine
        .queue_admin_node_enqueue("left".into())
        .expect("enqueue queued");

    let first_error = engine.advance_tick().expect_err("tick should fail");
    assert!(matches!(first_error, EngineError::Runtime(_)));

    engine
        .queue_admin_node_upsert("left".into(), put("set(\"blue\")", "gray"))
        .expect("fixed node queued");

    let tick = engine.advance_tick().expect("tick succeeds after fix");
    assert_eq!(tick.tick, 1);
    assert_eq!(tick.log.executed.len(), 1);
    assert_eq!(tick.log.final_colors.get("left"), Some(&"blue".to_string()));
}

#[test]
fn admin_tick_endpoint_requires_token() {
    let mut engine = Engine::new(Vec::new()).expect("engine builds");

    let unauthorized = require_admin(None, None, "secret-token").expect_err("no token");
    assert_eq!(unauthorized.status, 401);

    assert!(require_admin(Some("Bearer secret-token"), None, "secret-token").is_ok());
    assert!(engine.advance_tick().is_ok());
}

#[test]
fn user_routes_require_a_valid_session_cookie() {
    let sessions = SessionStore::default();

    let missing_cookie = require_session(&sessions, None).expect_err("cookie missing");
    assert_eq!(missing_cookie.status, 401);

    let invalid_cookie =
        require_session(&sessions, Some("event_game_session=fake")).expect_err("cookie invalid");
    assert_eq!(invalid_cookie.status, 401);
}

#[test]
fn create_session_reuses_existing_cookie() {
    let mut sessions = SessionStore::default();

    let (first_id, first_has_cookie) = open_session(&mut sessions, None);
    assert!(first_has_cookie);
    let first_cookie = cookie_header(&session_cookie_value(&first_id));

    let (second_id, second_has_cookie) = open_session(&mut sessions, Some(&first_cookie));

    assert_eq!(first_id, second_id);
    assert!(!second_has_cookie);
}

#[test]
fn projected_state_allows_create_send_and_enqueue_before_tick() {
    let mut engine = Engine::new(Vec::new()).expect("engine builds");
    let mut sessions = SessionStore::default();
    let cookie = new_session(&mut sessions);
    let session = require_session(&sessions, Some(&cookie)).expect("session is valid");

    for (node_id, source) in [
        ("left", "send \"hello\" to \"right\""),
        ("right", "set(\"green\")"),
    ] {
        let response = engine.queue_user_node_upsert(&session, node_id.into(), put(source, "gray"));
        assert_eq!(status_code(response), 200);
    }

    let send_response = engine.queue_user_message(
        &session,
        SendMessageRequest {
            from: "left".into(),
            to: "right".into(),
            value: Value::Str("queued".into()),
        },
    );
    assert_eq!(status_code(send_response), 200);

    let enqueue_response = engine.queue_user_node_enqueue(&session, "left".into());
    assert_eq!(status_code(enqueue_response), 200);

    assert!(require_admin(Some("Bearer secret-token"), None, "secret-token").is_ok());
    let tick_response = engine.advance_tick();
    assert!(tick_response.is_ok());

    let actions = node_actions_response(&engine, "left".into()).expect("left exists");
    assert_eq!(actions.actions.len(), 2);
}

#[test]
fn admin_update_preserves_existing_user_ownership() {
    let mut engine = Engine::new(Vec::new()).expect("engine builds");
    let mut sessions = SessionStore::default();
    let cookie = new_session(&mut sessions);
    let session = require_session(&sessions, Some(&cookie)).expect("session is valid");

    let user_create = engine.queue_user_node_upsert(&session, "left".into(), put("set(\"blue\")", "gray"));
    assert_eq!(status_code(user_create), 200);

    assert!(require_admin(Some("Bearer secret-token"), None, "secret-token").is_ok());
    let admin_update = engine.queue_admin_node_upsert("left".into(), put("set(\"red\")", "black"));
    assert_eq!(status_code(admin_update), 200);

    let user_update = engine.queue_user_node_upsert(&session, "left".into(), put("set(\"green\")", "gray"));
    assert_eq!(status_code(user_update), 200);
}

#[test]
fn node_actions_returns_empty_list_for_existing_idle_node() {
    let mut engine = Engine::new(Vec::new()).expect("engine builds");

    let create_response = engine.queue_admin_node_upsert("idle".into(), put("", "gray"));
    assert_eq!(status_code(create_response), 200);

    assert!(engine.advance_tick().is_ok());

    let actions = node_actions_response(&engine, "idle".into()).expect("idle exists");
    assert_eq!(actions.actions.len(), 0);
}

#[test]
fn enqueue_then_delete_before_tick_is_valid() {
    let mut engine = Engine::new(Vec::new()).expect("engine builds");
    engine
        .queue_admin_node_upsert("left".into(), put("", "gray"))
        .expect("create queued");
    engine
        .queue_admin_node_enqueue("left".into())
        .expect("enqueue queued");
    engine
        .queue_admin_node_delete("left".into())
        .expect("delete queued");

    let tick = engine.advance_tick().expect("tick succeeds");
    assert_eq!(tick.tick, 1);
    assert!(tick.log.executed.is_empty());
    assert!(!tick.log.final_colors.contains_key("left"));
    assert!(engine.status().nodes.is_empty());
}

#[test]
fn send_then_delete_target_before_tick_is_valid() {
    let mut engine = Engine::new(Vec::new()).expect("engine builds");
    for node_id in ["left", "right"] {
        engine
            .queue_admin_node_upsert(node_id.into(), put("", "gray"))
            .expect("create queued");
    }
    engine
        .queue_admin_message(SendMessageRequest {
            from: "left".into(),
            to: "right".into(),
            value: Value::Str("hello".into()),
        })
        .expect("message queued");
    engine
        .queue_admin_node_delete("right".into())
        .expect("delete queued");

    let tick = engine.advance_tick().expect("tick succeeds");
    assert_eq!(tick.tick, 1);
    assert!(tick.log.messages.is_empty());
    assert!(!tick.log.final_colors.contains_key("right"));
    assert_eq!(engine.status().nodes, vec!["left".to_string()]);
}
