use event_game_lang::ast::{Stmt, Value};
use event_game_lang::parser::parse_program;
use event_game_lang::strmap::StrMap;
use event_game_lang::tick::{parse_node, run_tick, Message, NodeSpec, ParsedNode, TickState};

fn registry(nodes: Vec<ParsedNode>) -> StrMap<ParsedNode> {
    let mut map = StrMap::new();
    for node in nodes {
        map.insert(node.id.clone(), node);
    }
    map
}

fn mailbox_values(state: &TickState, to: &str, from: &str) -> Vec<Value> {
    state
        .mailboxes
        .get(to)
        .and_then(|mailbox| mailbox.get(from))
        .map(|queue| queue.iter().cloned().collect())
        .unwrap_or_default()
}

#[test]
fn parses_readme_style_program() {
    let source = r#"
if true {
    send "hi" to "right"
} else {
    b = recive from "left"
}

if(len("abcd")>2){
    set("blue")
}
"#;

    let parsed = parse_program(source).expect("program parses");
    match parsed.value {
        Stmt::Block(stmts) => assert_eq!(stmts.len(), 2),
        other => panic!("unexpected root: {other:?}"),
    }
}

#[test]
fn runs_one_tick_and_logs_execution() {
    let left = parse_node(NodeSpec {
        id: "left".into(),
        color: "gray".into(),
        source: r#"
msg = receive from "right"
if msg != none {
    set(msg[2:])
}
"#
        .into(),
    })
    .expect("left parses");
    let right = parse_node(NodeSpec {
        id: "right".into(),
        color: "black".into(),
        source: "send \"xxgreen\" to \"left\"".into(),
    })
    .expect("right parses");
    let registry = registry(vec![left, right]);
    let mut state = TickState::default();
    state.enqueue("left".into());
    state.enqueue("right".into());
    state.send(Message {
        from: "right".into(),
        to: "left".into(),
        value: Value::Str("xxgreen".into()),
    });

    let tick = run_tick(&mut state, &registry).expect("tick runs");

    assert_eq!(tick.log.executed.len(), 4);
    assert_eq!(tick.log.messages.len(), 1);
    assert_eq!(
        tick.log.final_colors.get("left"),
        Some(&"green".to_string())
    );
    assert_eq!(
        tick.log.final_colors.get("right"),
        Some(&"black".to_string())
    );
    assert_eq!(tick.log.executed[0].loc.line_range, 2..3);
    assert_eq!(tick.log.messages[0].to, "left");
    assert_eq!(
        state.work_queue.iter().collect::<Vec<_>>(),
        vec![&"left".to_string()]
    );
    assert_eq!(
        mailbox_values(&state, "left", "right"),
        vec![Value::Str("xxgreen".into())]
    );
}

#[test]
fn send_is_visible_next_tick_not_same_tick() {
    let center = parse_node(NodeSpec {
        id: "center".into(),
        color: "gray".into(),
        source: r#"
msg = receive from "left"
if msg != none {
    set(msg)
}
send "pong" to "left"
"#
        .into(),
    })
    .expect("node parses");
    let left = parse_node(NodeSpec {
        id: "left".into(),
        color: "gray".into(),
        source: "".into(),
    })
    .expect("left parses");
    let registry = registry(vec![center, left]);
    let mut state = TickState::default();
    state.enqueue("center".into());
    state.enqueue("left".into());

    let first_tick = run_tick(&mut state, &registry).expect("first tick runs");
    assert_eq!(
        first_tick.log.final_colors.get("center"),
        Some(&"gray".to_string())
    );
    assert_eq!(
        state.work_queue.iter().collect::<Vec<_>>(),
        vec![&"left".to_string()]
    );
    assert_eq!(
        mailbox_values(&state, "left", "center"),
        vec![Value::Str("pong".into())]
    );

    state.send(Message {
        from: "left".into(),
        to: "center".into(),
        value: Value::Str("blue".into()),
    });
    state.enqueue("center".into());

    let second_tick = run_tick(&mut state, &registry).expect("second tick runs");
    assert_eq!(
        second_tick.log.final_colors.get("center"),
        Some(&"blue".to_string())
    );
}

#[test]
fn repeated_scheduling_consumes_inbox_only_once() {
    let left = parse_node(NodeSpec {
        id: "left".into(),
        color: "gray".into(),
        source: r#"
msg = receive from "right"
if msg != none {
    set(msg)
}
"#
        .into(),
    })
    .expect("left parses");
    let right = parse_node(NodeSpec {
        id: "right".into(),
        color: "black".into(),
        source: "".into(),
    })
    .expect("right parses");
    let registry = registry(vec![left, right]);
    let mut state = TickState::default();
    state.enqueue("left".into());
    state.enqueue("left".into());
    state.send(Message {
        from: "right".into(),
        to: "left".into(),
        value: Value::Str("blue".into()),
    });

    let tick = run_tick(&mut state, &registry).expect("tick runs");

    assert_eq!(tick.log.messages.len(), 0);
    assert_eq!(tick.log.final_colors.get("left"), Some(&"gray".to_string()));
    assert_eq!(mailbox_values(&state, "left", "right"), Vec::<Value>::new());
}
