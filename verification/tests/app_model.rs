use corust_tui::app::{App, Block, DiffLine};
use corust_tui::event::{
    ContentBlock, Diff, Event, PermissionOption, PermissionOptionKind, PermissionResponse,
    ToolCall, ToolCallContent, ToolCallLocation, ToolCallStatus, ToolCallUpdate,
    ToolCallUpdateFields,
};
use futures::channel::oneshot;

fn app() -> App {
    App::new("/home/user/project".to_string())
}

fn text_of(b: &Block) -> String {
    match b {
        Block::UserInput { text } => format!("user:{text}"),
        Block::AgentText { content, streaming } => format!("agent:{content}:{streaming}"),
        Block::Thinking { content, collapsed } => format!("thinking:{content}:{collapsed}"),
        Block::ToolCall { id, title, status, locations, output } => {
            format!("tool:{id}:{title}:{status}:{}:{:?}", locations.join(","), output)
        }
        Block::Diff { path, lines } => {
            let ls: Vec<String> = lines
                .iter()
                .map(|l| match l {
                    DiffLine::Add(t) => format!("+{t}"),
                    DiffLine::Remove(t) => format!("-{t}"),
                    DiffLine::Context(t) => format!(" {t}"),
                })
                .collect();
            format!("diff:{path}:{}", ls.join("|"))
        }
        Block::System { message } => format!("system:{message}"),
        Block::PermissionRequest { title, resolved } => format!("perm:{title}:{:?}", resolved),
    }
}

fn texts(app: &App) -> Vec<String> {
    app.blocks.iter().map(text_of).collect()
}

fn tool_call(id: &str, title: &str, content: Vec<ToolCallContent>) -> ToolCall {
    ToolCall {
        tool_call_id: id.to_string(),
        title: title.to_string(),
        status: ToolCallStatus::Pending,
        content,
        locations: vec![],
    }
}

fn update(id: &str, title: Option<&str>, status: Option<ToolCallStatus>, content: Option<Vec<ToolCallContent>>) -> ToolCallUpdate {
    ToolCallUpdate {
        tool_call_id: id.to_string(),
        fields: ToolCallUpdateFields { status, title: title.map(|t| t.to_string()), content },
    }
}

fn text_content(t: &str) -> ToolCallContent {
    ToolCallContent::Content(ContentBlock::Text(t.to_string()))
}

fn options() -> Vec<PermissionOption> {
    vec![
        PermissionOption { name: "Allow once".to_string(), kind: PermissionOptionKind::AllowOnce },
        PermissionOption { name: "Allow always".to_string(), kind: PermissionOptionKind::AllowAlways },
        PermissionOption { name: "Reject".to_string(), kind: PermissionOptionKind::RejectOnce },
    ]
}

#[test]
fn new_app_starts_with_welcome() {
    let a = app();
    assert_eq!(texts(&a), vec!["system:Welcome to corust. Type a message and press Enter."]);
    assert_eq!(a.input, "");
    assert_eq!(a.cursor, 0);
    assert_eq!(a.scroll_offset, 0);
    assert!(!a.should_quit);
    assert!(!a.busy);
    assert_eq!(a.status.model, "");
    assert_eq!(a.status.cwd, "/home/user/project");
    assert!(a.status.git_branch.is_none());
    assert!(a.pending_permission.is_none());
}

#[test]
fn agent_text_chunks_accumulate_in_one_block() {
    let mut a = app();
    a.scroll_offset = 7;
    a.handle_acp_event(Event::AgentText("Hel".to_string()));
    assert_eq!(a.scroll_offset, 0);
    a.scroll_offset = 3;
    a.handle_acp_event(Event::AgentText("lo".to_string()));
    assert_eq!(a.scroll_offset, 0);
    let mut b = app();
    b.handle_acp_event(Event::AgentText("Hello".to_string()));
    assert_eq!(texts(&a), texts(&b));
    assert_eq!(texts(&a)[1], "agent:Hello:true");
}

#[test]
fn agent_text_after_another_block_starts_a_new_block() {
    let mut a = app();
    a.handle_acp_event(Event::AgentText("one".to_string()));
    a.handle_acp_event(Event::AgentThought("hmm".to_string()));
    a.handle_acp_event(Event::AgentText("two".to_string()));
    assert_eq!(
        texts(&a)[1..],
        ["agent:one:true", "thinking:hmm:false", "agent:two:true"]
    );
}

#[test]
fn thought_chunks_accumulate() {
    let mut a = app();
    a.handle_acp_event(Event::AgentThought("a".to_string()));
    a.handle_acp_event(Event::AgentThought("b".to_string()));
    assert_eq!(texts(&a)[1..], ["thinking:ab:false"]);
}

#[test]
fn tool_call_started_shows_locations_output_and_diffs() {
    let mut a = app();
    let tc = ToolCall {
        tool_call_id: "call-1".to_string(),
        title: "Edit file".to_string(),
        status: ToolCallStatus::InProgress,
        content: vec![
            text_content("hello "),
            ToolCallContent::Content(ContentBlock::Other),
            text_content("world"),
            ToolCallContent::Diff(Diff {
                path: "src/a.rs".to_string(),
                old_text: Some("x\ny\n".to_string()),
                new_text: "x\r\nz".to_string(),
            }),
            ToolCallContent::Terminal("term-1".to_string()),
            ToolCallContent::Diff(Diff { path: "empty.rs".to_string(), old_text: None, new_text: String::new() }),
        ],
        locations: vec![
            ToolCallLocation { path: "src/main.rs".to_string(), line: Some(42) },
            ToolCallLocation { path: "README.md".to_string(), line: None },
            ToolCallLocation { path: "big".to_string(), line: Some(4294967295) },
            ToolCallLocation { path: "zero".to_string(), line: Some(0) },
        ],
    };
    a.scroll_offset = 2;
    a.handle_acp_event(Event::ToolCallStarted(tc));
    assert_eq!(a.scroll_offset, 0);
    assert_eq!(
        texts(&a)[1..],
        [
            "tool:call-1:Edit file:InProgress:src/main.rs:42,README.md,big:4294967295,zero:0:Some(\"hello world\")",
            "diff:src/a.rs:-x|-y|+x|+z",
        ]
    );
}

#[test]
fn tool_call_without_text_has_no_output() {
    let mut a = app();
    a.handle_acp_event(Event::ToolCallStarted(tool_call(
        "c",
        "Run",
        vec![ToolCallContent::Terminal("t".to_string())],
    )));
    assert_eq!(texts(&a)[1..], ["tool:c:Run:Pending::None"]);
}

#[test]
fn tool_call_update_applies_to_latest_block_with_that_id() {
    let mut a = app();
    a.handle_acp_event(Event::ToolCallStarted(tool_call("x", "first", vec![])));
    a.handle_acp_event(Event::ToolCallStarted(tool_call("y", "other", vec![])));
    a.handle_acp_event(Event::ToolCallStarted(tool_call("x", "second", vec![])));
    a.handle_acp_event(Event::ToolCallUpdated(update(
        "x",
        Some("renamed"),
        Some(ToolCallStatus::Completed),
        Some(vec![
            text_content("done"),
            ToolCallContent::Diff(Diff { path: "f".to_string(), old_text: None, new_text: "n".to_string() }),
        ]),
    )));
    assert_eq!(
        texts(&a)[1..],
        [
            "tool:x:first:Pending::None",
            "tool:y:other:Pending::None",
            "tool:x:renamed:Completed::Some(\"done\")",
            "diff:f:+n",
        ]
    );
}

#[test]
fn tool_call_update_without_text_keeps_output() {
    let mut a = app();
    a.handle_acp_event(Event::ToolCallStarted(tool_call("x", "t", vec![text_content("old")])));
    a.handle_acp_event(Event::ToolCallUpdated(update("x", None, Some(ToolCallStatus::Failed), Some(vec![]))));
    assert_eq!(texts(&a)[1..], ["tool:x:t:Failed::Some(\"old\")"]);
    a.handle_acp_event(Event::ToolCallUpdated(update("x", None, None, None)));
    assert_eq!(texts(&a)[1..], ["tool:x:t:Failed::Some(\"old\")"]);
}

#[test]
fn tool_call_update_for_unknown_id_changes_nothing() {
    let mut a = app();
    a.handle_acp_event(Event::ToolCallStarted(tool_call("x", "t", vec![])));
    let before = texts(&a);
    a.scroll_offset = 4;
    a.handle_acp_event(Event::ToolCallUpdated(update(
        "nope",
        Some("new"),
        None,
        Some(vec![ToolCallContent::Diff(Diff { path: "f".to_string(), old_text: None, new_text: "n".to_string() })]),
    )));
    assert_eq!(texts(&a), before);
    assert_eq!(a.scroll_offset, 0);
}

#[test]
fn permission_request_then_choice_is_recorded_and_sent() {
    let mut a = app();
    let (tx, mut rx) = oneshot::channel();
    a.handle_acp_event(Event::PermissionRequest {
        tool_call: update("x", Some("Write file"), None, None),
        options: options(),
        respond: tx,
    });
    assert_eq!(texts(&a)[1..], ["perm:Write file:None"]);
    assert!(a.pending_permission.is_some());
    let (respond, answer) = a.resolve_permission(1).unwrap();
    assert_eq!(answer, PermissionResponse::Selected(1));
    respond.send(answer).unwrap();
    assert_eq!(texts(&a)[1..], ["perm:Write file:Some(\"Allow always\")"]);
    assert!(a.pending_permission.is_none());
    assert_eq!(rx.try_recv().unwrap(), Some(PermissionResponse::Selected(1)));
}

#[test]
fn permission_choice_past_the_options_cancels() {
    let mut a = app();
    let (tx, mut rx) = oneshot::channel();
    a.handle_acp_event(Event::PermissionRequest {
        tool_call: update("x", None, None, None),
        options: options(),
        respond: tx,
    });
    assert_eq!(texts(&a)[1..], ["perm:Permission requested:None"]);
    let (respond, answer) = a.resolve_permission(3).unwrap();
    assert_eq!(answer, PermissionResponse::Cancelled);
    respond.send(answer).unwrap();
    assert_eq!(texts(&a)[1..], ["perm:Permission requested:Some(\"cancelled\")"]);
    assert_eq!(rx.try_recv().unwrap(), Some(PermissionResponse::Cancelled));
}

#[test]
fn cancel_permission_records_cancelled() {
    let mut a = app();
    let (tx, mut rx) = oneshot::channel();
    a.handle_acp_event(Event::PermissionRequest {
        tool_call: update("x", Some("Run"), None, None),
        options: options(),
        respond: tx,
    });
    a.handle_acp_event(Event::AgentText("later".to_string()));
    let (respond, answer) = a.cancel_permission().unwrap();
    assert_eq!(answer, PermissionResponse::Cancelled);
    respond.send(answer).unwrap();
    assert_eq!(texts(&a)[1..], ["perm:Run:Some(\"cancelled\")", "agent:later:true"]);
    assert!(a.pending_permission.is_none());
    assert_eq!(rx.try_recv().unwrap(), Some(PermissionResponse::Cancelled));
}

#[test]
fn answering_without_a_pending_request_does_nothing() {
    let mut a = app();
    a.blocks.push(Block::PermissionRequest { title: "old".to_string(), resolved: None });
    let before = texts(&a);
    assert!(a.resolve_permission(0).is_none());
    assert_eq!(texts(&a), before);
    assert!(a.cancel_permission().is_none());
    assert_eq!(texts(&a), before);
}

#[test]
fn answer_marks_the_most_recent_request() {
    let mut a = app();
    a.blocks.push(Block::PermissionRequest { title: "first".to_string(), resolved: None });
    let (tx, _rx) = oneshot::channel();
    a.handle_acp_event(Event::PermissionRequest {
        tool_call: update("x", Some("second"), None, None),
        options: options(),
        respond: tx,
    });
    let (_, answer) = a.resolve_permission(0).unwrap();
    assert_eq!(answer, PermissionResponse::Selected(0));
    assert_eq!(texts(&a)[1..], ["perm:first:None", "perm:second:Some(\"Allow once\")"]);
}

#[test]
fn answer_with_receiver_gone_still_records() {
    let mut a = app();
    let (tx, rx) = oneshot::channel();
    drop(rx);
    a.handle_acp_event(Event::PermissionRequest {
        tool_call: update("x", Some("t"), None, None),
        options: options(),
        respond: tx,
    });
    let (respond, answer) = a.resolve_permission(2).unwrap();
    assert!(respond.send(answer).is_err());
    assert_eq!(texts(&a)[1..], ["perm:t:Some(\"Reject\")"]);
}

#[test]
fn a_new_request_drops_the_pending_one_unanswered() {
    let mut a = app();
    let (tx1, mut rx1) = oneshot::channel();
    a.handle_acp_event(Event::PermissionRequest {
        tool_call: update("x", Some("one"), None, None),
        options: options(),
        respond: tx1,
    });
    let (tx2, _rx2) = oneshot::channel();
    a.handle_acp_event(Event::PermissionRequest {
        tool_call: update("y", Some("two"), None, None),
        options: options(),
        respond: tx2,
    });
    assert!(rx1.try_recv().is_err());
    assert_eq!(texts(&a)[1..], ["perm:one:None", "perm:two:None"]);
}

#[test]
fn session_started_names_the_agent() {
    let mut a = app();
    a.handle_acp_event(Event::SessionStarted {
        agent_name: Some("helperbot".to_string()),
        session_id: "s-1".to_string(),
    });
    assert_eq!(a.status.model, "helperbot");
    assert_eq!(texts(&a)[1..], ["system:Session started: helperbot (s-1)"]);
    a.handle_acp_event(Event::SessionStarted { agent_name: None, session_id: "s-2".to_string() });
    assert_eq!(a.status.model, "agent");
    assert_eq!(texts(&a)[2], "system:Session started: agent (s-2)");
}

#[test]
fn error_event_adds_a_notice() {
    let mut a = app();
    a.scroll_offset = 9;
    a.handle_acp_event(Event::Error("connection lost".to_string()));
    assert_eq!(texts(&a)[1..], ["system:Error: connection lost"]);
    assert_eq!(a.scroll_offset, 0);
}

#[test]
fn turn_finished_stops_the_latest_stream_once() {
    let mut a = app();
    a.busy = true;
    a.handle_acp_event(Event::AgentText("one".to_string()));
    a.handle_acp_event(Event::AgentThought("t".to_string()));
    a.handle_acp_event(Event::AgentText("two".to_string()));
    a.blocks.push(Block::System { message: "m".to_string() });
    a.turn_finished();
    assert!(!a.busy);
    assert_eq!(texts(&a)[1..], ["agent:one:true", "thinking:t:false", "agent:two:false", "system:m"]);
    let once = texts(&a);
    a.turn_finished();
    assert_eq!(texts(&a), once);
}

#[test]
fn toggle_thinking_twice_restores() {
    let mut a = app();
    a.handle_acp_event(Event::AgentThought("first".to_string()));
    a.handle_acp_event(Event::AgentText("x".to_string()));
    a.handle_acp_event(Event::AgentThought("second".to_string()));
    a.handle_acp_event(Event::AgentText("y".to_string()));
    let before = texts(&a);
    a.toggle_thinking();
    assert_eq!(texts(&a)[3], "thinking:second:true");
    assert_eq!(texts(&a)[1], "thinking:first:false");
    a.toggle_thinking();
    assert_eq!(texts(&a), before);
}

#[test]
fn toggle_without_thinking_does_nothing() {
    let mut a = app();
    let before = texts(&a);
    a.toggle_thinking();
    assert_eq!(texts(&a), before);
}
