use fastchat_tui::api::{
    api_messages, completions_url, prepare_chat_request, scan_sse_chunk, stream_step, ApiEvent,
    StreamInput,
};
use fastchat_tui::config::AppConfig;
use fastchat_tui::types::{Message, Role};

#[test]
fn completions_url_trims_trailing_slashes() {
    assert_eq!(completions_url("http://h:1/v1"), "http://h:1/v1/chat/completions");
    assert_eq!(completions_url("http://h:1/v1///"), "http://h:1/v1/chat/completions");
    assert_eq!(completions_url(""), "/chat/completions");
}

#[test]
fn empty_messages_are_not_sent() {
    let history = vec![
        Message::new(Role::System, "sys".to_string()),
        Message::new(Role::User, "hello".to_string()),
        Message::new(Role::Assistant, String::new()),
    ];
    let msgs = api_messages(&history);
    assert_eq!(msgs.len(), 2);
    assert_eq!(msgs[0].role, "system");
    assert_eq!(msgs[0].content, "sys");
    assert_eq!(msgs[1].role, "user");
    assert_eq!(msgs[1].content, "hello");
}

#[test]
fn request_goes_to_the_active_backend() {
    let config = AppConfig::default();
    let history = vec![Message::new(Role::Assistant, "a".to_string())];
    let req = prepare_chat_request(&config, &history).unwrap();
    assert_eq!(req.url, "http://localhost:5000/v1/chat/completions");
    assert_eq!(req.model, "default");
    assert_eq!(req.messages.len(), 1);
    assert_eq!(req.messages[0].role, "assistant");
}

#[test]
fn no_active_backend_no_request() {
    let mut config = AppConfig::default();
    config.active_backend = "gone".to_string();
    assert!(prepare_chat_request(&config, &Vec::new()).is_none());
}

#[test]
fn data_lines_are_collected_until_done() {
    let scan = scan_sse_chunk("data: {\"a\":1}\r\n: comment\n\ndata: x\ndata: [DONE]\ndata: late\n");
    assert_eq!(scan.payloads, vec!["{\"a\":1}".to_string(), "x".to_string()]);
    assert!(scan.done);
}

#[test]
fn chunk_without_end_marker() {
    let scan = scan_sse_chunk("data: one\ndata:two\ndata: ");
    assert_eq!(scan.payloads, vec!["one".to_string(), "".to_string()]);
    assert!(!scan.done);
}

fn views(events: &[ApiEvent]) -> Vec<String> {
    events
        .iter()
        .map(|e| match e {
            ApiEvent::Token(t) => format!("token:{}", t),
            ApiEvent::ThinkingToken(t) => format!("thinking:{}", t),
            ApiEvent::Done => "done".to_string(),
            ApiEvent::Error(e) => format!("error:{}", e),
        })
        .collect()
}

#[test]
fn stream_steps_give_tokens_then_done() {
    let scan = scan_sse_chunk("data: a\ndata: b\ndata: c\n");
    let (events, finished) =
        stream_step(StreamInput::Chunk(scan, vec![Some("He".to_string()), None, Some("llo".to_string())]));
    assert_eq!(views(&events), vec!["token:He", "token:llo"]);
    assert!(!finished);
    let scan = scan_sse_chunk("data: x\ndata: [DONE]\n");
    let (events, finished) = stream_step(StreamInput::Chunk(scan, vec![Some("!".to_string())]));
    assert_eq!(views(&events), vec!["token:!", "done"]);
    assert!(finished);
    let (events, finished) = stream_step(StreamInput::ReadError("reset".to_string()));
    assert_eq!(views(&events), vec!["error:reset"]);
    assert!(!finished);
    let (events, finished) = stream_step(StreamInput::End);
    assert_eq!(views(&events), vec!["done"]);
    assert!(finished);
}
