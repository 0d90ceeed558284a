use fastchat_tui::storage::{
    chat_file_name, markdown_to_session, parse_session_markdown, render_markdown,
    sanitize_filename, session_to_markdown, sort_newest_first,
};
use fastchat_tui::time::Timestamp;
use fastchat_tui::types::{ChatSession, Message, Role};

// 2024-01-02T03:04:05Z
const JAN_2: i64 = 1704164645;

fn at(secs: i64) -> Timestamp {
    Timestamp { secs, nanos: 0 }
}

fn session(name: &str, created: i64, messages: Vec<Message>) -> ChatSession {
    ChatSession {
        id: "chat-1".to_string(),
        name: name.to_string(),
        created_at: at(created),
        updated_at: at(created + 60),
        messages,
        file_path: None,
    }
}

fn sample() -> ChatSession {
    session(
        "Greetings",
        JAN_2,
        vec![
            Message::new(Role::User, "Hello".to_string()),
            Message::new(Role::Assistant, "Hi there\nHow can I help?".to_string()),
            Message::new(Role::System, "Note".to_string()),
        ],
    )
}

const SAMPLE_MD: &str = "---\nid: chat-1\ncreated: 2024-01-02T03:04:05+00:00\nupdated: 2024-01-02T03:05:05+00:00\n---\n\n# Greetings\n\n## 👤 User\n\nHello\n\n## 🤖 Assistant\n\nHi there\nHow can I help?\n\n## 📢 System\n\nNote\n\n";

#[test]
fn session_to_markdown_writes_front_matter_title_and_messages() {
    assert_eq!(session_to_markdown(&sample()), SAMPLE_MD);
}

#[test]
fn render_markdown_uses_the_given_times() {
    let s = session("T", JAN_2, vec![]);
    assert_eq!(render_markdown(&s, "C", "U"), "---\nid: chat-1\ncreated: C\nupdated: U\n---\n\n# T\n\n");
}

#[test]
fn markdown_round_trip_gives_the_session_back() {
    let md = session_to_markdown(&sample());
    let back = markdown_to_session(&md, "/tmp/x.md".to_string());
    assert_eq!(back.id, "chat-1");
    assert_eq!(back.name, "Greetings");
    assert_eq!(back.created_at, at(JAN_2));
    assert_eq!(back.updated_at, at(JAN_2 + 60));
    assert_eq!(back.messages.len(), 3);
    assert_eq!(back.messages[0].role, Role::User);
    assert_eq!(back.messages[0].content, "Hello");
    assert_eq!(back.messages[1].role, Role::Assistant);
    assert_eq!(back.messages[1].content, "Hi there\nHow can I help?");
    assert_eq!(back.messages[2].role, Role::System);
    assert_eq!(back.messages[2].content, "Note");
    assert_eq!(back.file_path, Some("/tmp/x.md".to_string()));
}

#[test]
fn parse_without_front_matter_uses_defaults() {
    let now = at(42);
    let s = parse_session_markdown("\n## User\n\n  text  \n\n## Other\nlost\n", "p".to_string(), now);
    assert_eq!(s.id, "");
    assert_eq!(s.name, "Untitled Chat");
    assert_eq!(s.created_at, now);
    assert_eq!(s.updated_at, now);
    assert_eq!(s.messages.len(), 1);
    assert_eq!(s.messages[0].content, "text");
    assert_eq!(s.messages[0].role, Role::User);
}

#[test]
fn parse_drops_the_first_line_when_it_opens_no_front_matter() {
    let s = parse_session_markdown("## User\nhi\n", "p".to_string(), at(1));
    assert_eq!(s.messages.len(), 0);
}

#[test]
fn parse_keeps_bad_times_as_now_and_skips_empty_messages() {
    let now = at(7);
    let md = "---\nid : abc \ncreated: not a time\nupdated: 2024-01-02T04:04:05+01:00\n---\n# Title here \n## 🤖\n\n## System notes\nkept\n";
    let s = parse_session_markdown(md, "p".to_string(), now);
    assert_eq!(s.id, "abc");
    assert_eq!(s.name, "Title here");
    assert_eq!(s.created_at, now);
    assert_eq!(s.updated_at, at(JAN_2));
    assert_eq!(s.messages.len(), 1);
    assert_eq!(s.messages[0].role, Role::System);
    assert_eq!(s.messages[0].content, "kept");
}

#[test]
fn sanitize_filename_cases() {
    assert_eq!(sanitize_filename("Hello World!"), "Hello-World");
    assert_eq!(sanitize_filename("  --abc__ "), "abc");
    assert_eq!(sanitize_filename("été"), "t");
    assert_eq!(sanitize_filename("!!!"), "");
    assert_eq!(sanitize_filename(&"a".repeat(60)), "a".repeat(50));
}

#[test]
fn chat_file_name_has_time_stamp_and_title() {
    let s = session("Hello World", JAN_2, vec![]);
    assert_eq!(chat_file_name(&s), "20240102_030405_Hello-World.md");
    let t = session("???", JAN_2, vec![]);
    assert_eq!(chat_file_name(&t), "20240102_030405.md");
}

#[test]
fn sort_newest_first_orders_by_creation_time() {
    let mut a = session("a", 10, vec![]);
    a.id = "a".to_string();
    let mut b = session("b", 30, vec![]);
    b.id = "b".to_string();
    let mut c = session("c", 20, vec![]);
    c.id = "c".to_string();
    let sorted = sort_newest_first(vec![a, b, c]);
    let ids: Vec<&str> = sorted.iter().map(|s| s.id.as_str()).collect();
    assert_eq!(ids, vec!["b", "c", "a"]);
}

#[test]
fn sort_keeps_the_order_of_equal_times() {
    let mut list = Vec::new();
    for (id, t) in [("p", 5), ("q", 9), ("r", 5), ("s", 9), ("t", 1)] {
        let mut s = session(id, t, vec![]);
        s.id = id.to_string();
        list.push(s);
    }
    let ids: Vec<String> = sort_newest_first(list).into_iter().map(|s| s.id).collect();
    assert_eq!(ids, vec!["q", "s", "p", "r", "t"]);
}

#[test]
fn times_with_fractions_read_back() {
    let mut s = sample();
    s.created_at = Timestamp { secs: JAN_2, nanos: 5 };
    s.updated_at = Timestamp { secs: -62167219200, nanos: 120_000_000 };
    let md = session_to_markdown(&s);
    assert!(md.contains("created: 2024-01-02T03:04:05.000000005+00:00\n"));
    assert!(md.contains("updated: 0000-01-01T00:00:00.120+00:00\n"));
    let back = parse_session_markdown(&md, "p".to_string(), at(0));
    assert_eq!(back.created_at, s.created_at);
    assert_eq!(back.updated_at, s.updated_at);
}

#[test]
fn blank_messages_are_dropped_and_texts_trimmed() {
    let s = session(
        "T",
        JAN_2,
        vec![
            Message::new(Role::User, "  padded \n".to_string()),
            Message::new(Role::Assistant, " \n\t ".to_string()),
            Message::new(Role::System, "\n\nkept\n\n".to_string()),
        ],
    );
    let back = markdown_to_session(&session_to_markdown(&s), "p".to_string());
    assert_eq!(back.messages.len(), 2);
    assert_eq!(back.messages[0].role, Role::User);
    assert_eq!(back.messages[0].content, "padded");
    assert_eq!(back.messages[1].role, Role::System);
    assert_eq!(back.messages[1].content, "kept");
    assert_eq!(back.created_at, at(JAN_2));
}

#[test]
fn sanitizing_twice_is_sanitizing_once() {
    for name in ["Hello World!", "  --abc__ ", "été", "a-b_c", &"z ".repeat(40)] {
        let once = sanitize_filename(name);
        assert_eq!(sanitize_filename(&once), once);
    }
}
