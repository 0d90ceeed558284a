use fastchat_tui::time::Timestamp;
use fastchat_tui::types::{ChatSession, Message, Role};
use fastchat_tui::ui::{
    conversation_lines, format_duration, history_detail, history_label, line_number_label,
    line_number_width, parse_inline, parse_markdown, scroll_indicator, MdLine, SpanKind, ViewLine,
};

fn span_texts(line: &MdLine) -> Vec<(SpanKind, String)> {
    match line {
        MdLine::Text(spans) => spans.iter().map(|s| (s.kind, s.text.clone())).collect(),
        _ => panic!("not a text line"),
    }
}

#[test]
fn inline_bold_and_code() {
    let line: Vec<char> = "a **b** `c` d".chars().collect();
    let spans = parse_inline(&line);
    let got: Vec<(SpanKind, String)> = spans.iter().map(|s| (s.kind, s.text.clone())).collect();
    assert_eq!(
        got,
        vec![
            (SpanKind::Plain, "a ".to_string()),
            (SpanKind::Bold, "b".to_string()),
            (SpanKind::Plain, " ".to_string()),
            (SpanKind::Code, "c".to_string()),
            (SpanKind::Plain, " d".to_string()),
        ]
    );
}

#[test]
fn unclosed_marks_run_to_the_end() {
    let line: Vec<char> = "x **bold `still".chars().collect();
    let got: Vec<(SpanKind, String)> =
        parse_inline(&line).iter().map(|s| (s.kind, s.text.clone())).collect();
    assert_eq!(got, vec![(SpanKind::Plain, "x ".to_string()), (SpanKind::Bold, "bold `still".to_string())]);
}

#[test]
fn code_blocks_between_fences() {
    let md = parse_markdown("intro\n  ```rust\nlet **x** = 1;\n```\nafter");
    assert_eq!(md.len(), 5);
    assert_eq!(span_texts(&md[0]), vec![(SpanKind::Plain, "intro".to_string())]);
    assert!(matches!(&md[1], MdLine::Fence(s) if s == "  ```rust"));
    assert!(matches!(&md[2], MdLine::Code(s) if s == "let **x** = 1;"));
    assert!(matches!(&md[3], MdLine::Fence(s) if s == "```"));
    assert_eq!(span_texts(&md[4]), vec![(SpanKind::Plain, "after".to_string())]);
}

#[test]
fn empty_line_has_no_pieces() {
    let md = parse_markdown("a\n\nb");
    assert_eq!(md.len(), 3);
    assert!(span_texts(&md[1]).is_empty());
}

#[test]
fn conversation_lines_per_message() {
    let mut m = Message::new(Role::Assistant, "one\ntwo".to_string());
    m.thinking_content = Some("why".to_string());
    let msgs = vec![Message::new(Role::User, "hi".to_string()), m];
    let lines = conversation_lines(&msgs);
    assert_eq!(lines.len(), 3 + 7);
    assert!(matches!(lines[0], ViewLine::Header(Role::User)));
    assert!(matches!(lines[1], ViewLine::Body(_)));
    assert!(matches!(lines[2], ViewLine::Blank));
    assert!(matches!(lines[3], ViewLine::Header(Role::Assistant)));
    assert!(matches!(lines[4], ViewLine::ThinkingTitle));
    assert!(matches!(lines[5], ViewLine::Thinking(_)));
    assert!(matches!(lines[6], ViewLine::Blank));
    assert!(matches!(lines[7], ViewLine::Body(_)));
    assert!(matches!(lines[8], ViewLine::Body(_)));
    assert!(matches!(lines[9], ViewLine::Blank));
}

#[test]
fn empty_thinking_is_not_shown() {
    let mut m = Message::new(Role::Assistant, String::new());
    m.thinking_content = Some(String::new());
    let lines = conversation_lines(&vec![m]);
    assert_eq!(lines.len(), 2);
    assert!(matches!(lines[1], ViewLine::Blank));
}

#[test]
fn line_numbers_are_right_aligned() {
    assert_eq!(line_number_width(7), 3);
    assert_eq!(line_number_width(12345), 5);
    assert_eq!(line_number_label(7, 3), "  7 ");
    assert_eq!(line_number_label(1234, 3), "1234 ");
}

#[test]
fn durations_as_clock() {
    assert_eq!(format_duration(0), "00:00:00");
    assert_eq!(format_duration(3725), "01:02:05");
    assert_eq!(format_duration(360000), "100:00:00");
}

#[test]
fn scroll_indicator_texts() {
    assert_eq!(scroll_indicator(true, 5, 10), " [AUTO] ");
    assert_eq!(scroll_indicator(false, 5, 10), " 6/10 ");
}

#[test]
fn history_labels_cut_long_titles() {
    assert_eq!(history_label("short"), Some("short".to_string()));
    let t35 = "a".repeat(35);
    assert_eq!(history_label(&t35), Some(t35.clone()));
    let t36 = "b".repeat(36);
    assert_eq!(history_label(&t36), Some(format!("{}...", "b".repeat(32))));
    let odd = format!("{}é{}", "c".repeat(31), "d".repeat(10));
    assert_eq!(history_label(&odd), None);
}

#[test]
fn history_detail_line() {
    let s = ChatSession {
        id: "i".to_string(),
        name: "n".to_string(),
        created_at: Timestamp { secs: 1704164645, nanos: 0 },
        updated_at: Timestamp { secs: 1704164645, nanos: 0 },
        messages: Vec::new(),
        file_path: None,
    };
    assert_eq!(history_detail(&s), "  0 msgs  01/02 03:04");
}
