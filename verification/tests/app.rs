use fastchat_tui::api::ApiEvent;
use fastchat_tui::app::{App, InputMode, SaveAction};
use fastchat_tui::time::Timestamp;
use fastchat_tui::types::{ChatSession, Message, Role};

fn at(secs: i64) -> Timestamp {
    Timestamp { secs, nanos: 0 }
}

fn saved_session(id: &str, name: &str) -> ChatSession {
    ChatSession {
        id: id.to_string(),
        name: name.to_string(),
        created_at: at(100),
        updated_at: at(100),
        messages: vec![
            Message::new(Role::System, "sys".to_string()),
            Message::new(Role::User, "q1".to_string()),
            Message::new(Role::Assistant, "a1".to_string()),
            Message::new(Role::User, "q2".to_string()),
        ],
        file_path: Some(format!("/chats/{}.md", id)),
    }
}

fn type_text(app: &mut App, s: &str) {
    for c in s.chars() {
        app.enter_char(c);
    }
}

#[test]
fn new_app_shows_the_welcome_message() {
    let app = App::new(Vec::new());
    assert_eq!(app.messages.len(), 1);
    assert_eq!(app.messages[0].role, Role::System);
    assert_eq!(app.messages[0].content, "Welcome to Fastchat TUI. Press 'Space' for shortcuts.");
    assert_eq!(app.available_backends, vec!["tabbyapi", "sglang", "ollama", "vllm", "lmstudio"]);
    assert_eq!(app.config.active_backend, "tabbyapi");
    assert!(app.auto_scroll && app.show_line_numbers);
    assert_eq!(app.input_mode, InputMode::Normal);
}

#[test]
fn toggles_twice_give_the_state_back() {
    let mut app = App::new(Vec::new());
    app.toggle_shortcuts();
    assert!(app.show_shortcuts);
    app.toggle_shortcuts();
    assert!(!app.show_shortcuts);
    app.toggle_stats();
    app.toggle_stats();
    assert!(!app.show_stats);
    app.toggle_leader_menu();
    assert!(app.show_leader_menu && app.pending_leader_key);
    app.toggle_leader_menu();
    assert!(!app.show_leader_menu && !app.pending_leader_key);
}

#[test]
fn toggle_history_asks_for_a_reload_when_opening() {
    let mut app = App::new(Vec::new());
    app.history_scroll = 4;
    assert!(app.toggle_history());
    assert!(app.show_history);
    assert_eq!(app.history_scroll, 0);
    assert!(!app.toggle_history());
    assert!(!app.show_history);
}

#[test]
fn editing_the_input_line() {
    let mut app = App::new(Vec::new());
    app.show_shortcuts = true;
    app.set_input_mode();
    assert!(app.is_input_mode());
    assert!(!app.show_shortcuts);
    type_text(&mut app, "ab");
    app.delete_char();
    assert_eq!(app.input, "a");
    app.delete_char();
    app.delete_char();
    assert_eq!(app.input, "");
    app.set_normal_mode();
    assert!(!app.is_input_mode());
}

#[test]
fn blank_input_is_not_submitted() {
    let mut app = App::new(Vec::new());
    type_text(&mut app, "  \t ");
    assert!(!app.submit_message());
    assert_eq!(app.messages.len(), 1);
    assert_eq!(app.input, "  \t ");
}

#[test]
fn submit_then_stream_builds_the_reply() {
    let mut app = App::new(Vec::new());
    type_text(&mut app, " hello ");
    assert!(app.submit_message());
    assert_eq!(app.input, "");
    assert!(app.is_processing);
    assert_eq!(app.user_msg_count, 1);
    assert_eq!(app.assistant_msg_count, 1);
    assert_eq!(app.messages.len(), 3);
    assert_eq!(app.messages[1].content, " hello ");
    assert_eq!(app.messages[2].role, Role::Assistant);
    app.tick(ApiEvent::Token("Hel".to_string()));
    app.tick(ApiEvent::Token("lo!".to_string()));
    app.tick(ApiEvent::ThinkingToken("hm".to_string()));
    app.tick(ApiEvent::ThinkingToken("m".to_string()));
    assert_eq!(app.messages[2].content, "Hello!");
    assert_eq!(app.messages[2].thinking_content, Some("hmm".to_string()));
    app.tick(ApiEvent::Done);
    assert!(!app.is_processing);
}

#[test]
fn tokens_do_not_touch_a_non_assistant_message() {
    let mut app = App::new(Vec::new());
    app.tick(ApiEvent::Token("x".to_string()));
    assert_eq!(app.messages[0].content, "Welcome to Fastchat TUI. Press 'Space' for shortcuts.");
}

#[test]
fn stream_error_adds_a_system_message() {
    let mut app = App::new(Vec::new());
    app.is_processing = true;
    app.tick(ApiEvent::Error("boom".to_string()));
    assert!(!app.is_processing);
    assert_eq!(app.messages.last().unwrap().content, "Error: boom");
    assert_eq!(app.messages.last().unwrap().role, Role::System);
}

#[test]
fn stop_generation_reports_it() {
    let mut app = App::new(Vec::new());
    app.is_processing = true;
    app.stop_generation();
    assert!(!app.is_processing);
    assert_eq!(app.messages.last().unwrap().content, "Generation stopped by user.");
}

fn run_command(app: &mut App, cmd: &str) {
    app.set_command_mode();
    assert!(app.is_command_mode());
    for c in cmd.chars() {
        app.enter_command_char(c);
    }
    app.execute_command();
    assert_eq!(app.command_input, "");
    assert_eq!(app.input_mode, InputMode::Normal);
}

#[test]
fn commands_move_the_view() {
    let mut app = App::new(Vec::new());
    app.update_viewport(10, 100);
    assert_eq!(app.scroll, 90);
    run_command(&mut app, " 42 ");
    assert_eq!(app.scroll, 41);
    assert!(!app.auto_scroll);
    run_command(&mut app, "0");
    assert_eq!(app.scroll, 0);
    run_command(&mut app, "G");
    assert_eq!(app.scroll, 90);
    assert!(app.auto_scroll);
    run_command(&mut app, "gg");
    assert_eq!(app.scroll, 0);
    run_command(&mut app, "auto");
    assert!(app.auto_scroll);
    assert_eq!(app.scroll, 90);
    run_command(&mut app, "auto");
    assert!(!app.auto_scroll);
    run_command(&mut app, "+7");
    assert_eq!(app.scroll, 6);
    run_command(&mut app, "70000");
    assert_eq!(app.scroll, 6);
    app.enter_command_char('x');
    app.delete_command_char();
    assert_eq!(app.command_input, "");
}

#[test]
fn scrolling_by_lines_and_pages() {
    let mut app = App::new(Vec::new());
    app.update_viewport(12, 5);
    assert_eq!(app.scroll, 0);
    app.scroll_down();
    assert_eq!(app.scroll, 1);
    assert!(!app.auto_scroll);
    app.scroll_up();
    app.scroll_up();
    assert_eq!(app.scroll, 0);
    app.scroll_page_down();
    assert_eq!(app.scroll, 10);
    app.scroll_page_up();
    app.scroll_page_up();
    assert_eq!(app.scroll, 0);
    app.scroll = u16::MAX - 3;
    app.scroll_page_down();
    assert_eq!(app.scroll, u16::MAX);
    app.scroll_to_bottom();
    assert_eq!(app.scroll, 0);
    assert!(app.auto_scroll);
}

#[test]
fn backend_selection_and_switch() {
    let mut app = App::new(Vec::new());
    app.config.active_backend = "ollama".to_string();
    app.toggle_backend_selection();
    assert!(app.show_backend_selection);
    assert_eq!(app.backend_selection_index, 2);
    app.next_backend();
    app.next_backend();
    app.next_backend();
    assert_eq!(app.backend_selection_index, 0);
    app.previous_backend();
    assert_eq!(app.backend_selection_index, 4);
    app.previous_backend();
    assert_eq!(app.backend_selection_index, 3);
    app.select_backend();
    assert!(app.show_url_edit && !app.show_backend_selection);
    assert_eq!(app.url_input, "http://localhost:8000/v1");
    app.delete_url_char();
    app.delete_url_char();
    app.enter_url_char('2');
    app.cancel_url_edit();
    assert!(app.show_backend_selection && !app.show_url_edit);
    app.select_backend();
    assert_eq!(app.url_input, "http://localhost:8000/v1");
    app.delete_url_char();
    app.delete_url_char();
    app.enter_url_char('9');
    app.confirm_backend_switch();
    assert_eq!(app.config.active_backend, "vllm");
    assert_eq!(app.config.get_active_backend().unwrap().url, "http://localhost:8000/9");
    assert_eq!(
        app.messages.last().unwrap().content,
        "Switched to backend: vllm (URL: http://localhost:8000/9)"
    );
    assert!(!app.show_url_edit);
}

#[test]
fn model_selection_changes_the_active_model() {
    let mut app = App::new(Vec::new());
    app.toggle_model_selection();
    assert!(app.show_model_selection);
    assert_eq!(app.model_input, "default");
    for _ in 0..7 {
        app.delete_model_char();
    }
    for c in "  llama3 ".chars() {
        app.enter_model_char(c);
    }
    app.confirm_model_change();
    assert!(!app.show_model_selection);
    assert_eq!(app.model_input, "");
    assert_eq!(app.config.get_active_backend().unwrap().model, "llama3");
    assert_eq!(app.messages.last().unwrap().content, "Model changed to: llama3");
}

#[test]
fn blank_model_is_ignored() {
    let mut app = App::new(Vec::new());
    app.toggle_model_selection();
    app.model_input = "   ".to_string();
    app.confirm_model_change();
    assert_eq!(app.config.get_active_backend().unwrap().model, "default");
    assert_eq!(app.messages.len(), 1);
    app.toggle_model_selection();
    app.cancel_model_selection();
    assert!(!app.show_model_selection);
    assert_eq!(app.model_input, "");
}

#[test]
fn saving_a_new_conversation_creates_a_session() {
    let mut app = App::new(Vec::new());
    assert!(matches!(app.save_current_session(at(5), "id-1".to_string()), SaveAction::Nothing));
    type_text(&mut app, "First line\nsecond");
    app.submit_message();
    let action = app.save_current_session(at(5), "id-1".to_string());
    assert_eq!(app.current_session_id, Some("id-1".to_string()));
    match action {
        SaveAction::Create(s) => {
            assert_eq!(s.id, "id-1");
            assert_eq!(s.name, "First line");
            assert_eq!(s.created_at, at(5));
            assert_eq!(s.messages.len(), 3);
            app.record_saved_session(s, "/chats/new.md".to_string());
        }
        _ => panic!("expected a new session"),
    }
    assert_eq!(app.history.len(), 1);
    assert_eq!(app.history[0].file_path, Some("/chats/new.md".to_string()));
    app.tick(ApiEvent::Token("answer".to_string()));
    match app.save_current_session(at(9), "unused".to_string()) {
        SaveAction::Update(p) => assert_eq!(p, 0),
        _ => panic!("expected an update"),
    }
    assert_eq!(app.history[0].updated_at, at(9));
    assert_eq!(app.history[0].messages[2].content, "answer");
}

#[test]
fn long_first_line_is_cut_for_the_title() {
    let mut app = App::new(Vec::new());
    let long = "x".repeat(60);
    type_text(&mut app, &long);
    app.submit_message();
    match app.save_current_session(at(1), "n".to_string()) {
        SaveAction::Create(s) => assert_eq!(s.name, "x".repeat(50)),
        _ => panic!("expected a new session"),
    }
}

#[test]
fn clear_history_keeps_the_first_message() {
    let mut app = App::new(Vec::new());
    type_text(&mut app, "hi");
    app.submit_message();
    let a = app.clear_history(at(3), "c".to_string());
    assert!(matches!(a, SaveAction::Create(_)));
    assert_eq!(app.messages.len(), 1);
    assert_eq!(app.user_msg_count, 0);
    assert_eq!(app.assistant_msg_count, 0);
    assert_eq!(app.current_session_id, None);
}

#[test]
fn loading_a_chat_counts_its_messages() {
    let mut app = App::new(vec![saved_session("a", "A"), saved_session("b", "B")]);
    app.show_history = true;
    assert!(app.can_load_selected_chat());
    app.history_down();
    app.history_down();
    assert_eq!(app.selected_chat_index, 1);
    app.load_selected_chat();
    assert_eq!(app.current_session_id, Some("b".to_string()));
    assert_eq!(app.messages.len(), 4);
    assert_eq!(app.user_msg_count, 2);
    assert_eq!(app.assistant_msg_count, 1);
    assert!(!app.show_history);
    app.history_up();
    app.history_up();
    assert_eq!(app.selected_chat_index, 0);
}

#[test]
fn loading_with_no_selection_changes_nothing() {
    let mut app = App::new(Vec::new());
    assert!(!app.can_load_selected_chat());
    app.load_selected_chat();
    assert_eq!(app.messages.len(), 1);
    assert_eq!(app.current_session_id, None);
}

#[test]
fn the_active_chat_is_not_deleted() {
    let mut app = App::new(vec![saved_session("a", "A"), saved_session("b", "B")]);
    app.load_selected_chat();
    assert!(!app.delete_selected_chat());
    assert_eq!(
        app.messages.last().unwrap().content,
        "Cannot delete the currently active chat. Switch to another chat first."
    );
    assert_eq!(app.history.len(), 2);
    app.history_down();
    assert!(app.delete_selected_chat());
    app.remove_selected_chat();
    assert_eq!(app.history.len(), 1);
    assert_eq!(app.selected_chat_index, 0);
}

#[test]
fn new_chat_and_reload_reset_the_list() {
    let mut app = App::new(vec![saved_session("a", "A")]);
    type_text(&mut app, "hi");
    app.submit_message();
    app.selected_chat_index = 0;
    app.new_chat(vec![saved_session("x", "X"), saved_session("y", "Y")]);
    assert_eq!(app.messages.len(), 1);
    assert_eq!(app.user_msg_count, 0);
    assert_eq!(app.history.len(), 2);
    app.selected_chat_index = 1;
    app.reload_history(vec![saved_session("z", "Z")]);
    assert_eq!(app.selected_chat_index, 0);
    app.reload_history(Vec::new());
    assert_eq!(app.selected_chat_index, 0);
}

#[test]
fn saving_then_opening_the_same_chat() {
    let mut app = App::new(vec![saved_session("a", "A")]);
    app.load_selected_chat();
    type_text(&mut app, "more");
    app.submit_message();
    app.tick(ApiEvent::Token("reply".to_string()));
    let before: Vec<String> = app.messages.iter().map(|m| m.content.clone()).collect();
    app.save_current_session(at(200), "x".to_string());
    app.messages.clear();
    app.selected_chat_index = 0;
    app.load_selected_chat();
    let after: Vec<String> = app.messages.iter().map(|m| m.content.clone()).collect();
    assert_eq!(before, after);
    assert_eq!(app.current_session_id, Some("a".to_string()));
}

#[test]
fn saving_now_names_the_session_by_the_time() {
    let mut app = App::new(Vec::new());
    type_text(&mut app, "hello");
    app.submit_message();
    match app.save_current_session_now() {
        SaveAction::Create(s) => {
            assert_eq!(s.name, "hello");
            assert!(s.id.ends_with("+00:00"));
            assert_eq!(app.current_session_id, Some(s.id.clone()));
        }
        _ => panic!("expected a new session"),
    }
    assert!(matches!(app.clear_history_now(), SaveAction::Create(_)));
    assert_eq!(app.messages.len(), 1);
}
