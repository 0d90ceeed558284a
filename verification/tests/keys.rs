use fastchat_tui::app::{App, InputMode};
use fastchat_tui::keys::{Key, KeyAction, KeyCode};

fn key(code: KeyCode) -> Key {
    Key { code, ctrl: false, no_modifiers: true }
}

fn ch(c: char) -> Key {
    key(KeyCode::Char(c))
}

fn ctrl(c: char) -> Key {
    Key { code: KeyCode::Char(c), ctrl: true, no_modifiers: false }
}

#[test]
fn quit_and_modes_in_normal_mode() {
    let mut app = App::new(Vec::new());
    assert_eq!(app.handle_key(ch('q')), KeyAction::Quit);
    assert_eq!(app.handle_key(ch('i')), KeyAction::Nothing);
    assert_eq!(app.input_mode, InputMode::Editing);
    assert_eq!(app.handle_key(ch('h')), KeyAction::Nothing);
    assert_eq!(app.handle_key(ch('i')), KeyAction::Nothing);
    assert_eq!(app.input, "hi");
    assert_eq!(app.handle_key(key(KeyCode::Backspace)), KeyAction::Nothing);
    assert_eq!(app.input, "h");
    assert_eq!(app.handle_key(key(KeyCode::Enter)), KeyAction::SendMessage);
    assert!(app.is_processing);
    assert_eq!(app.messages.len(), 3);
}

#[test]
fn while_processing_only_stop_is_heard() {
    let mut app = App::new(Vec::new());
    app.is_processing = true;
    assert_eq!(app.handle_key(ch('q')), KeyAction::Nothing);
    assert_eq!(app.handle_key(ctrl('c')), KeyAction::StopGeneration);
    assert!(!app.is_processing);
    assert_eq!(app.messages.last().unwrap().content, "Generation stopped by user.");
}

#[test]
fn enter_on_blank_input_sends_nothing() {
    let mut app = App::new(Vec::new());
    app.handle_key(ch('i'));
    app.handle_key(ch(' '));
    assert_eq!(app.handle_key(key(KeyCode::Enter)), KeyAction::Nothing);
    assert_eq!(app.messages.len(), 1);
    assert_eq!(app.handle_key(key(KeyCode::Esc)), KeyAction::Nothing);
    assert_eq!(app.input_mode, InputMode::Normal);
}

#[test]
fn leader_space_space_opens_shortcuts() {
    let mut app = App::new(Vec::new());
    app.handle_key(ch(' '));
    assert!(app.pending_leader_key);
    app.handle_key(ch(' '));
    assert!(!app.pending_leader_key);
    assert!(app.show_shortcuts);
    assert_eq!(app.handle_key(ch('s')), KeyAction::Nothing);
    assert!(!app.show_shortcuts);
    assert!(app.show_stats);
    app.handle_key(key(KeyCode::Esc));
    assert!(!app.show_stats);
}

#[test]
fn leader_e_opens_history_and_asks_for_it() {
    let mut app = App::new(Vec::new());
    app.handle_key(ch(' '));
    assert_eq!(app.handle_key(ch('e')), KeyAction::ReloadHistory);
    assert!(app.show_history);
    assert!(!app.pending_leader_key);
    assert_eq!(app.handle_key(ch('n')), KeyAction::NewChat);
    assert_eq!(app.handle_key(ch('d')), KeyAction::DeleteSelectedChat);
    assert_eq!(app.handle_key(key(KeyCode::Enter)), KeyAction::LoadSelectedChat);
    assert_eq!(app.handle_key(ch('r')), KeyAction::ReloadHistory);
    assert_eq!(app.handle_key(key(KeyCode::Esc)), KeyAction::Nothing);
    assert!(!app.show_history);
}

#[test]
fn other_key_cancels_the_leader() {
    let mut app = App::new(Vec::new());
    app.handle_key(ch(' '));
    app.handle_key(ch('x'));
    assert!(!app.pending_leader_key);
    assert_eq!(app.handle_key(ch('e')), KeyAction::Nothing);
    assert!(!app.show_history);
}

#[test]
fn scroll_keys_and_overflow() {
    let mut app = App::new(Vec::new());
    app.handle_key(ch('j'));
    assert_eq!(app.scroll, 1);
    app.handle_key(ch('k'));
    assert_eq!(app.scroll, 0);
    app.scroll = u16::MAX;
    assert_eq!(app.handle_key(ch('j')), KeyAction::Overflow);
    assert_eq!(app.scroll, u16::MAX);
}

#[test]
fn backend_keys_walk_the_list() {
    let mut app = App::new(Vec::new());
    app.handle_key(ch('b'));
    assert!(app.show_backend_selection);
    assert_eq!(app.backend_selection_index, 0);
    app.handle_key(key(KeyCode::Up));
    assert_eq!(app.backend_selection_index, 4);
    app.handle_key(ch('j'));
    assert_eq!(app.backend_selection_index, 0);
    app.handle_key(ch('j'));
    app.handle_key(key(KeyCode::Enter));
    assert!(app.show_url_edit);
    assert_eq!(app.url_input, "http://localhost:30000/v1");
    app.handle_key(key(KeyCode::Enter));
    assert_eq!(app.config.active_backend, "sglang");
    assert!(!app.show_url_edit);
}

#[test]
fn shortcuts_keys() {
    let mut app = App::new(Vec::new());
    app.show_shortcuts = true;
    assert_eq!(app.handle_key(ch('c')), KeyAction::ClearHistory);
    assert!(!app.show_shortcuts);
    app.show_shortcuts = true;
    assert_eq!(app.handle_key(ch('q')), KeyAction::Quit);
    app.handle_key(ch('b'));
    assert!(!app.show_shortcuts);
    assert!(app.show_backend_selection);
}

#[test]
fn colon_opens_the_command_line() {
    let mut app = App::new(Vec::new());
    app.handle_key(ch('j'));
    assert_eq!(app.handle_key(ch(':')), KeyAction::Nothing);
    assert!(app.is_command_mode());
    assert_eq!(app.command_input, "");
    app.handle_key(ch('4'));
    app.handle_key(ch('3'));
    app.handle_key(key(KeyCode::Backspace));
    app.handle_key(ch('2'));
    assert_eq!(app.command_input, "42");
    app.handle_key(key(KeyCode::Enter));
    assert_eq!(app.scroll, 41);
    assert_eq!(app.input_mode, InputMode::Normal);
    assert_eq!(app.command_input, "");
}

#[test]
fn esc_leaves_the_command_line() {
    let mut app = App::new(Vec::new());
    app.handle_key(ch(':'));
    app.handle_key(ch('q'));
    assert_eq!(app.command_input, "q");
    assert_eq!(app.handle_key(key(KeyCode::Esc)), KeyAction::Nothing);
    assert_eq!(app.input_mode, InputMode::Normal);
    assert_eq!(app.command_input, "");
}

#[test]
fn question_mark_toggles_the_shortcuts() {
    let mut app = App::new(Vec::new());
    app.handle_key(ch('?'));
    assert!(app.show_shortcuts);
    app.handle_key(ch('?'));
    assert!(!app.show_shortcuts);
}

#[test]
fn big_g_and_gg_jump_to_the_ends() {
    let mut app = App::new(Vec::new());
    app.update_viewport(10, 100);
    assert_eq!(app.scroll, 90);
    app.handle_key(ch('g'));
    assert_eq!(app.scroll, 90);
    app.handle_key(ch('g'));
    assert_eq!(app.scroll, 0);
    assert!(!app.auto_scroll);
    app.handle_key(ch('G'));
    assert_eq!(app.scroll, 90);
    assert!(app.auto_scroll);
    app.handle_key(ch('g'));
    app.handle_key(ch('x'));
    app.handle_key(ch('g'));
    assert_eq!(app.scroll, 90);
}

#[test]
fn ctrl_d_and_ctrl_u_page() {
    let mut app = App::new(Vec::new());
    app.update_viewport(12, 5);
    app.handle_key(ctrl('d'));
    assert_eq!(app.scroll, 10);
    assert!(!app.auto_scroll);
    app.handle_key(ctrl('d'));
    app.handle_key(ctrl('u'));
    assert_eq!(app.scroll, 10);
}

#[test]
fn leader_menu_keys() {
    let mut app = App::new(Vec::new());
    app.handle_key(ch(' '));
    assert!(app.show_leader_menu && app.pending_leader_key);
    app.handle_key(ch('m'));
    assert!(!app.show_leader_menu && !app.pending_leader_key);
    assert!(app.show_model_selection);
    assert_eq!(app.model_input, "default");
    app.handle_key(key(KeyCode::Esc));
    assert!(!app.show_model_selection);
    app.handle_key(ch(' '));
    app.handle_key(ch('b'));
    assert!(app.show_backend_selection);
    assert!(app.pending_leader_key);
    app.handle_key(key(KeyCode::Esc));
    assert!(!app.show_backend_selection);
    app.handle_key(ch('s'));
    assert!(app.show_stats);
    assert!(app.pending_leader_key);
}

#[test]
fn model_dialog_takes_the_keys() {
    let mut app = App::new(Vec::new());
    app.handle_key(ch(' '));
    app.handle_key(ch('m'));
    for _ in 0..7 {
        app.handle_key(key(KeyCode::Backspace));
    }
    assert_eq!(app.model_input, "");
    assert_eq!(app.handle_key(ch('q')), KeyAction::Nothing);
    app.handle_key(ch('x'));
    assert_eq!(app.model_input, "qx");
    app.handle_key(key(KeyCode::Backspace));
    app.handle_key(key(KeyCode::Enter));
    assert!(!app.show_model_selection);
    assert_eq!(app.config.get_active_backend().unwrap().model, "q");
    assert_eq!(app.messages.last().unwrap().content, "Model changed to: q");
}
