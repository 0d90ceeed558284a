//! What each key does, in each state of the application.
use vstd::prelude::*;

use crate::app::{
    command_executed, model_confirmed, model_selection_toggled, paged_down, paged_up, scrolled_to_bottom,
    toggled_leader_menu, app_wf, backend_selected, backend_selection_toggled, backend_switched, history_moved_down,
    history_moved_up, lemma_first_index, next_selected, previous_selected, scrolled_down,
    scrolled_up, stopped, submitted, toggled_history, toggled_shortcuts, toggled_stats,
    without_last, App, AppView, InputMode,
};
use crate::text::trim;

verus! {

/// A key, as far as the application tells keys apart.
#[derive(Clone, Copy, Debug, PartialEq, Eq, Structural)]
pub enum KeyCode {
    Char(char),
    Enter,
    Esc,
    Backspace,
    Up,
    Down,
    Other,
}

/// A key press: the key, whether Control was held, and whether no modifier
/// at all was held.
#[derive(Clone, Copy, Debug, PartialEq, Eq, Structural)]
pub struct Key {
    pub code: KeyCode,
    pub ctrl: bool,
    pub no_modifiers: bool,
}

/// The work that a key leaves to the caller, after the state has changed.
#[derive(Clone, Copy, Debug, PartialEq, Eq, Structural)]
pub enum KeyAction {
    /// None.
    Nothing,
    /// Leave the application.
    Quit,
    /// Send the conversation to the active backend.
    SendMessage,
    /// Stop the request being answered.
    StopGeneration,
    /// Save the conversation and clear it (`App::clear_history`).
    ClearHistory,
    /// Save the conversation and start a new one.
    NewChat,
    /// Save the conversation and open the selected chat.
    LoadSelectedChat,
    /// Delete the selected chat.
    DeleteSelectedChat,
    /// Read the saved chats again (`App::reload_history`).
    ReloadHistory,
    /// The key would take a counter past its largest value.
    Overflow,
}

pub open spec fn is_char(k: Key, c: char) -> bool {
    k.code == KeyCode::Char(c)
}

pub open spec fn processing_key(v: AppView, k: Key) -> (AppView, KeyAction) {
    if k.ctrl && (k.code == KeyCode::Esc || is_char(k, 'c')) {
        (stopped(v), KeyAction::StopGeneration)
    } else {
        (v, KeyAction::Nothing)
    }
}

pub open spec fn editing_key(v: AppView, k: Key) -> (AppView, KeyAction) {
    match k.code {
        KeyCode::Enter => if trim(v.input).len() > 0 {
            if v.user_msg_count < usize::MAX && v.assistant_msg_count < usize::MAX {
                (submitted(v), KeyAction::SendMessage)
            } else {
                (v, KeyAction::Overflow)
            }
        } else {
            (v, KeyAction::Nothing)
        },
        KeyCode::Esc => (AppView { input_mode: InputMode::Normal, ..v }, KeyAction::Nothing),
        KeyCode::Char(c) => (AppView { input: v.input.push(c), ..v }, KeyAction::Nothing),
        KeyCode::Backspace => (AppView { input: without_last(v.input), ..v }, KeyAction::Nothing),
        _ => (v, KeyAction::Nothing),
    }
}

pub open spec fn backend_list_key(v: AppView, k: Key) -> AppView {
    if k.code == KeyCode::Esc || is_char(k, 'b') {
        backend_selection_toggled(v)
    } else if k.code == KeyCode::Up || is_char(k, 'k') {
        previous_selected(v)
    } else if k.code == KeyCode::Down || is_char(k, 'j') {
        next_selected(v)
    } else if k.code == KeyCode::Enter {
        backend_selected(v)
    } else {
        v
    }
}

pub open spec fn url_key(v: AppView, k: Key) -> AppView {
    match k.code {
        KeyCode::Esc => AppView { show_url_edit: false, show_backend_selection: true, ..v },
        KeyCode::Enter => backend_switched(v),
        KeyCode::Char(c) => AppView { url_input: v.url_input.push(c), ..v },
        KeyCode::Backspace => AppView { url_input: without_last(v.url_input), ..v },
        _ => v,
    }
}

/// A key in the model dialog: characters are typed, `Backspace` deletes,
/// `Enter` confirms the model, `Esc` cancels.
pub open spec fn model_key(v: AppView, k: Key) -> AppView {
    match k.code {
        KeyCode::Esc => AppView { show_model_selection: false, model_input: seq![], ..v },
        KeyCode::Enter => model_confirmed(v),
        KeyCode::Char(c) => AppView { model_input: v.model_input.push(c), ..v },
        KeyCode::Backspace => AppView { model_input: without_last(v.model_input), ..v },
        _ => v,
    }
}

pub open spec fn shortcuts_key(v: AppView, k: Key) -> (AppView, KeyAction) {
    if k.code == KeyCode::Esc || is_char(k, ' ') || is_char(k, '?') {
        (toggled_shortcuts(v), KeyAction::Nothing)
    } else if is_char(k, 'q') {
        (v, KeyAction::Quit)
    } else if is_char(k, 'i') {
        (AppView { input_mode: InputMode::Editing, show_shortcuts: false, ..v }, KeyAction::Nothing)
    } else if is_char(k, 's') {
        (toggled_stats(toggled_shortcuts(v)), KeyAction::Nothing)
    } else if is_char(k, 'c') {
        (toggled_shortcuts(v), KeyAction::ClearHistory)
    } else if is_char(k, 'b') {
        (backend_selection_toggled(toggled_shortcuts(v)), KeyAction::Nothing)
    } else {
        (v, KeyAction::Nothing)
    }
}

pub open spec fn stats_key(v: AppView, k: Key) -> AppView {
    if k.code == KeyCode::Esc || is_char(k, 's') {
        toggled_stats(v)
    } else {
        v
    }
}

/// The history panel opened or closed; opening it asks for the saved chats.
pub open spec fn history_toggle(v: AppView) -> (AppView, KeyAction) {
    (
        toggled_history(v),
        if !v.show_history {
            KeyAction::ReloadHistory
        } else {
            KeyAction::Nothing
        },
    )
}

pub open spec fn history_key(v: AppView, k: Key) -> (AppView, KeyAction) {
    if k.code == KeyCode::Esc {
        history_toggle(v)
    } else if is_char(k, ' ') && k.no_modifiers {
        (AppView { pending_leader_key: !v.pending_leader_key, ..v }, KeyAction::Nothing)
    } else if is_char(k, 'e') && v.pending_leader_key {
        history_toggle(AppView { pending_leader_key: false, ..v })
    } else if is_char(k, 'j') || k.code == KeyCode::Down {
        (history_moved_down(v), KeyAction::Nothing)
    } else if is_char(k, 'k') || k.code == KeyCode::Up {
        (history_moved_up(v), KeyAction::Nothing)
    } else if k.code == KeyCode::Enter {
        (v, KeyAction::LoadSelectedChat)
    } else if is_char(k, 'n') {
        (v, KeyAction::NewChat)
    } else if is_char(k, 'd') {
        (v, KeyAction::DeleteSelectedChat)
    } else if is_char(k, 'r') {
        (v, KeyAction::ReloadHistory)
    } else {
        (AppView { pending_leader_key: false, ..v }, KeyAction::Nothing)
    }
}

/// The leader key given up: no key pending, the leader menu hidden.
pub open spec fn leader_closed(v: AppView) -> AppView {
    AppView { pending_leader_key: false, show_leader_menu: false, ..v }
}

/// Command mode entered with an empty command line.
pub open spec fn command_started(v: AppView) -> AppView {
    AppView { input_mode: InputMode::Command, command_input: seq![], ..v }
}

/// A normal-mode key other than `g`.
pub open spec fn normal_other_key(v: AppView, k: Key) -> (AppView, KeyAction) {
    if k.ctrl && is_char(k, 'd') {
        (paged_down(v), KeyAction::Nothing)
    } else if k.ctrl && is_char(k, 'u') {
        (paged_up(v), KeyAction::Nothing)
    } else if is_char(k, 'q') {
        (v, KeyAction::Quit)
    } else if is_char(k, 'i') {
        (AppView { input_mode: InputMode::Editing, show_shortcuts: false, ..v }, KeyAction::Nothing)
    } else if is_char(k, ':') {
        (command_started(v), KeyAction::Nothing)
    } else if is_char(k, 'j') {
        if v.scroll < u16::MAX {
            (scrolled_down(v), KeyAction::Nothing)
        } else {
            (v, KeyAction::Overflow)
        }
    } else if is_char(k, 'k') {
        (scrolled_up(v), KeyAction::Nothing)
    } else if is_char(k, 'G') {
        (scrolled_to_bottom(v), KeyAction::Nothing)
    } else if is_char(k, 'n') {
        (v, KeyAction::NewChat)
    } else if is_char(k, ' ') && k.no_modifiers {
        if v.pending_leader_key {
            (toggled_shortcuts(leader_closed(v)), KeyAction::Nothing)
        } else {
            (toggled_leader_menu(v), KeyAction::Nothing)
        }
    } else if is_char(k, '?') {
        (toggled_shortcuts(leader_closed(v)), KeyAction::Nothing)
    } else if is_char(k, 'e') && v.pending_leader_key {
        history_toggle(leader_closed(v))
    } else if is_char(k, 'm') && v.pending_leader_key {
        (model_selection_toggled(leader_closed(v)), KeyAction::Nothing)
    } else if is_char(k, 's') {
        (toggled_stats(v), KeyAction::Nothing)
    } else if is_char(k, 'c') {
        (v, KeyAction::ClearHistory)
    } else if is_char(k, 'b') {
        (backend_selection_toggled(v), KeyAction::Nothing)
    } else if v.pending_leader_key {
        (leader_closed(v), KeyAction::Nothing)
    } else {
        (v, KeyAction::Nothing)
    }
}

/// A key in normal mode. `g` twice jumps to the top; any other key forgets
/// a first `g`. `Ctrl+d`/`Ctrl+u` page, `:` opens the command line, `G`
/// jumps to the bottom, `?` shows the shortcuts, `Space` opens the leader
/// menu, whose keys are `Space` (shortcuts), `e` (history) and `m` (model),
/// each of which closes it. `s` (statistics) and `b` (backends) work with or
/// without the leader and leave a pending leader key as it is.
pub open spec fn normal_key(v: AppView, k: Key) -> (AppView, KeyAction) {
    if is_char(k, 'g') && !k.ctrl {
        if v.pending_g {
            (AppView { scroll: 0, auto_scroll: false, pending_g: false, ..leader_closed(v) }, KeyAction::Nothing)
        } else {
            (AppView { pending_g: true, ..leader_closed(v) }, KeyAction::Nothing)
        }
    } else {
        normal_other_key(AppView { pending_g: false, ..v }, k)
    }
}

/// A key on the command line: characters are typed, `Backspace` deletes,
/// `Enter` runs the command, `Esc` leaves it.
pub open spec fn command_key(v: AppView, k: Key) -> AppView {
    match k.code {
        KeyCode::Enter => command_executed(v),
        KeyCode::Esc => AppView { input_mode: InputMode::Normal, command_input: seq![], ..v },
        KeyCode::Char(c) => AppView { command_input: v.command_input.push(c), ..v },
        KeyCode::Backspace => AppView { command_input: without_last(v.command_input), ..v },
        _ => v,
    }
}

/// What a key does: the state after it, and the work left to the caller.
/// The first of these that holds decides how the key is read: a reply is
/// being generated, the input line is edited, the command line is edited,
/// the backend list is open, the
/// URL editor is open, the model dialog is open, the shortcuts are shown, the statistics are shown,
/// the history panel is open; otherwise the key is a normal-mode command.
pub open spec fn key_step(v: AppView, k: Key) -> (AppView, KeyAction) {
    if v.is_processing {
        processing_key(v, k)
    } else if v.input_mode == InputMode::Editing {
        editing_key(v, k)
    } else if v.input_mode == InputMode::Command {
        (command_key(v, k), KeyAction::Nothing)
    } else if v.show_backend_selection {
        (backend_list_key(v, k), KeyAction::Nothing)
    } else if v.show_url_edit {
        (url_key(v, k), KeyAction::Nothing)
    } else if v.show_model_selection {
        (model_key(v, k), KeyAction::Nothing)
    } else if v.show_shortcuts {
        shortcuts_key(v, k)
    } else if v.show_stats {
        (stats_key(v, k), KeyAction::Nothing)
    } else if v.show_history {
        history_key(v, k)
    } else {
        normal_key(v, k)
    }
}

proof fn lemma_toggle_selection_wf(v: AppView)
    requires
        app_wf(v),
    ensures
        app_wf(backend_selection_toggled(v)),
{
    lemma_first_index(v.available_backends, v.active_backend);
}

impl App {
    fn processing_key(&mut self, k: Key) -> (a: KeyAction)
        ensures
            (final(self)@, a) == processing_key(old(self)@, k),
    {
        if k.ctrl && (k.code == KeyCode::Esc || k.code == KeyCode::Char('c')) {
            self.stop_generation();
            KeyAction::StopGeneration
        } else {
            KeyAction::Nothing
        }
    }

    #[verifier::spinoff_prover]
    #[verifier::rlimit(60)]
    fn editing_key(&mut self, k: Key) -> (a: KeyAction)
        ensures
            (final(self)@, a) == editing_key(old(self)@, k),
    {
        match k.code {
            KeyCode::Enter => {
                if self.user_msg_count < usize::MAX && self.assistant_msg_count < usize::MAX {
                    if self.submit_message() {
                        KeyAction::SendMessage
                    } else {
                        KeyAction::Nothing
                    }
                } else {
                    let chars = crate::text::to_chars(self.input.as_str());
                    let t = crate::text::trim_chars(chars.as_slice());
                    if t.len() > 0 {
                        KeyAction::Overflow
                    } else {
                        KeyAction::Nothing
                    }
                }
            },
            KeyCode::Esc => {
                self.set_normal_mode();
                KeyAction::Nothing
            },
            KeyCode::Char(c) => {
                self.enter_char(c);
                KeyAction::Nothing
            },
            KeyCode::Backspace => {
                self.delete_char();
                KeyAction::Nothing
            },
            _ => KeyAction::Nothing,
        }
    }

    fn backend_list_key(&mut self, k: Key)
        requires
            app_wf(old(self)@),
        ensures
            final(self)@ == backend_list_key(old(self)@, k),
            app_wf(final(self)@),
    {
        proof {
            lemma_toggle_selection_wf(self@);
        }
        if k.code == KeyCode::Esc || k.code == KeyCode::Char('b') {
            self.toggle_backend_selection();
        } else if k.code == KeyCode::Up || k.code == KeyCode::Char('k') {
            self.previous_backend();
        } else if k.code == KeyCode::Down || k.code == KeyCode::Char('j') {
            self.next_backend();
        } else if k.code == KeyCode::Enter {
            self.select_backend();
        }
    }

    fn url_key(&mut self, k: Key)
        requires
            app_wf(old(self)@),
        ensures
            final(self)@ == url_key(old(self)@, k),
            app_wf(final(self)@),
    {
        match k.code {
            KeyCode::Esc => self.cancel_url_edit(),
            KeyCode::Enter => self.confirm_backend_switch(),
            KeyCode::Char(c) => self.enter_url_char(c),
            KeyCode::Backspace => self.delete_url_char(),
            _ => {},
        }
    }

    fn model_key(&mut self, k: Key)
        requires
            app_wf(old(self)@),
        ensures
            final(self)@ == model_key(old(self)@, k),
            app_wf(final(self)@),
    {
        match k.code {
            KeyCode::Esc => self.cancel_model_selection(),
            KeyCode::Enter => self.confirm_model_change(),
            KeyCode::Char(c) => self.enter_model_char(c),
            KeyCode::Backspace => self.delete_model_char(),
            _ => {},
        }
    }

    fn shortcuts_key(&mut self, k: Key) -> (a: KeyAction)
        requires
            app_wf(old(self)@),
        ensures
            (final(self)@, a) == shortcuts_key(old(self)@, k),
            app_wf(final(self)@),
    {
        proof {
            lemma_toggle_selection_wf(toggled_shortcuts(self@));
        }
        if k.code == KeyCode::Esc || k.code == KeyCode::Char(' ') || k.code == KeyCode::Char('?') {
            self.toggle_shortcuts();
            KeyAction::Nothing
        } else if k.code == KeyCode::Char('q') {
            KeyAction::Quit
        } else if k.code == KeyCode::Char('i') {
            self.set_input_mode();
            KeyAction::Nothing
        } else if k.code == KeyCode::Char('s') {
            self.toggle_shortcuts();
            self.toggle_stats();
            KeyAction::Nothing
        } else if k.code == KeyCode::Char('c') {
            self.toggle_shortcuts();
            KeyAction::ClearHistory
        } else if k.code == KeyCode::Char('b') {
            self.toggle_shortcuts();
            self.toggle_backend_selection();
            KeyAction::Nothing
        } else {
            KeyAction::Nothing
        }
    }

    fn history_toggle(&mut self) -> (a: KeyAction)
        ensures
            (final(self)@, a) == history_toggle(old(self)@),
    {
        if self.toggle_history() {
            KeyAction::ReloadHistory
        } else {
            KeyAction::Nothing
        }
    }

    #[verifier::spinoff_prover]
    #[verifier::rlimit(60)]
    fn history_key(&mut self, k: Key) -> (a: KeyAction)
        ensures
            (final(self)@, a) == history_key(old(self)@, k),
    {
        if k.code == KeyCode::Esc {
            self.history_toggle()
        } else if k.code == KeyCode::Char(' ') && k.no_modifiers {
            self.pending_leader_key = !self.pending_leader_key;
            KeyAction::Nothing
        } else if k.code == KeyCode::Char('e') && self.pending_leader_key {
            self.pending_leader_key = false;
            self.history_toggle()
        } else if k.code == KeyCode::Char('j') || k.code == KeyCode::Down {
            self.history_down();
            KeyAction::Nothing
        } else if k.code == KeyCode::Char('k') || k.code == KeyCode::Up {
            self.history_up();
            KeyAction::Nothing
        } else if k.code == KeyCode::Enter {
            KeyAction::LoadSelectedChat
        } else if k.code == KeyCode::Char('n') {
            KeyAction::NewChat
        } else if k.code == KeyCode::Char('d') {
            KeyAction::DeleteSelectedChat
        } else if k.code == KeyCode::Char('r') {
            KeyAction::ReloadHistory
        } else {
            self.pending_leader_key = false;
            KeyAction::Nothing
        }
    }

    fn close_leader(&mut self)
        ensures
            final(self)@ == leader_closed(old(self)@),
    {
        self.pending_leader_key = false;
        self.show_leader_menu = false;
    }

    #[verifier::spinoff_prover]
    #[verifier::rlimit(60)]
    fn normal_other_key(&mut self, k: Key) -> (a: KeyAction)
        requires
            app_wf(old(self)@),
        ensures
            (final(self)@, a) == normal_other_key(old(self)@, k),
            app_wf(final(self)@),
    {
        proof {
            lemma_toggle_selection_wf(leader_closed(self@));
        }
        if k.ctrl && k.code == KeyCode::Char('d') {
            self.scroll_page_down();
            KeyAction::Nothing
        } else if k.ctrl && k.code == KeyCode::Char('u') {
            self.scroll_page_up();
            KeyAction::Nothing
        } else if k.code == KeyCode::Char('q') {
            KeyAction::Quit
        } else if k.code == KeyCode::Char('i') {
            self.set_input_mode();
            KeyAction::Nothing
        } else if k.code == KeyCode::Char(':') {
            self.set_command_mode();
            KeyAction::Nothing
        } else if k.code == KeyCode::Char('j') {
            if self.scroll < u16::MAX {
                self.scroll_down();
                KeyAction::Nothing
            } else {
                KeyAction::Overflow
            }
        } else if k.code == KeyCode::Char('k') {
            self.scroll_up();
            KeyAction::Nothing
        } else if k.code == KeyCode::Char('G') {
            self.scroll_to_bottom();
            KeyAction::Nothing
        } else if k.code == KeyCode::Char('n') {
            KeyAction::NewChat
        } else if k.code == KeyCode::Char(' ') && k.no_modifiers {
            if self.pending_leader_key {
                self.close_leader();
                self.toggle_shortcuts();
            } else {
                self.toggle_leader_menu();
            }
            KeyAction::Nothing
        } else if k.code == KeyCode::Char('?') {
            self.close_leader();
            self.toggle_shortcuts();
            KeyAction::Nothing
        } else if k.code == KeyCode::Char('e') && self.pending_leader_key {
            self.close_leader();
            self.history_toggle()
        } else if k.code == KeyCode::Char('m') && self.pending_leader_key {
            self.close_leader();
            self.toggle_model_selection();
            KeyAction::Nothing
        } else if k.code == KeyCode::Char('s') {
            self.toggle_stats();
            KeyAction::Nothing
        } else if k.code == KeyCode::Char('c') {
            KeyAction::ClearHistory
        } else if k.code == KeyCode::Char('b') {
            self.toggle_backend_selection();
            KeyAction::Nothing
        } else {
            if self.pending_leader_key {
                self.close_leader();
            }
            KeyAction::Nothing
        }
    }

    fn normal_key(&mut self, k: Key) -> (a: KeyAction)
        requires
            app_wf(old(self)@),
        ensures
            (final(self)@, a) == normal_key(old(self)@, k),
            app_wf(final(self)@),
    {
        if k.code == KeyCode::Char('g') && !k.ctrl {
            self.close_leader();
            if self.pending_g {
                self.scroll = 0;
                self.auto_scroll = false;
                self.pending_g = false;
            } else {
                self.pending_g = true;
            }
            KeyAction::Nothing
        } else {
            self.pending_g = false;
            self.normal_other_key(k)
        }
    }

    fn command_key(&mut self, k: Key)
        requires
            app_wf(old(self)@),
        ensures
            final(self)@ == command_key(old(self)@, k),
            app_wf(final(self)@),
    {
        match k.code {
            KeyCode::Enter => self.execute_command(),
            KeyCode::Esc => {
                self.set_normal_mode();
                self.command_input = String::new();
            },
            KeyCode::Char(c) => self.enter_command_char(c),
            KeyCode::Backspace => self.delete_command_char(),
            _ => {},
        }
    }

    /// Applies a key press (see `key_step`) and tells what work is left to
    /// the caller.
    pub fn handle_key(&mut self, k: Key) -> (a: KeyAction)
        requires
            app_wf(old(self)@),
        ensures
            (final(self)@, a) == key_step(old(self)@, k),
            app_wf(final(self)@),
    {
        if self.is_processing {
            self.processing_key(k)
        } else if self.is_input_mode() {
            self.editing_key(k)
        } else if self.is_command_mode() {
            self.command_key(k);
            KeyAction::Nothing
        } else if self.show_backend_selection {
            self.backend_list_key(k);
            KeyAction::Nothing
        } else if self.show_url_edit {
            self.url_key(k);
            KeyAction::Nothing
        } else if self.show_model_selection {
            self.model_key(k);
            KeyAction::Nothing
        } else if self.show_shortcuts {
            self.shortcuts_key(k)
        } else if self.show_stats {
            if k.code == KeyCode::Esc || k.code == KeyCode::Char('s') {
                self.toggle_stats();
            }
            KeyAction::Nothing
        } else if self.show_history {
            self.history_key(k)
        } else {
            self.normal_key(k)
        }
    }
}

} // verus!
