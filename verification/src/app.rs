//! The application state and every change that the user's commands make to it.
//!
//! Work that reads or writes files, talks to the network or reads the clock
//! is left to the caller: the methods here take its results as arguments or
//! tell, by their result, what must be done.
use vstd::prelude::*;
use vstd::string::StringExecFns;

use crate::api::ApiEvent;
use crate::config::{AppConfig, BackendView};
use crate::text::{
    chars_eq, lines, parse_u16, parse_u16_chars, pop_char, split_lines, string_of, to_chars, trim,
    trim_chars,
};
use crate::time::{format_rfc3339, now, rfc3339_text, Timestamp};
use crate::types::{
    clone_messages, message_views, ChatSession, Message, MessageView, Role, SessionView,
};

verus! {

/// What the keyboard currently edits.
#[derive(Clone, Copy, Debug, PartialEq, Eq, Structural)]
pub enum InputMode {
    Normal,
    Editing,
    Command,
}

/// The state of the chat application.
pub struct App {
    pub config: AppConfig,
    pub messages: Vec<Message>,
    pub input: String,
    pub input_mode: InputMode,
    pub scroll: u16,
    pub is_processing: bool,
    pub show_shortcuts: bool,
    pub show_stats: bool,
    pub show_history: bool,
    pub history: Vec<ChatSession>,
    pub history_scroll: usize,
    pub selected_chat_index: usize,
    pub show_backend_selection: bool,
    pub show_url_edit: bool,
    pub available_backends: Vec<String>,
    pub backend_selection_index: usize,
    pub url_input: String,
    pub current_session_id: Option<String>,
    pub user_msg_count: usize,
    pub assistant_msg_count: usize,
    pub pending_leader_key: bool,
    pub show_leader_menu: bool,
    /// A first `g` was pressed; a second one jumps to the top.
    pub pending_g: bool,
    pub command_input: String,
    pub show_line_numbers: bool,
    pub auto_scroll: bool,
    pub total_lines: usize,
    pub viewport_height: u16,
    pub show_model_selection: bool,
    pub model_input: String,
}

/// The value of the application state.
pub struct AppView {
    pub backends: Map<Seq<char>, BackendView>,
    pub active_backend: Seq<char>,
    pub messages: Seq<MessageView>,
    pub input: Seq<char>,
    pub input_mode: InputMode,
    pub scroll: u16,
    pub is_processing: bool,
    pub show_shortcuts: bool,
    pub show_stats: bool,
    pub show_history: bool,
    pub history: Seq<SessionView>,
    pub history_scroll: usize,
    pub selected_chat_index: usize,
    pub show_backend_selection: bool,
    pub show_url_edit: bool,
    pub available_backends: Seq<Seq<char>>,
    pub backend_selection_index: usize,
    pub url_input: Seq<char>,
    pub current_session_id: Option<Seq<char>>,
    pub user_msg_count: usize,
    pub assistant_msg_count: usize,
    pub pending_leader_key: bool,
    pub show_leader_menu: bool,
    pub pending_g: bool,
    pub command_input: Seq<char>,
    pub show_line_numbers: bool,
    pub auto_scroll: bool,
    pub total_lines: usize,
    pub viewport_height: u16,
    pub show_model_selection: bool,
    pub model_input: Seq<char>,
}

/// The values of a list of sessions.
#[verifier::opaque]
pub open spec fn session_views(hs: Seq<ChatSession>) -> Seq<SessionView> {
    hs.map_values(|s: ChatSession| s@)
}

/// The texts of a list of strings.
#[verifier::opaque]
pub open spec fn string_views(ss: Seq<String>) -> Seq<Seq<char>> {
    ss.map_values(|s: String| s@)
}

proof fn lemma_string_views(ss: Seq<String>)
    ensures
        string_views(ss).len() == ss.len(),
        forall|i: int| 0 <= i < ss.len() ==> #[trigger] string_views(ss)[i] == ss[i]@,
{
    reveal(string_views);
}

proof fn lemma_session_views(hs: Seq<ChatSession>)
    ensures
        session_views(hs).len() == hs.len(),
        forall|i: int| 0 <= i < hs.len() ==> #[trigger] session_views(hs)[i] == hs[i]@,
{
    reveal(session_views);
}

pub open spec fn opt_string_view(o: Option<String>) -> Option<Seq<char>> {
    match o {
        Some(s) => Some(s@),
        None => None,
    }
}

impl View for App {
    type V = AppView;

    open spec fn view(&self) -> AppView {
        AppView {
            backends: self.config.backends@,
            active_backend: self.config.active_backend@,
            messages: message_views(self.messages@),
            input: self.input@,
            input_mode: self.input_mode,
            scroll: self.scroll,
            is_processing: self.is_processing,
            show_shortcuts: self.show_shortcuts,
            show_stats: self.show_stats,
            show_history: self.show_history,
            history: session_views(self.history@),
            history_scroll: self.history_scroll,
            selected_chat_index: self.selected_chat_index,
            show_backend_selection: self.show_backend_selection,
            show_url_edit: self.show_url_edit,
            available_backends: string_views(self.available_backends@),
            backend_selection_index: self.backend_selection_index,
            url_input: self.url_input@,
            current_session_id: opt_string_view(self.current_session_id),
            user_msg_count: self.user_msg_count,
            assistant_msg_count: self.assistant_msg_count,
            pending_leader_key: self.pending_leader_key,
            show_leader_menu: self.show_leader_menu,
            pending_g: self.pending_g,
            command_input: self.command_input@,
            show_line_numbers: self.show_line_numbers,
            auto_scroll: self.auto_scroll,
            total_lines: self.total_lines,
            viewport_height: self.viewport_height,
            show_model_selection: self.show_model_selection,
            model_input: self.model_input@,
        }
    }
}

/// The application state is usable: the backend selection points into the
/// list of backends.
pub open spec fn app_wf(v: AppView) -> bool {
    v.backend_selection_index < v.available_backends.len()
}

// ---------------------------------------------------------------------------
// Texts
// ---------------------------------------------------------------------------

pub open spec fn welcome_text() -> Seq<char> {
    "Welcome to Fastchat TUI. Press 'Space' for shortcuts."@
}

pub open spec fn stopped_text() -> Seq<char> {
    "Generation stopped by user."@
}

pub open spec fn delete_refused_text() -> Seq<char> {
    "Cannot delete the currently active chat. Switch to another chat first."@
}

pub open spec fn new_chat_title() -> Seq<char> {
    "New Chat"@
}

/// The backends offered for selection, in order.
pub open spec fn backend_names() -> Seq<Seq<char>> {
    seq!["tabbyapi"@, "sglang"@, "ollama"@, "vllm"@, "lmstudio"@]
}

/// A message from the application itself.
pub open spec fn system_message(text: Seq<char>) -> MessageView {
    MessageView { role: Role::System, content: text, thinking: None, collapsed: false }
}

/// A message with a role and a text, and no thinking part.
pub open spec fn plain_message(r: Role, text: Seq<char>) -> MessageView {
    MessageView { role: r, content: text, thinking: None, collapsed: false }
}

/// `m` with `t` added to its thinking part.
fn with_thinking(m: Message, t: String) -> (r: Message)
    ensures
        r@ == (MessageView {
            thinking: Some(
                match m@.thinking {
                    Some(x) => x + t@,
                    None => t@,
                },
            ),
            ..m@
        }),
{
    let mut m = m;
    let thinking = match m.thinking_content {
        Some(mut x) => {
            x.append(t.as_str());
            x
        },
        None => t,
    };
    m.thinking_content = Some(thinking);
    m
}

fn system_msg(text: String) -> (m: Message)
    ensures
        m@ == system_message(text@),
{
    Message::new(Role::System, text)
}

// ---------------------------------------------------------------------------
// Transitions
// ---------------------------------------------------------------------------

pub open spec fn toggled_shortcuts(v: AppView) -> AppView {
    AppView { show_shortcuts: !v.show_shortcuts, ..v }
}

pub open spec fn toggled_leader_menu(v: AppView) -> AppView {
    AppView { show_leader_menu: !v.show_leader_menu, pending_leader_key: !v.show_leader_menu, ..v }
}

pub open spec fn toggled_stats(v: AppView) -> AppView {
    AppView { show_stats: !v.show_stats, ..v }
}

pub open spec fn toggled_history(v: AppView) -> AppView {
    AppView {
        show_history: !v.show_history,
        history_scroll: if !v.show_history {
            0
        } else {
            v.history_scroll
        },
        ..v
    }
}

pub open spec fn stopped(v: AppView) -> AppView {
    AppView {
        is_processing: false,
        messages: v.messages.push(system_message(stopped_text())),
        ..v
    }
}

pub open spec fn scrolled_up(v: AppView) -> AppView {
    if v.scroll > 0 {
        AppView { scroll: (v.scroll - 1) as u16, auto_scroll: false, ..v }
    } else {
        v
    }
}

pub open spec fn scrolled_down(v: AppView) -> AppView {
    AppView { scroll: (v.scroll + 1) as u16, auto_scroll: false, ..v }
}

/// `s` without its last character, if it has one.
pub open spec fn without_last(s: Seq<char>) -> Seq<char> {
    if s.len() > 0 {
        s.drop_last()
    } else {
        s
    }
}

/// The scroll position that shows the last line at the bottom of the view.
pub open spec fn bottom_scroll(total: usize, height: u16) -> u16 {
    if total > height as usize {
        (total - height as usize) as u16
    } else {
        0
    }
}

pub open spec fn scrolled_to_bottom(v: AppView) -> AppView {
    AppView { scroll: bottom_scroll(v.total_lines, v.viewport_height), auto_scroll: true, ..v }
}

/// A page: the view's height less two lines, at least zero.
pub open spec fn page_size(v: AppView) -> int {
    if v.viewport_height >= 2 {
        v.viewport_height - 2
    } else {
        0
    }
}

pub open spec fn paged_down(v: AppView) -> AppView {
    AppView {
        scroll: if v.scroll + page_size(v) > u16::MAX {
            u16::MAX
        } else {
            (v.scroll + page_size(v)) as u16
        },
        auto_scroll: false,
        ..v
    }
}

pub open spec fn paged_up(v: AppView) -> AppView {
    AppView {
        scroll: if v.scroll < page_size(v) {
            0
        } else {
            (v.scroll - page_size(v)) as u16
        },
        auto_scroll: false,
        ..v
    }
}

pub open spec fn viewport_updated(v: AppView, height: u16, total: usize) -> AppView {
    let w = AppView { viewport_height: height, total_lines: total, ..v };
    if w.auto_scroll {
        scrolled_to_bottom(w)
    } else {
        w
    }
}

pub open spec fn submitted(v: AppView) -> AppView {
    AppView {
        messages: v.messages.push(plain_message(Role::User, v.input)).push(
            plain_message(Role::Assistant, seq![]),
        ),
        input: seq![],
        user_msg_count: (v.user_msg_count + 1) as usize,
        assistant_msg_count: (v.assistant_msg_count + 1) as usize,
        is_processing: true,
        ..v
    }
}

/// The message list with the text `t` added to the last message, if that
/// message is the assistant's.
pub open spec fn token_added(ms: Seq<MessageView>, t: Seq<char>) -> Seq<MessageView> {
    if ms.len() > 0 && ms.last().role == Role::Assistant {
        ms.update(ms.len() - 1, MessageView { content: ms.last().content + t, ..ms.last() })
    } else {
        ms
    }
}

/// The message list with the text `t` added to the thinking part of the
/// last message, if that message is the assistant's.
pub open spec fn thinking_added(ms: Seq<MessageView>, t: Seq<char>) -> Seq<MessageView> {
    if ms.len() > 0 && ms.last().role == Role::Assistant {
        ms.update(
            ms.len() - 1,
            MessageView {
                thinking: Some(
                    match ms.last().thinking {
                        Some(x) => x + t,
                        None => t,
                    },
                ),
                ..ms.last()
            },
        )
    } else {
        ms
    }
}

pub open spec fn error_text(err: Seq<char>) -> Seq<char> {
    "Error: "@ + err
}

/// The state after an event of the streaming request.
pub open spec fn event_applied(v: AppView, e: ApiEvent) -> AppView {
    match e {
        ApiEvent::Token(t) => AppView { messages: token_added(v.messages, t@), ..v },
        ApiEvent::ThinkingToken(t) => AppView { messages: thinking_added(v.messages, t@), ..v },
        ApiEvent::Done => AppView { is_processing: false, ..v },
        ApiEvent::Error(err) => AppView {
            messages: v.messages.push(system_message(error_text(err@))),
            is_processing: false,
            ..v
        },
    }
}

/// The kinds of command line.
pub enum CommandKind {
    Line(u16),
    Top,
    Bottom,
    Auto,
    Unknown,
}

/// What a (trimmed) command line asks for.
pub open spec fn command_kind_of(cmd: Seq<char>) -> CommandKind {
    match parse_u16(cmd) {
        Some(n) => CommandKind::Line(n),
        None => if cmd == "top"@ || cmd == "gg"@ {
            CommandKind::Top
        } else if cmd == "bottom"@ || cmd == "G"@ {
            CommandKind::Bottom
        } else if cmd == "auto"@ {
            CommandKind::Auto
        } else {
            CommandKind::Unknown
        },
    }
}

/// The state after the command line is run: a number jumps to that line,
/// `top`/`gg` and `bottom`/`G` jump to the ends, `auto` switches
/// auto-scroll; then the command line is cleared and the mode is normal.
pub open spec fn command_executed(v: AppView) -> AppView {
    let w = command_effect(v, command_kind_of(trim(v.command_input)));
    AppView { command_input: seq![], input_mode: InputMode::Normal, ..w }
}

/// The scrolling that a command line asks for.
pub open spec fn command_effect(v: AppView, k: CommandKind) -> AppView {
    match k {
        CommandKind::Line(n) => AppView {
            scroll: if n > 0 {
                (n - 1) as u16
            } else {
                0
            },
            auto_scroll: false,
            ..v
        },
        CommandKind::Top => AppView { scroll: 0, auto_scroll: false, ..v },
        CommandKind::Bottom => scrolled_to_bottom(v),
        CommandKind::Auto => {
            let a = AppView { auto_scroll: !v.auto_scroll, ..v };
            if a.auto_scroll {
                scrolled_to_bottom(a)
            } else {
                a
            }
        },
        CommandKind::Unknown => v,
    }
}

/// The first position of `name` in `names`, or -1.
pub open spec fn first_index(names: Seq<Seq<char>>, name: Seq<char>) -> int
    decreases names.len(),
{
    if names.len() == 0 {
        -1
    } else if names[0] == name {
        0
    } else {
        let r = first_index(names.drop_first(), name);
        if r < 0 {
            -1
        } else {
            r + 1
        }
    }
}

pub proof fn lemma_first_index(names: Seq<Seq<char>>, name: Seq<char>)
    ensures
        first_index(names, name) < names.len(),
        first_index(names, name) >= 0 ==> names[first_index(names, name)] == name,
    decreases names.len(),
{
    if names.len() > 0 && names[0] != name {
        lemma_first_index(names.drop_first(), name);
    }
}

pub open spec fn backend_selection_toggled(v: AppView) -> AppView {
    if !v.show_backend_selection {
        let i = first_index(v.available_backends, v.active_backend);
        AppView {
            show_backend_selection: true,
            show_url_edit: false,
            backend_selection_index: if i >= 0 {
                i as usize
            } else {
                v.backend_selection_index
            },
            ..v
        }
    } else {
        AppView { show_backend_selection: false, ..v }
    }
}

pub open spec fn next_selected(v: AppView) -> AppView {
    AppView {
        backend_selection_index: if v.backend_selection_index + 1 < v.available_backends.len() {
            (v.backend_selection_index + 1) as usize
        } else {
            0
        },
        ..v
    }
}

pub open spec fn previous_selected(v: AppView) -> AppView {
    AppView {
        backend_selection_index: if v.backend_selection_index > 0 {
            (v.backend_selection_index - 1) as usize
        } else {
            (v.available_backends.len() - 1) as usize
        },
        ..v
    }
}

pub open spec fn selected_backend(v: AppView) -> Seq<char> {
    v.available_backends[v.backend_selection_index as int]
}

pub open spec fn backend_selected(v: AppView) -> AppView {
    let name = selected_backend(v);
    AppView {
        url_input: if v.backends.contains_key(name) {
            v.backends[name].url
        } else {
            v.url_input
        },
        show_backend_selection: false,
        show_url_edit: true,
        ..v
    }
}

pub open spec fn switch_text(name: Seq<char>, url: Seq<char>) -> Seq<char> {
    "Switched to backend: "@ + name + " (URL: "@ + url + ")"@
}

pub open spec fn backend_switched(v: AppView) -> AppView {
    let name = selected_backend(v);
    AppView {
        backends: if v.backends.contains_key(name) {
            v.backends.insert(name, BackendView { url: v.url_input, ..v.backends[name] })
        } else {
            v.backends
        },
        active_backend: name,
        show_url_edit: false,
        messages: v.messages.push(system_message(switch_text(name, v.url_input))),
        ..v
    }
}

pub open spec fn model_selection_toggled(v: AppView) -> AppView {
    let open = !v.show_model_selection;
    AppView {
        show_model_selection: open,
        model_input: if open && v.backends.contains_key(v.active_backend) {
            v.backends[v.active_backend].model
        } else {
            v.model_input
        },
        ..v
    }
}

pub open spec fn model_text(model: Seq<char>) -> Seq<char> {
    "Model changed to: "@ + model
}

pub open spec fn model_confirmed(v: AppView) -> AppView {
    let m = trim(v.model_input);
    let changed = m.len() > 0 && v.backends.contains_key(v.active_backend);
    AppView {
        backends: if changed {
            v.backends.insert(v.active_backend, BackendView { model: m, ..v.backends[v.active_backend] })
        } else {
            v.backends
        },
        messages: if changed {
            v.messages.push(system_message(model_text(m)))
        } else {
            v.messages
        },
        show_model_selection: false,
        model_input: seq![],
        ..v
    }
}

/// What the caller must write after `save_current_session`.
pub enum SaveAction {
    /// Nothing to save.
    Nothing,
    /// The session at this position of the history was updated: write it.
    Update(usize),
    /// A new session: write it, and on success hand it to `record_saved_session`.
    Create(ChatSession),
}

/// The position of the first user message, or -1.
pub open spec fn first_user_index(ms: Seq<MessageView>) -> int
    decreases ms.len(),
{
    if ms.len() == 0 {
        -1
    } else if ms[0].role == Role::User {
        0
    } else {
        let r = first_user_index(ms.drop_first());
        if r < 0 {
            -1
        } else {
            r + 1
        }
    }
}

/// The title of a conversation: the first line of its first user message,
/// cut to 50 characters; `New Chat` without one.
#[verifier::opaque]
pub open spec fn session_title(ms: Seq<MessageView>) -> Seq<char> {
    let i = first_user_index(ms);
    if i < 0 {
        new_chat_title()
    } else {
        let ls = lines(ms[i].content);
        if ls.len() == 0 {
            new_chat_title()
        } else if ls[0].len() <= 50 {
            ls[0]
        } else {
            ls[0].take(50)
        }
    }
}

/// The position of the first session with id `id`, or -1.
pub open spec fn session_index(hs: Seq<SessionView>, id: Seq<char>) -> int
    decreases hs.len(),
{
    if hs.len() == 0 {
        -1
    } else if hs[0].id == id {
        0
    } else {
        let r = session_index(hs.drop_first(), id);
        if r < 0 {
            -1
        } else {
            r + 1
        }
    }
}

/// The position found for an id is in the list and holds that id.
pub proof fn lemma_session_index(hs: Seq<SessionView>, id: Seq<char>)
    ensures
        session_index(hs, id) < hs.len(),
        session_index(hs, id) >= 0 ==> hs[session_index(hs, id)].id == id,
    decreases hs.len(),
{
    if hs.len() > 0 && hs[0].id != id {
        lemma_session_index(hs.drop_first(), id);
    }
}

proof fn lemma_first_user_index(ms: Seq<MessageView>)
    ensures
        first_user_index(ms) < ms.len(),
        first_user_index(ms) >= 0 ==> ms[first_user_index(ms)].role == Role::User,
    decreases ms.len(),
{
    if ms.len() > 0 && ms[0].role != Role::User {
        lemma_first_user_index(ms.drop_first());
    }
}

/// The position in the history of the session being shown, or -1.
#[verifier::opaque]
pub open spec fn current_index(v: AppView) -> int {
    match v.current_session_id {
        Some(id) => session_index(v.history, id),
        None => -1,
    }
}

/// The state after the conversation is saved at time `now`; a new session
/// gets the id `new_id`.
pub open spec fn saved(v: AppView, now: Timestamp, new_id: Seq<char>) -> AppView {
    if v.messages.len() <= 1 {
        v
    } else if current_index(v) >= 0 {
        let p = current_index(v);
        AppView {
            history: v.history.update(
                p,
                SessionView {
                    messages: v.messages,
                    name: session_title(v.messages),
                    updated_at: now,
                    ..v.history[p]
                },
            ),
            ..v
        }
    } else {
        AppView { current_session_id: Some(new_id), ..v }
    }
}

/// The new session that saving at time `now` creates.
pub open spec fn new_session(v: AppView, now: Timestamp, new_id: Seq<char>) -> SessionView {
    SessionView {
        id: new_id,
        name: session_title(v.messages),
        created_at: now,
        updated_at: now,
        messages: v.messages,
        file_path: None,
    }
}

/// The file work that saving asks for.
pub open spec fn save_action_ok(a: SaveAction, v: AppView, now: Timestamp, new_id: Seq<char>) -> bool {
    match a {
        SaveAction::Nothing => v.messages.len() <= 1,
        SaveAction::Update(p) => v.messages.len() > 1 && current_index(v) >= 0 && p as int == current_index(v),
        SaveAction::Create(s) => v.messages.len() > 1 && current_index(v) < 0 && s@ == new_session(v, now, new_id),
    }
}

/// The state after the conversation is cleared: only its first message kept.
pub open spec fn cleared(v: AppView) -> AppView {
    AppView {
        messages: if v.messages.len() > 0 {
            v.messages.take(1)
        } else {
            v.messages
        },
        user_msg_count: 0,
        assistant_msg_count: 0,
        current_session_id: None,
        ..v
    }
}

/// The number of messages of role `r`.
pub open spec fn count_role(ms: Seq<MessageView>, r: Role) -> nat
    decreases ms.len(),
{
    if ms.len() == 0 {
        0
    } else {
        count_role(ms.drop_last(), r) + if ms.last().role == r {
            1nat
        } else {
            0nat
        }
    }
}

pub open spec fn chat_opened(v: AppView) -> AppView {
    let s = v.history[v.selected_chat_index as int];
    AppView {
        messages: s.messages,
        current_session_id: Some(s.id),
        show_history: false,
        user_msg_count: count_role(s.messages, Role::User) as usize,
        assistant_msg_count: count_role(s.messages, Role::Assistant) as usize,
        ..v
    }
}

pub open spec fn history_moved_up(v: AppView) -> AppView {
    if v.selected_chat_index > 0 {
        AppView { selected_chat_index: (v.selected_chat_index - 1) as usize, ..v }
    } else {
        v
    }
}

pub open spec fn history_moved_down(v: AppView) -> AppView {
    if v.selected_chat_index + 1 < v.history.len() {
        AppView { selected_chat_index: (v.selected_chat_index + 1) as usize, ..v }
    } else {
        v
    }
}

pub open spec fn new_chat_started(v: AppView, h: Seq<SessionView>) -> AppView {
    AppView {
        messages: seq![system_message(welcome_text())],
        current_session_id: None,
        user_msg_count: 0,
        assistant_msg_count: 0,
        show_history: false,
        history: h,
        selected_chat_index: 0,
        ..v
    }
}

/// Whether the selected chat may be deleted, and the state after asking:
/// the chat being shown is refused, with a message.
pub open spec fn delete_checked(v: AppView) -> (AppView, bool) {
    if v.history.len() == 0 || v.selected_chat_index >= v.history.len() {
        (v, false)
    } else if v.current_session_id == Some(v.history[v.selected_chat_index as int].id) {
        (AppView { messages: v.messages.push(system_message(delete_refused_text())), ..v }, false)
    } else {
        (v, true)
    }
}

pub open spec fn chat_removed(v: AppView) -> AppView {
    let h = v.history.remove(v.selected_chat_index as int);
    AppView {
        history: h,
        selected_chat_index: if v.selected_chat_index >= h.len() && v.selected_chat_index > 0 {
            (v.selected_chat_index - 1) as usize
        } else {
            v.selected_chat_index
        },
        ..v
    }
}

pub open spec fn history_reloaded(v: AppView, h: Seq<SessionView>) -> AppView {
    AppView {
        history: h,
        selected_chat_index: if v.selected_chat_index >= h.len() {
            if h.len() > 0 {
                (h.len() - 1) as usize
            } else {
                0
            }
        } else {
            v.selected_chat_index
        },
        ..v
    }
}

impl App {
    /// A fresh application showing the welcome message, with `history` as the
    /// list of saved chats and the default backends.
    pub fn new(history: Vec<ChatSession>) -> (app: App)
        ensures
            app@.messages == seq![system_message(welcome_text())],
            app@.history == session_views(history@),
            app@.available_backends == backend_names(),
            app@.backends == crate::config::default_backends(),
            app@.active_backend == "tabbyapi"@,
            app@.input.len() == 0,
            app@.input_mode == InputMode::Normal,
            app@.scroll == 0,
            !app@.is_processing,
            !app@.show_shortcuts && !app@.show_stats && !app@.show_history,
            !app@.show_backend_selection && !app@.show_url_edit && !app@.show_model_selection,
            !app@.show_leader_menu && !app@.pending_leader_key && !app@.pending_g,
            app@.history_scroll == 0 && app@.selected_chat_index == 0,
            app@.backend_selection_index == 0,
            app@.url_input.len() == 0 && app@.command_input.len() == 0 && app@.model_input.len() == 0,
            app@.current_session_id is None,
            app@.user_msg_count == 0 && app@.assistant_msg_count == 0,
            app@.show_line_numbers && app@.auto_scroll,
            app@.total_lines == 0 && app@.viewport_height == 0,
            app_wf(app@),
    {
        let mut messages: Vec<Message> = Vec::new();
        messages.push(system_msg("Welcome to Fastchat TUI. Press 'Space' for shortcuts.".to_owned()));
        let mut available_backends: Vec<String> = Vec::new();
        available_backends.push("tabbyapi".to_owned());
        available_backends.push("sglang".to_owned());
        available_backends.push("ollama".to_owned());
        available_backends.push("vllm".to_owned());
        available_backends.push("lmstudio".to_owned());
        let app = App {
            config: AppConfig::default(),
            messages,
            input: String::new(),
            input_mode: InputMode::Normal,
            scroll: 0,
            is_processing: false,
            show_shortcuts: false,
            show_stats: false,
            show_history: false,
            history,
            history_scroll: 0,
            selected_chat_index: 0,
            show_backend_selection: false,
            show_url_edit: false,
            available_backends,
            backend_selection_index: 0,
            url_input: String::new(),
            current_session_id: None,
            user_msg_count: 0,
            assistant_msg_count: 0,
            pending_leader_key: false,
            show_leader_menu: false,
            pending_g: false,
            command_input: String::new(),
            show_line_numbers: true,
            auto_scroll: true,
            total_lines: 0,
            viewport_height: 0,
            show_model_selection: false,
            model_input: String::new(),
        };
        assert(app@.messages =~= seq![system_message(welcome_text())]);
        proof {
            lemma_string_views(app.available_backends@);
        }
        assert(app@.available_backends =~= backend_names());
        app
    }

    pub fn toggle_shortcuts(&mut self)
        ensures
            final(self)@ == toggled_shortcuts(old(self)@),
    {
        self.show_shortcuts = !self.show_shortcuts;
    }

    /// Opens or closes the leader menu; the leader key is pending while it is open.
    pub fn toggle_leader_menu(&mut self)
        ensures
            final(self)@ == toggled_leader_menu(old(self)@),
    {
        self.show_leader_menu = !self.show_leader_menu;
        if self.show_leader_menu {
            self.pending_leader_key = true;
        } else {
            self.pending_leader_key = false;
        }
    }

    pub fn toggle_stats(&mut self)
        ensures
            final(self)@ == toggled_stats(old(self)@),
    {
        self.show_stats = !self.show_stats;
    }

    /// Opens or closes the history panel. Opening it scrolls it to the top,
    /// and the result tells that the list of saved chats must be read again
    /// (and handed to `reload_history`).
    pub fn toggle_history(&mut self) -> (reload: bool)
        ensures
            final(self)@ == toggled_history(old(self)@),
            reload == final(self)@.show_history,
    {
        self.show_history = !self.show_history;
        if self.show_history {
            self.history_scroll = 0;
        }
        self.show_history
    }

    /// Ends the generation of a reply (the caller stops the request).
    pub fn stop_generation(&mut self)
        ensures
            final(self)@ == stopped(old(self)@),
    {
        self.is_processing = false;
        self.messages.push(system_msg("Generation stopped by user.".to_owned()));
        proof {
            assert(final(self)@.messages =~= old(self)@.messages.push(system_message(stopped_text())));
        }
    }

    pub fn set_input_mode(&mut self)
        ensures
            final(self)@ == (AppView {
                input_mode: InputMode::Editing,
                show_shortcuts: false,
                ..old(self)@
            }),
    {
        self.input_mode = InputMode::Editing;
        self.show_shortcuts = false;
    }

    pub fn set_normal_mode(&mut self)
        ensures
            final(self)@ == (AppView { input_mode: InputMode::Normal, ..old(self)@ }),
    {
        self.input_mode = InputMode::Normal;
    }

    pub fn enter_char(&mut self, c: char)
        ensures
            final(self)@ == (AppView { input: old(self)@.input.push(c), ..old(self)@ }),
    {
        let mut s = String::new();
        std::mem::swap(&mut s, &mut self.input);
        crate::text::push_char(&mut s, c);
        self.input = s;
    }

    pub fn delete_char(&mut self)
        ensures
            final(self)@ == (AppView { input: without_last(old(self)@.input), ..old(self)@ }),
    {
        let mut s = String::new();
        std::mem::swap(&mut s, &mut self.input);
        pop_char(&mut s);
        self.input = s;
    }

    pub fn scroll_up(&mut self)
        ensures
            final(self)@ == scrolled_up(old(self)@),
    {
        if self.scroll > 0 {
            self.scroll = self.scroll - 1;
            self.auto_scroll = false;
        }
    }

    /// Scrolls one line down (the position must not be at its maximum).
    pub fn scroll_down(&mut self)
        requires
            old(self).scroll < u16::MAX,
        ensures
            final(self)@ == scrolled_down(old(self)@),
    {
        self.scroll = self.scroll + 1;
        self.auto_scroll = false;
    }

    pub fn is_input_mode(&self) -> (r: bool)
        ensures
            r == (self.input_mode == InputMode::Editing),
    {
        match self.input_mode {
            InputMode::Editing => true,
            _ => false,
        }
    }

    pub fn is_command_mode(&self) -> (r: bool)
        ensures
            r == (self.input_mode == InputMode::Command),
    {
        match self.input_mode {
            InputMode::Command => true,
            _ => false,
        }
    }

    pub fn set_command_mode(&mut self)
        ensures
            final(self)@ == (AppView {
                input_mode: InputMode::Command,
                command_input: seq![],
                ..old(self)@
            }),
    {
        self.input_mode = InputMode::Command;
        self.command_input = String::new();
    }

    pub fn enter_command_char(&mut self, c: char)
        ensures
            final(self)@ == (AppView { command_input: old(self)@.command_input.push(c), ..old(self)@ }),
    {
        let mut s = String::new();
        std::mem::swap(&mut s, &mut self.command_input);
        crate::text::push_char(&mut s, c);
        self.command_input = s;
    }

    pub fn delete_command_char(&mut self)
        ensures
            final(self)@ == (AppView {
                command_input: without_last(old(self)@.command_input),
                ..old(self)@
            }),
    {
        let mut s = String::new();
        std::mem::swap(&mut s, &mut self.command_input);
        pop_char(&mut s);
        self.command_input = s;
    }

    pub fn scroll_to_bottom(&mut self)
        ensures
            final(self)@ == scrolled_to_bottom(old(self)@),
    {
        if self.total_lines > self.viewport_height as usize {
            self.scroll = (self.total_lines - self.viewport_height as usize) as u16;
        } else {
            self.scroll = 0;
        }
        self.auto_scroll = true;
    }

    pub fn scroll_page_down(&mut self)
        ensures
            final(self)@ == paged_down(old(self)@),
    {
        let page_size = self.viewport_height.saturating_sub(2);
        self.scroll = self.scroll.saturating_add(page_size);
        self.auto_scroll = false;
    }

    pub fn scroll_page_up(&mut self)
        ensures
            final(self)@ == paged_up(old(self)@),
    {
        let page_size = self.viewport_height.saturating_sub(2);
        self.scroll = self.scroll.saturating_sub(page_size);
        self.auto_scroll = false;
    }

    /// Takes the input line as the user's message: adds it and an empty
    /// assistant message to fill, clears the input and marks a reply as
    /// pending. Tells whether a request must be sent, which is when the input
    /// holds more than white space; otherwise nothing changes.
    pub fn submit_message(&mut self) -> (send: bool)
        requires
            trim(old(self)@.input).len() > 0 ==> old(self).user_msg_count < usize::MAX
                && old(self).assistant_msg_count < usize::MAX,
        ensures
            send == (trim(old(self)@.input).len() > 0),
            send ==> final(self)@ == submitted(old(self)@),
            !send ==> final(self)@ == old(self)@,
    {
        let chars = to_chars(self.input.as_str());
        let t = trim_chars(chars.as_slice());
        if t.len() == 0 {
            return false;
        }
        let mut content = String::new();
        std::mem::swap(&mut content, &mut self.input);
        let ghost m0 = self@.messages;
        self.messages.push(Message::new(Role::User, content));
        self.user_msg_count = self.user_msg_count + 1;
        self.messages.push(Message::new(Role::Assistant, String::new()));
        self.assistant_msg_count = self.assistant_msg_count + 1;
        self.is_processing = true;
        proof {
            assert(self@.messages =~= m0.push(plain_message(Role::User, old(self)@.input)).push(
                plain_message(Role::Assistant, seq![]),
            ));
        }
        true
    }

    #[verifier::spinoff_prover]
    #[verifier::rlimit(60)]
    fn add_token(&mut self, token: String)
        ensures
            final(self)@ == (AppView { messages: token_added(old(self)@.messages, token@), ..old(self)@ }),
    {
        if self.messages.len() > 0 && self.messages[self.messages.len() - 1].role == Role::Assistant {
            let ghost m0 = self@.messages;
            let mut m = self.messages.pop().unwrap();
            m.content.append(token.as_str());
            self.messages.push(m);
            assert(self@.messages =~= token_added(m0, token@));
        }
    }

    #[verifier::spinoff_prover]
    #[verifier::rlimit(60)]
    fn add_thinking(&mut self, token: String)
        ensures
            final(self)@ == (AppView {
                messages: thinking_added(old(self)@.messages, token@),
                ..old(self)@
            }),
    {
        if self.messages.len() > 0 && self.messages[self.messages.len() - 1].role == Role::Assistant {
            let ghost m0 = self@.messages;
            let ghost t = token@;
            let m = self.messages.pop().unwrap();
            let m2 = with_thinking(m, token);
            self.messages.push(m2);
            assert(self@.messages =~= thinking_added(m0, t));
        }
    }

    fn add_error(&mut self, err: String)
        ensures
            final(self)@ == (AppView {
                messages: old(self)@.messages.push(system_message(error_text(err@))),
                is_processing: false,
                ..old(self)@
            }),
    {
        let mut text = "Error: ".to_owned();
        text.append(err.as_str());
        let ghost m0 = self@.messages;
        self.messages.push(system_msg(text));
        self.is_processing = false;
        assert(self@.messages =~= m0.push(system_message(error_text(err@))));
    }

    /// Takes one event of the streaming request into the conversation.
    pub fn tick(&mut self, event: ApiEvent)
        ensures
            final(self)@ == event_applied(old(self)@, event),
    {
        match event {
            ApiEvent::Token(token) => self.add_token(token),
            ApiEvent::ThinkingToken(token) => self.add_thinking(token),
            ApiEvent::Done => {
                self.is_processing = false;
            },
            ApiEvent::Error(err) => self.add_error(err),
        }
    }

    /// What the command line asks for.
    fn command_kind(&self) -> (k: CommandKind)
        ensures
            k == command_kind_of(trim(self@.command_input)),
    {
        let chars = to_chars(self.command_input.as_str());
        let cmd = trim_chars(chars.as_slice());
        match parse_u16_chars(cmd.as_slice()) {
            Some(n) => CommandKind::Line(n),
            None => {
                let top = to_chars("top");
                let gg = to_chars("gg");
                let bottom = to_chars("bottom");
                let big_g = to_chars("G");
                let auto = to_chars("auto");
                if chars_eq(cmd.as_slice(), top.as_slice()) || chars_eq(cmd.as_slice(), gg.as_slice()) {
                    CommandKind::Top
                } else if chars_eq(cmd.as_slice(), bottom.as_slice()) || chars_eq(
                    cmd.as_slice(),
                    big_g.as_slice(),
                ) {
                    CommandKind::Bottom
                } else if chars_eq(cmd.as_slice(), auto.as_slice()) {
                    CommandKind::Auto
                } else {
                    CommandKind::Unknown
                }
            },
        }
    }

    /// Runs the command line (see `command_executed`).
    pub fn execute_command(&mut self)
        ensures
            final(self)@ == command_executed(old(self)@),
    {
        let kind = self.command_kind();
        self.apply_command(kind);
        self.command_input = String::new();
        self.input_mode = InputMode::Normal;
    }

    fn apply_command(&mut self, kind: CommandKind)
        ensures
            final(self)@ == command_effect(old(self)@, kind),
    {
        match kind {
            CommandKind::Line(line_num) => {
                self.scroll = line_num.saturating_sub(1);
                self.auto_scroll = false;
            },
            CommandKind::Top => {
                self.scroll = 0;
                self.auto_scroll = false;
            },
            CommandKind::Bottom => {
                self.scroll_to_bottom();
            },
            CommandKind::Auto => {
                self.auto_scroll = !self.auto_scroll;
                if self.auto_scroll {
                    self.scroll_to_bottom();
                }
            },
            CommandKind::Unknown => {},
        }
    }

    /// The first position of the backend named `name`.
    fn backend_position(&self, name: &String) -> (r: Option<usize>)
        ensures
            match r {
                Some(i) => first_index(self@.available_backends, name@) == i as int,
                None => first_index(self@.available_backends, name@) < 0,
            },
    {
        let ghost names = self@.available_backends;
        proof {
            lemma_string_views(self.available_backends@);
            assert(names.skip(0) =~= names);
        }
        let mut i: usize = 0;
        while i < self.available_backends.len()
            invariant
                i <= self.available_backends@.len(),
                names == self@.available_backends,
                names.len() == self.available_backends@.len(),
                first_index(names, name@) == (if first_index(names.skip(i as int), name@) < 0 {
                    -1
                } else {
                    first_index(names.skip(i as int), name@) + i
                }),
            decreases self.available_backends@.len() - i,
        {
            proof {
                lemma_string_views(self.available_backends@);
            }
            let ghost rest = names.skip(i as int);
            assert(rest[0] == self.available_backends@[i as int]@);
            assert(rest.drop_first() =~= names.skip(i + 1));
            if self.available_backends[i] == *name {
                return Some(i);
            }
            i = i + 1;
        }
        assert(names.skip(i as int) =~= Seq::<Seq<char>>::empty());
        None
    }

    /// Opens or closes the backend list; opening it hides the URL editor and
    /// selects the active backend.
    pub fn toggle_backend_selection(&mut self)
        ensures
            final(self)@ == backend_selection_toggled(old(self)@),
    {
        proof {
            assert(old(self)@.available_backends.skip(0) =~= old(self)@.available_backends);
        }
        self.show_backend_selection = !self.show_backend_selection;
        if self.show_backend_selection {
            self.show_url_edit = false;
            if let Some(pos) = self.backend_position(&self.config.active_backend) {
                self.backend_selection_index = pos;
            }
        }
    }

    /// Selects the next backend, after the last the first.
    #[verifier::spinoff_prover]
    #[verifier::rlimit(60)]
    pub fn next_backend(&mut self)
        requires
            app_wf(old(self)@),
        ensures
            final(self)@ == next_selected(old(self)@),
            app_wf(final(self)@),
    {
        proof {
            lemma_string_views(self.available_backends@);
        }
        let n = self.available_backends.len();
        let i = self.backend_selection_index;
        let next = if i < n - 1 {
            i + 1
        } else {
            0
        };
        self.backend_selection_index = next;
    }

    /// Selects the previous backend, before the first the last.
    #[verifier::spinoff_prover]
    #[verifier::rlimit(60)]
    pub fn previous_backend(&mut self)
        requires
            app_wf(old(self)@),
        ensures
            final(self)@ == previous_selected(old(self)@),
            app_wf(final(self)@),
    {
        proof {
            lemma_string_views(self.available_backends@);
        }
        let n = self.available_backends.len();
        let i = self.backend_selection_index;
        let previous = if i > 0 {
            i - 1
        } else {
            n - 1
        };
        self.backend_selection_index = previous;
    }

    /// Closes the backend list and opens the URL editor, filled with the
    /// selected backend's URL.
    pub fn select_backend(&mut self)
        requires
            app_wf(old(self)@),
        ensures
            final(self)@ == backend_selected(old(self)@),
    {
        proof {
            lemma_string_views(self.available_backends@);
        }
        let selected = &self.available_backends[self.backend_selection_index];
        let url = match self.config.backends.get(selected.as_str()) {
            Some(config) => Some(config.url.clone()),
            None => None,
        };
        if let Some(u) = url {
            self.url_input = u;
        }
        self.show_backend_selection = false;
        self.show_url_edit = true;
    }

    /// Makes the selected backend active with the edited URL, and says so.
    pub fn confirm_backend_switch(&mut self)
        requires
            app_wf(old(self)@),
        ensures
            final(self)@ == backend_switched(old(self)@),
            app_wf(final(self)@),
    {
        proof {
            lemma_string_views(self.available_backends@);
        }
        let selected = self.available_backends[self.backend_selection_index].clone();
        let new_url = self.url_input.clone();
        self.config.backends.set_url(selected.as_str(), new_url.clone());
        self.config.active_backend = selected.clone();
        self.show_url_edit = false;
        let mut text = "Switched to backend: ".to_owned();
        text.append(selected.as_str());
        text.append(" (URL: ");
        text.append(new_url.as_str());
        text.append(")");
        let ghost m0 = self@.messages;
        self.messages.push(system_msg(text));
        proof {
            assert(self@.messages =~= m0.push(system_message(switch_text(selected@, new_url@))));
            let v = old(self)@;
            let name = selected_backend(v);
            if v.backends.contains_key(name) {
                assert(BackendView { url: v.url_input, ..v.backends[name] } == BackendView {
                    url: v.url_input,
                    model: v.backends[name].model,
                });
            }
        }
    }

    /// Leaves the URL editor for the backend list.
    pub fn cancel_url_edit(&mut self)
        ensures
            final(self)@ == (AppView {
                show_url_edit: false,
                show_backend_selection: true,
                ..old(self)@
            }),
    {
        self.show_url_edit = false;
        self.show_backend_selection = true;
    }

    pub fn enter_url_char(&mut self, c: char)
        ensures
            final(self)@ == (AppView { url_input: old(self)@.url_input.push(c), ..old(self)@ }),
    {
        let mut s = String::new();
        std::mem::swap(&mut s, &mut self.url_input);
        crate::text::push_char(&mut s, c);
        self.url_input = s;
    }

    pub fn delete_url_char(&mut self)
        ensures
            final(self)@ == (AppView { url_input: without_last(old(self)@.url_input), ..old(self)@ }),
    {
        let mut s = String::new();
        std::mem::swap(&mut s, &mut self.url_input);
        pop_char(&mut s);
        self.url_input = s;
    }

    /// Opens or closes the model editor; opening it fills it with the active
    /// backend's model.
    pub fn toggle_model_selection(&mut self)
        ensures
            final(self)@ == model_selection_toggled(old(self)@),
    {
        self.show_model_selection = !self.show_model_selection;
        if self.show_model_selection {
            let model = match self.config.get_active_backend() {
                Some(backend) => Some(backend.model.clone()),
                None => None,
            };
            if let Some(m) = model {
                self.model_input = m;
            }
        }
    }

    pub fn enter_model_char(&mut self, c: char)
        ensures
            final(self)@ == (AppView { model_input: old(self)@.model_input.push(c), ..old(self)@ }),
    {
        let mut s = String::new();
        std::mem::swap(&mut s, &mut self.model_input);
        crate::text::push_char(&mut s, c);
        self.model_input = s;
    }

    pub fn delete_model_char(&mut self)
        ensures
            final(self)@ == (AppView {
                model_input: without_last(old(self)@.model_input),
                ..old(self)@
            }),
    {
        let mut s = String::new();
        std::mem::swap(&mut s, &mut self.model_input);
        pop_char(&mut s);
        self.model_input = s;
    }

    /// Sets the active backend's model to the trimmed editor text, if that is
    /// not empty and the backend is known, and says so; closes the editor.
    #[verifier::spinoff_prover]
    #[verifier::rlimit(60)]
    pub fn confirm_model_change(&mut self)
        ensures
            final(self)@ == model_confirmed(old(self)@),
    {
        let chars = to_chars(self.model_input.as_str());
        let m = trim_chars(chars.as_slice());
        if m.len() > 0 {
            let new_model = string_of(m.as_slice());
            let active = self.config.active_backend.clone();
            if self.config.backends.set_model(active.as_str(), new_model.clone()) {
                let mut text = "Model changed to: ".to_owned();
                text.append(new_model.as_str());
                let ghost m0 = self@.messages;
                self.messages.push(system_msg(text));
                proof {
                    assert(self@.messages =~= m0.push(system_message(model_text(new_model@))));
                    let v = old(self)@;
                    assert(BackendView { model: m@, ..v.backends[v.active_backend] } == BackendView {
                        url: v.backends[v.active_backend].url,
                        model: m@,
                    });
                }
            }
        }
        self.show_model_selection = false;
        self.model_input = String::new();
    }

    pub fn cancel_model_selection(&mut self)
        ensures
            final(self)@ == (AppView {
                show_model_selection: false,
                model_input: seq![],
                ..old(self)@
            }),
    {
        self.show_model_selection = false;
        self.model_input = String::new();
    }

    /// The title of the conversation (see `session_title`).
    fn current_title(&self) -> (t: String)
        ensures
            t@ == session_title(self@.messages),
    {
        let ghost ms = self@.messages;
        assert(ms.skip(0) =~= ms);
        let mut i: usize = 0;
        while i < self.messages.len()
            invariant
                i <= self.messages@.len(),
                ms == message_views(self.messages@),
                ms.len() == self.messages@.len(),
                first_user_index(ms) == (if first_user_index(ms.skip(i as int)) < 0 {
                    -1
                } else {
                    first_user_index(ms.skip(i as int)) + i
                }),
            decreases self.messages@.len() - i,
        {
            let ghost rest = ms.skip(i as int);
            assert(rest[0] == self.messages@[i as int]@);
            assert(rest.drop_first() =~= ms.skip(i + 1));
            proof {
                reveal(session_title);
            }
            if self.messages[i].role == Role::User {
                let chars = to_chars(self.messages[i].content.as_str());
                let ls = split_lines(chars.as_slice());
                if ls.len() == 0 {
                    return "New Chat".to_owned();
                }
                assert(crate::text::views(ls@)[0] == ls@[0]@);
                let first = &ls[0];
                let n: usize = if first.len() <= 50 {
                    first.len()
                } else {
                    50
                };
                let t = crate::text::slice_chars(first.as_slice(), 0, n);
                assert(first@.subrange(0, n as int) =~= (if first@.len() <= 50 {
                    first@
                } else {
                    first@.take(50)
                }));
                return string_of(t.as_slice());
            }
            i = i + 1;
        }
        assert(ms.skip(i as int) =~= Seq::<MessageView>::empty());
        proof {
            reveal(session_title);
        }
        "New Chat".to_owned()
    }

    /// The position in the history of the session with id `id`.
    fn find_session(&self, id: &String) -> (r: Option<usize>)
        ensures
            match r {
                Some(p) => session_index(self@.history, id@) == p as int,
                None => session_index(self@.history, id@) < 0,
            },
    {
        let ghost hs = self@.history;
        proof {
            lemma_session_views(self.history@);
            assert(hs.skip(0) =~= hs);
        }
        let mut i: usize = 0;
        while i < self.history.len()
            invariant
                i <= self.history@.len(),
                hs == self@.history,
                hs.len() == self.history@.len(),
                forall|k: int| 0 <= k < hs.len() ==> #[trigger] hs[k] == self.history@[k]@,
                session_index(hs, id@) == (if session_index(hs.skip(i as int), id@) < 0 {
                    -1
                } else {
                    session_index(hs.skip(i as int), id@) + i
                }),
            decreases self.history@.len() - i,
        {
            let ghost rest = hs.skip(i as int);
            assert(rest[0] == hs[i as int]);
            assert(rest.drop_first() =~= hs.skip(i + 1));
            if self.history[i].id == *id {
                return Some(i);
            }
            i = i + 1;
        }
        assert(hs.skip(i as int) =~= Seq::<SessionView>::empty());
        None
    }

    /// Saves the conversation into the history at time `now`: the session
    /// being shown is updated in place; otherwise the conversation becomes
    /// the session `new_id`, and the result holds it for the caller to write
    /// and then record. A conversation of at most one message is not saved.
    pub fn save_current_session(&mut self, now: Timestamp, new_id: String) -> (a: SaveAction)
        ensures
            final(self)@ == saved(old(self)@, now, new_id@),
            save_action_ok(a, old(self)@, now, new_id@),
    {
        if self.messages.len() <= 1 {
            return SaveAction::Nothing;
        }
        match self.find_current() {
            Some(p) => self.save_existing(now, Ghost(new_id@), p),
            None => self.save_as_new(now, new_id),
        }
    }

    fn save_as_new(&mut self, now: Timestamp, new_id: String) -> (a: SaveAction)
        requires
            old(self)@.messages.len() > 1,
            current_index(old(self)@) < 0,
        ensures
            final(self)@ == saved(old(self)@, now, new_id@),
            save_action_ok(a, old(self)@, now, new_id@),
    {
        let name = self.current_title();
        let s = self.begin_session(new_id, name, now);
        SaveAction::Create(s)
    }

    fn save_existing(&mut self, now: Timestamp, Ghost(new_id): Ghost<Seq<char>>, p: usize) -> (a: SaveAction)
        requires
            old(self)@.messages.len() > 1,
            current_index(old(self)@) == p,
            p < old(self).history@.len(),
        ensures
            final(self)@ == saved(old(self)@, now, new_id),
            save_action_ok(a, old(self)@, now, new_id),
    {
        let name = self.current_title();
        self.update_session_at(p, name, now);
        SaveAction::Update(p)
    }

    /// The position in the history of the session being shown.
    fn find_current(&self) -> (r: Option<usize>)
        ensures
            match r {
                Some(p) => current_index(self@) == p as int && p < self.history@.len(),
                None => current_index(self@) < 0,
            },
    {
        proof {
            lemma_session_views(self.history@);
            reveal(current_index);
        }
        match &self.current_session_id {
            Some(id) => {
                let r = self.find_session(id);
                proof {
                    lemma_session_index(self@.history, id@);
                }
                r
            },
            None => None,
        }
    }

    /// Makes the conversation the session `new_id`, and gives that session.
    fn begin_session(&mut self, new_id: String, name: String, now: Timestamp) -> (s: ChatSession)
        ensures
            final(self)@ == (AppView { current_session_id: Some(new_id@), ..old(self)@ }),
            s@ == (SessionView {
                id: new_id@,
                name: name@,
                created_at: now,
                updated_at: now,
                messages: old(self)@.messages,
                file_path: None,
            }),
    {
        let messages = clone_messages(&self.messages);
        self.current_session_id = Some(new_id.clone());
        ChatSession { id: new_id, name, created_at: now, updated_at: now, messages, file_path: None }
    }

    /// Writes the conversation into the history entry at `p`.
    fn update_session_at(&mut self, p: usize, name: String, now: Timestamp)
        requires
            p < old(self).history@.len(),
        ensures
            final(self)@ == (AppView {
                history: old(self)@.history.update(
                    p as int,
                    SessionView {
                        messages: old(self)@.messages,
                        name: name@,
                        updated_at: now,
                        ..old(self)@.history[p as int]
                    },
                ),
                ..old(self)@
            }),
    {
        proof {
            lemma_session_views(self.history@);
        }
        let ghost h0 = self@.history;
        let ghost ms = self@.messages;
        let mut s = self.history.remove(p);
        s.messages = clone_messages(&self.messages);
        s.name = name;
        s.updated_at = now;
        self.history.insert(p, s);
        proof {
            lemma_session_views(self.history@);
            assert(self@.history =~= h0.update(
                p as int,
                SessionView { messages: ms, name: name@, updated_at: now, ..h0[p as int] },
            ));
        }
    }

    /// The current time, and the id of a session started now: the current
    /// time in RFC 3339 (empty where `chrono` cannot write it).
    fn stamp_and_id() -> (r: (Timestamp, String))
        ensures
            exists|u: Timestamp| r.1@ == rfc3339_text(u),
    {
        let t = now();
        let u = now();
        let id = match format_rfc3339(u) {
            Some(s) => s,
            None => String::new(),
        };
        assert(id@ == rfc3339_text(u));
        (t, id)
    }

    /// Saves the conversation (see `save_current_session`) at the current
    /// time; a new session gets the current time in RFC 3339 as its id.
    pub fn save_current_session_now(&mut self) -> (a: SaveAction)
        ensures
            exists|t: Timestamp, u: Timestamp|
                {
                    &&& final(self)@ == #[trigger] saved(old(self)@, t, rfc3339_text(u))
                    &&& save_action_ok(a, old(self)@, t, rfc3339_text(u))
                },
    {
        let (t, id) = Self::stamp_and_id();
        let ghost u = choose|u: Timestamp| id@ == rfc3339_text(u);
        let a = self.save_current_session(t, id);
        assert(self@ == saved(old(self)@, t, rfc3339_text(u)));
        a
    }

    /// Clears the conversation (see `clear_history`) after saving it at the
    /// current time.
    pub fn clear_history_now(&mut self) -> (a: SaveAction)
        ensures
            exists|t: Timestamp, u: Timestamp|
                {
                    &&& final(self)@ == cleared(#[trigger] saved(old(self)@, t, rfc3339_text(u)))
                    &&& save_action_ok(a, old(self)@, t, rfc3339_text(u))
                },
    {
        let (t, id) = Self::stamp_and_id();
        let ghost u = choose|u: Timestamp| id@ == rfc3339_text(u);
        let a = self.clear_history(t, id);
        assert(self@ == cleared(saved(old(self)@, t, rfc3339_text(u))));
        a
    }

    /// Puts a newly written session, saved at `path`, first in the history.
    pub fn record_saved_session(&mut self, session: ChatSession, path: String)
        ensures
            final(self)@ == (AppView {
                history: old(self)@.history.insert(
                    0,
                    SessionView { file_path: Some(path@), ..session@ },
                ),
                ..old(self)@
            }),
    {
        let mut s = session;
        let ghost sv = s@;
        s.file_path = Some(path);
        let ghost h0 = self@.history;
        self.history.insert(0, s);
        proof {
            lemma_session_views(self.history@);
            lemma_session_views(old(self).history@);
            assert(self@.history =~= h0.insert(0, SessionView { file_path: Some(path@), ..sv }));
        }
    }

    /// Saves the conversation (see `save_current_session`), then clears it
    /// down to its first message; the counters and the session id are reset.
    pub fn clear_history(&mut self, now: Timestamp, new_id: String) -> (a: SaveAction)
        ensures
            final(self)@ == cleared(saved(old(self)@, now, new_id@)),
            save_action_ok(a, old(self)@, now, new_id@),
    {
        let a = self.save_current_session(now, new_id);
        if self.messages.len() > 0 {
            let ghost m0 = self@.messages;
            self.messages.truncate(1);
            assert(self@.messages =~= m0.take(1));
        }
        self.user_msg_count = 0;
        self.assistant_msg_count = 0;
        self.current_session_id = None;
        a
    }

    /// Whether a chat of the history is selected, so that it can be opened.
    pub fn can_load_selected_chat(&self) -> (r: bool)
        ensures
            r == (self@.history.len() > 0 && self.selected_chat_index < self@.history.len()),
    {
        proof {
            lemma_session_views(self.history@);
        }
        !(self.history.len() == 0 || self.selected_chat_index >= self.history.len())
    }

    /// Shows the selected chat of the history (the caller saves the
    /// conversation before): its messages, its id, and its message counts.
    pub fn load_selected_chat(&mut self)
        ensures
            final(self)@ == (if old(self).selected_chat_index < old(self)@.history.len() {
                chat_opened(old(self)@)
            } else {
                old(self)@
            }),
    {
        proof {
            lemma_session_views(self.history@);
        }
        if self.selected_chat_index >= self.history.len() {
            return;
        }
        let messages = clone_messages(&self.history[self.selected_chat_index].messages);
        let id = self.history[self.selected_chat_index].id.clone();
        let ghost ms = message_views(messages@);
        let mut users: usize = 0;
        let mut assistants: usize = 0;
        let mut i: usize = 0;
        while i < messages.len()
            invariant
                i <= messages@.len(),
                ms == message_views(messages@),
                users == count_role(ms.take(i as int), Role::User),
                assistants == count_role(ms.take(i as int), Role::Assistant),
                users <= i && assistants <= i,
            decreases messages@.len() - i,
        {
            assert(ms.take(i + 1).drop_last() =~= ms.take(i as int));
            assert(ms.take(i + 1).last() == messages@[i as int]@);
            if messages[i].role == Role::User {
                users = users + 1;
            } else if messages[i].role == Role::Assistant {
                assistants = assistants + 1;
            }
            i = i + 1;
        }
        assert(ms.take(i as int) =~= ms);
        self.messages = messages;
        self.current_session_id = Some(id);
        self.show_history = false;
        self.user_msg_count = users;
        self.assistant_msg_count = assistants;
    }

    pub fn history_up(&mut self)
        ensures
            final(self)@ == history_moved_up(old(self)@),
    {
        if self.selected_chat_index > 0 {
            self.selected_chat_index = self.selected_chat_index - 1;
        }
    }

    pub fn history_down(&mut self)
        ensures
            final(self)@ == history_moved_down(old(self)@),
    {
        proof {
            lemma_session_views(self.history@);
        }
        let n = self.history.len();
        let i = self.selected_chat_index;
        let next = if i < n.saturating_sub(1) {
            i + 1
        } else {
            i
        };
        self.selected_chat_index = next;
    }

    /// Starts a fresh conversation (the caller saves the one shown before and
    /// reads the saved chats again, handed in as `history`).
    pub fn new_chat(&mut self, history: Vec<ChatSession>)
        ensures
            final(self)@ == new_chat_started(old(self)@, session_views(history@)),
    {
        let mut messages: Vec<Message> = Vec::new();
        messages.push(system_msg("Welcome to Fastchat TUI. Press 'Space' for shortcuts.".to_owned()));
        self.messages = messages;
        self.current_session_id = None;
        self.user_msg_count = 0;
        self.assistant_msg_count = 0;
        self.show_history = false;
        self.history = history;
        self.selected_chat_index = 0;
        assert(self@.messages =~= seq![system_message(welcome_text())]);
    }

    /// Whether the selected chat may be deleted: one must be selected, and it
    /// must not be the one shown, which is refused with a message.
    pub fn delete_selected_chat(&mut self) -> (ok: bool)
        ensures
            (final(self)@, ok) == delete_checked(old(self)@),
    {
        proof {
            lemma_session_views(self.history@);
        }
        if self.history.len() == 0 || self.selected_chat_index >= self.history.len() {
            return false;
        }
        let active = match &self.current_session_id {
            Some(current) => self.history[self.selected_chat_index].id == *current,
            None => false,
        };
        if active {
            let ghost m0 = self@.messages;
            self.messages.push(
                system_msg("Cannot delete the currently active chat. Switch to another chat first.".to_owned()),
            );
            assert(self@.messages =~= m0.push(system_message(delete_refused_text())));
            return false;
        }
        true
    }

    /// Takes the selected chat out of the history (the caller deleted its
    /// file), keeping the selection within the list.
    pub fn remove_selected_chat(&mut self)
        requires
            old(self).selected_chat_index < old(self)@.history.len(),
        ensures
            final(self)@ == chat_removed(old(self)@),
    {
        proof {
            lemma_session_views(self.history@);
        }
        let ghost h0 = self@.history;
        self.history.remove(self.selected_chat_index);
        proof {
            lemma_session_views(self.history@);
            assert(self@.history =~= h0.remove(old(self).selected_chat_index as int));
        }
        if self.selected_chat_index >= self.history.len() && self.selected_chat_index > 0 {
            self.selected_chat_index = self.selected_chat_index - 1;
        }
    }

    /// Replaces the history by the chats read again, keeping the selection
    /// within the list.
    pub fn reload_history(&mut self, history: Vec<ChatSession>)
        ensures
            final(self)@ == history_reloaded(old(self)@, session_views(history@)),
    {
        proof {
            lemma_session_views(history@);
        }
        self.history = history;
        if self.selected_chat_index >= self.history.len() {
            self.selected_chat_index = self.history.len().saturating_sub(1);
        }
    }

    /// Records the height of the message view and the number of lines it
    /// shows; with auto-scroll on, scrolls to the bottom.
    pub fn update_viewport(&mut self, height: u16, total_lines: usize)
        ensures
            final(self)@ == viewport_updated(old(self)@, height, total_lines),
    {
        self.viewport_height = height;
        self.total_lines = total_lines;
        if self.auto_scroll {
            self.scroll_to_bottom();
        }
    }
}

} // verus!
