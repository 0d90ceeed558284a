//! Properties of the application's transitions that hold across calls.
use vstd::prelude::*;

use crate::api::ApiEvent;
use crate::keys::{key_step, Key, KeyAction, KeyCode};
use crate::app::{
    app_wf, backend_switched, chat_opened, current_index, lemma_session_index, model_confirmed,
    saved, selected_backend, chat_removed, delete_checked, delete_refused_text, event_applied, history_moved_down,
    history_moved_up, history_reloaded, next_selected, previous_selected, scrolled_to_bottom,
    submitted, system_message, toggled_leader_menu, toggled_shortcuts, toggled_stats, token_added,
    viewport_updated, without_last, AppView, cleared, InputMode, new_chat_started,
};
use crate::app::{command_executed, first_user_index, new_chat_title, session_title, welcome_text};
use crate::text::{lines, trim};
use crate::ui::{
    conversation_view, markdown_view, message_view_lines, tagged, thinking_view, ViewLineView,
};
use crate::time::Timestamp;
use crate::types::{MessageView, Role, SessionView};

verus! {

/// Toggling the shortcuts panel twice gives the state back.
pub proof fn lemma_toggle_shortcuts_twice(v: AppView)
    ensures
        toggled_shortcuts(toggled_shortcuts(v)) == v,
{
}

/// Toggling the statistics panel twice gives the state back.
pub proof fn lemma_toggle_stats_twice(v: AppView)
    ensures
        toggled_stats(toggled_stats(v)) == v,
{
}

/// Toggling the leader menu twice gives the state back, where a leader key
/// is pending exactly while the menu is shown; and after each toggle that is so.
pub proof fn lemma_toggle_leader_menu_twice(v: AppView)
    requires
        v.pending_leader_key == v.show_leader_menu,
    ensures
        toggled_leader_menu(toggled_leader_menu(v)) == v,
        toggled_leader_menu(v).pending_leader_key == toggled_leader_menu(v).show_leader_menu,
{
}

/// Moving the backend selection down and then up, or up and then down,
/// gives the state back; each move keeps the selection in the list (of a
/// length that a vector can have).
pub proof fn lemma_backend_selection_round_trip(v: AppView)
    requires
        app_wf(v),
        v.available_backends.len() <= usize::MAX,
    ensures
        previous_selected(next_selected(v)) == v,
        next_selected(previous_selected(v)) == v,
        app_wf(next_selected(v)),
        app_wf(previous_selected(v)),
{
    let n = next_selected(v);
    let p = previous_selected(v);
    assert(previous_selected(n).backend_selection_index == v.backend_selection_index);
    assert(next_selected(p).backend_selection_index == v.backend_selection_index);
    assert(previous_selected(n) == AppView { backend_selection_index: v.backend_selection_index, ..v });
    assert(next_selected(p) == AppView { backend_selection_index: v.backend_selection_index, ..v });
}

/// Typing a character and then deleting one gives the edited text back.
pub proof fn lemma_type_then_delete(s: Seq<char>, c: char)
    ensures
        without_last(s.push(c)) == s,
{
    assert(s.push(c).drop_last() =~= s);
}

/// Two pieces of a streamed reply, taken one after the other, leave the
/// conversation as their concatenation taken at once does.
pub proof fn lemma_tokens_concatenate(ms: Seq<MessageView>, a: Seq<char>, b: Seq<char>)
    ensures
        token_added(token_added(ms, a), b) == token_added(ms, a + b),
{
    if ms.len() > 0 && ms.last().role == Role::Assistant {
        assert(ms.last().content + a + b =~= ms.last().content + (a + b));
        assert(token_added(token_added(ms, a), b) =~= token_added(ms, a + b));
    }
}

/// After a message is submitted, the reply streamed into the conversation is
/// exactly the text of the pieces received: the submitted message stays just
/// before it.
pub proof fn lemma_reply_after_submit(v: AppView, t: Seq<char>)
    ensures
        token_added(submitted(v).messages, t).len() == v.messages.len() + 2,
        token_added(submitted(v).messages, t).last().content == t,
        token_added(submitted(v).messages, t).last().role == Role::Assistant,
        token_added(submitted(v).messages, t)[v.messages.len() as int].content == v.input,
        token_added(submitted(v).messages, t).take(v.messages.len() as int) == v.messages,
{
    let ms = submitted(v).messages;
    assert(ms.last().content == Seq::<char>::empty());
    assert(Seq::<char>::empty() + t =~= t);
    assert(token_added(ms, t).take(v.messages.len() as int) =~= v.messages);
}

/// A streamed piece changes only the messages; the end of the stream and an
/// error stop the processing.
pub proof fn lemma_stream_end_stops(v: AppView, e: ApiEvent)
    ensures
        (e is Done || e is Error) ==> !event_applied(v, e).is_processing,
        (e is Token || e is ThinkingToken) ==> event_applied(v, e).is_processing == v.is_processing,
        e is Error ==> event_applied(v, e).messages.len() == v.messages.len() + 1,
{
}

/// Clearing the conversation keeps at most its first message, and that one
/// unchanged.
pub proof fn lemma_clear_keeps_first(v: AppView)
    ensures
        cleared(v).messages.len() <= 1,
        v.messages.len() > 0 ==> cleared(v).messages[0] == v.messages[0],
        cleared(v).user_msg_count == 0 && cleared(v).assistant_msg_count == 0,
{
}

/// Moving through the history keeps the selection on a chat of it.
pub proof fn lemma_history_moves_stay_inside(v: AppView)
    requires
        v.selected_chat_index < v.history.len(),
    ensures
        history_moved_up(v).selected_chat_index < v.history.len(),
        history_moved_down(v).selected_chat_index < v.history.len(),
{
}

/// After the history is read again, or a chat is removed from it, the
/// selection is on a chat of it whenever it has one.
pub proof fn lemma_history_changes_keep_selection(v: AppView, h: Seq<SessionView>)
    ensures
        h.len() > 0 ==> history_reloaded(v, h).selected_chat_index < h.len(),
        v.selected_chat_index < v.history.len() && chat_removed(v).history.len() > 0
            ==> chat_removed(v).selected_chat_index < chat_removed(v).history.len(),
{
}

/// The chat being shown is never deleted: asking for it is refused with a
/// message and the history stays as it is.
pub proof fn lemma_active_chat_not_deleted(v: AppView)
    requires
        v.selected_chat_index < v.history.len(),
        v.current_session_id == Some(v.history[v.selected_chat_index as int].id),
    ensures
        !delete_checked(v).1,
        delete_checked(v).0.history == v.history,
        delete_checked(v).0.messages == v.messages.push(system_message(delete_refused_text())),
{
}

/// With automatic scrolling on, a new size of the view or of the text keeps
/// the last line in sight; scrolling to the bottom twice is scrolling once.
pub proof fn lemma_auto_scroll_follows(v: AppView, height: u16, total: usize)
    ensures
        v.auto_scroll ==> viewport_updated(v, height, total) == scrolled_to_bottom(
            AppView { viewport_height: height, total_lines: total, ..v },
        ),
        scrolled_to_bottom(scrolled_to_bottom(v)) == scrolled_to_bottom(v),
{
}

/// Confirming a backend makes it the active one, with the URL typed for it;
/// its model stays.
pub proof fn lemma_switch_uses_typed_url(v: AppView)
    requires
        app_wf(v),
        v.backends.contains_key(selected_backend(v)),
    ensures
        backend_switched(v).active_backend == selected_backend(v),
        backend_switched(v).backends[backend_switched(v).active_backend].url == v.url_input,
        backend_switched(v).backends[backend_switched(v).active_backend].model == v.backends[selected_backend(v)].model,
        backend_switched(v).backends.dom() == v.backends.dom(),
{
}

/// Confirming a model name that is more than white space makes it, trimmed,
/// the model of the active backend; a blank name changes no backend.
pub proof fn lemma_model_change(v: AppView)
    ensures
        trim(v.model_input).len() > 0 && v.backends.contains_key(v.active_backend) ==> model_confirmed(
            v,
        ).backends[v.active_backend].model == trim(v.model_input),
        trim(v.model_input).len() == 0 ==> model_confirmed(v).backends == v.backends,
        model_confirmed(v).active_backend == v.active_backend,
{
}

/// Saving a conversation that is in the history already and then opening
/// that chat shows the same conversation again (for a history of a length
/// that a vector can have).
pub proof fn lemma_save_then_open(v: AppView, now: Timestamp, new_id: Seq<char>)
    requires
        v.messages.len() > 1,
        current_index(v) >= 0,
        v.history.len() <= usize::MAX,
    ensures
        ({
            let w = saved(v, now, new_id);
            let p = current_index(v);
            &&& 0 <= p < w.history.len()
            &&& chat_opened(AppView { selected_chat_index: p as usize, ..w }).messages == v.messages
            &&& chat_opened(AppView { selected_chat_index: p as usize, ..w }).current_session_id
                == v.current_session_id
        }),
{
    reveal(current_index);
    lemma_session_index(v.history, v.current_session_id->0);
    let p = current_index(v);
    let w = saved(v, now, new_id);
    assert(w.history[p].messages == v.messages);
    assert(w.history[p].id == v.history[p].id);
}

/// In normal mode, with no panel open, `:` opens the command line, empty;
/// typing there and pressing `Esc` goes back to normal mode.
pub proof fn lemma_colon_opens_command_line(v: AppView, c: char)
    requires
        !v.is_processing,
        v.input_mode == InputMode::Normal,
        !v.show_backend_selection && !v.show_url_edit && !v.show_shortcuts,
        !v.show_stats && !v.show_history && !v.show_model_selection,
    ensures
        ({
            let (w, a) = key_step(v, Key { code: KeyCode::Char(':'), ctrl: false, no_modifiers: true });
            let (x, _) = key_step(w, Key { code: KeyCode::Char(c), ctrl: false, no_modifiers: true });
            let (y, _) = key_step(x, Key { code: KeyCode::Esc, ctrl: false, no_modifiers: true });
            &&& a == KeyAction::Nothing
            &&& w.input_mode == InputMode::Command
            &&& w.command_input.len() == 0
            &&& x.command_input == seq![c]
            &&& y.input_mode == InputMode::Normal
            &&& y.command_input.len() == 0
        }),
{
    assert(seq![].push(c) =~= seq![c]);
}

/// The chat selection is on a chat of the history, or at the first place
/// when the history is empty.
pub open spec fn selection_valid(v: AppView) -> bool {
    v.selected_chat_index == 0 || v.selected_chat_index < v.history.len()
}

/// Every transition keeps the chat selection valid: keys, moves through
/// the history, reading it again, a new chat, saving (in place or as a new
/// first session), clearing, opening, asking to delete, removing the
/// selected chat, and the events of a streamed reply.
pub proof fn lemma_selection_kept(
    v: AppView,
    h: Seq<SessionView>,
    k: Key,
    e: ApiEvent,
    now: Timestamp,
    new_id: Seq<char>,
    s: SessionView,
)
    requires
        selection_valid(v),
    ensures
        selection_valid(key_step(v, k).0),
        selection_valid(history_moved_up(v)),
        selection_valid(history_moved_down(v)),
        selection_valid(history_reloaded(v, h)),
        selection_valid(new_chat_started(v, h)),
        selection_valid(saved(v, now, new_id)),
        selection_valid(AppView { history: v.history.insert(0, s), ..v }),
        selection_valid(cleared(v)),
        selection_valid(delete_checked(v).0),
        selection_valid(event_applied(v, e)),
        v.selected_chat_index < v.history.len() ==> selection_valid(chat_opened(v)),
        v.selected_chat_index < v.history.len() ==> selection_valid(chat_removed(v)),
{
    lemma_keys_keep_selection(v, k);
    lemma_save_keeps_selection(v, now, new_id);
}

proof fn lemma_keys_keep_selection(v: AppView, k: Key)
    requires
        selection_valid(v),
    ensures
        selection_valid(key_step(v, k).0),
{
}

proof fn lemma_save_keeps_selection(v: AppView, now: Timestamp, new_id: Seq<char>)
    requires
        selection_valid(v),
    ensures
        selection_valid(saved(v, now, new_id)),
{
    reveal(current_index);
    if v.current_session_id is Some {
        lemma_session_index(v.history, v.current_session_id->0);
    }
    assert(saved(v, now, new_id).history.len() == v.history.len());
}

// ---------------------------------------------------------------------------
// The conversation pane
// ---------------------------------------------------------------------------

/// The roles named by the header lines of a pane, in order.
pub open spec fn header_roles(ls: Seq<ViewLineView>) -> Seq<Role>
    decreases ls.len(),
{
    if ls.len() == 0 {
        seq![]
    } else {
        let r = header_roles(ls.drop_last());
        match ls.last() {
            ViewLineView::Header(role) => r.push(role),
            _ => r,
        }
    }
}

proof fn lemma_header_roles_append(a: Seq<ViewLineView>, b: Seq<ViewLineView>)
    ensures
        header_roles(a + b) == header_roles(a) + header_roles(b),
    decreases b.len(),
{
    if b.len() == 0 {
        assert(a + b =~= a);
        assert(header_roles(a) + header_roles(b) =~= header_roles(a));
    } else {
        lemma_header_roles_append(a, b.drop_last());
        assert((a + b).drop_last() =~= a + b.drop_last());
        assert((a + b).last() == b.last());
        let x = header_roles(a);
        let y = header_roles(b.drop_last());
        match b.last() {
            ViewLineView::Header(role) => {
                assert(x + y.push(role) =~= (x + y).push(role));
            },
            _ => {},
        }
    }
}

proof fn lemma_tagged_no_headers(ls: Seq<crate::ui::LineView>, thinking: bool)
    ensures
        header_roles(tagged(ls, thinking)) == Seq::<Role>::empty(),
    decreases ls.len(),
{
    if ls.len() > 0 {
        lemma_tagged_no_headers(ls.drop_last(), thinking);
        assert(tagged(ls, thinking).drop_last() =~= tagged(ls.drop_last(), thinking));
    }
}

proof fn lemma_message_one_header(m: MessageView)
    ensures
        header_roles(message_view_lines(m)) == seq![m.role],
{
    let h = seq![ViewLineView::Header(m.role)];
    let t = thinking_view(m.thinking);
    let b = tagged(markdown_view(m.content), false);
    let e = seq![ViewLineView::Blank];
    lemma_tagged_no_headers(markdown_view(m.content), false);
    assert(header_roles(h) =~= seq![m.role]) by {
        reveal_with_fuel(header_roles, 2);
        assert(h.drop_last() =~= Seq::<ViewLineView>::empty());
        assert(h.last() == ViewLineView::Header(m.role));
        assert(Seq::<Role>::empty().push(m.role) =~= seq![m.role]);
    }
    assert(header_roles(e) =~= Seq::<Role>::empty()) by {
        reveal_with_fuel(header_roles, 2);
        assert(e.drop_last() =~= Seq::<ViewLineView>::empty());
        assert(e.last() == ViewLineView::Blank);
    }
    assert(header_roles(t) =~= Seq::<Role>::empty()) by {
        match m.thinking {
            Some(x) => {
                if x.len() > 0 {
                    let tt = seq![ViewLineView::ThinkingTitle];
                    assert(header_roles(tt) =~= Seq::<Role>::empty()) by {
                        reveal_with_fuel(header_roles, 2);
                        assert(tt.drop_last() =~= Seq::<ViewLineView>::empty());
                        assert(tt.last() == ViewLineView::ThinkingTitle);
                    }
                    lemma_tagged_no_headers(markdown_view(x), true);
                    lemma_header_roles_append(tt, tagged(markdown_view(x), true));
                    lemma_header_roles_append(tt + tagged(markdown_view(x), true), e);
                }
            },
            None => {},
        }
    }
    lemma_header_roles_append(h, t);
    lemma_header_roles_append(h + t, b);
    lemma_header_roles_append(h + t + b, e);
}

/// Every message is shown, whatever its role: the pane has one header line
/// per message, in the order of the messages, each naming that message's
/// role.
pub proof fn lemma_every_message_has_its_header(ms: Seq<MessageView>)
    ensures
        header_roles(conversation_view(ms)) == ms.map_values(|m: MessageView| m.role),
    decreases ms.len(),
{
    if ms.len() > 0 {
        lemma_every_message_has_its_header(ms.drop_last());
        lemma_message_one_header(ms.last());
        lemma_header_roles_append(conversation_view(ms.drop_last()), message_view_lines(ms.last()));
        assert(ms.drop_last().map_values(|m: MessageView| m.role).push(ms.last().role) =~= ms.map_values(
            |m: MessageView| m.role,
        ));
    }
}

// ---------------------------------------------------------------------------
// The command line
// ---------------------------------------------------------------------------

/// `top` and `gg` jump to the first line and stop following new text;
/// `bottom` and `G` jump so that the last line is at the bottom of the view
/// and follow new text. Either way the command line is then empty and the
/// mode is normal.
pub proof fn lemma_commands_jump_to_the_ends(v: AppView)
    ensures
        trim(v.command_input) == "top"@ || trim(v.command_input) == "gg"@ ==> {
            &&& command_executed(v).scroll == 0
            &&& !command_executed(v).auto_scroll
        },
        trim(v.command_input) == "bottom"@ || trim(v.command_input) == "G"@ ==> {
            &&& command_executed(v).scroll == (if v.total_lines > v.viewport_height as usize {
                (v.total_lines - v.viewport_height as usize) as u16
            } else {
                0u16
            })
            &&& command_executed(v).auto_scroll
        },
        command_executed(v).command_input.len() == 0,
        command_executed(v).input_mode == InputMode::Normal,
{
    reveal_strlit("top");
    reveal_strlit("gg");
    reveal_strlit("bottom");
    reveal_strlit("G");
    reveal_strlit("auto");
    let c = trim(v.command_input);
    if c == "top"@ || c == "gg"@ || c == "bottom"@ || c == "G"@ {
        assert(!crate::text::is_digit(c[0]));
        assert(c[0] != '+');
        assert(crate::text::unsigned_digits(c) == c);
        assert(!crate::text::all_digits(c));
        assert(crate::text::parse_u16(c) is None);
    }
    if c == "top"@ || c == "gg"@ {
        assert(c != "bottom"@ && c != "G"@ && c != "auto"@);
    }
    if c == "bottom"@ || c == "G"@ {
        assert(c != "top"@ && c != "gg"@);
    }
}

// ---------------------------------------------------------------------------
// The chat list
// ---------------------------------------------------------------------------

/// Removing the selected chat takes out exactly the chat at the selection:
/// the chats before it stay where they are, those after it move up by one,
/// and the list is one shorter.
pub proof fn lemma_remove_takes_the_selected_chat(v: AppView)
    requires
        v.selected_chat_index < v.history.len(),
    ensures
        chat_removed(v).history.len() == v.history.len() - 1,
        forall|i: int| 0 <= i < v.selected_chat_index ==> chat_removed(v).history[i] == #[trigger] v.history[i],
        forall|i: int|
            v.selected_chat_index <= i < chat_removed(v).history.len() ==> #[trigger] chat_removed(v).history[i]
                == v.history[i + 1],
{
}

proof fn lemma_first_user_is_earliest(ms: Seq<MessageView>, j: int)
    requires
        0 <= j < ms.len(),
        ms[j].role == Role::User,
        forall|k: int| 0 <= k < j ==> #[trigger] ms[k].role != Role::User,
    ensures
        first_user_index(ms) == j,
    decreases j,
{
    if j > 0 {
        assert(ms[0].role != Role::User);
        assert forall|k: int| 0 <= k < j - 1 implies #[trigger] ms.drop_first()[k].role != Role::User by {
            assert(ms.drop_first()[k] == ms[k + 1]);
        }
        lemma_first_user_is_earliest(ms.drop_first(), j - 1);
    }
}

proof fn lemma_no_user(ms: Seq<MessageView>)
    requires
        forall|k: int| 0 <= k < ms.len() ==> #[trigger] ms[k].role != Role::User,
    ensures
        first_user_index(ms) == -1,
    decreases ms.len(),
{
    if ms.len() > 0 {
        assert(ms[0].role != Role::User);
        assert forall|k: int| 0 <= k < ms.len() - 1 implies #[trigger] ms.drop_first()[k].role != Role::User by {
            assert(ms.drop_first()[k] == ms[k + 1]);
        }
        lemma_no_user(ms.drop_first());
    }
}

/// A saved conversation is titled by its earliest user message: the first
/// line of that message's text, cut to 50 characters (`New Chat` where the
/// text has no line); a conversation with no user message is `New Chat`.
pub proof fn lemma_title_from_first_user_message(ms: Seq<MessageView>, j: int)
    ensures
        0 <= j < ms.len() && ms[j].role == Role::User && (forall|k: int|
            0 <= k < j ==> #[trigger] ms[k].role != Role::User) ==> session_title(ms) == (if lines(
            ms[j].content,
        ).len() == 0 {
            new_chat_title()
        } else {
            let l = lines(ms[j].content)[0];
            l.take(if l.len() < 50 {
                l.len() as int
            } else {
                50
            })
        }),
        (forall|k: int| 0 <= k < ms.len() ==> #[trigger] ms[k].role != Role::User) ==> session_title(ms)
            == new_chat_title(),
{
    reveal(session_title);
    if 0 <= j < ms.len() && ms[j].role == Role::User && (forall|k: int|
        0 <= k < j ==> #[trigger] ms[k].role != Role::User) {
        lemma_first_user_is_earliest(ms, j);
        let l = lines(ms[j].content);
        if l.len() > 0 && l[0].len() <= 50 {
            assert(l[0].take(l[0].len() as int) =~= l[0]);
        }
    }
    if forall|k: int| 0 <= k < ms.len() ==> #[trigger] ms[k].role != Role::User {
        lemma_no_user(ms);
    }
}

/// A new chat belongs to no saved session: it shows only the welcome
/// message, and saving it later, whatever has been written in it, adds a
/// new session under the new id and leaves every saved chat as it is.
pub proof fn lemma_new_chat_saves_apart(
    v: AppView,
    h: Seq<SessionView>,
    ms: Seq<MessageView>,
    now: Timestamp,
    new_id: Seq<char>,
)
    ensures
        new_chat_started(v, h).current_session_id is None,
        new_chat_started(v, h).messages == seq![system_message(welcome_text())],
        new_chat_started(v, h).history == h,
        ({
            let w = AppView { messages: ms, ..new_chat_started(v, h) };
            &&& saved(w, now, new_id).history == h
            &&& (ms.len() > 1 ==> saved(w, now, new_id).current_session_id == Some(new_id))
        }),
{
    reveal(current_index);
}

} // verus!
