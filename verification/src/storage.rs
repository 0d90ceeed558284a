//! Chat sessions as markdown files: rendering, parsing, file names and the
//! order in which saved chats are listed.
use vstd::prelude::*;
use vstd::string::StringExecFns;

use crate::text::{
    chars_eq, contains, extend_chars, has_infix, has_prefix, is_plain_line, is_trimmed, is_ws,
    lemma_lines_unlines, lemma_trim_padded, lemma_trim_around, lemma_trim_trimmed, lemma_unlines_append, lines,
    occurs_at, slice_chars, split_lines, starts_with, string_of, to_chars, trim, trim_chars,
    trim_end, trim_start, unlines, views,
};
use crate::time::{
    chrono_strftime, earlier, format_pattern, format_rfc3339, is_earlier, is_simple_pattern, now,
    chrono_rfc3339, in_four_digit_years, is_rfc3339_char, ordinary_time, parse_rfc3339, parsed_time,
    rfc3339_reads_back, rfc3339_text, Timestamp,
};
use crate::types::{message_views, ChatSession, Message, MessageView, Role, SessionView};

verus! {

// ---------------------------------------------------------------------------
// The markdown form of a session
// ---------------------------------------------------------------------------

pub open spec fn nl() -> Seq<char> {
    seq!['\n']
}

/// `---`, the line that opens and closes the front matter.
pub open spec fn fence_line() -> Seq<char> {
    seq!['-', '-', '-']
}

/// The heading line that introduces a message of role `r`.
pub open spec fn role_heading(r: Role) -> Seq<char> {
    match r {
        Role::User => seq!['#', '#', ' ', '👤', ' ', 'U', 's', 'e', 'r'],
        Role::Assistant => seq!['#', '#', ' ', '🤖', ' ', 'A', 's', 's', 'i', 's', 't', 'a', 'n', 't'],
        Role::System => seq!['#', '#', ' ', '📢', ' ', 'S', 'y', 's', 't', 'e', 'm'],
    }
}

/// The markdown of one message: its heading, a blank line, its text, a blank line.
pub open spec fn message_md(m: MessageView) -> Seq<char> {
    role_heading(m.role) + nl() + nl() + m.content + nl() + nl()
}

/// The markdown of a list of messages, one after the other.
pub open spec fn messages_md(ms: Seq<MessageView>) -> Seq<char>
    decreases ms.len(),
{
    if ms.len() == 0 {
        seq![]
    } else {
        messages_md(ms.drop_last()) + message_md(ms.last())
    }
}

pub open spec fn id_prefix() -> Seq<char> {
    seq!['i', 'd', ':', ' ']
}

pub open spec fn created_prefix() -> Seq<char> {
    seq!['c', 'r', 'e', 'a', 't', 'e', 'd', ':', ' ']
}

pub open spec fn updated_prefix() -> Seq<char> {
    seq!['u', 'p', 'd', 'a', 't', 'e', 'd', ':', ' ']
}

pub open spec fn title_prefix() -> Seq<char> {
    seq!['#', ' ']
}

/// The markdown file of a session: front matter with id and times, the title
/// as a level-one heading, then the messages.
pub open spec fn markdown_text(
    id: Seq<char>,
    created: Seq<char>,
    updated: Seq<char>,
    name: Seq<char>,
    ms: Seq<MessageView>,
) -> Seq<char> {
    fence_line() + nl() + id_prefix() + id + nl() + created_prefix() + created + nl()
        + updated_prefix() + updated + nl() + fence_line() + nl() + nl() + title_prefix() + name
        + nl() + nl() + messages_md(ms)
}

/// The markdown file of a session, its times written by `chrono`.
pub open spec fn session_markdown(s: SessionView) -> Seq<char> {
    markdown_text(s.id, rfc3339_text(s.created_at), rfc3339_text(s.updated_at), s.name, s.messages)
}

fn append_heading(md: &mut String, r: Role)
    ensures
        final(md)@ == old(md)@ + role_heading(r) + nl() + nl(),
{
    match r {
        Role::User => {
            md.append("## 👤 User\n\n");
            proof {
                reveal_strlit("## 👤 User\n\n");
            }
        },
        Role::Assistant => {
            md.append("## 🤖 Assistant\n\n");
            proof {
                reveal_strlit("## 🤖 Assistant\n\n");
            }
        },
        Role::System => {
            md.append("## 📢 System\n\n");
            proof {
                reveal_strlit("## 📢 System\n\n");
            }
        },
    }
    assert(md@ =~= old(md)@ + role_heading(r) + nl() + nl());
}

/// The markdown file of `session`, with `created` and `updated` written in
/// its front matter as the two times.
pub fn render_markdown(session: &ChatSession, created: &str, updated: &str) -> (md: String)
    ensures
        md@ == markdown_text(session.id@, created@, updated@, session.name@, session@.messages),
{
    let mut md = String::new();
    md.append("---\nid: ");
    md.append(session.id.as_str());
    md.append("\ncreated: ");
    md.append(created);
    md.append("\nupdated: ");
    md.append(updated);
    md.append("\n---\n\n# ");
    md.append(session.name.as_str());
    md.append("\n\n");
    proof {
        reveal_strlit("---\nid: ");
        reveal_strlit("\ncreated: ");
        reveal_strlit("\nupdated: ");
        reveal_strlit("\n---\n\n# ");
        reveal_strlit("\n\n");
    }
    let ghost head = fence_line() + nl() + id_prefix() + session.id@ + nl() + created_prefix()
        + created@ + nl() + updated_prefix() + updated@ + nl() + fence_line() + nl() + nl()
        + title_prefix() + session.name@ + nl() + nl();
    assert(md@ =~= head);
    let ghost ms = session@.messages;
    let mut i: usize = 0;
    assert(ms.take(0) =~= seq![]);
    while i < session.messages.len()
        invariant
            i <= session.messages@.len(),
            ms == session@.messages,
            ms.len() == session.messages@.len(),
            md@ == head + messages_md(ms.take(i as int)),
        decreases session.messages@.len() - i,
    {
        let m = &session.messages[i];
        append_heading(&mut md, m.role);
        md.append(m.content.as_str());
        md.append("\n\n");
        proof {
            reveal_strlit("\n\n");
            assert(ms[i as int] == m@);
            assert(ms.take(i + 1).drop_last() =~= ms.take(i as int));
            assert(md@ =~= head + messages_md(ms.take(i + 1)));
        }
        i = i + 1;
    }
    assert(ms.take(i as int) =~= ms);
    md
}

proof fn lemma_rfc3339_storable(s: Seq<char>)
    requires
        forall|i: int| 0 <= i < s.len() ==> is_rfc3339_char(#[trigger] s[i]),
    ensures
        storable_field(s),
{
    assert forall|i: int| 0 <= i < s.len() implies s[i] != '\n' && s[i] != '\r' by {
        assert(is_rfc3339_char(s[i]));
    }
    if s.len() > 0 {
        assert(is_rfc3339_char(s[0]));
        assert(is_rfc3339_char(s.last()));
    }
}

/// The time text that a file is written with for `t`.
fn time_text(t: Timestamp) -> (r: String)
    ensures
        r@ == rfc3339_text(t),
        storable_field(r@),
        in_four_digit_years(t) ==> rfc3339_reads_back(t),
        ordinary_time(t) ==> chrono_rfc3339(t.secs, t.nanos) is Some,
{
    match format_rfc3339(t) {
        Some(s) => {
            proof {
                lemma_rfc3339_storable(s@);
            }
            s
        },
        None => String::new(),
    }
}

/// The markdown file of `session` (its times in RFC 3339, as `chrono`
/// writes them; a time that `chrono` cannot represent is written empty).
/// The time texts are single trimmed lines; for the years 0 to 9999 `chrono`
/// reads the instant back from them, and off a leap second it writes one.
pub fn session_to_markdown(session: &ChatSession) -> (md: String)
    ensures
        md@ == session_markdown(session@),
        storable_field(rfc3339_text(session.created_at)),
        storable_field(rfc3339_text(session.updated_at)),
        in_four_digit_years(session.created_at) ==> rfc3339_reads_back(session.created_at),
        in_four_digit_years(session.updated_at) ==> rfc3339_reads_back(session.updated_at),
        ordinary_time(session.created_at) ==> chrono_rfc3339(
            session.created_at.secs,
            session.created_at.nanos,
        ) is Some,
        ordinary_time(session.updated_at) ==> chrono_rfc3339(
            session.updated_at.secs,
            session.updated_at.nanos,
        ) is Some,
{
    let created = time_text(session.created_at);
    let updated = time_text(session.updated_at);
    render_markdown(session, created.as_str(), updated.as_str())
}

// ---------------------------------------------------------------------------
// Reading a session back from its markdown
// ---------------------------------------------------------------------------

/// The position of the first `c` in `s`, or -1.
pub open spec fn find_char(s: Seq<char>, c: char) -> int
    decreases s.len(),
{
    if s.len() == 0 {
        -1
    } else if s[0] == c {
        0
    } else {
        let r = find_char(s.drop_first(), c);
        if r < 0 {
            -1
        } else {
            r + 1
        }
    }
}

proof fn lemma_find_char(s: Seq<char>, c: char, i: int)
    requires
        0 <= i <= s.len(),
        forall|k: int| 0 <= k < i ==> s[k] != c,
        i < s.len() ==> s[i] == c,
    ensures
        find_char(s, c) == (if i < s.len() {
            i
        } else {
            -1
        }),
    decreases i,
{
    if i > 0 {
        let t = s.drop_first();
        assert forall|k: int| 0 <= k < i - 1 implies t[k] != c by {
            assert(t[k] == s[k + 1]);
        }
        lemma_find_char(t, c, i - 1);
    }
}

/// What the front matter has told so far.
pub struct FrontMatter {
    pub id: Seq<char>,
    pub created: Timestamp,
    pub updated: Timestamp,
}

/// One line of front matter: `key: value`, the key and the value trimmed.
/// `id`, `created` and `updated` are read; a time that `chrono` does not
/// accept leaves the one held.
pub open spec fn front_step(f: FrontMatter, line: Seq<char>) -> FrontMatter {
    let i = find_char(line, ':');
    if i < 0 {
        f
    } else {
        let key = trim(line.take(i));
        let value = trim(line.skip(i + 1));
        if key == seq!['i', 'd'] {
            FrontMatter { id: value, ..f }
        } else if key == seq!['c', 'r', 'e', 'a', 't', 'e', 'd'] {
            match parsed_time(value) {
                Some(t) => FrontMatter { created: t, ..f },
                None => f,
            }
        } else if key == seq!['u', 'p', 'd', 'a', 't', 'e', 'd'] {
            match parsed_time(value) {
                Some(t) => FrontMatter { updated: t, ..f },
                None => f,
            }
        } else {
            f
        }
    }
}

/// The front matter read from `ls` up to its closing `---` line, and the
/// lines after that line.
pub open spec fn read_front(ls: Seq<Seq<char>>, f: FrontMatter) -> (FrontMatter, Seq<Seq<char>>)
    decreases ls.len(),
{
    if ls.len() == 0 {
        (f, ls)
    } else if ls[0] == fence_line() {
        (f, ls.drop_first())
    } else {
        read_front(ls.drop_first(), front_step(f, ls[0]))
    }
}

/// What the body has told so far: the title, the finished messages, and the
/// message being read (its role and the lines read of it).
pub struct BodyState {
    pub name: Seq<char>,
    pub messages: Seq<MessageView>,
    pub role: Option<Role>,
    pub text: Seq<char>,
}

pub open spec fn user_word() -> Seq<char> {
    seq!['U', 's', 'e', 'r']
}

pub open spec fn assistant_word() -> Seq<char> {
    seq!['A', 's', 's', 'i', 's', 't', 'a', 'n', 't']
}

pub open spec fn system_word() -> Seq<char> {
    seq!['S', 'y', 's', 't', 'e', 'm']
}

pub open spec fn heading_prefix() -> Seq<char> {
    seq!['#', '#', ' ']
}

/// The role that a message heading names, by word or by icon.
pub open spec fn heading_role(h: Seq<char>) -> Option<Role> {
    if has_infix(h, user_word()) || has_prefix(h, seq!['👤']) {
        Some(Role::User)
    } else if has_infix(h, assistant_word()) || has_prefix(h, seq!['🤖']) {
        Some(Role::Assistant)
    } else if has_infix(h, system_word()) || has_prefix(h, seq!['📢']) {
        Some(Role::System)
    } else {
        None
    }
}

/// A message read from a file: role and trimmed text, no thinking part.
pub open spec fn read_message(r: Role, text: Seq<char>) -> MessageView {
    MessageView { role: r, content: text, thinking: None, collapsed: false }
}

/// Ends the message being read: it is kept if its trimmed text is not empty.
pub open spec fn close_message(st: BodyState) -> BodyState {
    match st.role {
        Some(r) => BodyState {
            messages: if trim(st.text).len() > 0 {
                st.messages.push(read_message(r, trim(st.text)))
            } else {
                st.messages
            },
            role: None,
            text: seq![],
            ..st
        },
        None => st,
    }
}

/// One body line: `# ` sets the title, `## ` starts a message, any other
/// line belongs to the message being read, if there is one.
pub open spec fn body_step(st: BodyState, line: Seq<char>) -> BodyState {
    if has_prefix(line, title_prefix()) {
        BodyState { name: trim(line.skip(2)), ..st }
    } else if has_prefix(line, heading_prefix()) {
        BodyState { role: heading_role(trim(line.skip(3))), ..close_message(st) }
    } else if st.role is Some {
        BodyState { text: st.text + line + nl(), ..st }
    } else {
        st
    }
}

/// The body read line by line.
pub open spec fn read_body(ls: Seq<Seq<char>>, st: BodyState) -> BodyState
    decreases ls.len(),
{
    if ls.len() == 0 {
        st
    } else {
        read_body(ls.drop_first(), body_step(st, ls[0]))
    }
}

pub open spec fn untitled() -> Seq<char> {
    seq!['U', 'n', 't', 'i', 't', 'l', 'e', 'd', ' ', 'C', 'h', 'a', 't']
}

pub open spec fn front_start(now: Timestamp) -> FrontMatter {
    FrontMatter { id: seq![], created: now, updated: now }
}

pub open spec fn body_start() -> BodyState {
    BodyState { name: untitled(), messages: seq![], role: None, text: seq![] }
}

/// The front matter of a file and the lines of its body. The first line is
/// taken whatever it holds; it opens front matter if it is `---`.
pub open spec fn split_front(ls: Seq<Seq<char>>, now: Timestamp) -> (FrontMatter, Seq<Seq<char>>) {
    if ls.len() == 0 {
        (front_start(now), ls)
    } else if ls[0] == fence_line() {
        read_front(ls.drop_first(), front_start(now))
    } else {
        (front_start(now), ls.drop_first())
    }
}

/// The session that a markdown file holds, read as saved at `path`, with
/// `now` for the times that the file does not give.
pub open spec fn parse_markdown_session(content: Seq<char>, path: Seq<char>, now: Timestamp) -> SessionView {
    let (f, body) = split_front(lines(content), now);
    let b = close_message(read_body(body, body_start()));
    SessionView {
        id: f.id,
        name: b.name,
        created_at: f.created,
        updated_at: f.updated,
        messages: b.messages,
        file_path: Some(path),
    }
}

fn find_colon(line: &Vec<char>) -> (r: Option<usize>)
    ensures
        match r {
            Some(i) => find_char(line@, ':') == i as int && i < line@.len(),
            None => find_char(line@, ':') < 0,
        },
{
    let mut i: usize = 0;
    while i < line.len()
        invariant
            i <= line@.len(),
            forall|k: int| 0 <= k < i ==> line@[k] != ':',
        decreases line@.len() - i,
    {
        if line[i] == ':' {
            proof {
                lemma_find_char(line@, ':', i as int);
            }
            return Some(i);
        }
        i = i + 1;
    }
    proof {
        lemma_find_char(line@, ':', i as int);
    }
    None
}

fn parse_time_chars(value: &Vec<char>) -> (r: Option<Timestamp>)
    ensures
        r == parsed_time(value@),
{
    let s = string_of(value.as_slice());
    parse_rfc3339(s.as_str())
}

fn front_step_exec(line: &Vec<char>, id: &mut Vec<char>, created: &mut Timestamp, updated: &mut Timestamp)
    ensures
        front_step(FrontMatter { id: old(id)@, created: *old(created), updated: *old(updated) }, line@)
            == (FrontMatter { id: final(id)@, created: *final(created), updated: *final(updated) }),
{
    match find_colon(line) {
        None => {},
        Some(i) => {
            let n = line.len();
            assert(i < n);
            let key = trim_chars(slice_chars(line.as_slice(), 0, i).as_slice());
            let value = trim_chars(slice_chars(line.as_slice(), i + 1, n).as_slice());
            assert(line@.subrange(0, i as int) =~= line@.take(i as int));
            assert(line@.subrange(i + 1, line@.len() as int) =~= line@.skip(i + 1));
            let id_key: [char; 2] = ['i', 'd'];
            let created_key: [char; 7] = ['c', 'r', 'e', 'a', 't', 'e', 'd'];
            let updated_key: [char; 7] = ['u', 'p', 'd', 'a', 't', 'e', 'd'];
            assert(id_key@ =~= seq!['i', 'd']);
            assert(created_key@ =~= seq!['c', 'r', 'e', 'a', 't', 'e', 'd']);
            assert(updated_key@ =~= seq!['u', 'p', 'd', 'a', 't', 'e', 'd']);
            if chars_eq(key.as_slice(), id_key.as_slice()) {
                *id = value;
            } else if chars_eq(key.as_slice(), created_key.as_slice()) {
                if let Some(t) = parse_time_chars(&value) {
                    *created = t;
                }
            } else if chars_eq(key.as_slice(), updated_key.as_slice()) {
                if let Some(t) = parse_time_chars(&value) {
                    *updated = t;
                }
            }
        },
    }
}

fn heading_role_exec(h: &Vec<char>) -> (r: Option<Role>)
    ensures
        r == heading_role(h@),
{
    let user: [char; 4] = ['U', 's', 'e', 'r'];
    let assistant: [char; 9] = ['A', 's', 's', 'i', 's', 't', 'a', 'n', 't'];
    let system: [char; 6] = ['S', 'y', 's', 't', 'e', 'm'];
    let user_icon: [char; 1] = ['👤'];
    let assistant_icon: [char; 1] = ['🤖'];
    let system_icon: [char; 1] = ['📢'];
    assert(user@ =~= user_word());
    assert(assistant@ =~= assistant_word());
    assert(system@ =~= system_word());
    assert(user_icon@ =~= seq!['👤']);
    assert(assistant_icon@ =~= seq!['🤖']);
    assert(system_icon@ =~= seq!['📢']);
    if contains(h.as_slice(), user.as_slice()) || starts_with(h.as_slice(), user_icon.as_slice()) {
        Some(Role::User)
    } else if contains(h.as_slice(), assistant.as_slice()) || starts_with(
        h.as_slice(),
        assistant_icon.as_slice(),
    ) {
        Some(Role::Assistant)
    } else if contains(h.as_slice(), system.as_slice()) || starts_with(
        h.as_slice(),
        system_icon.as_slice(),
    ) {
        Some(Role::System)
    } else {
        None
    }
}

/// The body being read, as executable values.
struct BodyReader {
    name: Vec<char>,
    messages: Vec<Message>,
    role: Option<Role>,
    text: Vec<char>,
}

impl BodyReader {
    closed spec fn state(&self) -> BodyState {
        BodyState {
            name: self.name@,
            messages: message_views(self.messages@),
            role: self.role,
            text: self.text@,
        }
    }

    fn close(&mut self)
        ensures
            final(self).state() == close_message(old(self).state()),
    {
        if let Some(r) = self.role {
            let t = trim_chars(self.text.as_slice());
            if t.len() > 0 {
                let ghost before = message_views(self.messages@);
                self.messages.push(Message::new(r, string_of(t.as_slice())));
                assert(message_views(self.messages@) =~= before.push(read_message(r, t@)));
            }
            self.role = None;
            self.text = Vec::new();
            assert(self.text@ =~= seq![]);
        }
    }

    fn step(&mut self, line: &Vec<char>)
        ensures
            final(self).state() == body_step(old(self).state(), line@),
    {
        let title: [char; 2] = ['#', ' '];
        let heading: [char; 3] = ['#', '#', ' '];
        assert(title@ =~= title_prefix());
        assert(heading@ =~= heading_prefix());
        let ghost st = self.state();
        if starts_with(line.as_slice(), title.as_slice()) {
            self.name = trim_chars(slice_chars(line.as_slice(), 2, line.len()).as_slice());
            assert(line@.subrange(2, line@.len() as int) =~= line@.skip(2));
        } else if starts_with(line.as_slice(), heading.as_slice()) {
            self.close();
            let h = trim_chars(slice_chars(line.as_slice(), 3, line.len()).as_slice());
            assert(line@.subrange(3, line@.len() as int) =~= line@.skip(3));
            self.role = heading_role_exec(&h);
            assert(self.state() == body_step(st, line@));
        } else if self.role.is_some() {
            let ghost t0 = self.text@;
            extend_chars(&mut self.text, line.as_slice());
            self.text.push('\n');
            assert(self.text@ =~= t0 + line@ + nl());
            assert(self.state() == body_step(st, line@));
        } else {
            assert(self.state() == body_step(st, line@));
        }
    }
}

/// The session that a markdown file holds, read as saved at `file_path`,
/// with `now` for the times that the file does not give.
pub fn parse_session_markdown(content: &str, file_path: String, now: Timestamp) -> (s: ChatSession)
    ensures
        s@ == parse_markdown_session(content@, file_path@, now),
{
    let chars = to_chars(content);
    let ls = split_lines(chars.as_slice());
    let ghost gl = lines(content@);
    assert(views(ls@) == gl);
    let fence: [char; 3] = ['-', '-', '-'];
    assert(fence@ =~= fence_line());
    let mut id: Vec<char> = Vec::new();
    let mut created = now;
    let mut updated = now;
    let mut idx: usize = 0;
    assert(id@ =~= seq![]);
    if ls.len() > 0 {
        idx = 1;
        assert(views(ls@)[0] == ls@[0]@);
        if chars_eq(ls[0].as_slice(), fence.as_slice()) {
            assert(gl.skip(1) =~= gl.drop_first());
            loop
                invariant_except_break
                    fence@ == fence_line(),
                    1 <= idx <= ls@.len(),
                    gl == views(ls@),
                    ls@.len() == gl.len(),
                    gl.len() > 0 && gl[0] == fence_line(),
                    read_front(gl.skip(idx as int), FrontMatter { id: id@, created, updated })
                        == read_front(gl.drop_first(), front_start(now)),
                ensures
                    1 <= idx <= ls@.len(),
                    gl == views(ls@),
                    (FrontMatter { id: id@, created, updated }, gl.skip(idx as int))
                        == split_front(gl, now),
                decreases ls@.len() - idx,
            {
                let ghost st = FrontMatter { id: id@, created, updated };
                if idx >= ls.len() {
                    assert(gl.skip(idx as int) =~= seq![]);
                    assert(read_front(gl.skip(idx as int), st) == (st, gl.skip(idx as int)));
                    break ;
                }
                let ghost rest = gl.skip(idx as int);
                assert(rest.len() > 0);
                assert(rest[0] == ls@[idx as int]@);
                assert(rest.drop_first() =~= gl.skip(idx + 1));
                if chars_eq(ls[idx].as_slice(), fence.as_slice()) {
                    assert(read_front(rest, st) == (st, rest.drop_first()));
                    idx = idx + 1;
                    break ;
                }
                assert(read_front(rest, st) == read_front(rest.drop_first(), front_step(st, rest[0])));
                front_step_exec(&ls[idx], &mut id, &mut created, &mut updated);
                idx = idx + 1;
            }
        } else {
            assert(gl.skip(1) =~= gl.drop_first());
        }
    } else {
        assert(gl.skip(0) =~= gl);
    }
    let ghost body = gl.skip(idx as int);
    assert((FrontMatter { id: id@, created, updated }, body) == split_front(gl, now));
    let mut reader = BodyReader {
        name: to_chars("Untitled Chat"),
        messages: Vec::new(),
        role: None,
        text: Vec::new(),
    };
    proof {
        reveal_strlit("Untitled Chat");
        assert(reader.name@ =~= untitled());
        assert(message_views(reader.messages@) =~= seq![]);
        assert(reader.text@ =~= seq![]);
        assert(gl.skip(idx as int) =~= body);
    }
    assert(reader.state() == body_start());
    while idx < ls.len()
        invariant
            idx <= ls@.len(),
            gl == views(ls@),
            ls@.len() == gl.len(),
            read_body(gl.skip(idx as int), reader.state()) == read_body(body, body_start()),
        decreases ls@.len() - idx,
    {
        let ghost rest = gl.skip(idx as int);
        assert(rest[0] == ls@[idx as int]@);
        assert(rest.drop_first() =~= gl.skip(idx + 1));
        reader.step(&ls[idx]);
        idx = idx + 1;
    }
    assert(gl.skip(idx as int) =~= seq![]);
    reader.close();
    ChatSession {
        id: string_of(id.as_slice()),
        name: string_of(reader.name.as_slice()),
        created_at: created,
        updated_at: updated,
        messages: reader.messages,
        file_path: Some(file_path),
    }
}

/// The session that a markdown file holds (`markdown_to_session`), the
/// current time standing for the times that the file does not give.
pub fn markdown_to_session(content: &str, file_path: String) -> (s: ChatSession)
    ensures
        exists|t: Timestamp| s@ == parse_markdown_session(content@, file_path@, t),
{
    let t = now();
    parse_session_markdown(content, file_path, t)
}

// ---------------------------------------------------------------------------
// File names
// ---------------------------------------------------------------------------

/// A character kept as it is in a file name.
pub open spec fn is_name_char(c: char) -> bool {
    ('a' <= c && c <= 'z') || ('A' <= c && c <= 'Z') || ('0' <= c && c <= '9') || c == '-' || c
        == '_'
}

/// A character as written into a file name: kept, a space as `-`, any other as `_`.
pub open spec fn file_char(c: char) -> char {
    if is_name_char(c) {
        c
    } else if c == ' ' {
        '-'
    } else {
        '_'
    }
}

pub open spec fn is_mark(c: char) -> bool {
    c == '-' || c == '_'
}

/// `s` without the `-` and `_` that start it.
pub open spec fn strip_marks_start(s: Seq<char>) -> Seq<char>
    decreases s.len(),
{
    if s.len() > 0 && is_mark(s[0]) {
        strip_marks_start(s.drop_first())
    } else {
        s
    }
}

/// `s` without the `-` and `_` that end it.
pub open spec fn strip_marks_end(s: Seq<char>) -> Seq<char>
    decreases s.len(),
{
    if s.len() > 0 && is_mark(s.last()) {
        strip_marks_end(s.drop_last())
    } else {
        s
    }
}

/// The at most 50 first characters of `name`, each as `file_char` writes
/// it, without leading or trailing `-` and `_`.
pub open spec fn sanitized(name: Seq<char>) -> Seq<char> {
    let n = if name.len() < 50 {
        name.len() as int
    } else {
        50
    };
    strip_marks_end(strip_marks_start(name.take(n).map_values(|c: char| file_char(c))))
}

proof fn lemma_strip_marks_start(s: Seq<char>)
    ensures
        strip_marks_start(s).len() <= s.len(),
        forall|i: int| 0 <= i < strip_marks_start(s).len() ==> #[trigger] strip_marks_start(s)[i]
            == s[i + s.len() - strip_marks_start(s).len()],
        strip_marks_start(s).len() > 0 ==> !is_mark(strip_marks_start(s)[0]),
    decreases s.len(),
{
    if s.len() > 0 && is_mark(s[0]) {
        lemma_strip_marks_start(s.drop_first());
    }
}

proof fn lemma_strip_marks_end(s: Seq<char>)
    ensures
        strip_marks_end(s).len() <= s.len(),
        forall|i: int| 0 <= i < strip_marks_end(s).len() ==> #[trigger] strip_marks_end(s)[i] == s[i],
        strip_marks_end(s).len() > 0 ==> !is_mark(strip_marks_end(s).last()),
    decreases s.len(),
{
    if s.len() > 0 && is_mark(s.last()) {
        lemma_strip_marks_end(s.drop_last());
    }
}

/// A sanitized title is safe in a file name: at most 50 characters, each a
/// letter, a digit, `-` or `_`, and neither its first nor its last one a `-`
/// or `_`.
pub proof fn lemma_sanitized_file_safe(name: Seq<char>)
    ensures
        sanitized(name).len() <= 50,
        forall|i: int| 0 <= i < sanitized(name).len() ==> is_name_char(#[trigger] sanitized(name)[i]),
        sanitized(name).len() > 0 ==> !is_mark(sanitized(name)[0]) && !is_mark(
            sanitized(name).last(),
        ),
{
    let n = if name.len() < 50 {
        name.len() as int
    } else {
        50
    };
    let m = name.take(n).map_values(|c: char| file_char(c));
    let a = strip_marks_start(m);
    lemma_strip_marks_start(m);
    lemma_strip_marks_end(a);
    assert forall|i: int| 0 <= i < sanitized(name).len() implies is_name_char(
        #[trigger] sanitized(name)[i],
    ) by {
        let j = i + m.len() - a.len();
        assert(sanitized(name)[i] == a[i]);
        assert(a[i] == m[j]);
        assert(m[j] == file_char(name.take(n)[j]));
    }
}

/// Sanitizing a sanitized title gives it back: sanitizing twice is
/// sanitizing once.
pub proof fn lemma_sanitized_idempotent(name: Seq<char>)
    ensures
        sanitized(sanitized(name)) == sanitized(name),
{
    let s = sanitized(name);
    lemma_sanitized_file_safe(name);
    assert(s.take(s.len() as int) =~= s);
    let m = s.take(s.len() as int).map_values(|c: char| file_char(c));
    assert(m =~= s) by {
        assert forall|i: int| 0 <= i < s.len() implies m[i] == s[i] by {
            assert(is_name_char(s[i]));
        }
    }
    if s.len() > 0 {
        assert(!is_mark(s[0]));
        assert(!is_mark(s.last()));
    }
    assert(strip_marks_start(s) == s);
    assert(strip_marks_end(s) == s);
}

/// The part of a chat title that can stand in a file name.
pub fn sanitize_filename(name: &str) -> (r: String)
    ensures
        r@ == sanitized(name@),
{
    let chars = to_chars(name);
    let n: usize = if chars.len() < 50 {
        chars.len()
    } else {
        50
    };
    let ghost mapped = name@.take(n as int).map_values(|c: char| file_char(c));
    let mut m: Vec<char> = Vec::new();
    let mut i: usize = 0;
    while i < n
        invariant
            n <= chars@.len(),
            chars@ == name@,
            i <= n,
            mapped == name@.take(n as int).map_values(|c: char| file_char(c)),
            m@ == mapped.take(i as int),
        decreases n - i,
    {
        let c = chars[i];
        let d = if ('a' <= c && c <= 'z') || ('A' <= c && c <= 'Z') || ('0' <= c && c <= '9') || c
            == '-' || c == '_' {
            c
        } else if c == ' ' {
            '-'
        } else {
            '_'
        };
        m.push(d);
        i = i + 1;
        assert(m@ =~= mapped.take(i as int));
    }
    assert(mapped.take(n as int) =~= mapped);
    let mut a: usize = 0;
    assert(mapped.skip(0) =~= mapped);
    while a < m.len() && (m[a] == '-' || m[a] == '_')
        invariant
            m@ == mapped,
            a <= m@.len(),
            strip_marks_start(mapped) == strip_marks_start(mapped.skip(a as int)),
        decreases m@.len() - a,
    {
        assert(mapped.skip(a as int).drop_first() =~= mapped.skip(a + 1));
        a = a + 1;
    }
    let ghost t = mapped.skip(a as int);
    let mut b: usize = m.len();
    while b > a && (m[b - 1] == '-' || m[b - 1] == '_')
        invariant
            m@ == mapped,
            a <= b <= m@.len(),
            strip_marks_end(t) == strip_marks_end(mapped.subrange(a as int, b as int)),
        decreases b,
    {
        assert(mapped.subrange(a as int, b as int).drop_last() =~= mapped.subrange(a as int, b - 1));
        b = b - 1;
    }
    assert(t =~= mapped.subrange(a as int, m@.len() as int));
    string_of(slice_chars(m.as_slice(), a, b).as_slice())
}

/// The `strftime` pattern of the time stamp that starts a chat file name.
pub open spec fn file_stamp_pattern() -> Seq<char> {
    seq!['%', 'Y', '%', 'm', '%', 'd', '_', '%', 'H', '%', 'M', '%', 'S']
}

/// The time stamp of a chat file name, as `chrono` writes it, empty where
/// `chrono` has no such instant.
pub open spec fn file_stamp(t: Timestamp) -> Seq<char> {
    match chrono_strftime(t.secs, t.nanos, file_stamp_pattern()) {
        Some(s) => s,
        None => seq![],
    }
}

/// The file name under which a new chat is saved: its creation time stamp,
/// then `_` and its sanitized title if that is not empty, then `.md`.
pub open spec fn chat_file_name_text(stamp: Seq<char>, name: Seq<char>) -> Seq<char> {
    let s = sanitized(name);
    if s.len() == 0 {
        stamp + seq!['.', 'm', 'd']
    } else {
        stamp + seq!['_'] + s + seq!['.', 'm', 'd']
    }
}

/// The file name under which `session` is saved when it has none yet.
pub fn chat_file_name(session: &ChatSession) -> (r: String)
    ensures
        r@ == chat_file_name_text(file_stamp(session.created_at), session.name@),
{
    proof {
        reveal_strlit("%Y%m%d_%H%M%S");
    }
    let pattern = "%Y%m%d_%H%M%S";
    assert(pattern@ =~= file_stamp_pattern());
    assert(is_simple_pattern(pattern@)) by {
        assert forall|i: int| 0 <= i < pattern@.len() && #[trigger] pattern@[i] == '%' implies i + 1
            < pattern@.len() && (pattern@[i + 1] == 'Y' || pattern@[i + 1] == 'm' || pattern@[i + 1]
            == 'd' || pattern@[i + 1] == 'H' || pattern@[i + 1] == 'M' || pattern@[i + 1] == 'S') && (i
            == 0 || pattern@[i - 1] != '%') by {
            assert(i == 0 || i == 2 || i == 4 || i == 7 || i == 9 || i == 11);
        }
    }
    let mut r = match format_pattern(session.created_at, pattern) {
        Some(s) => s,
        None => String::new(),
    };
    let s = sanitize_filename(session.name.as_str());
    if s.as_str().unicode_len() > 0 {
        r.append("_");
        r.append(s.as_str());
        proof {
            reveal_strlit("_");
        }
    }
    r.append(".md");
    proof {
        reveal_strlit(".md");
    }
    assert(r@ =~= chat_file_name_text(file_stamp(session.created_at), session.name@));
    r
}

// ---------------------------------------------------------------------------
// The order of the chat list
// ---------------------------------------------------------------------------

/// Each session was created no earlier than the ones after it.
pub open spec fn newest_first(v: Seq<ChatSession>) -> bool {
    forall|i: int, j: int|
        0 <= i < j < v.len() ==> !earlier(#[trigger] v[i].created_at, #[trigger] v[j].created_at)
}

/// The position before the first session of `o` created before `t`, or the
/// end of `o`.
pub open spec fn older_index(o: Seq<ChatSession>, t: Timestamp) -> int
    decreases o.len(),
{
    if o.len() == 0 {
        0
    } else if earlier(o[0].created_at, t) {
        0
    } else {
        1 + older_index(o.drop_first(), t)
    }
}

/// The sessions ordered by creation time, newest first, those created at
/// the same time in their order in `s`: each one in turn goes after all the
/// ones placed before it that were not created before it.
pub open spec fn newest_first_order(s: Seq<ChatSession>) -> Seq<ChatSession>
    decreases s.len(),
{
    if s.len() == 0 {
        seq![]
    } else {
        let r = newest_first_order(s.drop_last());
        r.insert(older_index(r, s.last().created_at), s.last())
    }
}

proof fn lemma_older_index(o: Seq<ChatSession>, t: Timestamp, p: int)
    requires
        0 <= p <= o.len(),
        forall|k: int| 0 <= k < p ==> !earlier(#[trigger] o[k].created_at, t),
        p == o.len() || earlier(o[p].created_at, t),
    ensures
        older_index(o, t) == p,
    decreases o.len(),
{
    if p > 0 {
        assert(!earlier(o[0].created_at, t));
        assert forall|k: int| 0 <= k < p - 1 implies !earlier(#[trigger] o.drop_first()[k].created_at, t) by {
            assert(o.drop_first()[k] == o[k + 1]);
        }
        lemma_older_index(o.drop_first(), t, p - 1);
    }
}

/// The sessions ordered by creation time, newest first; sessions created at
/// the same time keep their order.
pub fn sort_newest_first(sessions: Vec<ChatSession>) -> (r: Vec<ChatSession>)
    ensures
        r@ == newest_first_order(sessions@),
        r@.to_multiset() == sessions@.to_multiset(),
        newest_first(r@),
{
    broadcast use vstd::seq_lib::group_to_multiset_ensures;

    let ghost orig = sessions@;
    let mut rest = sessions;
    let mut out: Vec<ChatSession> = Vec::new();
    assert(orig.skip(0) =~= orig);
    while rest.len() > 0
        invariant
            out@.to_multiset().add(rest@.to_multiset()) == orig.to_multiset(),
            newest_first(out@),
            rest@.len() <= orig.len(),
            rest@ == orig.skip(orig.len() - rest@.len()),
            out@ == newest_first_order(orig.take(orig.len() - rest@.len())),
        decreases rest@.len(),
    {
        let ghost r0 = rest@;
        let ghost k = orig.len() - rest@.len();
        let s = rest.remove(0);
        assert(orig.take(k + 1).drop_last() =~= orig.take(k));
        assert(orig.skip(k)[0] == orig[k]);
        assert(orig.take(k + 1).last() == s);
        assert(rest@ =~= orig.skip(k + 1));
        assert(r0 =~= seq![s] + rest@);
        proof {
            assert(rest@ =~= r0.remove(0));
            vstd::seq_lib::to_multiset_remove(r0, 0);
            vstd::seq_lib::to_multiset_contains(r0, s);
        }
        let mut p: usize = 0;
        while p < out.len() && !is_earlier(out[p].created_at, s.created_at)
            invariant
                p <= out@.len(),
                forall|k: int| 0 <= k < p ==> !earlier(out@[k].created_at, s.created_at),
            decreases out@.len() - p,
        {
            p = p + 1;
        }
        let ghost o0 = out@;
        proof {
            lemma_older_index(o0, s.created_at, p as int);
        }
        out.insert(p, s);
        assert(out@ == o0.insert(p as int, s));
        proof {
            broadcast use vstd::multiset::group_multiset_axioms;

            vstd::seq_lib::to_multiset_insert(o0, p as int, s);
            assert(out@.to_multiset().add(rest@.to_multiset()) =~= o0.to_multiset().add(
                r0.to_multiset(),
            ));
        }
        assert forall|i: int, j: int| 0 <= i < j < out@.len() implies !earlier(
            #[trigger] out@[i].created_at,
            #[trigger] out@[j].created_at,
        ) by {
            if j < p {
                assert(out@[i] == o0[i] && out@[j] == o0[j]);
            } else if j == p {
                assert(out@[i] == o0[i]);
            } else if i == p {
                assert(out@[j] == o0[j - 1]);
                assert(earlier(o0[p as int].created_at, s.created_at));
                if j - 1 > p {
                    assert(!earlier(o0[p as int].created_at, o0[j - 1].created_at));
                }
            } else if i < p {
                assert(out@[i] == o0[i] && out@[j] == o0[j - 1]);
            } else {
                assert(out@[i] == o0[i - 1] && out@[j] == o0[j - 1]);
            }
        }
    }
    assert(orig.take(orig.len() as int) =~= orig);
    out
}

// ---------------------------------------------------------------------------
// Reading back what was written
// ---------------------------------------------------------------------------

/// The pieces of `s` between its `'\n'` characters (`str::split('\n')`),
/// `cur` holding the characters already read of the current piece.
pub open spec fn pieces_from(s: Seq<char>, cur: Seq<char>) -> Seq<Seq<char>>
    decreases s.len(),
{
    if s.len() == 0 {
        seq![cur]
    } else if s[0] == '\n' {
        seq![cur] + pieces_from(s.drop_first(), seq![])
    } else {
        pieces_from(s.drop_first(), cur.push(s[0]))
    }
}

/// The lines of a message text, an empty last line included.
pub open spec fn text_lines(c: Seq<char>) -> Seq<Seq<char>> {
    pieces_from(c, seq![])
}

/// Text on one line: neither `'\n'` nor `'\r'` in it.
pub open spec fn single_line(s: Seq<char>) -> bool {
    forall|i: int| 0 <= i < s.len() ==> s[i] != '\n' && s[i] != '\r'
}

/// A line that the body reader takes as message text: not a title, not a heading.
pub open spec fn is_body_line(l: Seq<char>) -> bool {
    !has_prefix(l, title_prefix()) && !has_prefix(l, heading_prefix())
}

/// A message text that a saved file keeps to its own message: without
/// `'\r'`, and without a line that reads as a title or a heading.
pub open spec fn writable_text(c: Seq<char>) -> bool {
    &&& forall|i: int| 0 <= i < c.len() ==> c[i] != '\r'
    &&& forall|k: int| 0 <= k < text_lines(c).len() ==> is_body_line(#[trigger] text_lines(c)[k])
}

/// A one-line field that a saved file gives back unchanged.
pub open spec fn storable_field(s: Seq<char>) -> bool {
    single_line(s) && is_trimmed(s)
}

/// The messages that reading back a file gives for `ms`: each message whose
/// text is more than white space, with its role and its trimmed text, in
/// order; thinking parts are not saved.
pub open spec fn read_back_messages(ms: Seq<MessageView>) -> Seq<MessageView>
    decreases ms.len(),
{
    if ms.len() == 0 {
        seq![]
    } else {
        let r = read_back_messages(ms.drop_last());
        if trim(ms.last().content).len() > 0 {
            r.push(read_message(ms.last().role, trim(ms.last().content)))
        } else {
            r
        }
    }
}

/// The time a front-matter text gives, `now` where `chrono` does not accept it.
pub open spec fn time_or(text: Seq<char>, now: Timestamp) -> Timestamp {
    match parsed_time(text) {
        Some(t) => t,
        None => now,
    }
}

/// Saving a session to its markdown file and reading the file back gives
/// the session back: its id, its title, its times and the file's path, and
/// each message whose text is more than white space, with its role and its
/// trimmed text (blank messages and thinking parts are not read back). It
/// holds for one-line trimmed ids and titles, message texts without `'\r'`
/// and without a line that reads as a title or heading, and times that
/// `chrono` writes and reads back; `session_to_markdown` states both of the
/// times of any session whose times fall in the years 0 to 9999 and on no
/// leap second, which holds of every time that the clock gives up to the
/// year 9999.
pub proof fn lemma_session_file_round_trip(s: SessionView, path: Seq<char>, now: Timestamp)
    requires
        storable_field(s.id),
        storable_field(s.name),
        forall|i: int| 0 <= i < s.messages.len() ==> writable_text(#[trigger] s.messages[i].content),
        chrono_rfc3339(s.created_at.secs, s.created_at.nanos) is Some,
        chrono_rfc3339(s.updated_at.secs, s.updated_at.nanos) is Some,
        rfc3339_reads_back(s.created_at),
        rfc3339_reads_back(s.updated_at),
        storable_field(rfc3339_text(s.created_at)),
        storable_field(rfc3339_text(s.updated_at)),
    ensures
        parse_markdown_session(session_markdown(s), path, now) == (SessionView {
            messages: read_back_messages(s.messages),
            file_path: Some(path),
            ..s
        }),
{
    lemma_markdown_round_trip(
        s.id,
        rfc3339_text(s.created_at),
        rfc3339_text(s.updated_at),
        s.name,
        s.messages,
        path,
        now,
    );
    assert(time_or(rfc3339_text(s.created_at), now) == s.created_at);
    assert(time_or(rfc3339_text(s.updated_at), now) == s.updated_at);
}

/// Reading back a rendered file gives back the id, the title and each
/// message that is more than white space, with its role and trimmed text;
/// the times are what `chrono` reads from the texts written for them.
pub proof fn lemma_markdown_round_trip(
    id: Seq<char>,
    created: Seq<char>,
    updated: Seq<char>,
    name: Seq<char>,
    ms: Seq<MessageView>,
    path: Seq<char>,
    now: Timestamp,
)
    requires
        storable_field(id),
        storable_field(created),
        storable_field(updated),
        storable_field(name),
        forall|i: int| 0 <= i < ms.len() ==> writable_text(#[trigger] ms[i].content),
    ensures
        parse_markdown_session(markdown_text(id, created, updated, name, ms), path, now) == (
        SessionView {
            id,
            name,
            created_at: time_or(created, now),
            updated_at: time_or(updated, now),
            messages: read_back_messages(ms),
            file_path: Some(path),
        }),
{
    let text = markdown_text(id, created, updated, name, ms);
    let fl = front_lines(id, created, updated);
    let tl = title_lines(name);
    let ml = messages_lines(ms);
    let all = fl + tl + ml;
    lemma_markdown_lines(id, created, updated, name, ms);
    assert(unlines(all) == text);
    lemma_markdown_lines_plain(id, created, updated, name, ms);
    lemma_lines_unlines(all);
    assert(lines(text) == all);
    // front matter
    assert(all[0] == fence_line());
    let f0 = front_start(now);
    lemma_front_lines(id, created, updated, tl + ml, now);
    assert(all.drop_first() =~= fl.drop_first() + (tl + ml));
    let f = FrontMatter { id, created: time_or(created, now), updated: time_or(updated, now) };
    assert(split_front(all, now) == (f, tl + ml));
    // body
    lemma_read_body_append(tl, ml, body_start());
    lemma_title_lines(name);
    let st1 = BodyState { name, messages: seq![], role: None, text: seq![] };
    assert(read_body(tl, body_start()) == st1);
    lemma_read_messages(name, ms);
    let b = close_message(read_body(tl + ml, body_start()));
    lemma_close_after_messages(name, ms);
    assert(b == BodyState { name, messages: read_back_messages(ms), role: None, text: seq![] });
}

pub open spec fn front_lines(id: Seq<char>, created: Seq<char>, updated: Seq<char>) -> Seq<Seq<char>> {
    seq![
        fence_line(),
        id_prefix() + id,
        created_prefix() + created,
        updated_prefix() + updated,
        fence_line(),
    ]
}

pub open spec fn title_lines(name: Seq<char>) -> Seq<Seq<char>> {
    seq![seq![], title_prefix() + name, seq![]]
}

pub open spec fn message_lines(m: MessageView) -> Seq<Seq<char>> {
    seq![role_heading(m.role), seq![]] + text_lines(m.content) + seq![seq![]]
}

pub open spec fn messages_lines(ms: Seq<MessageView>) -> Seq<Seq<char>>
    decreases ms.len(),
{
    if ms.len() == 0 {
        seq![]
    } else {
        messages_lines(ms.drop_last()) + message_lines(ms.last())
    }
}

proof fn lemma_unlines_one(a: Seq<char>)
    ensures
        unlines(seq![a]) == a + nl(),
{
    assert(seq![a].drop_first() =~= Seq::<Seq<char>>::empty());
    assert(unlines(Seq::<Seq<char>>::empty()) == Seq::<char>::empty());
    assert(a + nl() + Seq::<char>::empty() =~= a + nl());
}

proof fn lemma_unlines_seq(ls: Seq<Seq<char>>)
    requires
        ls.len() > 0,
    ensures
        unlines(ls) == ls[0] + nl() + unlines(ls.drop_first()),
{
}

proof fn lemma_unlines_pieces(s: Seq<char>, cur: Seq<char>)
    ensures
        unlines(pieces_from(s, cur)) == cur + s + nl(),
    decreases s.len(),
{
    if s.len() == 0 {
        lemma_unlines_one(cur);
        assert(cur + s =~= cur);
    } else if s[0] == '\n' {
        let rest = pieces_from(s.drop_first(), seq![]);
        lemma_unlines_pieces(s.drop_first(), seq![]);
        lemma_unlines_append(seq![cur], rest);
        lemma_unlines_one(cur);
        assert(seq![] + s.drop_first() =~= s.drop_first());
        assert(cur + nl() + (s.drop_first() + nl()) =~= cur + s + nl());
    } else {
        lemma_unlines_pieces(s.drop_first(), cur.push(s[0]));
        assert(cur.push(s[0]) + s.drop_first() =~= cur + s);
    }
}

proof fn lemma_pieces_single(s: Seq<char>, cur: Seq<char>)
    requires
        single_line(cur),
        forall|i: int| 0 <= i < s.len() ==> s[i] != '\r',
    ensures
        forall|k: int| 0 <= k < pieces_from(s, cur).len() ==> single_line(#[trigger] pieces_from(s, cur)[k]),
    decreases s.len(),
{
    if s.len() == 0 {
        assert(pieces_from(s, cur) == seq![cur]);
    } else if s[0] == '\n' {
        lemma_pieces_single(s.drop_first(), seq![]);
        let rest = pieces_from(s.drop_first(), seq![]);
        assert forall|k: int| 0 <= k < pieces_from(s, cur).len() implies single_line(
            #[trigger] pieces_from(s, cur)[k],
        ) by {
            if k > 0 {
                assert(pieces_from(s, cur)[k] == rest[k - 1]);
            }
        }
    } else {
        assert(s[0] != '\r');
        assert forall|i: int| 0 <= i < cur.push(s[0]).len() implies cur.push(s[0])[i] != '\n'
            && cur.push(s[0])[i] != '\r' by {
            if i < cur.len() {
                assert(cur.push(s[0])[i] == cur[i]);
            }
        }
        assert forall|i: int| 0 <= i < s.drop_first().len() implies s.drop_first()[i] != '\r' by {
            assert(s.drop_first()[i] == s[i + 1]);
        }
        lemma_pieces_single(s.drop_first(), cur.push(s[0]));
        assert(pieces_from(s, cur) == pieces_from(s.drop_first(), cur.push(s[0])));
    }
}

proof fn lemma_single_plain(s: Seq<char>)
    requires
        single_line(s),
    ensures
        is_plain_line(s),
{
    if s.len() > 0 {
        assert(s.last() == s[s.len() - 1]);
    }
}

proof fn lemma_prefixed_single(p: Seq<char>, s: Seq<char>)
    requires
        single_line(p),
        single_line(s),
    ensures
        single_line(p + s),
{
    assert forall|i: int| 0 <= i < (p + s).len() implies (p + s)[i] != '\n' && (p + s)[i] != '\r' by {
        if i < p.len() {
            assert((p + s)[i] == p[i]);
        } else {
            assert((p + s)[i] == s[i - p.len()]);
        }
    }
}

proof fn lemma_heading_facts(r: Role)
    ensures
        !has_prefix(role_heading(r), title_prefix()),
        has_prefix(role_heading(r), heading_prefix()),
        heading_role(trim(role_heading(r).skip(3))) == Some(r),
        single_line(role_heading(r)),
{
    let h = role_heading(r);
    let t = h.skip(3);
    assert(h.subrange(0, 2)[1] == '#');
    assert(h.subrange(0, 3) =~= heading_prefix());
    assert(is_trimmed(t));
    lemma_trim_trimmed(t);
    match r {
        Role::User => {
            assert(occurs_at(t, user_word(), 2)) by {
                assert(t.subrange(2, 6) =~= user_word());
            }
        },
        Role::Assistant => {
            assert forall|i: int| !occurs_at(t, user_word(), i) by {
                if occurs_at(t, user_word(), i) {
                    assert(t.subrange(i, i + 4)[0] == 'U');
                }
            }
            assert(!has_prefix(t, seq!['👤'])) by {
                assert(t.subrange(0, 1)[0] != '👤');
            }
            assert(occurs_at(t, assistant_word(), 2)) by {
                assert(t.subrange(2, 11) =~= assistant_word());
            }
        },
        Role::System => {
            assert forall|i: int| !occurs_at(t, user_word(), i) by {
                if occurs_at(t, user_word(), i) {
                    assert(t.subrange(i, i + 4)[0] == 'U');
                }
            }
            assert forall|i: int| !occurs_at(t, assistant_word(), i) by {
                if occurs_at(t, assistant_word(), i) {
                    assert(t.subrange(i, i + 9)[0] == 'A');
                }
            }
            assert(!has_prefix(t, seq!['👤'])) by {
                assert(t.subrange(0, 1)[0] != '👤');
            }
            assert(!has_prefix(t, seq!['🤖'])) by {
                assert(t.subrange(0, 1)[0] != '🤖');
            }
            assert(occurs_at(t, system_word(), 2)) by {
                assert(t.subrange(2, 8) =~= system_word());
            }
        },
    }
}

proof fn lemma_message_lines_single(m: MessageView)
    requires
        writable_text(m.content),
    ensures
        forall|k: int| 0 <= k < message_lines(m).len() ==> single_line(#[trigger] message_lines(m)[k]),
{
    lemma_heading_facts(m.role);
    lemma_pieces_single(m.content, seq![]);
    let ls = message_lines(m);
    let p = text_lines(m.content);
    assert forall|k: int| 0 <= k < ls.len() implies single_line(#[trigger] ls[k]) by {
        if k == 0 {
        } else if k == 1 {
        } else if k < 2 + p.len() {
            assert(ls[k] == p[k - 2]);
        } else {
            assert(ls[k] == Seq::<char>::empty());
        }
    }
}

proof fn lemma_messages_lines_single(ms: Seq<MessageView>)
    requires
        forall|i: int| 0 <= i < ms.len() ==> writable_text(#[trigger] ms[i].content),
    ensures
        forall|k: int| 0 <= k < messages_lines(ms).len() ==> single_line(#[trigger] messages_lines(ms)[k]),
    decreases ms.len(),
{
    if ms.len() > 0 {
        let a = messages_lines(ms.drop_last());
        let b = message_lines(ms.last());
        assert forall|i: int| 0 <= i < ms.drop_last().len() implies writable_text(
            #[trigger] ms.drop_last()[i].content,
        ) by {
            assert(ms.drop_last()[i] == ms[i]);
        }
        lemma_messages_lines_single(ms.drop_last());
        assert(ms.last() == ms[ms.len() - 1]);
        lemma_message_lines_single(ms.last());
        assert forall|k: int| 0 <= k < (a + b).len() implies single_line(#[trigger] (a + b)[k]) by {
            if k < a.len() {
                assert((a + b)[k] == a[k]);
            } else {
                assert((a + b)[k] == b[k - a.len()]);
            }
        }
    }
}

proof fn lemma_markdown_lines_plain(
    id: Seq<char>,
    created: Seq<char>,
    updated: Seq<char>,
    name: Seq<char>,
    ms: Seq<MessageView>,
)
    requires
        storable_field(id),
        storable_field(created),
        storable_field(updated),
        storable_field(name),
        forall|i: int| 0 <= i < ms.len() ==> writable_text(#[trigger] ms[i].content),
    ensures
        forall|k: int|
            0 <= k < (front_lines(id, created, updated) + title_lines(name) + messages_lines(ms)).len()
                ==> is_plain_line(
                #[trigger] (front_lines(id, created, updated) + title_lines(name) + messages_lines(
                    ms,
                ))[k],
            ),
{
    let fl = front_lines(id, created, updated);
    let tl = title_lines(name);
    let ml = messages_lines(ms);
    lemma_prefixed_single(id_prefix(), id);
    lemma_prefixed_single(created_prefix(), created);
    lemma_prefixed_single(updated_prefix(), updated);
    lemma_prefixed_single(title_prefix(), name);
    lemma_messages_lines_single(ms);
    let all = fl + tl + ml;
    assert forall|k: int| 0 <= k < all.len() implies is_plain_line(#[trigger] all[k]) by {
        if k < fl.len() {
            assert(all[k] == fl[k]);
            assert(single_line(fl[k]));
        } else if k < fl.len() + tl.len() {
            assert(all[k] == tl[k - fl.len()]);
            assert(single_line(tl[k - fl.len()]));
        } else {
            assert(all[k] == ml[k - fl.len() - tl.len()]);
        }
        lemma_single_plain(all[k]);
    }
}

proof fn lemma_unlines_message(m: MessageView)
    ensures
        unlines(message_lines(m)) == message_md(m),
{
    let h = role_heading(m.role);
    let p = text_lines(m.content);
    lemma_unlines_append(seq![h, seq![]] + p, seq![seq![]]);
    lemma_unlines_append(seq![h, seq![]], p);
    lemma_unlines_seq(seq![h, seq![]]);
    assert(seq![h, Seq::<char>::empty()].drop_first() =~= seq![Seq::<char>::empty()]);
    lemma_unlines_one(seq![]);
    lemma_unlines_one(h);
    lemma_unlines_pieces(m.content, seq![]);
    assert(unlines(message_lines(m)) =~= message_md(m));
}

proof fn lemma_unlines_messages(ms: Seq<MessageView>)
    ensures
        unlines(messages_lines(ms)) == messages_md(ms),
    decreases ms.len(),
{
    if ms.len() > 0 {
        lemma_unlines_messages(ms.drop_last());
        lemma_unlines_append(messages_lines(ms.drop_last()), message_lines(ms.last()));
        lemma_unlines_message(ms.last());
    } else {
        assert(unlines(messages_lines(ms)) == Seq::<char>::empty());
    }
}

#[verifier::spinoff_prover]
#[verifier::rlimit(40)]
proof fn lemma_markdown_lines(
    id: Seq<char>,
    created: Seq<char>,
    updated: Seq<char>,
    name: Seq<char>,
    ms: Seq<MessageView>,
)
    ensures
        unlines(front_lines(id, created, updated) + title_lines(name) + messages_lines(ms))
            == markdown_text(id, created, updated, name, ms),
{
    let fl = front_lines(id, created, updated);
    let tl = title_lines(name);
    let ml = messages_lines(ms);
    lemma_unlines_append(fl + tl, ml);
    lemma_unlines_append(fl, tl);
    lemma_unlines_messages(ms);
    let f1 = fl.drop_first();
    let f2 = f1.drop_first();
    let f3 = f2.drop_first();
    let f4 = f3.drop_first();
    lemma_unlines_seq(fl);
    lemma_unlines_seq(f1);
    lemma_unlines_seq(f2);
    lemma_unlines_seq(f3);
    assert(f4 =~= seq![fence_line()]);
    lemma_unlines_one(fence_line());
    let t1 = tl.drop_first();
    lemma_unlines_seq(tl);
    lemma_unlines_seq(t1);
    assert(t1.drop_first() =~= seq![Seq::<char>::empty()]);
    lemma_unlines_one(seq![]);
    assert(unlines(fl + tl + ml) =~= markdown_text(id, created, updated, name, ms));
}

proof fn lemma_trim_space_prefix(x: Seq<char>)
    requires
        is_trimmed(x),
    ensures
        trim(seq![' '] + x) == x,
{
    if x.len() > 0 {
        lemma_trim_padded(seq![' '], x, seq![]);
        assert(seq![' '] + x + seq![] =~= seq![' '] + x);
    } else {
        let s = seq![' '] + x;
        assert(s =~= seq![' ']);
        assert(s.drop_first() =~= Seq::<char>::empty());
        assert(is_ws(s[0]));
        assert(trim_start(Seq::<char>::empty()) == Seq::<char>::empty());
        assert(trim_start(s) == Seq::<char>::empty());
        assert(trim_end(Seq::<char>::empty()) == Seq::<char>::empty());
    }
}

/// One front-matter line `key: value` with a one-word key.
proof fn lemma_front_entry(key: Seq<char>, value: Seq<char>)
    requires
        key.len() > 0,
        is_trimmed(key),
        forall|i: int| 0 <= i < key.len() ==> key[i] != ':',
        is_trimmed(value),
    ensures
        find_char(key + seq![':', ' '] + value, ':') == key.len(),
        trim((key + seq![':', ' '] + value).take(key.len() as int)) == key,
        trim((key + seq![':', ' '] + value).skip(key.len() as int + 1)) == value,
{
    let line = key + seq![':', ' '] + value;
    assert forall|k: int| 0 <= k < key.len() implies line[k] != ':' by {
        assert(line[k] == key[k]);
    }
    lemma_find_char(line, ':', key.len() as int);
    assert(line.take(key.len() as int) =~= key);
    lemma_trim_trimmed(key);
    assert(line.skip(key.len() as int + 1) =~= seq![' '] + value);
    lemma_trim_space_prefix(value);
}

proof fn lemma_front_lines(
    id: Seq<char>,
    created: Seq<char>,
    updated: Seq<char>,
    rest: Seq<Seq<char>>,
    now: Timestamp,
)
    requires
        storable_field(id),
        storable_field(created),
        storable_field(updated),
    ensures
        read_front(front_lines(id, created, updated).drop_first() + rest, front_start(now)) == (
        FrontMatter { id, created: time_or(created, now), updated: time_or(updated, now) },
        rest),
{
    let k_id = seq!['i', 'd'];
    let k_created = seq!['c', 'r', 'e', 'a', 't', 'e', 'd'];
    let k_updated = seq!['u', 'p', 'd', 'a', 't', 'e', 'd'];
    assert(id_prefix() =~= k_id + seq![':', ' ']);
    assert(created_prefix() =~= k_created + seq![':', ' ']);
    assert(updated_prefix() =~= k_updated + seq![':', ' ']);
    lemma_front_entry(k_id, id);
    lemma_front_entry(k_created, created);
    lemma_front_entry(k_updated, updated);
    let l1 = id_prefix() + id;
    let l2 = created_prefix() + created;
    let l3 = updated_prefix() + updated;
    assert(l1 =~= k_id + seq![':', ' '] + id);
    assert(l2 =~= k_created + seq![':', ' '] + created);
    assert(l3 =~= k_updated + seq![':', ' '] + updated);
    let ls0 = front_lines(id, created, updated).drop_first() + rest;
    assert(ls0 =~= seq![l1, l2, l3, fence_line()] + rest);
    let f0 = front_start(now);
    assert(l1[0] == 'i' && l2[0] == 'c' && l3[0] == 'u');
    assert(l1 != fence_line() && l2 != fence_line() && l3 != fence_line());
    assert(k_created != k_id);
    assert(k_updated != k_id && k_updated != k_created);
    let f1 = front_step(f0, l1);
    assert(f1 == FrontMatter { id, ..f0 });
    let f2 = front_step(f1, l2);
    assert(f2 == FrontMatter { id, created: time_or(created, now), updated: now });
    let f3 = front_step(f2, l3);
    assert(f3 == FrontMatter { id, created: time_or(created, now), updated: time_or(updated, now) });
    let ls1 = ls0.drop_first();
    let ls2 = ls1.drop_first();
    let ls3 = ls2.drop_first();
    assert(ls1 =~= seq![l2, l3, fence_line()] + rest);
    assert(ls2 =~= seq![l3, fence_line()] + rest);
    assert(ls3 =~= seq![fence_line()] + rest);
    assert(ls3.drop_first() =~= rest);
    assert(read_front(ls3, f3) == (f3, rest));
    assert(read_front(ls2, f2) == read_front(ls3, f3));
    assert(read_front(ls1, f1) == read_front(ls2, f2));
    assert(read_front(ls0, f0) == read_front(ls1, f1));
}

proof fn lemma_read_body_append(a: Seq<Seq<char>>, b: Seq<Seq<char>>, st: BodyState)
    ensures
        read_body(a + b, st) == read_body(b, read_body(a, st)),
    decreases a.len(),
{
    if a.len() == 0 {
        assert(a + b =~= b);
    } else {
        assert((a + b).drop_first() =~= a.drop_first() + b);
        assert((a + b)[0] == a[0]);
        lemma_read_body_append(a.drop_first(), b, body_step(st, a[0]));
    }
}

proof fn lemma_title_lines(name: Seq<char>)
    requires
        storable_field(name),
    ensures
        read_body(title_lines(name), body_start()) == (BodyState {
            name,
            messages: seq![],
            role: None,
            text: seq![],
        }),
{
    let tl = title_lines(name);
    let e = Seq::<char>::empty();
    let l = title_prefix() + name;
    assert(!has_prefix(e, title_prefix()));
    assert(!has_prefix(e, heading_prefix()));
    assert(l.subrange(0, 2) =~= title_prefix());
    assert(l.skip(2) =~= name);
    lemma_trim_trimmed(name);
    let s0 = body_start();
    let s1 = body_step(s0, e);
    assert(s1 == s0);
    let s2 = body_step(s1, l);
    assert(s2 == BodyState { name, messages: seq![], role: None, text: seq![] });
    let s3 = body_step(s2, e);
    assert(s3 == s2);
    let t1 = tl.drop_first();
    let t2 = t1.drop_first();
    assert(t1 =~= seq![l, e]);
    assert(t2 =~= seq![e]);
    assert(t2.drop_first() =~= Seq::<Seq<char>>::empty());
    assert(read_body(t2, s2) == read_body(t2.drop_first(), s3));
    assert(read_body(t1, s1) == read_body(t2, s2));
    assert(read_body(tl, s0) == read_body(t1, s1));
}

/// Text lines of a message are appended to the message being read.
proof fn lemma_read_text_lines(p: Seq<Seq<char>>, st: BodyState)
    requires
        st.role is Some,
        forall|k: int| 0 <= k < p.len() ==> is_body_line(#[trigger] p[k]),
    ensures
        read_body(p, st) == (BodyState { text: st.text + unlines(p), ..st }),
    decreases p.len(),
{
    if p.len() == 0 {
        assert(st.text + unlines(p) =~= st.text);
    } else {
        assert(is_body_line(p[0]));
        let st1 = body_step(st, p[0]);
        assert(st1 == BodyState { text: st.text + p[0] + nl(), ..st });
        let rest = p.drop_first();
        assert forall|k: int| 0 <= k < rest.len() implies is_body_line(#[trigger] rest[k]) by {
            assert(rest[k] == p[k + 1]);
        }
        lemma_read_text_lines(rest, st1);
        assert(st.text + p[0] + nl() + unlines(rest) =~= st.text + unlines(p));
    }
}

proof fn lemma_read_message_block(st: BodyState, m: MessageView)
    requires
        writable_text(m.content),
        st.role is None ==> st.text.len() == 0,
    ensures
        read_body(message_lines(m), st) == (BodyState {
            role: Some(m.role),
            text: nl() + m.content + nl() + nl(),
            ..close_message(st)
        }),
{
    let h = role_heading(m.role);
    let e = Seq::<char>::empty();
    let p = text_lines(m.content);
    lemma_heading_facts(m.role);
    let s1 = body_step(st, h);
    let c = close_message(st);
    assert(s1 == BodyState { role: Some(m.role), ..c });
    assert(!has_prefix(e, title_prefix()));
    assert(!has_prefix(e, heading_prefix()));
    let s2 = body_step(s1, e);
    assert(s2 == BodyState { text: c.text + nl(), ..s1 });
    assert(c.text.len() == 0);
    assert(c.text + nl() =~= nl());
    let a = seq![h, e];
    assert(a.drop_first() =~= seq![e]);
    assert(seq![e].drop_first() =~= Seq::<Seq<char>>::empty());
    assert(read_body(seq![e], s1) == read_body(Seq::<Seq<char>>::empty(), s2));
    assert(read_body(a, st) == s2);
    lemma_read_body_append(a + p, seq![e], st);
    lemma_read_body_append(a, p, st);
    assert forall|k: int| 0 <= k < p.len() implies is_body_line(#[trigger] p[k]) by {}
    lemma_read_text_lines(p, s2);
    lemma_unlines_pieces(m.content, seq![]);
    let s3 = read_body(p, s2);
    assert(s3 == BodyState { text: nl() + (seq![] + m.content + nl()), ..s2 });
    let s4 = body_step(s3, e);
    assert(seq![e].drop_first() =~= Seq::<Seq<char>>::empty());
    assert(seq![e][0] == e);
    assert(read_body(Seq::<Seq<char>>::empty(), s4) == s4);
    assert(read_body(seq![e], s3) == read_body(seq![e].drop_first(), s4));
    assert(read_body(seq![e], s3) == s4);
    assert(s4.text =~= nl() + m.content + nl() + nl());
}

/// What reading the lines of the messages `ms` leaves: the last message
/// still open.
pub open spec fn after_messages(name: Seq<char>, ms: Seq<MessageView>) -> BodyState {
    if ms.len() == 0 {
        BodyState { name, messages: seq![], role: None, text: seq![] }
    } else {
        BodyState {
            name,
            messages: read_back_messages(ms.drop_last()),
            role: Some(ms.last().role),
            text: nl() + ms.last().content + nl() + nl(),
        }
    }
}

proof fn lemma_close_after_messages(name: Seq<char>, ms: Seq<MessageView>)
    requires
        forall|i: int| 0 <= i < ms.len() ==> writable_text(#[trigger] ms[i].content),
    ensures
        close_message(after_messages(name, ms)) == (BodyState {
            name,
            messages: read_back_messages(ms),
            role: None,
            text: seq![],
        }),
{
    if ms.len() == 0 {
        assert(read_back_messages(ms) =~= seq![]);
    } else {
        let m = ms.last();
        assert forall|i: int| 0 <= i < nl().len() implies is_ws(#[trigger] nl()[i]) by {}
        assert forall|i: int| 0 <= i < (nl() + nl()).len() implies is_ws(#[trigger] (nl() + nl())[i]) by {}
        lemma_trim_around(nl(), m.content, nl() + nl());
        assert(nl() + m.content + (nl() + nl()) =~= nl() + m.content + nl() + nl());
    }
}

proof fn lemma_read_messages(name: Seq<char>, ms: Seq<MessageView>)
    requires
        forall|i: int| 0 <= i < ms.len() ==> writable_text(#[trigger] ms[i].content),
    ensures
        read_body(messages_lines(ms), BodyState { name, messages: seq![], role: None, text: seq![] })
            == after_messages(name, ms),
    decreases ms.len(),
{
    let st0 = BodyState { name, messages: seq![], role: None, text: seq![] };
    if ms.len() == 0 {
        assert(messages_lines(ms) == Seq::<Seq<char>>::empty());
    } else {
        let init = ms.drop_last();
        assert forall|i: int| 0 <= i < init.len() implies writable_text(#[trigger] init[i].content) by {
            assert(init[i] == ms[i]);
        }
        lemma_read_messages(name, init);
        lemma_read_body_append(messages_lines(init), message_lines(ms.last()), st0);
        let mid = after_messages(name, init);
        assert(ms.last() == ms[ms.len() - 1]);
        lemma_read_message_block(mid, ms.last());
        lemma_close_after_messages(name, init);
        assert(init.drop_last() =~= ms.drop_last().drop_last());
    }
}

} // verus!
