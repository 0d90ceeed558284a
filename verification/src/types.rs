//! The chat data model: roles, messages and saved sessions.
use vstd::prelude::*;

use crate::text::opt_text;
use crate::time::Timestamp;

verus! {

/// Who wrote a message.
#[derive(Clone, Copy, Debug, PartialEq, Eq, Structural)]
pub enum Role {
    User,
    Assistant,
    System,
}

/// One message of a conversation.
#[derive(Debug)]
pub struct Message {
    pub role: Role,
    pub content: String,
    pub thinking_content: Option<String>,
    pub is_thinking_collapsed: bool,
}

/// The mathematical value of a message.
pub struct MessageView {
    pub role: Role,
    pub content: Seq<char>,
    pub thinking: Option<Seq<char>>,
    pub collapsed: bool,
}

impl View for Message {
    type V = MessageView;

    open spec fn view(&self) -> MessageView {
        MessageView {
            role: self.role,
            content: self.content@,
            thinking: opt_text(self.thinking_content),
            collapsed: self.is_thinking_collapsed,
        }
    }
}

/// The values of a sequence of messages.
pub open spec fn message_views(ms: Seq<Message>) -> Seq<MessageView> {
    ms.map_values(|m: Message| m@)
}

fn clone_opt_string(o: &Option<String>) -> (r: Option<String>)
    ensures
        r == *o,
{
    match o {
        Some(s) => Some(s.clone()),
        None => None,
    }
}

impl Clone for Message {
    fn clone(&self) -> (r: Self)
        ensures
            r == *self,
    {
        Message {
            role: self.role,
            content: self.content.clone(),
            thinking_content: clone_opt_string(&self.thinking_content),
            is_thinking_collapsed: self.is_thinking_collapsed,
        }
    }
}

impl Message {
    /// A message with the given role and text, and no thinking part.
    pub fn new(role: Role, content: String) -> (m: Message)
        ensures
            m.role == role,
            m.content == content,
            m.thinking_content is None,
            !m.is_thinking_collapsed,
    {
        Message { role, content, thinking_content: None, is_thinking_collapsed: false }
    }
}

/// A copy of a list of messages.
pub fn clone_messages(ms: &Vec<Message>) -> (r: Vec<Message>)
    ensures
        r@ == ms@,
{
    let r = ms.clone();
    assert(r@ =~= ms@);
    r
}

/// A conversation as it is kept in the history and saved to disk.
#[derive(Debug)]
pub struct ChatSession {
    pub id: String,
    pub name: String,
    pub created_at: Timestamp,
    pub updated_at: Timestamp,
    pub messages: Vec<Message>,
    /// The file the session was saved to, if it was.
    pub file_path: Option<String>,
}

/// The mathematical value of a session.
pub struct SessionView {
    pub id: Seq<char>,
    pub name: Seq<char>,
    pub created_at: Timestamp,
    pub updated_at: Timestamp,
    pub messages: Seq<MessageView>,
    pub file_path: Option<Seq<char>>,
}

impl View for ChatSession {
    type V = SessionView;

    open spec fn view(&self) -> SessionView {
        SessionView {
            id: self.id@,
            name: self.name@,
            created_at: self.created_at,
            updated_at: self.updated_at,
            messages: message_views(self.messages@),
            file_path: opt_text(self.file_path),
        }
    }
}

/// `a` and `b` hold equal fields, their messages equal one by one.
pub open spec fn same_session(a: ChatSession, b: ChatSession) -> bool {
    &&& a.id == b.id
    &&& a.name == b.name
    &&& a.created_at == b.created_at
    &&& a.updated_at == b.updated_at
    &&& a.messages@ == b.messages@
    &&& a.file_path == b.file_path
}

impl Clone for ChatSession {
    fn clone(&self) -> (r: Self)
        ensures
            same_session(r, *self),
    {
        let messages = clone_messages(&self.messages);
        ChatSession {
            id: self.id.clone(),
            name: self.name.clone(),
            created_at: self.created_at,
            updated_at: self.updated_at,
            messages,
            file_path: clone_opt_string(&self.file_path),
        }
    }
}

} // verus!
