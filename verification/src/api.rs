//! The chat-completion protocol: the events a streamed reply produces, the
//! request's messages and URL, and the server-sent event lines.
use vstd::prelude::*;

use crate::config::AppConfig;
use crate::text::{
    opt_text,
    chars_eq, has_prefix, lines, slice_chars, split_lines, starts_with, string_of, to_chars, views,
};
use crate::types::{message_views, Message, MessageView, Role};

verus! {

/// What the streaming request reports to the application.
#[derive(Debug)]
pub enum ApiEvent {
    /// A piece of the reply text.
    Token(String),
    /// A piece of the model's reasoning text.
    ThinkingToken(String),
    /// The reply is complete.
    Done,
    /// The request failed.
    Error(String),
}

/// One message as the chat-completion endpoint receives it.
#[derive(Debug)]
pub struct ApiMessage {
    pub role: String,
    pub content: String,
}

/// The name of a role in a request.
pub open spec fn role_name(r: Role) -> Seq<char> {
    match r {
        Role::User => "user"@,
        Role::Assistant => "assistant"@,
        Role::System => "system"@,
    }
}

/// The messages of a conversation that a request carries: those with some
/// text, in order, each as its role's name and its text.
pub open spec fn request_messages(ms: Seq<MessageView>) -> Seq<(Seq<char>, Seq<char>)>
    decreases ms.len(),
{
    if ms.len() == 0 {
        seq![]
    } else {
        let rest = request_messages(ms.drop_last());
        if ms.last().content.len() == 0 {
            rest
        } else {
            rest.push((role_name(ms.last().role), ms.last().content))
        }
    }
}

/// The values of request messages.
pub open spec fn api_views(ms: Seq<ApiMessage>) -> Seq<(Seq<char>, Seq<char>)> {
    ms.map_values(|m: ApiMessage| (m.role@, m.content@))
}

fn role_string(r: Role) -> (s: String)
    ensures
        s@ == role_name(r),
{
    match r {
        Role::User => "user".to_owned(),
        Role::Assistant => "assistant".to_owned(),
        Role::System => "system".to_owned(),
    }
}

/// The messages of `history` that a request carries, empty ones left out.
pub fn api_messages(history: &Vec<Message>) -> (r: Vec<ApiMessage>)
    ensures
        api_views(r@) == request_messages(message_views(history@)),
{
    let ghost ms = message_views(history@);
    let mut r: Vec<ApiMessage> = Vec::new();
    let mut i: usize = 0;
    while i < history.len()
        invariant
            i <= history@.len(),
            ms == message_views(history@),
            api_views(r@) == request_messages(ms.take(i as int)),
        decreases history@.len() - i,
    {
        assert(ms.take(i + 1).drop_last() =~= ms.take(i as int));
        assert(ms.take(i + 1).last() == history@[i as int]@);
        if !history[i].content.as_str().is_empty() {
            let ghost before = api_views(r@);
            let m = ApiMessage {
                role: role_string(history[i].role),
                content: history[i].content.clone(),
            };
            r.push(m);
            assert(api_views(r@) =~= before.push((m.role@, m.content@)));
        }
        i = i + 1;
    }
    assert(ms.take(i as int) =~= ms);
    r
}

/// `s` without the `'/'` characters at its end (`trim_end_matches('/')`).
pub open spec fn trim_slashes(s: Seq<char>) -> Seq<char>
    decreases s.len(),
{
    if s.len() > 0 && s.last() == '/' {
        trim_slashes(s.drop_last())
    } else {
        s
    }
}

/// The chat-completion endpoint under a backend's base URL.
pub open spec fn completions_url_text(base: Seq<char>) -> Seq<char> {
    trim_slashes(base) + "/chat/completions"@
}

proof fn lemma_trim_slashes_prefix(s: Seq<char>, j: int)
    requires
        0 <= j <= s.len(),
        forall|k: int| j <= k < s.len() ==> s[k] == '/',
        j == 0 || s[j - 1] != '/',
    ensures
        trim_slashes(s) == s.subrange(0, j),
    decreases s.len(),
{
    if s.len() > j {
        lemma_trim_slashes_prefix(s.drop_last(), j);
        assert(s.drop_last().subrange(0, j) =~= s.subrange(0, j));
    } else {
        assert(s.subrange(0, j) =~= s);
    }
}

/// The URL of the chat-completion endpoint for the base URL `base`.
pub fn completions_url(base: &str) -> (url: String)
    ensures
        url@ == completions_url_text(base@),
{
    let cs = to_chars(base);
    let mut j: usize = cs.len();
    while j > 0 && cs[j - 1] == '/'
        invariant
            j <= cs@.len(),
            forall|k: int| j <= k < cs@.len() ==> cs@[k] == '/',
        decreases j,
    {
        j = j - 1;
    }
    proof {
        lemma_trim_slashes_prefix(cs@, j as int);
    }
    let kept = slice_chars(&cs, 0, j);
    let mut url = string_of(&kept);
    url.append("/chat/completions");
    url
}

/// What a chat request is made of: where it goes, the model, the messages.
#[derive(Debug)]
pub struct ChatRequest {
    pub url: String,
    pub model: String,
    pub messages: Vec<ApiMessage>,
}

/// The request that sends `history` to the active backend of `config`, or
/// `None` where the active backend is not configured.
pub fn prepare_chat_request(config: &AppConfig, history: &Vec<Message>) -> (r: Option<ChatRequest>)
    ensures
        r is None <==> !config.backends@.contains_key(config.active_backend@),
        r matches Some(req) ==> {
            let b = config.backends@[config.active_backend@];
            &&& req.url@ == completions_url_text(b.url)
            &&& req.model@ == b.model
            &&& api_views(req.messages@) == request_messages(message_views(history@))
        },
{
    match config.get_active_backend() {
        None => None,
        Some(backend) => Some(
            ChatRequest {
                url: completions_url(backend.url.as_str()),
                model: backend.model.clone(),
                messages: api_messages(history),
            },
        ),
    }
}

/// What the event lines of one received piece of a stream hold.
#[derive(Debug)]
pub struct SseScan {
    /// The data of each `data: ` line before the end marker, in order.
    pub payloads: Vec<String>,
    /// Whether the end marker `data: [DONE]` was met.
    pub done: bool,
}

/// The data lines of `ls` up to the end marker, and whether it was met.
pub open spec fn sse_payloads(ls: Seq<Seq<char>>) -> (Seq<Seq<char>>, bool)
    decreases ls.len(),
{
    if ls.len() == 0 {
        (seq![], false)
    } else {
        let l = ls[0];
        let rest = sse_payloads(ls.drop_first());
        if has_prefix(l, "data: "@) {
            let d = l.subrange("data: "@.len() as int, l.len() as int);
            if d == "[DONE]"@ {
                (seq![], true)
            } else {
                (seq![d] + rest.0, rest.1)
            }
        } else {
            rest
        }
    }
}

/// The values of a sequence of strings.
pub open spec fn texts(ss: Seq<String>) -> Seq<Seq<char>> {
    ss.map_values(|s: String| s@)
}

/// Reads the lines of a received piece of a stream: the data of each
/// `data: ` line, up to the line `data: [DONE]`, which ends the reply.
pub fn scan_sse_chunk(chunk: &str) -> (r: SseScan)
    ensures
        (texts(r.payloads@), r.done) == sse_payloads(lines(chunk@)),
{
    let cs = to_chars(chunk);
    let ls = split_lines(&cs);
    let prefix = to_chars("data: ");
    let marker = to_chars("[DONE]");
    let ghost all = views(ls@);
    let mut payloads: Vec<String> = Vec::new();
    let mut i: usize = 0;
    assert(all.skip(0) =~= all);
    while i < ls.len()
        invariant
            i <= ls@.len(),
            all == views(ls@),
            all == lines(cs@),
            cs@ == chunk@,
            prefix@ == "data: "@,
            marker@ == "[DONE]"@,
            sse_payloads(all) == (texts(payloads@) + sse_payloads(all.skip(i as int)).0, sse_payloads(
                all.skip(i as int),
            ).1),
        decreases ls@.len() - i,
    {
        let ghost rest = all.skip(i as int);
        assert(rest[0] == ls@[i as int]@);
        assert(rest.drop_first() =~= all.skip(i + 1));
        let line = &ls[i];
        if starts_with(line, &prefix) {
            let d = slice_chars(line, prefix.len(), line.len());
            if chars_eq(&d, &marker) {
                assert(has_prefix(rest[0], "data: "@));
                assert(rest[0].subrange("data: "@.len() as int, rest[0].len() as int) == "[DONE]"@);
                assert(sse_payloads(rest) == (Seq::<Seq<char>>::empty(), true));
                assert(texts(payloads@) + seq![] =~= texts(payloads@));
                return SseScan { payloads, done: true };
            }
            let ghost before = texts(payloads@);
            payloads.push(string_of(&d));
            assert(texts(payloads@) =~= before.push(d@));
            assert(before + (seq![d@] + sse_payloads(all.skip(i + 1)).0) =~= texts(payloads@)
                + sse_payloads(all.skip(i + 1)).0);
        }
        i = i + 1;
    }
    assert(all.skip(i as int) =~= seq![]);
    assert(texts(payloads@) + seq![] =~= texts(payloads@));
    SseScan { payloads, done: false }
}

/// The value of an event.
pub enum EventView {
    Token(Seq<char>),
    ThinkingToken(Seq<char>),
    Done,
    Error(Seq<char>),
}

impl View for ApiEvent {
    type V = EventView;

    open spec fn view(&self) -> EventView {
        match self {
            ApiEvent::Token(t) => EventView::Token(t@),
            ApiEvent::ThinkingToken(t) => EventView::ThinkingToken(t@),
            ApiEvent::Done => EventView::Done,
            ApiEvent::Error(e) => EventView::Error(e@),
        }
    }
}

/// The values of a sequence of events.
pub open spec fn event_views(es: Seq<ApiEvent>) -> Seq<EventView> {
    es.map_values(|e: ApiEvent| e@)
}

/// What the streaming request gets from the network, one at a time.
#[derive(Debug)]
pub enum StreamInput {
    /// A received piece: its event lines, and for each data line the reply
    /// text that its JSON holds, if it holds one.
    Chunk(SseScan, Vec<Option<String>>),
    /// Reading the stream failed, with this message.
    ReadError(String),
    /// The stream ended.
    End,
}

/// The texts of optional strings.
pub open spec fn opt_texts(cs: Seq<Option<String>>) -> Seq<Option<Seq<char>>> {
    cs.map_values(|c: Option<String>| opt_text(c))
}

/// A reply piece for each data line that holds reply text, in order.
pub open spec fn token_events(cs: Seq<Option<Seq<char>>>) -> Seq<EventView>
    decreases cs.len(),
{
    if cs.len() == 0 {
        seq![]
    } else {
        let r = token_events(cs.drop_last());
        match cs.last() {
            Some(t) => r.push(EventView::Token(t)),
            None => r,
        }
    }
}

/// The events that an input of the stream gives, and whether the stream is
/// then finished: a piece gives its reply texts, and `Done` after them when
/// it holds the end marker; a read error gives an error and reading goes
/// on; the end of the stream gives `Done`.
pub open spec fn stream_step_view(input: StreamInput) -> (Seq<EventView>, bool) {
    match input {
        StreamInput::Chunk(scan, cs) => (
            token_events(opt_texts(cs@)) + if scan.done {
                seq![EventView::Done]
            } else {
                seq![]
            },
            scan.done,
        ),
        StreamInput::ReadError(e) => (seq![EventView::Error(e@)], false),
        StreamInput::End => (seq![EventView::Done], true),
    }
}

/// The events to send for one input of the stream, and whether the stream
/// is finished (see `stream_step_view`).
pub fn stream_step(input: StreamInput) -> (r: (Vec<ApiEvent>, bool))
    ensures
        (event_views(r.0@), r.1) == stream_step_view(input),
{
    match input {
        StreamInput::Chunk(scan, contents) => {
            let ghost all = opt_texts(contents@);
            let mut cs = contents;
            let mut out: Vec<ApiEvent> = Vec::new();
            let mut k: usize = 0;
            assert(all.len() == cs.len());
            assert(all.skip(0) =~= all);
            assert(event_views(out@) =~= token_events(all.take(0)));
            while cs.len() > 0
                invariant
                    all.len() <= usize::MAX,
                    k + cs@.len() == all.len(),
                    opt_texts(cs@) == all.skip(k as int),
                    event_views(out@) == token_events(all.take(k as int)),
                decreases cs@.len(),
            {
                let ghost c0 = cs@;
                assert(opt_texts(c0)[0] == opt_text(c0[0]));
                assert(all.skip(k as int)[0] == all[k as int]);
                let c = cs.remove(0);
                assert(cs@ =~= c0.drop_first());
                assert(opt_texts(cs@) =~= opt_texts(c0).drop_first());
                assert(all.skip(k as int).drop_first() =~= all.skip(k + 1));
                assert(all.take(k + 1).drop_last() =~= all.take(k as int));
                assert(all.take(k + 1).last() == all[k as int]);
                let ghost o0 = event_views(out@);
                match c {
                    Some(t) => {
                        let e = ApiEvent::Token(t);
                        let ghost ev = e@;
                        out.push(e);
                        assert(event_views(out@) =~= o0.push(ev));
                    },
                    None => {},
                }
                k = k + 1;
            }
            assert(all.take(k as int) =~= all);
            if scan.done {
                let ghost o0 = event_views(out@);
                out.push(ApiEvent::Done);
                assert(event_views(out@) =~= o0 + seq![EventView::Done]);
            } else {
                assert(event_views(out@) + Seq::<EventView>::empty() =~= event_views(out@));
            }
            (out, scan.done)
        },
        StreamInput::ReadError(e) => {
            let mut out: Vec<ApiEvent> = Vec::new();
            out.push(ApiEvent::Error(e));
            assert(event_views(out@) =~= seq![EventView::Error(e@)]);
            (out, false)
        },
        StreamInput::End => {
            let mut out: Vec<ApiEvent> = Vec::new();
            out.push(ApiEvent::Done);
            assert(event_views(out@) =~= seq![EventView::Done]);
            (out, true)
        },
    }
}

proof fn lemma_tokens_not_done(cs: Seq<Option<Seq<char>>>)
    ensures
        forall|i: int| 0 <= i < token_events(cs).len() ==> !(#[trigger] token_events(cs)[i] is Done),
    decreases cs.len(),
{
    if cs.len() > 0 {
        lemma_tokens_not_done(cs.drop_last());
    }
}

/// `Done` is sent exactly when the stream is finished, and then as the last
/// event: no event follows it.
pub proof fn lemma_done_last(input: StreamInput)
    ensures
        ({
            let (es, finished) = stream_step_view(input);
            &&& finished <==> (es.len() > 0 && es.last() is Done)
            &&& forall|i: int| 0 <= i < es.len() - 1 ==> !(#[trigger] es[i] is Done)
        }),
{
    match input {
        StreamInput::Chunk(scan, cs) => {
            let t = token_events(opt_texts(cs@));
            lemma_tokens_not_done(opt_texts(cs@));
            let es = stream_step_view(input).0;
            if scan.done {
                assert(es.last() is Done);
                assert forall|i: int| 0 <= i < es.len() - 1 implies !(#[trigger] es[i] is Done) by {
                    assert(es[i] == t[i]);
                }
            } else {
                assert(es =~= t);
                if t.len() > 0 {
                    assert(!(t[t.len() - 1] is Done));
                }
                assert forall|i: int| 0 <= i < es.len() - 1 implies !(#[trigger] es[i] is Done) by {
                    assert(es[i] == t[i]);
                }
            }
        },
        _ => {},
    }
}

} // verus!
