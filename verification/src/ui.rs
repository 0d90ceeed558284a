//! What the screen shows, as text: message markdown split into styled
//! pieces, line numbers, the session clock, labels of the chat list.
use vstd::prelude::*;
use vstd::string::StringExecFns;

use crate::time::{chrono_strftime, format_pattern, is_simple_pattern, Timestamp};
use crate::types::{message_views, ChatSession, Message, MessageView, Role};
use crate::text::{has_prefix, lines, push_char, split_lines, string_of, to_chars, trim, trim_chars, views};

verus! {

// ---------------------------------------------------------------------------
// Markdown of a message
// ---------------------------------------------------------------------------

/// How a piece of a line is shown.
#[derive(Clone, Copy, Debug, PartialEq, Eq, Structural)]
pub enum SpanKind {
    Plain,
    Bold,
    Code,
}

/// A piece of a line and how it is shown.
#[derive(Debug)]
pub struct MdSpan {
    pub kind: SpanKind,
    pub text: String,
}

/// A line of a message as it is shown.
#[derive(Debug)]
pub enum MdLine {
    /// A line that opens or closes a code block.
    Fence(String),
    /// A line inside a code block.
    Code(String),
    /// Any other line, in pieces.
    Text(Vec<MdSpan>),
}

pub struct SpanView {
    pub kind: SpanKind,
    pub text: Seq<char>,
}

pub enum LineView {
    Fence(Seq<char>),
    Code(Seq<char>),
    Text(Seq<SpanView>),
}

impl View for MdSpan {
    type V = SpanView;

    open spec fn view(&self) -> SpanView {
        SpanView { kind: self.kind, text: self.text@ }
    }
}

pub open spec fn span_views(v: Seq<MdSpan>) -> Seq<SpanView> {
    v.map_values(|s: MdSpan| s@)
}

impl View for MdLine {
    type V = LineView;

    open spec fn view(&self) -> LineView {
        match self {
            MdLine::Fence(s) => LineView::Fence(s@),
            MdLine::Code(s) => LineView::Code(s@),
            MdLine::Text(v) => LineView::Text(span_views(v@)),
        }
    }
}

pub open spec fn line_views(v: Seq<MdLine>) -> Seq<LineView> {
    v.map_values(|l: MdLine| l@)
}

/// `**` starts `s`.
pub open spec fn starts_bold(s: Seq<char>) -> bool {
    s.len() > 1 && s[0] == '*' && s[1] == '*'
}

/// The bold text at the start of `s`, up to the next `**` or the end, and
/// what follows that `**`.
pub open spec fn take_bold(s: Seq<char>) -> (Seq<char>, Seq<char>)
    decreases s.len(),
{
    if s.len() == 0 {
        (seq![], seq![])
    } else if starts_bold(s) {
        (seq![], s.skip(2))
    } else {
        let (b, r) = take_bold(s.drop_first());
        (seq![s[0]] + b, r)
    }
}

/// The code text at the start of `s`, up to the next `` ` `` or the end,
/// and what follows that `` ` ``.
pub open spec fn take_code(s: Seq<char>) -> (Seq<char>, Seq<char>)
    decreases s.len(),
{
    if s.len() == 0 {
        (seq![], seq![])
    } else if s[0] == '`' {
        (seq![], s.drop_first())
    } else {
        let (c, r) = take_code(s.drop_first());
        (seq![s[0]] + c, r)
    }
}

pub proof fn lemma_take_bold_len(s: Seq<char>)
    ensures
        take_bold(s).1.len() <= s.len(),
    decreases s.len(),
{
    if s.len() > 0 && !starts_bold(s) {
        lemma_take_bold_len(s.drop_first());
    }
}

pub proof fn lemma_take_code_len(s: Seq<char>)
    ensures
        take_code(s).1.len() <= s.len(),
    decreases s.len(),
{
    if s.len() > 0 && s[0] != '`' {
        lemma_take_code_len(s.drop_first());
    }
}

/// The plain text read so far, as a piece if it is not empty.
pub open spec fn flush(cur: Seq<char>) -> Seq<SpanView> {
    if cur.len() > 0 {
        seq![SpanView { kind: SpanKind::Plain, text: cur }]
    } else {
        seq![]
    }
}

/// The pieces of the rest `s` of a line, `cur` holding the plain text read
/// before it: `**` opens bold text up to the next `**`, `` ` `` opens code up
/// to the next `` ` ``, anything else is plain.
pub open spec fn spans_from(s: Seq<char>, cur: Seq<char>) -> Seq<SpanView>
    decreases s.len(),
{
    if s.len() == 0 {
        flush(cur)
    } else if starts_bold(s) {
        let (b, rest) = take_bold(s.skip(2));
        proof {
            lemma_take_bold_len(s.skip(2));
        }
        flush(cur) + seq![SpanView { kind: SpanKind::Bold, text: b }] + spans_from(rest, seq![])
    } else if s[0] == '`' {
        let (c, rest) = take_code(s.drop_first());
        proof {
            lemma_take_code_len(s.drop_first());
        }
        flush(cur) + seq![SpanView { kind: SpanKind::Code, text: c }] + spans_from(rest, seq![])
    } else {
        spans_from(s.drop_first(), cur.push(s[0]))
    }
}

pub open spec fn fence_mark() -> Seq<char> {
    seq!['`', '`', '`']
}

/// How a line is shown, `in_code` telling whether a code block is open: a
/// line whose trimmed text starts with three backticks is a fence.
pub open spec fn line_view_of(l: Seq<char>, in_code: bool) -> LineView {
    if has_prefix(trim(l), fence_mark()) {
        LineView::Fence(l)
    } else if in_code {
        LineView::Code(l)
    } else {
        LineView::Text(spans_from(l, seq![]))
    }
}

/// Whether a code block is open after the line `l`: a fence opens or closes one.
pub open spec fn code_after(l: Seq<char>, in_code: bool) -> bool {
    if has_prefix(trim(l), fence_mark()) {
        !in_code
    } else {
        in_code
    }
}

/// The shown lines of `ls`, `in_code` telling whether a code block is open.
pub open spec fn md_lines_from(ls: Seq<Seq<char>>, in_code: bool) -> Seq<LineView>
    decreases ls.len(),
{
    if ls.len() == 0 {
        seq![]
    } else {
        seq![line_view_of(ls[0], in_code)] + md_lines_from(ls.drop_first(), code_after(ls[0], in_code))
    }
}

/// The shown lines of a message text.
pub open spec fn markdown_view(content: Seq<char>) -> Seq<LineView> {
    md_lines_from(lines(content), false)
}

fn read_bold(s: &[char], start: usize) -> (r: (Vec<char>, usize))
    requires
        start <= s@.len(),
    ensures
        start <= r.1 <= s@.len(),
        (r.0@, s@.skip(r.1 as int)) == take_bold(s@.skip(start as int)),
{
    let n = s.len();
    let mut b: Vec<char> = Vec::new();
    let mut j = start;
    let ghost target = take_bold(s@.skip(start as int));
    while j < n
        invariant
            start <= j <= n,
            n == s@.len(),
            target == take_bold(s@.skip(start as int)),
            (b@ + take_bold(s@.skip(j as int)).0, take_bold(s@.skip(j as int)).1) == target,
        decreases n - j,
    {
        let ghost t = s@.skip(j as int);
        if j + 1 < n && s[j] == '*' && s[j + 1] == '*' {
            assert(starts_bold(t));
            assert(t.skip(2) =~= s@.skip(j + 2));
            assert(b@ + seq![] =~= b@);
            return (b, j + 2);
        }
        assert(!starts_bold(t));
        assert(t.drop_first() =~= s@.skip(j + 1));
        let ghost old_b = b@;
        b.push(s[j]);
        assert(b@ + take_bold(s@.skip(j + 1)).0 =~= old_b + (seq![t[0]] + take_bold(t.drop_first()).0));
        j = j + 1;
    }
    assert(s@.skip(j as int) =~= Seq::<char>::empty());
    assert(b@ + seq![] =~= b@);
    (b, j)
}

fn read_code(s: &[char], start: usize) -> (r: (Vec<char>, usize))
    requires
        start <= s@.len(),
    ensures
        start <= r.1 <= s@.len(),
        (r.0@, s@.skip(r.1 as int)) == take_code(s@.skip(start as int)),
{
    let n = s.len();
    let mut c: Vec<char> = Vec::new();
    let mut j = start;
    let ghost target = take_code(s@.skip(start as int));
    while j < n
        invariant
            start <= j <= n,
            n == s@.len(),
            target == take_code(s@.skip(start as int)),
            (c@ + take_code(s@.skip(j as int)).0, take_code(s@.skip(j as int)).1) == target,
        decreases n - j,
    {
        let ghost t = s@.skip(j as int);
        assert(t[0] == s@[j as int]);
        assert(t.drop_first() =~= s@.skip(j + 1));
        if s[j] == '`' {
            assert(c@ + seq![] =~= c@);
            return (c, j + 1);
        }
        let ghost old_c = c@;
        c.push(s[j]);
        assert(c@ + take_code(s@.skip(j + 1)).0 =~= old_c + (seq![t[0]] + take_code(t.drop_first()).0));
        j = j + 1;
    }
    assert(s@.skip(j as int) =~= Seq::<char>::empty());
    assert(c@ + seq![] =~= c@);
    (c, j)
}

fn flush_plain(out: &mut Vec<MdSpan>, cur: &Vec<char>)
    ensures
        span_views(final(out)@) == span_views(old(out)@) + flush(cur@),
{
    let ghost o0 = span_views(out@);
    if cur.len() > 0 {
        out.push(MdSpan { kind: SpanKind::Plain, text: string_of(cur.as_slice()) });
    }
    assert(span_views(out@) =~= o0 + flush(cur@));
}

/// The pieces of one line (see `spans_from`).
pub fn parse_inline(s: &[char]) -> (out: Vec<MdSpan>)
    ensures
        span_views(out@) == spans_from(s@, seq![]),
{
    let n = s.len();
    let mut out: Vec<MdSpan> = Vec::new();
    let mut cur: Vec<char> = Vec::new();
    let mut i: usize = 0;
    assert(s@.skip(0) =~= s@);
    assert(span_views(out@) =~= seq![]);
    while i < n
        invariant
            i <= n,
            n == s@.len(),
            span_views(out@) + spans_from(s@.skip(i as int), cur@) == spans_from(s@, seq![]),
        decreases n - i,
    {
        let ghost t = s@.skip(i as int);
        let ghost o0 = span_views(out@);
        assert(t[0] == s@[i as int]);
        if i + 1 < n && s[i] == '*' && s[i + 1] == '*' {
            assert(starts_bold(t));
            assert(t.skip(2) =~= s@.skip(i + 2));
            let (b, next) = read_bold(s, i + 2);
            let ghost c0 = cur@;
            flush_plain(&mut out, &cur);
            let ghost o1 = span_views(out@);
            let bs = string_of(b.as_slice());
            out.push(MdSpan { kind: SpanKind::Bold, text: bs });
            assert(span_views(out@) =~= o1.push(SpanView { kind: SpanKind::Bold, text: b@ }));
            cur = Vec::new();
            assert(spans_from(t, c0) == flush(c0) + seq![SpanView { kind: SpanKind::Bold, text: b@ }]
                + spans_from(s@.skip(next as int), seq![]));
            assert(span_views(out@) + spans_from(s@.skip(next as int), cur@) =~= o0 + spans_from(t, c0));
            i = next;
        } else if s[i] == '`' {
            assert(t.drop_first() =~= s@.skip(i + 1));
            let (c, next) = read_code(s, i + 1);
            let ghost c0 = cur@;
            assert(!starts_bold(t));
            flush_plain(&mut out, &cur);
            let ghost o1 = span_views(out@);
            let cs = string_of(c.as_slice());
            out.push(MdSpan { kind: SpanKind::Code, text: cs });
            assert(span_views(out@) =~= o1.push(SpanView { kind: SpanKind::Code, text: c@ }));
            cur = Vec::new();
            assert(spans_from(t, c0) == flush(c0) + seq![SpanView { kind: SpanKind::Code, text: c@ }]
                + spans_from(s@.skip(next as int), seq![]));
            assert(span_views(out@) + spans_from(s@.skip(next as int), cur@) =~= o0 + spans_from(t, c0));
            i = next;
        } else {
            assert(!starts_bold(t));
            assert(t.drop_first() =~= s@.skip(i + 1));
            cur.push(s[i]);
            i = i + 1;
        }
    }
    assert(s@.skip(i as int) =~= Seq::<char>::empty());
    let ghost o0 = span_views(out@);
    flush_plain(&mut out, &cur);
    assert(spans_from(s@.skip(i as int), cur@) == flush(cur@));
    out
}

fn parse_line(l: &Vec<char>, in_code: bool) -> (r: (MdLine, bool))
    ensures
        r.0@ == line_view_of(l@, in_code),
        r.1 == code_after(l@, in_code),
{
    let t = trim_chars(l.as_slice());
    let fence: [char; 3] = ['`', '`', '`'];
    assert(fence@ =~= fence_mark());
    if crate::text::starts_with(t.as_slice(), fence.as_slice()) {
        (MdLine::Fence(string_of(l.as_slice())), !in_code)
    } else if in_code {
        (MdLine::Code(string_of(l.as_slice())), in_code)
    } else {
        (MdLine::Text(parse_inline(l.as_slice())), in_code)
    }
}

/// The shown lines of a message text (see `markdown_view`).
pub fn parse_markdown(content: &str) -> (out: Vec<MdLine>)
    ensures
        line_views(out@) == markdown_view(content@),
{
    let chars = to_chars(content);
    let ls = split_lines(chars.as_slice());
    let ghost gl = lines(content@);
    let mut out: Vec<MdLine> = Vec::new();
    let mut in_code = false;
    let mut i: usize = 0;
    assert(gl.skip(0) =~= gl);
    assert(line_views(out@) =~= seq![]);
    while i < ls.len()
        invariant
            i <= ls@.len(),
            views(ls@) == gl,
            gl.len() == ls@.len(),
            line_views(out@) + md_lines_from(gl.skip(i as int), in_code) == md_lines_from(gl, false),
        decreases ls@.len() - i,
    {
        let ghost rest = gl.skip(i as int);
        let ghost o0 = line_views(out@);
        let ghost c0 = in_code;
        assert(rest[0] == ls@[i as int]@);
        assert(rest.drop_first() =~= gl.skip(i + 1));
        let (line, next) = parse_line(&ls[i], in_code);
        let ghost lv = line@;
        out.push(line);
        assert(line_views(out@) =~= o0.push(lv));
        in_code = next;
        assert(md_lines_from(rest, c0) =~= seq![lv] + md_lines_from(gl.skip(i + 1), next));
        assert(line_views(out@) + md_lines_from(gl.skip(i + 1), in_code) =~= o0 + md_lines_from(rest, c0));
        i = i + 1;
    }
    assert(gl.skip(i as int) =~= Seq::<Seq<char>>::empty());
    assert(line_views(out@) + md_lines_from(gl.skip(i as int), in_code) =~= line_views(out@));
    out
}

// ---------------------------------------------------------------------------
// The conversation as shown
// ---------------------------------------------------------------------------

/// A line of the conversation pane.
#[derive(Debug)]
pub enum ViewLine {
    /// The line that names who wrote the message below it.
    Header(Role),
    /// The line that opens the reasoning part of a message.
    ThinkingTitle,
    /// A line of the reasoning part, shown after a bar.
    Thinking(MdLine),
    /// A line of the message text.
    Body(MdLine),
    /// An empty line between parts.
    Blank,
}

pub enum ViewLineView {
    Header(Role),
    ThinkingTitle,
    Thinking(LineView),
    Body(LineView),
    Blank,
}

impl View for ViewLine {
    type V = ViewLineView;

    open spec fn view(&self) -> ViewLineView {
        match self {
            ViewLine::Header(r) => ViewLineView::Header(*r),
            ViewLine::ThinkingTitle => ViewLineView::ThinkingTitle,
            ViewLine::Thinking(l) => ViewLineView::Thinking(l@),
            ViewLine::Body(l) => ViewLineView::Body(l@),
            ViewLine::Blank => ViewLineView::Blank,
        }
    }
}

pub open spec fn view_lines(v: Seq<ViewLine>) -> Seq<ViewLineView> {
    v.map_values(|l: ViewLine| l@)
}

/// Markdown lines marked as reasoning or as message text.
pub open spec fn tagged(ls: Seq<LineView>, thinking: bool) -> Seq<ViewLineView> {
    ls.map_values(
        |l: LineView|
            if thinking {
                ViewLineView::Thinking(l)
            } else {
                ViewLineView::Body(l)
            },
    )
}

/// The reasoning part of a message as shown: nothing unless it has some
/// text, else a title, its markdown lines and a blank line.
pub open spec fn thinking_view(t: Option<Seq<char>>) -> Seq<ViewLineView> {
    match t {
        Some(x) => if x.len() > 0 {
            seq![ViewLineView::ThinkingTitle] + tagged(markdown_view(x), true) + seq![ViewLineView::Blank]
        } else {
            seq![]
        },
        None => seq![],
    }
}

/// A message as shown: its header, its reasoning part, its text and a
/// blank line.
pub open spec fn message_view_lines(m: MessageView) -> Seq<ViewLineView> {
    seq![ViewLineView::Header(m.role)] + thinking_view(m.thinking) + tagged(markdown_view(m.content), false)
        + seq![ViewLineView::Blank]
}

/// The lines of a conversation, message after message.
pub open spec fn conversation_view(ms: Seq<MessageView>) -> Seq<ViewLineView>
    decreases ms.len(),
{
    if ms.len() == 0 {
        seq![]
    } else {
        conversation_view(ms.drop_last()) + message_view_lines(ms.last())
    }
}

fn push_markdown(out: &mut Vec<ViewLine>, md: Vec<MdLine>, thinking: bool)
    ensures
        view_lines(final(out)@) == view_lines(old(out)@) + tagged(line_views(md@), thinking),
{
    let ghost o0 = view_lines(out@);
    let ghost all = line_views(md@);
    let mut md = md;
    let mut k: usize = 0;
    assert(all.skip(0) =~= all);
    assert(all.len() == md.len());
    while md.len() > 0
        invariant
            all.len() <= usize::MAX,
            k + md@.len() == all.len(),
            k <= all.len(),
            line_views(md@) == all.skip(k as int),
            view_lines(out@) == o0 + tagged(all.take(k as int), thinking),
        decreases md@.len(),
    {
        let ghost m0 = md@;
        assert(line_views(m0)[0] == m0[0]@);
        assert(all.skip(k as int)[0] == all[k as int]);
        let l = md.remove(0);
        assert(md@ =~= m0.drop_first());
        assert(line_views(md@) =~= line_views(m0).drop_first());
        assert(all.skip(k as int).drop_first() =~= all.skip(k + 1));
        let ghost before = view_lines(out@);
        let line = if thinking {
            ViewLine::Thinking(l)
        } else {
            ViewLine::Body(l)
        };
        let ghost lv = line@;
        out.push(line);
        assert(view_lines(out@) =~= before.push(lv));
        assert(tagged(all.take(k + 1), thinking) =~= tagged(all.take(k as int), thinking).push(lv));
        k = k + 1;
    }
    assert(all.skip(k as int).len() == 0);
    assert(all.take(k as int) =~= all);
}

/// The lines that the conversation pane shows for `messages`, in order.
pub fn conversation_lines(messages: &Vec<Message>) -> (out: Vec<ViewLine>)
    ensures
        view_lines(out@) == conversation_view(message_views(messages@)),
{
    let ghost ms = message_views(messages@);
    let mut out: Vec<ViewLine> = Vec::new();
    let mut i: usize = 0;
    assert(view_lines(out@) =~= conversation_view(ms.take(0)));
    while i < messages.len()
        invariant
            i <= messages@.len(),
            ms == message_views(messages@),
            view_lines(out@) == conversation_view(ms.take(i as int)),
        decreases messages@.len() - i,
    {
        let m = &messages[i];
        let ghost o0 = view_lines(out@);
        assert(ms.take(i + 1).drop_last() =~= ms.take(i as int));
        assert(ms.take(i + 1).last() == m@);
        out.push(ViewLine::Header(m.role));
        let ghost o1 = view_lines(out@);
        assert(o1 =~= o0 + seq![ViewLineView::Header(m.role)]);
        match &m.thinking_content {
            Some(t) => {
                if !t.as_str().is_empty() {
                    out.push(ViewLine::ThinkingTitle);
                    let ghost ot = view_lines(out@);
                    assert(ot =~= o1 + seq![ViewLineView::ThinkingTitle]);
                    let md = parse_markdown(t.as_str());
                    push_markdown(&mut out, md, true);
                    let ghost op = view_lines(out@);
                    out.push(ViewLine::Blank);
                    assert(view_lines(out@) =~= op + seq![ViewLineView::Blank]);
                    assert(m@.thinking == Some(t@));
                    assert(thinking_view(m@.thinking) =~= seq![ViewLineView::ThinkingTitle] + tagged(
                        markdown_view(t@),
                        true,
                    ) + seq![ViewLineView::Blank]);
                } else {
                    assert(thinking_view(m@.thinking) =~= seq![]);
                }
            },
            None => {
                assert(thinking_view(m@.thinking) =~= seq![]);
            },
        }
        let ghost o2 = view_lines(out@);
        assert(o2 =~= o1 + thinking_view(m@.thinking));
        push_markdown(&mut out, parse_markdown(m.content.as_str()), false);
        let ghost o3 = view_lines(out@);
        assert(o3 =~= o2 + tagged(markdown_view(m@.content), false));
        out.push(ViewLine::Blank);
        assert(view_lines(out@) =~= o3 + seq![ViewLineView::Blank]);
        assert(view_lines(out@) =~= o0 + message_view_lines(m@));
        i = i + 1;
    }
    assert(ms.take(i as int) =~= ms);
    out
}

// ---------------------------------------------------------------------------
// Numbers as text
// ---------------------------------------------------------------------------

pub open spec fn digit_char(d: nat) -> char {
    (48 + d) as char
}

/// The decimal digits of `n`.
pub open spec fn decimal(n: nat) -> Seq<char>
    decreases n,
{
    if n < 10 {
        seq![digit_char(n)]
    } else {
        decimal(n / 10).push(digit_char(n % 10))
    }
}

/// `s` right-aligned in `width` characters, filled with `fill`.
pub open spec fn pad_left(s: Seq<char>, width: nat, fill: char) -> Seq<char> {
    if s.len() < width {
        Seq::new((width - s.len()) as nat, |i: int| fill) + s
    } else {
        s
    }
}

/// The decimal digits of `n` (`n.to_string()`).
pub fn decimal_chars(n: u64) -> (v: Vec<char>)
    ensures
        v@ == decimal(n as nat),
    decreases n,
{
    if n < 10 {
        let mut v: Vec<char> = Vec::new();
        v.push(((48 + n) as u8) as char);
        assert(v@ =~= seq![digit_char(n as nat)]);
        v
    } else {
        let mut v = decimal_chars(n / 10);
        let d = n % 10;
        v.push(((48 + d) as u8) as char);
        v
    }
}

fn pad_left_chars(s: &Vec<char>, width: usize, fill: char) -> (r: Vec<char>)
    ensures
        r@ == pad_left(s@, width as nat, fill),
{
    let mut r: Vec<char> = Vec::new();
    if s.len() < width {
        let k = width - s.len();
        let mut i: usize = 0;
        while i < k
            invariant
                i <= k,
                r@ == Seq::new(i as nat, |j: int| fill),
            decreases k - i,
        {
            r.push(fill);
            i = i + 1;
            assert(r@ =~= Seq::new(i as nat, |j: int| fill));
        }
    }
    crate::text::extend_chars(&mut r, s.as_slice());
    assert(r@ =~= pad_left(s@, width as nat, fill));
    r
}

/// The width of the line-number column for `total` lines: the digits of
/// `total`, at least three.
pub open spec fn line_number_width_of(total: nat) -> nat {
    if decimal(total).len() > 3 {
        decimal(total).len()
    } else {
        3
    }
}

pub fn line_number_width(total: usize) -> (w: usize)
    ensures
        w == line_number_width_of(total as nat),
{
    let d = decimal_chars(total as u64);
    if d.len() > 3 {
        d.len()
    } else {
        3
    }
}

/// A line number right-aligned in `width` characters, then a space.
pub fn line_number_label(n: usize, width: usize) -> (s: String)
    ensures
        s@ == pad_left(decimal(n as nat), width as nat, ' ') + seq![' '],
{
    let d = decimal_chars(n as u64);
    let mut p = pad_left_chars(&d, width, ' ');
    p.push(' ');
    string_of(p.as_slice())
}

/// A count of seconds as hours, minutes and seconds, each of at least two
/// digits: `HH:MM:SS`.
pub open spec fn duration_text(secs: nat) -> Seq<char> {
    pad_left(decimal(secs / 3600), 2, '0') + seq![':'] + pad_left(decimal((secs % 3600) / 60), 2, '0')
        + seq![':'] + pad_left(decimal(secs % 60), 2, '0')
}

pub fn format_duration(secs: u64) -> (s: String)
    ensures
        s@ == duration_text(secs as nat),
{
    let h = pad_left_chars(&decimal_chars(secs / 3600), 2, '0');
    let m = pad_left_chars(&decimal_chars((secs % 3600) / 60), 2, '0');
    let sec = pad_left_chars(&decimal_chars(secs % 60), 2, '0');
    let mut out = h;
    out.push(':');
    crate::text::extend_chars(&mut out, m.as_slice());
    out.push(':');
    crate::text::extend_chars(&mut out, sec.as_slice());
    assert(out@ =~= duration_text(secs as nat));
    string_of(out.as_slice())
}

/// The scroll indicator under the messages: ` [AUTO] ` with auto-scroll,
/// else the line at the top of the view (counted from one) and the number
/// of lines.
pub open spec fn scroll_indicator_text(auto_scroll: bool, scroll: u16, total: usize) -> Seq<char> {
    if auto_scroll {
        " [AUTO] "@
    } else {
        seq![' '] + decimal((scroll + 1) as nat) + seq!['/'] + decimal(total as nat) + seq![' ']
    }
}

pub fn scroll_indicator(auto_scroll: bool, scroll: u16, total: usize) -> (s: String)
    requires
        !auto_scroll ==> scroll < u16::MAX,
    ensures
        s@ == scroll_indicator_text(auto_scroll, scroll, total),
{
    if auto_scroll {
        return " [AUTO] ".to_owned();
    }
    let mut out: Vec<char> = Vec::new();
    out.push(' ');
    let a = decimal_chars((scroll + 1) as u64);
    crate::text::extend_chars(&mut out, a.as_slice());
    out.push('/');
    let b = decimal_chars(total as u64);
    crate::text::extend_chars(&mut out, b.as_slice());
    out.push(' ');
    assert(out@ =~= scroll_indicator_text(auto_scroll, scroll, total));
    string_of(out.as_slice())
}

// ---------------------------------------------------------------------------
// Chat list labels
// ---------------------------------------------------------------------------

/// The number of bytes of `c` in UTF-8.
pub open spec fn utf8_width(c: char) -> nat {
    if (c as u32) < 0x80 {
        1
    } else if (c as u32) < 0x800 {
        2
    } else if (c as u32) < 0x10000 {
        3
    } else {
        4
    }
}

/// The number of bytes of `s` in UTF-8 (`str::len`).
pub open spec fn utf8_len(s: Seq<char>) -> nat
    decreases s.len(),
{
    if s.len() == 0 {
        0
    } else {
        utf8_len(s.drop_last()) + utf8_width(s.last())
    }
}

proof fn lemma_utf8_len_grows(s: Seq<char>, k: int, j: int)
    requires
        0 <= k <= j <= s.len(),
    ensures
        utf8_len(s.take(k)) + (j - k) <= utf8_len(s.take(j)),
    decreases j - k,
{
    if k < j {
        lemma_utf8_len_grows(s, k, j - 1);
        assert(s.take(j).drop_last() =~= s.take(j - 1));
    }
}

/// The label of a chat in the list: its title, or, past 35 bytes, its first
/// 32 bytes and `...`. `None` where byte 32 falls inside a character, which
/// the title cannot be cut at.
pub open spec fn history_label_text(name: Seq<char>) -> Option<Seq<char>> {
    if utf8_len(name) > 35 {
        if exists|k: int| 0 <= k <= name.len() && utf8_len(name.take(k)) == 32 {
            let k = choose|k: int| 0 <= k <= name.len() && utf8_len(name.take(k)) == 32;
            Some(name.take(k) + "..."@)
        } else {
            None
        }
    } else {
        Some(name)
    }
}

fn char_width(c: char) -> (w: usize)
    ensures
        w == utf8_width(c),
{
    let x = c as u32;
    if x < 0x80 {
        1
    } else if x < 0x800 {
        2
    } else if x < 0x10000 {
        3
    } else {
        4
    }
}

/// The label of a chat in the list (see `history_label_text`).
pub fn history_label(name: &str) -> (r: Option<String>)
    ensures
        opt_string_text(r) == history_label_text(name@),
{
    let chars = to_chars(name);
    let n = chars.len();
    let mut total: usize = 0;
    let mut cut: Option<usize> = None;
    let mut k: usize = 0;
    assert(chars@.take(0) =~= Seq::<char>::empty());
    while k < n && total <= 35
        invariant
            k <= n,
            n == chars@.len(),
            chars@ == name@,
            total == utf8_len(chars@.take(k as int)),
            total <= 39,
            match cut {
                Some(c) => c <= k && utf8_len(chars@.take(c as int)) == 32,
                None => forall|j: int| 0 <= j <= k ==> utf8_len(#[trigger] chars@.take(j)) != 32,
            },
        decreases n - k,
    {
        assert(chars@.take(k + 1).drop_last() =~= chars@.take(k as int));
        total = total + char_width(chars[k]);
        k = k + 1;
        if cut.is_none() && total == 32 {
            cut = Some(k);
        }
    }
    assert(chars@.take(n as int) =~= chars@);
    if total <= 35 {
        assert(k == n);
        return Some(string_of(chars.as_slice()));
    }
    proof {
        lemma_utf8_len_grows(name@, k as int, n as int);
    }
    match cut {
        Some(c) => {
            let mut out = crate::text::slice_chars(chars.as_slice(), 0, c);
            out.push('.');
            out.push('.');
            out.push('.');
            proof {
                reveal_strlit("...");
                let kk = choose|kk: int| 0 <= kk <= name@.len() && utf8_len(name@.take(kk)) == 32;
                if kk < c {
                    lemma_utf8_len_grows(name@, kk, c as int);
                    assert(chars@.take(c as int)[c - 1] == chars@[c - 1]);
                    assert(utf8_width(chars@[c - 1]) >= 1);
                    assert(chars@.take(c as int).drop_last() =~= chars@.take(c - 1));
                    lemma_utf8_len_grows(name@, kk, c - 1);
                } else if kk > c {
                    lemma_utf8_len_grows(name@, c as int, kk);
                    lemma_utf8_len_grows(name@, c as int, kk - 1);
                    assert(name@.take(kk).drop_last() =~= name@.take(kk - 1));
                }
                assert(chars@.subrange(0, c as int) =~= name@.take(c as int));
                assert(out@ =~= name@.take(kk) + "..."@);
            }
            Some(string_of(out.as_slice()))
        },
        None => {
            assert forall|j: int| 0 <= j <= name@.len() implies utf8_len(#[trigger] name@.take(j)) != 32 by {
                if j > k {
                    lemma_utf8_len_grows(name@, k as int, j);
                }
            }
            assert(!exists|j: int| 0 <= j <= name@.len() && utf8_len(name@.take(j)) == 32);
            None
        },
    }
}

/// The pattern of the time stamp under a chat's label: month/day hour:minute.
pub open spec fn list_stamp_pattern() -> Seq<char> {
    seq!['%', 'm', '/', '%', 'd', ' ', '%', 'H', ':', '%', 'M']
}

/// The line under a chat's label: its number of messages and its creation
/// time as `chrono` writes it (empty where `chrono` has no such instant).
pub open spec fn history_detail_text(count: nat, created: Timestamp) -> Seq<char> {
    let stamp = match chrono_strftime(created.secs, created.nanos, list_stamp_pattern()) {
        Some(s) => s,
        None => seq![],
    };
    seq![' ', ' '] + decimal(count) + seq![' ', 'm', 's', 'g', 's', ' ', ' '] + stamp
}

/// The line shown under a chat's label in the chat list.
pub fn history_detail(session: &ChatSession) -> (r: String)
    ensures
        r@ == history_detail_text(session.messages@.len(), session.created_at),
{
    proof {
        reveal_strlit("%m/%d %H:%M");
    }
    let pattern = "%m/%d %H:%M";
    assert(pattern@ =~= list_stamp_pattern());
    assert(is_simple_pattern(pattern@)) by {
        assert forall|i: int| 0 <= i < pattern@.len() && #[trigger] pattern@[i] == '%' implies i + 1
            < pattern@.len() && (pattern@[i + 1] == 'Y' || pattern@[i + 1] == 'm' || pattern@[i + 1]
            == 'd' || pattern@[i + 1] == 'H' || pattern@[i + 1] == 'M' || pattern@[i + 1] == 'S') && (i
            == 0 || pattern@[i - 1] != '%') by {
            assert(i == 0 || i == 3 || i == 6 || i == 9);
        }
    }
    let stamp = match format_pattern(session.created_at, pattern) {
        Some(s) => s,
        None => String::new(),
    };
    let mut out: Vec<char> = Vec::new();
    out.push(' ');
    out.push(' ');
    let d = decimal_chars(session.messages.len() as u64);
    crate::text::extend_chars(&mut out, d.as_slice());
    out.push(' ');
    out.push('m');
    out.push('s');
    out.push('g');
    out.push('s');
    out.push(' ');
    out.push(' ');
    let st = to_chars(stamp.as_str());
    crate::text::extend_chars(&mut out, st.as_slice());
    assert(out@ =~= history_detail_text(session.messages@.len(), session.created_at));
    string_of(out.as_slice())
}

pub open spec fn opt_string_text(o: Option<String>) -> Option<Seq<char>> {
    match o {
        Some(s) => Some(s@),
        None => None,
    }
}

} // verus!
