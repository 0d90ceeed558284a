//! The retrieval index: documents cut into chunks, each chunk stored with
//! its source and its embedding, and the requests that fetch embeddings.
//!
//! An embedding is a type parameter here: the store keeps it and hands it
//! back, and what is computed from it (similarity, ranking) is done by the
//! code that knows its numbers.
use vstd::prelude::*;

use crate::text::{matches_at, string_of, to_chars};

verus! {

/// What `text_splitter::TextSplitter::new(capacity).chunks(text)` yields,
/// each chunk as its characters.
pub uninterp spec fn text_splitter_chunks(text: Seq<char>, capacity: nat) -> Seq<Seq<char>>;

/// The values of a sequence of strings.
pub open spec fn string_texts(ss: Seq<String>) -> Seq<Seq<char>> {
    ss.map_values(|s: String| s@)
}

/// `p` occurs in `s` somewhere.
pub open spec fn is_infix(s: Seq<char>, p: Seq<char>) -> bool {
    exists|i: int| 0 <= i && i + p.len() <= s.len() && #[trigger] s.subrange(i, i + p.len()) == p
}

/// Splits `text` with `text_splitter::TextSplitter` at the given capacity in
/// characters and collects the chunks. The result is named by
/// `text_splitter_chunks`; besides, as the crate's chunk iterator shows, no
/// chunk is empty, each is a piece of `text`, and an empty text gives none.
/// That a chunk fits the capacity is not stated: a single grapheme cluster
/// longer than the capacity is kept whole.
#[verifier::external_body]
fn split_text(text: &str, capacity: usize) -> (r: Vec<String>)
    ensures
        string_texts(r@) == text_splitter_chunks(text@, capacity as nat),
        forall|i: int| 0 <= i < r@.len() ==> #[trigger] r@[i]@.len() > 0,
        forall|i: int| 0 <= i < r@.len() ==> is_infix(text@, #[trigger] r@[i]@),
        text@.len() == 0 ==> r@.len() == 0,
{
    let splitter = text_splitter::TextSplitter::new(capacity);
    splitter.chunks(text).map(|s| s.to_string()).collect()
}

/// The most characters a chunk is cut to.
pub const CHUNK_CAPACITY: usize = 500;

/// One stored piece of a document.
#[derive(Debug)]
pub struct Chunk<E> {
    pub text: String,
    /// The file name or the chat id that the piece comes from.
    pub source: String,
    pub embedding: E,
}

/// The value of a chunk.
pub struct ChunkView<E> {
    pub text: Seq<char>,
    pub source: Seq<char>,
    pub embedding: E,
}

impl<E> View for Chunk<E> {
    type V = ChunkView<E>;

    open spec fn view(&self) -> ChunkView<E> {
        ChunkView { text: self.text@, source: self.source@, embedding: self.embedding }
    }
}

/// The values of a sequence of chunks.
pub open spec fn chunk_views<E>(cs: Seq<Chunk<E>>) -> Seq<ChunkView<E>> {
    cs.map_values(|c: Chunk<E>| c@)
}

/// The chunks of `cs` whose source is not `source`, in order.
pub open spec fn other_sources<E>(cs: Seq<ChunkView<E>>, source: Seq<char>) -> Seq<ChunkView<E>>
    decreases cs.len(),
{
    if cs.len() == 0 {
        seq![]
    } else {
        let rest = other_sources(cs.drop_first(), source);
        if cs[0].source == source {
            rest
        } else {
            seq![cs[0]] + rest
        }
    }
}

/// The chunks made of the texts and embeddings taken in pairs, as far as
/// both go, all from `source`.
pub open spec fn paired<E>(texts: Seq<Seq<char>>, es: Seq<E>, source: Seq<char>) -> Seq<
    ChunkView<E>,
> {
    let n = if texts.len() <= es.len() {
        texts.len()
    } else {
        es.len()
    };
    Seq::new(n, |i: int| ChunkView { text: texts[i], source, embedding: es[i] })
}

proof fn lemma_other_sources_append<E>(a: Seq<ChunkView<E>>, b: Seq<ChunkView<E>>, s: Seq<char>)
    ensures
        other_sources(a + b, s) == other_sources(a, s) + other_sources(b, s),
    decreases a.len(),
{
    if a.len() == 0 {
        assert(a + b =~= b);
    } else {
        lemma_other_sources_append(a.drop_first(), b, s);
        assert((a + b).drop_first() =~= a.drop_first() + b);
        assert((a + b)[0] == a[0]);
        if a[0].source != s {
            assert(seq![a[0]] + (other_sources(a.drop_first(), s) + other_sources(b, s))
                =~= (seq![a[0]] + other_sources(a.drop_first(), s)) + other_sources(b, s));
        }
    }
}

proof fn lemma_other_sources_kept<E>(a: Seq<ChunkView<E>>, s: Seq<char>)
    requires
        forall|i: int| 0 <= i < a.len() ==> #[trigger] a[i].source != s,
    ensures
        other_sources(a, s) == a,
    decreases a.len(),
{
    if a.len() == 0 {
    } else {
        assert forall|i: int| 0 <= i < a.drop_first().len() implies #[trigger] a.drop_first()[i].source != s by {
            assert(a.drop_first()[i] == a[i + 1]);
        }
        lemma_other_sources_kept(a.drop_first(), s);
        assert(seq![a[0]] + a.drop_first() =~= a);
    }
}

proof fn lemma_other_sources_dropped<E>(a: Seq<ChunkView<E>>, s: Seq<char>)
    requires
        forall|i: int| 0 <= i < a.len() ==> #[trigger] a[i].source == s,
    ensures
        other_sources(a, s) == Seq::<ChunkView<E>>::empty(),
    decreases a.len(),
{
    if a.len() > 0 {
        assert forall|i: int| 0 <= i < a.drop_first().len() implies #[trigger] a.drop_first()[i].source == s by {
            assert(a.drop_first()[i] == a[i + 1]);
        }
        lemma_other_sources_dropped(a.drop_first(), s);
    }
}

proof fn lemma_other_sources_excludes<E>(a: Seq<ChunkView<E>>, s: Seq<char>)
    ensures
        forall|i: int| 0 <= i < other_sources(a, s).len() ==> #[trigger] other_sources(a, s)[i].source != s,
    decreases a.len(),
{
    if a.len() > 0 {
        lemma_other_sources_excludes(a.drop_first(), s);
        let r = other_sources(a.drop_first(), s);
        if a[0].source != s {
            assert forall|i: int| 0 <= i < other_sources(a, s).len() implies #[trigger] other_sources(a, s)[i].source != s by {
                if i > 0 {
                    assert(other_sources(a, s)[i] == r[i - 1]);
                }
            }
        }
    }
}

/// Indexing a source again replaces what an earlier indexing of it stored:
/// the index is then as if only the last indexing had been made.
pub proof fn lemma_reindex_replaces<E>(
    cs: Seq<ChunkView<E>>,
    source: Seq<char>,
    texts1: Seq<Seq<char>>,
    es1: Seq<E>,
    texts2: Seq<Seq<char>>,
    es2: Seq<E>,
)
    ensures
        other_sources(other_sources(cs, source) + paired(texts1, es1, source), source) + paired(
            texts2,
            es2,
            source,
        ) == other_sources(cs, source) + paired(texts2, es2, source),
{
    let kept = other_sources(cs, source);
    lemma_other_sources_append(kept, paired(texts1, es1, source), source);
    lemma_other_sources_excludes(cs, source);
    lemma_other_sources_kept(kept, source);
    lemma_other_sources_dropped(paired(texts1, es1, source), source);
    assert(kept + Seq::<ChunkView<E>>::empty() =~= kept);
}

/// The sources named by a sequence of chunks.
pub open spec fn source_names<E>(cs: Seq<ChunkView<E>>) -> Seq<Seq<char>> {
    cs.map_values(|c: ChunkView<E>| c.source)
}

/// `a` comes before `b` in the order of `String`: character by character,
/// a proper prefix first.
pub open spec fn lex_lt(a: Seq<char>, b: Seq<char>) -> bool
    decreases a.len(),
{
    if a.len() == 0 {
        b.len() > 0
    } else if b.len() == 0 {
        false
    } else if a[0] != b[0] {
        (a[0] as int) < (b[0] as int)
    } else {
        lex_lt(a.drop_first(), b.drop_first())
    }
}

/// Each element comes strictly before every later one.
pub open spec fn strictly_sorted(s: Seq<Seq<char>>) -> bool {
    forall|i: int, j: int| 0 <= i < j < s.len() ==> lex_lt(#[trigger] s[i], #[trigger] s[j])
}

/// No text comes before itself.
pub proof fn lemma_lex_irreflexive(a: Seq<char>)
    ensures
        !lex_lt(a, a),
    decreases a.len(),
{
    if a.len() > 0 {
        lemma_lex_irreflexive(a.drop_first());
    }
}

/// Of two different texts, one comes before the other, and never both.
pub proof fn lemma_lex_total(a: Seq<char>, b: Seq<char>)
    ensures
        a != b ==> (lex_lt(a, b) || lex_lt(b, a)),
        !(lex_lt(a, b) && lex_lt(b, a)),
    decreases a.len(),
{
    if a.len() > 0 && b.len() > 0 && a[0] == b[0] {
        lemma_lex_total(a.drop_first(), b.drop_first());
        if a != b {
            assert(a =~= seq![a[0]] + a.drop_first());
            assert(b =~= seq![b[0]] + b.drop_first());
        }
    } else if a.len() == 0 && b.len() == 0 {
        assert(a =~= b);
    }
}

/// The order is transitive.
pub proof fn lemma_lex_transitive(a: Seq<char>, b: Seq<char>, c: Seq<char>)
    requires
        lex_lt(a, b),
        lex_lt(b, c),
    ensures
        lex_lt(a, c),
    decreases a.len(),
{
    if a.len() > 0 && b.len() > 0 && c.len() > 0 && a[0] == b[0] && b[0] == c[0] {
        lemma_lex_transitive(a.drop_first(), b.drop_first(), c.drop_first());
    }
}

/// A strictly sorted sequence holds no element twice.
pub proof fn lemma_sorted_no_duplicates(s: Seq<Seq<char>>)
    requires
        strictly_sorted(s),
    ensures
        s.no_duplicates(),
{
    assert forall|i: int, j: int| 0 <= i < s.len() && 0 <= j < s.len() && i != j implies s[i]
        != s[j] by {
        if i < j {
            assert(lex_lt(s[i], s[j]));
        } else {
            assert(lex_lt(s[j], s[i]));
        }
        lemma_lex_irreflexive(s[i]);
    }
}

/// Whether `a` comes before `b`.
pub fn lex_less(a: &[char], b: &[char]) -> (r: bool)
    ensures
        r == lex_lt(a@, b@),
{
    let mut i: usize = 0;
    assert(a@.skip(0) =~= a@);
    assert(b@.skip(0) =~= b@);
    while i < a.len() && i < b.len() && a[i] == b[i]
        invariant
            i <= a@.len(),
            i <= b@.len(),
            lex_lt(a@, b@) == lex_lt(a@.skip(i as int), b@.skip(i as int)),
        decreases a@.len() - i,
    {
        assert(a@.skip(i as int).drop_first() =~= a@.skip(i + 1));
        assert(b@.skip(i as int).drop_first() =~= b@.skip(i + 1));
        i = i + 1;
    }
    if i == a.len() {
        i < b.len()
    } else if i == b.len() {
        false
    } else {
        a[i] < b[i]
    }
}

/// The retrieval index of the application: its chunks and the base URL of
/// the server that computes embeddings.
#[derive(Debug)]
pub struct RagSystem<E> {
    chunks: Vec<Chunk<E>>,
    pub base_url: String,
}

impl<E> RagSystem<E> {
    /// The stored chunks, in order.
    pub closed spec fn stored(&self) -> Seq<ChunkView<E>> {
        chunk_views(self.chunks@)
    }

    /// The base URL of the embeddings server.
    pub closed spec fn base(&self) -> Seq<char> {
        self.base_url@
    }

    /// The texts of the documents in the index.
    pub open spec fn documents(&self) -> Set<Seq<char>> {
        source_names(self.stored()).to_set()
    }

    /// An index holding `chunks` (those read back from where the index was saved).
    pub fn new(base_url: String, chunks: Vec<Chunk<E>>) -> (r: Self)
        ensures
            r.stored() == chunk_views(chunks@),
            r.base() == base_url@,
    {
        RagSystem { chunks, base_url }
    }

    pub fn set_base_url(&mut self, url: String)
        ensures
            final(self).base() == url@,
            final(self).stored() == old(self).stored(),
    {
        self.base_url = url;
    }

    /// The stored chunks, in order, to save them or to rank them.
    pub fn chunks(&self) -> (r: &Vec<Chunk<E>>)
        ensures
            chunk_views(r@) == self.stored(),
    {
        &self.chunks
    }

    /// The pieces that `text` is cut into before it is indexed.
    pub fn split_for_index(text: &str) -> (r: Vec<String>)
        ensures
            string_texts(r@) == text_splitter_chunks(text@, CHUNK_CAPACITY as nat),
            text@.len() == 0 ==> r@.len() == 0,
    {
        split_text(text, CHUNK_CAPACITY)
    }

    /// Replaces what the index holds of `source` by the chunks made of
    /// `texts` and `embeddings` taken in pairs: the chunks of other sources
    /// stay, in their order, and the new ones follow.
    pub fn index_chunks(&mut self, source: &str, texts: Vec<String>, embeddings: Vec<E>)
        ensures
            final(self).stored() == other_sources(old(self).stored(), source@) + paired(
                string_texts(texts@),
                embeddings@,
                source@,
            ),
            final(self).base() == old(self).base(),
    {
        let ghost all = chunk_views(self.chunks@);
        let mut rest: Vec<Chunk<E>> = Vec::new();
        std::mem::swap(&mut rest, &mut self.chunks);
        let src = source.to_owned();
        let mut kept: Vec<Chunk<E>> = Vec::new();
        assert(chunk_views(kept@) + other_sources(chunk_views(rest@), source@) =~= other_sources(
            all,
            source@,
        ));
        while rest.len() > 0
            invariant
                src@ == source@,
                chunk_views(kept@) + other_sources(chunk_views(rest@), source@) == other_sources(
                    all,
                    source@,
                ),
            decreases rest@.len(),
        {
            let ghost r0 = chunk_views(rest@);
            let c = rest.remove(0);
            assert(chunk_views(rest@) =~= r0.drop_first());
            assert(r0[0] == c@);
            if c.source != src {
                let ghost k0 = chunk_views(kept@);
                kept.push(c);
                assert(chunk_views(kept@) =~= k0 + seq![c@]);
                assert(k0 + (seq![c@] + other_sources(r0.drop_first(), source@)) =~= chunk_views(
                    kept@,
                ) + other_sources(r0.drop_first(), source@));
            }
        }
        assert(chunk_views(rest@) =~= seq![]);
        assert(chunk_views(kept@) + seq![] =~= chunk_views(kept@));
        let ghost base = chunk_views(kept@);
        let ghost ts = string_texts(texts@);
        let ghost es = embeddings@;
        assert(ts.len() == texts.len());
        assert(ts.skip(0) =~= ts);
        assert(es.skip(0) =~= es);
        assert(chunk_views(kept@) =~= base + paired(ts.take(0), es.take(0), source@));
        let mut texts = texts;
        let mut embeddings = embeddings;
        let mut k: usize = 0;
        while texts.len() > 0 && embeddings.len() > 0
            invariant
                ts.len() <= usize::MAX,
                k + texts@.len() == ts.len(),
                k <= es.len(),
                string_texts(texts@) == ts.skip(k as int),
                embeddings@ == es.skip(k as int),
                chunk_views(kept@) == base + paired(ts.take(k as int), es.take(k as int), source@),
            decreases texts@.len(),
        {
            assert(string_texts(texts@)[0] == texts@[0]@);
            assert(ts.skip(k as int)[0] == ts[k as int]);
            assert(es.skip(k as int)[0] == es[k as int]);
            let ghost t0 = texts@;
            let ghost e0 = embeddings@;
            let ghost p0 = paired(ts.take(k as int), es.take(k as int), source@);
            let t = texts.remove(0);
            let e = embeddings.remove(0);
            assert(texts@ =~= t0.drop_first());
            assert(string_texts(texts@) =~= string_texts(t0).drop_first());
            assert(ts.skip(k as int).drop_first() =~= ts.skip(k + 1));
            assert(embeddings@ =~= e0.drop_first());
            assert(ts[k as int] == t@);
            assert(es[k as int] == e);
            let c = Chunk { text: t, source: source.to_owned(), embedding: e };
            let ghost cv = c@;
            let ghost k0 = chunk_views(kept@);
            kept.push(c);
            assert(chunk_views(kept@) =~= k0.push(cv));
            assert(paired(ts.take(k + 1), es.take(k + 1), source@) =~= p0.push(cv));
            k = k + 1;
            assert(string_texts(texts@) =~= ts.skip(k as int));
            assert(embeddings@ =~= es.skip(k as int));
        }
        assert(paired(ts.take(k as int), es.take(k as int), source@) =~= paired(ts, es, source@));
        self.chunks = kept;
    }

    /// The sources of the stored chunks, each once, in the order of `String`.
    pub fn get_sources(&self) -> (r: Vec<String>)
        ensures
            string_texts(r@).to_set() == self.documents(),
            strictly_sorted(string_texts(r@)),
            r@.len() == self.documents().len(),
    {
        let ghost names = source_names(chunk_views(self.chunks@));
        let mut out: Vec<String> = Vec::new();
        let mut i: usize = 0;
        while i < self.chunks.len()
            invariant
                i <= self.chunks@.len(),
                names == source_names(chunk_views(self.chunks@)),
                string_texts(out@).to_set() == names.take(i as int).to_set(),
                strictly_sorted(string_texts(out@)),
            decreases self.chunks@.len() - i,
        {
            let ghost o0 = string_texts(out@);
            let src = &self.chunks[i].source;
            assert(names[i as int] == src@);
            assert(names.take(i + 1).to_set() =~= names.take(i as int).to_set().insert(src@)) by {
                assert(names.take(i + 1) =~= names.take(i as int).push(src@));
                names.take(i as int).lemma_push_to_set_commute(src@);
            }
            insert_sorted(&mut out, src);
            i = i + 1;
        }
        assert(names.take(i as int) =~= names);
        proof {
            lemma_sorted_no_duplicates(string_texts(out@));
            string_texts(out@).unique_seq_to_set();
        }
        out
    }

    /// How many sources the stored chunks come from.
    pub fn get_document_count(&self) -> (r: usize)
        ensures
            r == self.documents().len(),
    {
        self.get_sources().len()
    }

    /// Empties the index.
    pub fn clear_index(&mut self)
        ensures
            final(self).stored() == Seq::<ChunkView<E>>::empty(),
            final(self).base() == old(self).base(),
    {
        self.chunks = Vec::new();
        assert(chunk_views(self.chunks@) =~= Seq::<ChunkView<E>>::empty());
    }
}

/// Adds `x` to the strictly sorted `out` unless it is there already.
fn insert_sorted(out: &mut Vec<String>, x: &String)
    requires
        strictly_sorted(string_texts(old(out)@)),
    ensures
        strictly_sorted(string_texts(final(out)@)),
        string_texts(final(out)@).to_set() == string_texts(old(out)@).to_set().insert(x@),
{
    let ghost o = string_texts(out@);
    let xs = to_chars(x.as_str());
    let mut p: usize = 0;
    while p < out.len()
        invariant
            p <= out@.len(),
            o == string_texts(out@),
            strictly_sorted(o),
            xs@ == x@,
            forall|k: int| 0 <= k < p ==> lex_lt(#[trigger] o[k], x@),
        ensures
            p <= o.len(),
            o == string_texts(out@),
            forall|k: int| 0 <= k < p ==> lex_lt(#[trigger] o[k], x@),
            p < o.len() ==> lex_lt(x@, o[p as int]),
        decreases out@.len() - p,
    {
        if out[p] == *x {
            assert(o.to_set().insert(x@) =~= o.to_set()) by {
                assert(o[p as int] == x@);
            }
            return ;
        }
        let ys = to_chars(out[p].as_str());
        if lex_less(&xs, &ys) {
            break ;
        }
        proof {
            lemma_lex_total(o[p as int], x@);
        }
        p = p + 1;
    }
    proof {
        if p < o.len() {
            assert forall|j: int| p <= j < o.len() implies lex_lt(x@, #[trigger] o[j]) by {
                if j > p {
                    lemma_lex_transitive(x@, o[p as int], o[j]);
                }
            }
        }
    }
    out.insert(p, x.clone());
    let ghost n = string_texts(out@);
    assert(n =~= o.insert(p as int, x@));
    assert forall|i: int, j: int| 0 <= i < j < n.len() implies lex_lt(#[trigger] n[i], #[trigger] n[j]) by {
        if i < p && j == p {
        } else if i < p && j > p {
            assert(n[j] == o[j - 1]);
            lemma_lex_transitive(o[i], x@, o[j - 1]);
        } else if i == p {
            assert(n[j] == o[j - 1]);
        } else if i < p {
        } else {
            assert(n[i] == o[i - 1]);
            assert(n[j] == o[j - 1]);
        }
    }
    assert(n.to_set() =~= o.to_set().insert(x@)) by {
        assert forall|y: Seq<char>| n.to_set().contains(y) implies o.to_set().insert(x@).contains(
            y,
        ) by {
            let k = choose|k: int| 0 <= k < n.len() && n[k] == y;
            if k > p {
                assert(o[k - 1] == y);
            } else if k < p {
                assert(o[k] == y);
            }
        }
        assert forall|y: Seq<char>| o.to_set().insert(x@).contains(y) implies n.to_set().contains(
            y,
        ) by {
            if y == x@ {
                assert(n[p as int] == y);
            } else {
                let k = choose|k: int| 0 <= k < o.len() && o[k] == y;
                if k < p {
                    assert(n[k] == y);
                } else {
                    assert(n[k + 1] == y);
                }
            }
        }
    }
}

/// Whether `s` ends with `p`.
pub open spec fn has_suffix(s: Seq<char>, p: Seq<char>) -> bool {
    p.len() <= s.len() && s.subrange(s.len() - p.len(), s.len() as int) == p
}

/// The embeddings endpoint under `base`: `base` already ends in `/v1`, or
/// `/v1` is added.
pub open spec fn embeddings_url_text(base: Seq<char>) -> Seq<char> {
    if has_suffix(base, "/v1"@) {
        base + "/embeddings"@
    } else {
        base + "/v1/embeddings"@
    }
}

/// The URL that embeddings are asked of.
pub fn embeddings_url(base: &str) -> (url: String)
    ensures
        url@ == embeddings_url_text(base@),
{
    let cs = to_chars(base);
    let v1 = to_chars("/v1");
    let ends = v1.len() <= cs.len() && matches_at(&cs, &v1, cs.len() - v1.len());
    let mut url = string_of(&cs);
    if ends {
        url.append("/embeddings");
    } else {
        url.append("/v1/embeddings");
    }
    url
}

/// The model that computes embeddings.
pub open spec fn embedding_model_name() -> Seq<char> {
    "all-minilm"@
}

/// A request for the embeddings of some texts.
#[derive(Debug)]
pub struct EmbeddingRequest {
    pub url: String,
    pub model: String,
    pub input: Vec<String>,
}

/// The request for the embeddings of `texts` from the server at `base`.
pub fn embedding_request(base: &str, texts: Vec<String>) -> (r: EmbeddingRequest)
    ensures
        r.url@ == embeddings_url_text(base@),
        r.model@ == embedding_model_name(),
        r.input@ == texts@,
{
    EmbeddingRequest { url: embeddings_url(base), model: "all-minilm".to_owned(), input: texts }
}

} // verus!
