//! Backend configuration: the known inference servers and which one is active.
use vstd::prelude::*;

use crate::text::{chars_eq, to_chars};

verus! {

/// Where a backend is reached and which model it is asked for.
#[derive(Debug)]
pub struct BackendConfig {
    pub url: String,
    pub model: String,
}

/// The value of a backend's configuration.
pub struct BackendView {
    pub url: Seq<char>,
    pub model: Seq<char>,
}

impl View for BackendConfig {
    type V = BackendView;

    open spec fn view(&self) -> BackendView {
        BackendView { url: self.url@, model: self.model@ }
    }
}

impl Clone for BackendConfig {
    fn clone(&self) -> (r: Self)
        ensures
            r == *self,
    {
        BackendConfig { url: self.url.clone(), model: self.model.clone() }
    }
}

/// The map from entries: each name to the configuration of its last entry.
pub open spec fn entries_map(es: Seq<(String, BackendConfig)>) -> Map<Seq<char>, BackendView>
    decreases es.len(),
{
    if es.len() == 0 {
        Map::empty()
    } else {
        entries_map(es.drop_last()).insert(es.last().0@, es.last().1@)
    }
}

/// `i` is the last position of an entry named `k`.
pub open spec fn last_named(es: Seq<(String, BackendConfig)>, k: Seq<char>, i: int) -> bool {
    0 <= i < es.len() && es[i].0@ == k && forall|j: int| i < j < es.len() ==> es[j].0@ != k
}

proof fn lemma_entries_map(es: Seq<(String, BackendConfig)>)
    ensures
        forall|k: Seq<char>| #[trigger]
            entries_map(es).contains_key(k) <==> exists|i: int| 0 <= i < es.len() && es[i].0@ == k,
        forall|k: Seq<char>, i: int| #[trigger] last_named(es, k, i) ==> entries_map(es)[k] == es[i].1@,
    decreases es.len(),
{
    if es.len() > 0 {
        let init = es.drop_last();
        lemma_entries_map(init);
        assert forall|k: Seq<char>| #[trigger]
            entries_map(es).contains_key(k) <==> exists|i: int| 0 <= i < es.len() && es[i].0@ == k by {
            if entries_map(es).contains_key(k) {
                if k == es.last().0@ {
                    assert(es[es.len() - 1].0@ == k);
                } else {
                    assert(entries_map(es) == entries_map(init).insert(es.last().0@, es.last().1@));
                    assert(entries_map(init).contains_key(k));
                    let i = choose|i: int| 0 <= i < init.len() && init[i].0@ == k;
                    assert(init[i] == es[i]);
                }
            }
            if exists|i: int| 0 <= i < es.len() && es[i].0@ == k {
                let i = choose|i: int| 0 <= i < es.len() && es[i].0@ == k;
                assert(entries_map(es) == entries_map(init).insert(es.last().0@, es.last().1@));
                if i < es.len() - 1 {
                    assert(init[i] == es[i]);
                    assert(entries_map(init).contains_key(k));
                }
            }
        }
        assert forall|k: Seq<char>, i: int| #[trigger] last_named(es, k, i) implies entries_map(es)[k]
            == es[i].1@ by {
            if i < es.len() - 1 {
                assert(init[i] == es[i]);
                assert(es[es.len() - 1].0@ != k);
                assert(last_named(init, k, i));
            }
        }
    }
}

proof fn lemma_last_exists(es: Seq<(String, BackendConfig)>, k: Seq<char>, j0: int)
    requires
        0 <= j0 < es.len(),
        es[j0].0@ == k,
    ensures
        exists|j: int| last_named(es, k, j),
    decreases es.len() - j0,
{
    if exists|q: int| j0 < q < es.len() && es[q].0@ == k {
        let q = choose|q: int| j0 < q < es.len() && es[q].0@ == k;
        lemma_last_exists(es, k, q);
    } else {
        assert(last_named(es, k, j0));
    }
}

/// Backend configurations by name (a map from names to configurations).
#[derive(Debug)]
pub struct BackendMap {
    entries: Vec<(String, BackendConfig)>,
}

impl View for BackendMap {
    type V = Map<Seq<char>, BackendView>;

    closed spec fn view(&self) -> Map<Seq<char>, BackendView> {
        entries_map(self.entries@)
    }
}

fn str_eq(a: &str, b: &str) -> (r: bool)
    ensures
        r == (a@ == b@),
{
    let x = to_chars(a);
    let y = to_chars(b);
    chars_eq(x.as_slice(), y.as_slice())
}

impl BackendMap {
    /// The position of the last entry named `name`, if there is one.
    fn position(&self, name: &str) -> (r: Option<usize>)
        ensures
            match r {
                Some(i) => last_named(self.entries@, name@, i as int),
                None => forall|i: int| 0 <= i < self.entries@.len() ==> self.entries@[i].0@ != name@,
            },
    {
        let mut i: usize = self.entries.len();
        while i > 0
            invariant
                i <= self.entries@.len(),
                forall|k: int| i <= k < self.entries@.len() ==> self.entries@[k].0@ != name@,
            decreases i,
        {
            if str_eq(self.entries[i - 1].0.as_str(), name) {
                return Some(i - 1);
            }
            i = i - 1;
        }
        None
    }

    /// An empty map.
    pub fn new() -> (m: BackendMap)
        ensures
            m@ == Map::<Seq<char>, BackendView>::empty(),
    {
        let m = BackendMap { entries: Vec::new() };
        assert(m.entries@.len() == 0);
        m
    }

    /// Whether a backend is named `name`.
    pub fn contains_key(&self, name: &str) -> (r: bool)
        ensures
            r == self@.contains_key(name@),
    {
        proof {
            lemma_entries_map(self.entries@);
        }
        self.position(name).is_some()
    }

    /// The configuration of the backend named `name`.
    pub fn get(&self, name: &str) -> (r: Option<&BackendConfig>)
        ensures
            match r {
                Some(c) => self@.contains_key(name@) && self@[name@] == c@,
                None => !self@.contains_key(name@),
            },
    {
        proof {
            lemma_entries_map(self.entries@);
        }
        match self.position(name) {
            Some(i) => Some(&self.entries[i].1),
            None => None,
        }
    }

    /// Sets the configuration of the backend named `name`, and gives back the
    /// one it replaces.
    pub fn insert(&mut self, name: String, config: BackendConfig) -> (r: Option<BackendConfig>)
        ensures
            final(self)@ == old(self)@.insert(name@, config@),
            match r {
                Some(c) => old(self)@.contains_key(name@) && old(self)@[name@] == c@,
                None => !old(self)@.contains_key(name@),
            },
    {
        proof {
            lemma_entries_map(self.entries@);
        }
        let ghost m0 = self@;
        let ghost key = name@;
        let ghost val = config@;
        match self.position(name.as_str()) {
            Some(i) => {
                let ghost e0 = self.entries@;
                let old_entry = self.entries.remove(i);
                self.entries.insert(i, (name, config));
                proof {
                    let e1 = self.entries@;
                    assert(e1 =~= e0.update(i as int, e1[i as int]));
                    lemma_entries_map(e1);
                    assert(entries_map(e1) =~= m0.insert(key, val)) by {
                        assert forall|k: Seq<char>| #[trigger] entries_map(e1).contains_key(k)
                            <==> m0.insert(key, val).contains_key(k) by {
                            if m0.contains_key(k) {
                                let j = choose|j: int| 0 <= j < e0.len() && e0[j].0@ == k;
                                if j != i {
                                    assert(e1[j] == e0[j]);
                                }
                            }
                            if entries_map(e1).contains_key(k) {
                                let j = choose|j: int| 0 <= j < e1.len() && e1[j].0@ == k;
                                if j != i {
                                    assert(e1[j] == e0[j]);
                                }
                            }
                            assert(e1[i as int].0@ == key);
                        }
                        assert forall|k: Seq<char>| #[trigger] entries_map(e1).contains_key(k)
                            implies entries_map(e1)[k] == m0.insert(key, val)[k] by {
                            if k == key {
                                assert forall|j: int| i < j < e1.len() implies e1[j].0@ != k by {
                                    assert(e1[j] == e0[j]);
                                }
                                assert(last_named(e1, k, i as int));
                            } else {
                                let j0 = choose|j: int| 0 <= j < e1.len() && e1[j].0@ == k;
                                let j = choose|j: int| last_named(e1, k, j);
                                assert(exists|j: int| last_named(e1, k, j)) by {
                                    lemma_last_exists(e1, k, j0);
                                }
                                assert(j != i);
                                assert(e1[j] == e0[j]);
                                assert forall|q: int| j < q < e0.len() implies e0[q].0@ != k by {
                                    if q != i {
                                        assert(e1[q] == e0[q]);
                                    } else {
                                        assert(e0[q].0@ == key);
                                    }
                                }
                                assert(last_named(e0, k, j));
                            }
                        }
                    }
                }
                Some(old_entry.1)
            },
            None => {
                let ghost e0 = self.entries@;
                self.entries.push((name, config));
                proof {
                    assert(self.entries@.drop_last() =~= e0);
                }
                None
            },
        }
    }

    /// Sets the URL of the backend named `name`; does nothing where there is
    /// none. Tells whether there was one.
    pub fn set_url(&mut self, name: &str, url: String) -> (r: bool)
        ensures
            r == old(self)@.contains_key(name@),
            r ==> final(self)@ == old(self)@.insert(
                name@,
                BackendView { url: url@, model: old(self)@[name@].model },
            ),
            !r ==> final(self)@ == old(self)@,
    {
        match self.get(name) {
            Some(c) => {
                let model = c.model.clone();
                let owned = name.to_owned();
                self.insert(owned, BackendConfig { url, model });
                true
            },
            None => false,
        }
    }

    /// Sets the model of the backend named `name`; does nothing where there
    /// is none. Tells whether there was one.
    pub fn set_model(&mut self, name: &str, model: String) -> (r: bool)
        ensures
            r == old(self)@.contains_key(name@),
            r ==> final(self)@ == old(self)@.insert(
                name@,
                BackendView { url: old(self)@[name@].url, model: model@ },
            ),
            !r ==> final(self)@ == old(self)@,
    {
        match self.get(name) {
            Some(c) => {
                let url = c.url.clone();
                let owned = name.to_owned();
                self.insert(owned, BackendConfig { url, model });
                true
            },
            None => false,
        }
    }
}

/// What `get` reads after `insert`: the inserted settings under the name
/// inserted, and under every other name what was there before.
pub proof fn lemma_get_after_insert(
    m: Map<Seq<char>, BackendView>,
    name: Seq<char>,
    c: BackendView,
    other: Seq<char>,
)
    ensures
        m.insert(name, c).contains_key(name),
        m.insert(name, c)[name] == c,
        other != name ==> (m.insert(name, c).contains_key(other) <==> m.contains_key(other)),
        other != name && m.contains_key(other) ==> m.insert(name, c)[other] == m[other],
{
}

impl Clone for BackendMap {
    fn clone(&self) -> (r: Self)
        ensures
            r@ == self@,
    {
        let mut entries: Vec<(String, BackendConfig)> = Vec::new();
        let mut i: usize = 0;
        while i < self.entries.len()
            invariant
                i <= self.entries@.len(),
                entries@ == self.entries@.take(i as int),
            decreases self.entries@.len() - i,
        {
            let e = &self.entries[i];
            entries.push((e.0.clone(), e.1.clone()));
            i = i + 1;
            assert(entries@ =~= self.entries@.take(i as int));
        }
        assert(self.entries@.take(i as int) =~= self.entries@);
        BackendMap { entries }
    }
}

/// The application's backend settings.
#[derive(Debug)]
pub struct AppConfig {
    pub backends: BackendMap,
    pub active_backend: String,
}

impl Clone for AppConfig {
    fn clone(&self) -> (r: Self)
        ensures
            r.backends@ == self.backends@,
            r.active_backend == self.active_backend,
    {
        AppConfig { backends: self.backends.clone(), active_backend: self.active_backend.clone() }
    }
}

/// The backends that the application starts with.
pub open spec fn default_backends() -> Map<Seq<char>, BackendView> {
    map![
        "tabbyapi"@ => BackendView { url: "http://localhost:5000/v1"@, model: "default"@ },
        "sglang"@ => BackendView { url: "http://localhost:30000/v1"@, model: "default"@ },
        "ollama"@ => BackendView { url: "http://localhost:11434/v1"@, model: "qwen2.5:1.5b"@ },
        "vllm"@ => BackendView { url: "http://localhost:8000/v1"@, model: "default"@ },
        "lmstudio"@ => BackendView { url: "http://localhost:1234/v1"@, model: "default"@ },
    ]
}

fn backend(url: &str, model: &str) -> (c: BackendConfig)
    ensures
        c@ == (BackendView { url: url@, model: model@ }),
{
    BackendConfig { url: url.to_owned(), model: model.to_owned() }
}

impl Default for AppConfig {
    /// Five local backends, `tabbyapi` active.
    fn default() -> (c: Self)
        ensures
            c.backends@ == default_backends(),
            c.active_backend@ == "tabbyapi"@,
    {
        let mut backends = BackendMap::new();
        backends.insert("tabbyapi".to_owned(), backend("http://localhost:5000/v1", "default"));
        backends.insert("sglang".to_owned(), backend("http://localhost:30000/v1", "default"));
        backends.insert("ollama".to_owned(), backend("http://localhost:11434/v1", "qwen2.5:1.5b"));
        backends.insert("vllm".to_owned(), backend("http://localhost:8000/v1", "default"));
        backends.insert("lmstudio".to_owned(), backend("http://localhost:1234/v1", "default"));
        assert(backends@ =~= default_backends());
        AppConfig { backends, active_backend: "tabbyapi".to_owned() }
    }
}

impl AppConfig {
    /// The configuration of the active backend, if it is known.
    pub fn get_active_backend(&self) -> (r: Option<&BackendConfig>)
        ensures
            match r {
                Some(c) => self.backends@.contains_key(self.active_backend@)
                    && self.backends@[self.active_backend@] == c@,
                None => !self.backends@.contains_key(self.active_backend@),
            },
    {
        self.backends.get(self.active_backend.as_str())
    }
}

} // verus!
