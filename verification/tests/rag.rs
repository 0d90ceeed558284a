use fastchat_tui::rag::{embedding_request, embeddings_url, Chunk, RagSystem};

fn chunk(text: &str, source: &str, e: u32) -> Chunk<u32> {
    Chunk { text: text.to_string(), source: source.to_string(), embedding: e }
}

#[test]
fn embeddings_url_adds_v1_when_missing() {
    assert_eq!(embeddings_url("http://h:1/v1"), "http://h:1/v1/embeddings");
    assert_eq!(embeddings_url("http://h:1"), "http://h:1/v1/embeddings");
    assert_eq!(embeddings_url("http://h:1/v1/"), "http://h:1/v1//v1/embeddings");
}

#[test]
fn embedding_request_names_the_model() {
    let r = embedding_request("http://h", vec!["q".to_string()]);
    assert_eq!(r.url, "http://h/v1/embeddings");
    assert_eq!(r.model, "all-minilm");
    assert_eq!(r.input, vec!["q".to_string()]);
}

#[test]
fn sources_are_sorted_and_counted_once() {
    let rag = RagSystem::new(
        "http://h".to_string(),
        vec![chunk("1", "b.md", 1), chunk("2", "a.md", 2), chunk("3", "b.md", 3), chunk("4", "B.md", 4)],
    );
    assert_eq!(rag.get_sources(), vec!["B.md".to_string(), "a.md".to_string(), "b.md".to_string()]);
    assert_eq!(rag.get_document_count(), 3);
}

#[test]
fn indexing_a_source_replaces_its_chunks() {
    let mut rag = RagSystem::new(
        "http://h".to_string(),
        vec![chunk("old1", "doc", 1), chunk("keep", "other", 2), chunk("old2", "doc", 3)],
    );
    rag.index_chunks("doc", vec!["n1".to_string(), "n2".to_string(), "n3".to_string()], vec![10, 20]);
    let got: Vec<(String, String, u32)> =
        rag.chunks().iter().map(|c| (c.text.clone(), c.source.clone(), c.embedding)).collect();
    assert_eq!(
        got,
        vec![
            ("keep".to_string(), "other".to_string(), 2),
            ("n1".to_string(), "doc".to_string(), 10),
            ("n2".to_string(), "doc".to_string(), 20),
        ]
    );
    assert_eq!(rag.get_document_count(), 2);
}

#[test]
fn clearing_empties_the_index() {
    let mut rag = RagSystem::new("u".to_string(), vec![chunk("t", "s", 0)]);
    rag.set_base_url("v".to_string());
    assert_eq!(rag.base_url, "v");
    rag.clear_index();
    assert_eq!(rag.get_document_count(), 0);
    assert!(rag.get_sources().is_empty());
    assert!(rag.chunks().is_empty());
}

#[test]
fn text_is_split_into_chunks() {
    assert!(RagSystem::<u32>::split_for_index("").is_empty());
    let short = RagSystem::<u32>::split_for_index("A short note.");
    assert_eq!(short, vec!["A short note.".to_string()]);
    let long = format!("{}\n\n{}", "word ".repeat(80), "next ".repeat(80));
    let parts = RagSystem::<u32>::split_for_index(&long);
    assert!(parts.len() >= 2);
    for p in &parts {
        assert!(p.chars().count() <= 500);
        assert!(long.contains(p.as_str()));
    }
}

#[test]
fn indexing_twice_keeps_only_the_last() {
    let mut rag = RagSystem::new("u".to_string(), vec![chunk("x", "other", 1)]);
    rag.index_chunks("doc", vec!["a".to_string(), "b".to_string()], vec![1, 2]);
    rag.index_chunks("doc", vec!["c".to_string()], vec![3]);
    let got: Vec<(String, String)> =
        rag.chunks().iter().map(|c| (c.text.clone(), c.source.clone())).collect();
    assert_eq!(got, vec![("x".to_string(), "other".to_string()), ("c".to_string(), "doc".to_string())]);
}
