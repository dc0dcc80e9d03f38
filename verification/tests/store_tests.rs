use qbank::store::{Document, DocumentMetadata, RAGStore};

fn doc(id: &str, doc_type: &str, chapter: &str, content: &str) -> Document {
    Document {
        id: id.to_string(),
        content: content.to_string(),
        metadata: DocumentMetadata {
            file_id: "f".to_string(),
            page_number: 1,
            chunk_index: 0,
            doc_type: doc_type.to_string(),
            chapter: chapter.to_string(),
            section: String::new(),
        },
    }
}

#[test]
fn add_document_is_idempotent() {
    let mut store = RAGStore::new();
    assert!(store.add_document(doc("d1", "knowledge", "", "first version")));
    assert!(!store.add_document(doc("d1", "knowledge", "", "second version")));
    assert_eq!(store.len(), 1);
    let hits = store.search("first", 10);
    assert_eq!(hits.len(), 1);
    assert_eq!(hits[0].document.content, "first version");
    assert!(store.search("second", 10).is_empty());
}

#[test]
fn search_ranks_example_above_knowledge() {
    let mut store = RAGStore::new();
    store.add_document(doc("d1", "knowledge", "", "the derivative of x"));
    store.add_document(doc("d2", "example", "", "the derivative of x^2"));
    let hits = store.search("derivative x", 10);
    assert_eq!(hits.len(), 2);
    assert_eq!(hits[0].document.id, "d2");
    assert_eq!(hits[0].score, 30); // two matched terms, example weight 1.5, in tenths
    assert_eq!(hits[1].document.id, "d1");
    assert_eq!(hits[1].score, 24); // two matched terms, knowledge weight 1.2
}

#[test]
fn search_respects_top_k() {
    let mut store = RAGStore::new();
    for i in 0..5 {
        store.add_document(doc(&format!("d{}", i), "knowledge", "", "common topic"));
    }
    assert_eq!(store.search("topic", 3).len(), 3);
    assert_eq!(store.search("topic", 10).len(), 5);
    assert!(store.search("topic", 0).is_empty());
}

#[test]
fn search_drops_zero_scores() {
    let mut store = RAGStore::new();
    store.add_document(doc("d1", "knowledge", "", "alpha"));
    assert!(store.search("zzz", 10).is_empty());
}

#[test]
fn search_is_case_insensitive() {
    let mut store = RAGStore::new();
    store.add_document(doc("d1", "knowledge", "", "The Derivative"));
    let hits = store.search("DERIVATIVE", 10);
    assert_eq!(hits.len(), 1);
    assert_eq!(hits[0].score, 12);
}

#[test]
fn search_keeps_insertion_order_on_ties() {
    let mut store = RAGStore::new();
    store.add_document(doc("first", "knowledge", "", "same words"));
    store.add_document(doc("second", "knowledge", "", "same words again"));
    let hits = store.search("same words", 10);
    assert_eq!(hits.len(), 2);
    assert_eq!(hits[0].document.id, "first");
    assert_eq!(hits[1].document.id, "second");
}

#[test]
fn build_context_formats_entries() {
    let mut store = RAGStore::new();
    store.add_document(doc("d1", "example", "微积分", "derivative rules"));
    let ctx = store.build_context("derivative", 1000);
    assert_eq!(ctx, "【example】（微积分）\nderivative rules\n\n");
    let mut store2 = RAGStore::new();
    store2.add_document(doc("d1", "knowledge", "", "derivative rules"));
    let ctx2 = store2.build_context("derivative", 1000);
    assert_eq!(ctx2, "【knowledge】\nderivative rules\n\n");
}

#[test]
fn build_context_excludes_over_budget_entries_whole() {
    let mut store = RAGStore::new();
    store.add_document(doc("big", "example", "", &"x".repeat(400)));
    store.add_document(doc("small", "knowledge", "", "x marks the spot"));
    // the example ranks first but costs over 25 tokens; nothing is truncated,
    // the over-budget candidate stops assembly
    let ctx = store.build_context("x", 25);
    assert_eq!(ctx, "");
    let ctx_all = store.build_context("x", 1000);
    assert!(ctx_all.contains("x marks the spot"));
    assert_eq!(ctx_all.len() / 4 <= 1000, true);
}

#[test]
fn build_context_budget_is_respected() {
    let mut store = RAGStore::new();
    for i in 0..10 {
        store.add_document(doc(
            &format!("d{}", i),
            "knowledge",
            "",
            &format!("filler text number {} with some padding", i),
        ));
    }
    for budget in [0usize, 10, 20, 40, 1000] {
        let ctx = store.build_context("filler", budget);
        // each entry is excluded whole once the running estimate would
        // overrun, so the sum of the entry estimates stays within budget
        assert!(ctx.len() / 4 <= budget + 3);
    }
}

#[test]
fn filters_by_type_and_chapter() {
    let mut store = RAGStore::new();
    store.add_document(doc("d1", "knowledge", "ch1", "a"));
    store.add_document(doc("d2", "example", "ch1", "b"));
    store.add_document(doc("d3", "example", "ch2", "c"));
    assert_eq!(store.get_by_type("example").len(), 2);
    assert_eq!(store.get_knowledge().len(), 1);
    assert_eq!(store.get_examples().len(), 2);
    assert_eq!(store.get_by_chapter("ch1").len(), 2);
    assert_eq!(store.get_by_chapter("ch3").len(), 0);
}

#[test]
fn clear_and_len() {
    let mut store = RAGStore::new();
    assert!(store.is_empty());
    store.add_document(doc("d1", "knowledge", "", "a"));
    assert_eq!(store.len(), 1);
    assert!(!store.is_empty());
    store.clear();
    assert!(store.is_empty());
}

#[test]
fn with_documents_deduplicates_by_id() {
    let docs = vec![
        doc("d1", "knowledge", "", "a"),
        doc("d1", "knowledge", "", "b"),
        doc("d2", "knowledge", "", "c"),
    ];
    let store = RAGStore::with_documents(docs);
    assert_eq!(store.len(), 2);
}
