use qbank::chunker::TextChunker;

#[test]
fn paragraphs_fit_in_one_chunk() {
    let chunker = TextChunker::new(7, 0);
    let chunks = chunker.chunk_by_paragraph("A\n\nB\n\nC");
    assert_eq!(chunks.len(), 1);
    assert_eq!(chunks[0], "A\n\nB\n\nC");
}

#[test]
fn paragraphs_fit_with_larger_budget() {
    let chunker = TextChunker::new(1000, 100);
    let chunks = chunker.chunk_by_paragraph("A\n\nB\n\nC");
    assert_eq!(chunks.len(), 1);
    assert_eq!(chunks[0], "A\n\nB\n\nC");
}

#[test]
fn small_budget_splits_paragraphs() {
    let chunker = TextChunker::new(1, 0);
    let chunks = chunker.chunk_by_paragraph("A\n\nB\n\nC");
    assert_eq!(chunks, vec!["A".to_string(), "B".to_string(), "C".to_string()]);
    for c in &chunks {
        assert!(c.len() <= 1);
    }
}

#[test]
fn joined_chunks_stay_within_the_budget() {
    // two 2-byte paragraphs: joining them would cost 2 + 2 + 2 = 6 bytes,
    // over a budget of 4, so each becomes its own chunk
    let chunker = TextChunker::new(4, 0);
    let chunks = chunker.chunk_by_paragraph("ab\n\ncd");
    assert_eq!(chunks, vec!["ab".to_string(), "cd".to_string()]);
    for c in &chunks {
        assert!(c.len() <= 4);
    }
    // with a budget of 6 the joined pair fits exactly
    let chunker = TextChunker::new(6, 0);
    let chunks = chunker.chunk_by_paragraph("ab\n\ncd");
    assert_eq!(chunks, vec!["ab\n\ncd".to_string()]);
}

#[test]
fn oversized_paragraph_becomes_own_chunk() {
    let chunker = TextChunker::new(4, 0);
    let chunks = chunker.chunk_by_paragraph("tiny\n\nmuch too long\n\nok");
    assert_eq!(
        chunks,
        vec!["tiny".to_string(), "much too long".to_string(), "ok".to_string()]
    );
}

#[test]
fn blank_buffer_is_not_flushed() {
    let chunker = TextChunker::new(3, 0);
    let chunks = chunker.chunk_by_paragraph("  \n\nabc");
    assert_eq!(chunks, vec!["abc".to_string()]);
}

#[test]
fn sliding_window_with_overlap() {
    let chunker = TextChunker::new(4, 2);
    let chunks = chunker.chunk("abcdefgh");
    // the scan advances by size - overlap and stops at the window that
    // reaches the end of the text
    assert_eq!(
        chunks,
        vec!["abcd".to_string(), "cdef".to_string(), "efgh".to_string()]
    );
}

#[test]
fn sliding_window_drops_blank_windows() {
    let chunker = TextChunker::new(2, 0);
    let chunks = chunker.chunk("ab  cd");
    assert_eq!(chunks, vec!["ab".to_string(), "cd".to_string()]);
}

#[test]
fn empty_text_yields_no_chunks() {
    let chunker = TextChunker::new(10, 0);
    assert!(chunker.chunk("").is_empty());
    assert!(chunker.chunk_by_paragraph("").is_empty());
}
