use tfidf_index::TermTable;

fn lists(docs: &[&[&str]]) -> Vec<Vec<String>> {
    docs.iter().map(|doc| doc.iter().map(|t| t.to_string()).collect()).collect()
}

fn tokens(doc: &[&str]) -> Vec<String> {
    doc.iter().map(|t| t.to_string()).collect()
}

#[test]
fn new_table_is_empty() {
    let table = TermTable::new();
    assert_eq!(table.vector_length(), 0);
    assert!(table.dictionary().is_empty());
    assert!(table.term_frequencies().is_empty());
    assert!(table.document_frequency().is_empty());
    assert_eq!(table.count(&tokens(&["cat"])), Vec::<usize>::new());
    assert_eq!(table.term_id("cat"), None);
}

#[test]
fn table_numbers_terms_by_first_occurrence() {
    let mut table = TermTable::new();
    table.add_documents(&lists(&[&["cat", "dog"], &["cat", "bird"], &["fish"]]));
    assert_eq!(table.dictionary(), &vec!["cat", "dog", "bird", "fish"]);
    assert_eq!(table.vector_length(), 4);
    assert_eq!(table.term_id("dog"), Some(1));
    assert_eq!(table.term_id("cow"), None);
}

#[test]
fn table_counts_terms_and_documents() {
    let mut table = TermTable::new();
    table.add_documents(&lists(&[&["b", "a", "b"], &[], &["a", "a", "c", "a"]]));
    assert_eq!(table.dictionary(), &vec!["b", "a", "c"]);
    assert_eq!(table.term_frequencies(), &vec![vec![2, 1, 0], vec![0, 0, 0], vec![0, 3, 1]]);
    assert_eq!(table.document_frequency(), &vec![1, 2, 1]);
}

#[test]
fn table_grows_in_batches() {
    let mut table = TermTable::new();
    table.add_documents(&lists(&[&["cat", "dog"]]));
    table.add_documents(&lists(&[]));
    table.add_documents(&lists(&[&["emu", "cat", "emu"], &["dog", "fox"]]));
    assert_eq!(table.dictionary(), &vec!["cat", "dog", "emu", "fox"]);
    assert_eq!(
        table.term_frequencies(),
        &vec![vec![1, 1, 0, 0], vec![1, 0, 2, 0], vec![0, 1, 0, 1]]
    );
    assert_eq!(table.document_frequency(), &vec![2, 2, 1, 1]);
}

#[test]
fn batches_give_what_one_batch_gives() {
    let docs: Vec<Vec<String>> =
        lists(&[&["x", "y"], &["y", "z", "z"], &[], &["w", "x"], &["z"], &["v", "w", "v"]]);
    let mut whole = TermTable::new();
    whole.add_documents(&docs);
    for cut in 0..=docs.len() {
        let mut parts = TermTable::new();
        parts.add_documents(&docs[..cut].to_vec());
        parts.add_documents(&docs[cut..].to_vec());
        assert_eq!(parts.dictionary(), whole.dictionary());
        assert_eq!(parts.term_frequencies(), whole.term_frequencies());
        assert_eq!(parts.document_frequency(), whole.document_frequency());
    }
}

#[test]
fn count_passes_over_unknown_tokens() {
    let mut table = TermTable::new();
    table.add_documents(&lists(&[&["cat", "dog"], &["cat", "bird"]]));
    assert_eq!(table.count(&tokens(&["dog", "emu", "dog", "cat", "fox"])), vec![1, 2, 0]);
    assert_eq!(table.count(&tokens(&[])), vec![0, 0, 0]);
    assert_eq!(table.count(&tokens(&["emu"])), vec![0, 0, 0]);
}

#[test]
fn tokens_are_taken_as_they_are() {
    let mut table = TermTable::new();
    table.add_documents(&lists(&[&["Cat", "cat", "", "CAT", ""]]));
    assert_eq!(table.dictionary(), &vec!["Cat", "cat", "", "CAT"]);
    assert_eq!(table.term_frequencies(), &vec![vec![1, 1, 2, 1]]);
}
