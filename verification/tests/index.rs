use regex::Regex;
use tfidf_index::{Document, IndexState, MergeOutcome, Model};

fn plain() -> Regex {
    Regex::new(r"[^\w\s]").unwrap()
}

fn corpus(texts: &[&str]) -> Vec<String> {
    texts.iter().map(|t| t.to_string()).collect()
}


type Weigh = fn(usize, u64, usize) -> u64;
type Cosine = fn(&Vec<u64>, &Vec<u64>) -> u64;
type Index = Model<String, Weigh, Cosine>;

fn weigh(tf: usize, df: u64, n: usize) -> u64 {
    assert!(tf >= 1 && 1 <= df && df < n as u64);
    ((1.0 + (tf as f64).log10()) * (n as f64 / df as f64).log10()).to_bits()
}

fn floats(bits: &Vec<u64>) -> Vec<f64> {
    bits.iter().map(|b| f64::from_bits(*b)).collect()
}

fn length(v: &[f64]) -> f64 {
    v.iter().map(|x| x * x).sum::<f64>().sqrt()
}

fn cosine(query: &Vec<u64>, doc: &Vec<u64>) -> u64 {
    assert_eq!(query.len(), doc.len());
    let (query, doc) = (floats(query), floats(doc));
    assert!(query.iter().any(|w| *w != 0.0) && doc.iter().any(|w| *w != 0.0));
    let (q, d) = (length(&query), length(&doc));
    if q == 0.0 || d == 0.0 {
        return 0;
    }
    query.iter().zip(doc.iter()).map(|(a, b)| (a / q) * (b / d)).sum::<f64>().to_bits()
}

fn build(texts: &[&str]) -> Index {
    Model::construct(corpus(texts), String::new(), plain(), weigh as Weigh, cosine as Cosine)
}

#[test]
fn a_string_is_its_own_text() {
    assert_eq!(String::from("Some Text").get_data(), "Some Text");
}

#[test]
fn columns_follow_first_occurrence() {
    let model = build(&["cat dog", "cat bird", "fish"]);
    assert_eq!(model.dictionary(), &vec!["cat", "dog", "bird", "fish"]);
    assert_eq!(model.vector_length(), 4);
}

#[test]
fn counts_terms_per_document() {
    let model = build(&["cat dog", "cat bird", "fish"]);
    assert_eq!(
        model.term_frequencies(),
        &vec![vec![1, 1, 0, 0], vec![1, 0, 1, 0], vec![0, 0, 0, 1]]
    );
}

#[test]
fn counts_repeated_terms() {
    let model = build(&["a a b", "a b b", "c c c c"]);
    assert_eq!(model.dictionary(), &vec!["a", "b", "c"]);
    assert_eq!(model.term_frequencies(), &vec![vec![2, 1, 0], vec![1, 2, 0], vec![0, 0, 4]]);
    assert_eq!(model.document_frequency(), &vec![2, 2, 1]);
}

#[test]
fn document_frequency_counts_documents_not_occurrences() {
    let model = build(&["cat dog", "cat bird", "fish"]);
    assert_eq!(model.document_frequency(), &vec![2, 1, 1, 1]);
    let repeated = build(&["cat cat cat", "dog"]);
    assert_eq!(repeated.document_frequency(), &vec![1, 1]);
}

#[test]
fn document_frequency_is_the_number_of_positive_rows() {
    let model = build(&["x y", "y z z", "z", "", "x x y z"]);
    let rows = model.term_frequencies();
    for (t, df) in model.document_frequency().iter().enumerate() {
        let positive = rows.iter().filter(|row| row[t] > 0).count() as u64;
        assert_eq!(*df, positive);
        assert!(1 <= *df && *df <= rows.len() as u64);
    }
}

#[test]
fn empty_corpus_has_no_columns() {
    let model = build(&[]);
    assert_eq!(model.vector_length(), 0);
    assert!(model.dictionary().is_empty());
    assert!(model.term_frequencies().is_empty());
    assert!(model.document_frequency().is_empty());
    assert!(model.documents().is_empty());
    assert_eq!(model.query_vector("anything at all"), Vec::<usize>::new());
    assert_eq!(model.rank(&vec![]), Some(vec![]));
    assert!(model.document_weights().is_empty());
    assert!(!model.weights_stale());
}

#[test]
fn document_without_tokens_has_a_row_of_zeros() {
    let model = build(&["cat", "  ", "dog cat"]);
    assert_eq!(model.term_frequencies(), &vec![vec![1, 0], vec![0, 0], vec![1, 1]]);
    assert_eq!(model.document_frequency(), &vec![2, 1]);
}

#[test]
fn keeps_documents_and_rule() {
    let model = Model::construct(
        corpus(&["one", "two"]),
        String::from("-"),
        plain(),
        weigh as Weigh,
        cosine as Cosine,
    );
    assert_eq!(model.documents(), &corpus(&["one", "two"]));
    assert_eq!(model.replacement(), "-");
    assert_eq!(model.processing_regex().as_str(), r"[^\w\s]");
    assert!(model.queued_for_indexing().is_empty());
    assert_eq!(model.state(), IndexState::Idle);
}

#[test]
fn terms_are_found_by_column() {
    let model = build(&["cat dog", "cat bird", "fish"]);
    assert_eq!(model.term_id("cat"), Some(0));
    assert_eq!(model.term_id("bird"), Some(2));
    assert_eq!(model.term_id("fish"), Some(3));
    assert_eq!(model.term_id("horse"), None);
    assert_eq!(model.term_id("Cat"), None);
    for (t, term) in model.dictionary().iter().enumerate() {
        assert_eq!(model.term_id(term), Some(t));
    }
}

#[test]
fn normalization_rule_shapes_the_dictionary() {
    let model = build(&["Cat, DOG!", "dog... cat?"]);
    assert_eq!(model.dictionary(), &vec!["cat", "dog"]);
    assert_eq!(model.term_frequencies(), &vec![vec![1, 1], vec![1, 1]]);
}

#[test]
fn query_vector_counts_known_terms() {
    let model = build(&["cat dog", "cat bird", "fish"]);
    assert_eq!(model.query_vector("cat"), vec![1, 0, 0, 0]);
    assert_eq!(model.query_vector("fish bird fish"), vec![0, 0, 1, 2]);
}

#[test]
fn query_vector_drops_unknown_terms() {
    let model = build(&["cat dog", "cat bird", "fish"]);
    assert_eq!(model.query_vector("horse cat zebra"), vec![1, 0, 0, 0]);
    assert_eq!(model.query_vector("horse zebra"), vec![0, 0, 0, 0]);
}

#[test]
fn empty_query_has_a_vector_of_zeros() {
    let model = build(&["cat dog", "cat bird", "fish"]);
    assert_eq!(model.query_vector(""), vec![0, 0, 0, 0]);
    assert_eq!(model.query_vector("  \t "), vec![0, 0, 0, 0]);
}

#[test]
fn query_uses_the_rule_of_the_corpus() {
    let model = build(&["cat dog", "cat bird", "fish"]);
    assert_eq!(model.query_vector("CAT! (Dog)"), vec![1, 1, 0, 0]);
}

#[test]
fn own_text_gives_the_own_row() {
    let texts = ["the cat and the dog", "a bird, a cat", "fish fish fish", ""];
    let model = build(&texts);
    for (i, text) in texts.iter().enumerate() {
        assert_eq!(model.query_vector(text), model.term_frequencies()[i]);
    }
}

#[test]
fn indexes_any_kind_of_document() {
    let pages = vec![(7u32, String::from("red green")), (9u32, String::from("green blue"))];
    assert_eq!(pages[0].get_data(), "red green");
    let model =
        Model::construct(pages.clone(), String::new(), plain(), weigh as Weigh, cosine as Cosine);
    assert_eq!(model.dictionary(), &vec!["red", "green", "blue"]);
    assert_eq!(model.document_frequency(), &vec![1, 2, 1]);
    assert_eq!(model.documents(), &pages);
    let ranked = model.rank(&vec![1, 2]).unwrap();
    assert_eq!(ranked[0].0 .0, 9);
    assert_eq!(ranked[1].0 .0, 7);
}

#[test]
fn insert_only_queues() {
    let mut model = build(&["cat dog", "cat bird"]);
    model.insert_docs(corpus(&["fish", "horse"]));
    assert_eq!(model.state(), IndexState::Queued);
    assert_eq!(model.queued_for_indexing(), &corpus(&["fish", "horse"]));
    assert_eq!(model.documents(), &corpus(&["cat dog", "cat bird"]));
    assert_eq!(model.dictionary(), &vec!["cat", "dog", "bird"]);
    assert_eq!(model.term_frequencies(), &vec![vec![1, 1, 0], vec![1, 0, 1]]);
    assert_eq!(model.document_frequency(), &vec![2, 1, 1]);
    assert_eq!(model.query_vector("fish"), vec![0, 0, 0]);
    model.insert_docs(corpus(&["zebra"]));
    assert_eq!(model.queued_for_indexing(), &corpus(&["fish", "horse", "zebra"]));
}

#[test]
fn inserting_nothing_stays_idle() {
    let mut model = build(&["cat"]);
    model.insert_docs(Vec::new());
    assert_eq!(model.state(), IndexState::Idle);
    assert_eq!(model.update_index(), MergeOutcome::NothingQueued);
}

#[test]
fn merge_appends_documents_in_queue_order() {
    let mut model = build(&["cat dog", "cat bird"]);
    model.insert_docs(corpus(&["fish"]));
    model.insert_docs(corpus(&["horse", "zebra"]));
    assert_eq!(model.update_index(), MergeOutcome::Merged);
    assert_eq!(model.state(), IndexState::Idle);
    assert!(model.queued_for_indexing().is_empty());
    assert_eq!(
        model.documents(),
        &corpus(&["cat dog", "cat bird", "fish", "horse", "zebra"])
    );
}

#[test]
fn merge_keeps_columns_and_pads_rows() {
    let mut model = build(&["cat dog", "cat bird"]);
    model.insert_docs(corpus(&["fish cat fish", "Dog!"]));
    assert_eq!(model.vector_length(), 3);
    assert_eq!(model.update_index(), MergeOutcome::Merged);
    assert_eq!(model.dictionary(), &vec!["cat", "dog", "bird", "fish"]);
    assert_eq!(
        model.term_frequencies(),
        &vec![vec![1, 1, 0, 0], vec![1, 0, 1, 0], vec![1, 0, 0, 2], vec![0, 1, 0, 0]]
    );
    assert_eq!(model.term_id("cat"), Some(0));
    assert_eq!(model.term_id("fish"), Some(3));
}

#[test]
fn merge_accumulates_document_frequencies() {
    let mut model = build(&["cat dog", "cat bird"]);
    model.insert_docs(corpus(&["fish cat fish", "dog"]));
    model.update_index();
    assert_eq!(model.document_frequency(), &vec![3, 2, 1, 1]);
}

#[test]
fn merge_without_new_terms_adds_no_column() {
    let mut model = build(&["cat dog", "cat bird"]);
    model.insert_docs(corpus(&["bird dog dog"]));
    model.update_index();
    assert_eq!(model.dictionary(), &vec!["cat", "dog", "bird"]);
    assert_eq!(model.term_frequencies(), &vec![vec![1, 1, 0], vec![1, 0, 1], vec![0, 2, 1]]);
    assert_eq!(model.document_frequency(), &vec![2, 2, 2]);
}

#[test]
fn merge_gives_what_building_the_whole_corpus_gives() {
    let first = ["the cat", "a dog and a cat"];
    let second = ["birds, fish and the dog", "", "a horse"];
    let mut grown = build(&first);
    grown.insert_docs(corpus(&second));
    grown.update_index();
    let whole = build(&[first[0], first[1], second[0], second[1], second[2]]);
    assert_eq!(grown.dictionary(), whole.dictionary());
    assert_eq!(grown.term_frequencies(), whole.term_frequencies());
    assert_eq!(grown.document_frequency(), whole.document_frequency());
    assert_eq!(grown.documents(), whole.documents());
}

#[test]
fn merge_into_an_empty_corpus() {
    let mut model = build(&[]);
    model.insert_docs(corpus(&["cat dog", "dog"]));
    assert_eq!(model.update_index(), MergeOutcome::Merged);
    assert_eq!(model.dictionary(), &vec!["cat", "dog"]);
    assert_eq!(model.term_frequencies(), &vec![vec![1, 1], vec![0, 1]]);
    assert_eq!(model.document_frequency(), &vec![1, 2]);
}

#[test]
fn merge_with_nothing_queued_changes_nothing() {
    let mut model = build(&["cat dog", "cat bird", "fish"]);
    let weights = model.document_weights().clone();
    assert_eq!(model.update_index(), MergeOutcome::NothingQueued);
    assert_eq!(model.state(), IndexState::Idle);
    assert_eq!(model.dictionary(), &vec!["cat", "dog", "bird", "fish"]);
    assert_eq!(
        model.term_frequencies(),
        &vec![vec![1, 1, 0, 0], vec![1, 0, 1, 0], vec![0, 0, 0, 1]]
    );
    assert_eq!(model.document_frequency(), &vec![2, 1, 1, 1]);
    assert_eq!(model.documents(), &corpus(&["cat dog", "cat bird", "fish"]));
    assert_eq!(model.document_weights(), &weights);
    assert!(!model.weights_stale());
}

#[test]
fn merge_leaves_the_weights_and_marks_them_stale() {
    let mut model = build(&["cat dog", "cat bird"]);
    let weights = model.document_weights().clone();
    assert_eq!(weights.len(), 2);
    model.insert_docs(corpus(&["fish"]));
    assert!(!model.weights_stale());
    assert_eq!(model.document_weights(), &weights);
    model.update_index();
    assert!(model.weights_stale());
    assert_eq!(model.document_weights(), &weights);
    model.calculate_document_weights();
    assert!(!model.weights_stale());
    assert_eq!(model.document_weights().len(), 3);
    assert!(model.document_weights().iter().all(|row| row.len() == 4));
}
