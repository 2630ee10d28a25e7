use regex::Regex;
use tfidf_index::scoring::zero_vector;
use tfidf_index::Model;

type Weigh = fn(usize, u64, usize) -> u64;
type Cosine = fn(&Vec<u64>, &Vec<u64>) -> u64;
type Index = Model<String, Weigh, Cosine>;

fn weigh(tf: usize, df: u64, n: usize) -> u64 {
    assert!(tf >= 1 && 1 <= df && df < n as u64);
    ((1.0 + (tf as f64).log10()) * (n as f64 / df as f64).log10()).to_bits()
}

fn floats(bits: &Vec<u64>) -> Vec<f64> {
    bits.iter().map(|b| f64::from_bits(*b)).collect()
}

fn length(v: &[f64]) -> f64 {
    v.iter().map(|x| x * x).sum::<f64>().sqrt()
}

fn cosine(query: &Vec<u64>, doc: &Vec<u64>) -> u64 {
    assert_eq!(query.len(), doc.len());
    let (query, doc) = (floats(query), floats(doc));
    assert!(query.iter().any(|w| *w != 0.0) && doc.iter().any(|w| *w != 0.0));
    let (q, d) = (length(&query), length(&doc));
    if q == 0.0 || d == 0.0 {
        return 0;
    }
    query.iter().zip(doc.iter()).map(|(a, b)| (a / q) * (b / d)).sum::<f64>().to_bits()
}

fn build(texts: &[&str]) -> Index {
    Model::construct(
        texts.iter().map(|t| t.to_string()).collect(),
        String::new(),
        Regex::new(r"[^\w\s]").unwrap(),
        weigh as Weigh,
        cosine as Cosine,
    )
}

fn search(model: &Index, query: &str) -> Vec<(String, f64)> {
    model
        .search(query.to_string())
        .into_iter()
        .map(|(doc, score)| (doc, f64::from_bits(score)))
        .collect()
}

fn close(a: f64, b: f64) -> bool {
    (a - b).abs() < 1e-12
}

#[test]
fn cat_scenario() {
    let model = build(&["cat dog", "cat bird", "fish"]);
    assert_eq!(model.dictionary(), &vec!["cat", "dog", "bird", "fish"]);
    assert_eq!(model.document_frequency(), &vec![2, 1, 1, 1]);
    let counts = model.query_vector("cat");
    assert_eq!(counts, vec![1, 0, 0, 0]);
    let query_weights = floats(&model.build_query_weights(&counts));
    assert!((query_weights[0] - 0.1761).abs() < 0.0001);
    assert_eq!(&query_weights[1..], &[0.0, 0.0, 0.0]);
    let ranked = search(&model, "cat");
    assert_eq!(ranked.len(), 3);
    assert_eq!(ranked[0].0, "cat dog");
    assert_eq!(ranked[1].0, "cat bird");
    assert_eq!(ranked[2].0, "fish");
    assert!((ranked[0].1 - 0.346).abs() < 0.001);
    assert!((ranked[1].1 - 0.346).abs() < 0.001);
    assert_eq!(ranked[0].1, ranked[1].1);
    assert_eq!(ranked[2].1, 0.0);
}

#[test]
fn degenerate_scenario() {
    let model = build(&["a a b", "a b b"]);
    assert_eq!(model.document_frequency(), &vec![2, 2]);
    assert_eq!(model.document_weights(), &vec![vec![0, 0], vec![0, 0]]);
    for query in ["a", "b", "a b", "a a a b", "c", ""] {
        let ranked = search(&model, query);
        assert_eq!(ranked.len(), 2);
        assert_eq!(ranked[0], (String::from("a a b"), 0.0));
        assert_eq!(ranked[1], (String::from("a b b"), 0.0));
        assert!(ranked.iter().all(|(_, score)| score.to_bits() == 0));
    }
}

#[test]
fn weights_have_exact_values() {
    let model = build(&["cat dog", "cat cat cat bird", "fish", "cat"]);
    let weights: Vec<Vec<f64>> = model.document_weights().iter().map(floats).collect();
    let idf_cat = (4.0f64 / 3.0).log10();
    let idf_one = 4.0f64.log10();
    assert!(close(weights[0][0], idf_cat));
    assert!(close(weights[0][1], idf_one));
    assert!(close(weights[1][0], (1.0 + 3.0f64.log10()) * idf_cat));
    assert!(close(weights[1][2], idf_one));
    assert!(close(weights[2][3], 0.6020599913279624));
    assert!(close(weights[3][0], 0.12493873660829995));
    assert_eq!(weights[0][2..], [0.0, 0.0]);
    assert_eq!(weights[2][..3], [0.0, 0.0, 0.0]);
}

#[test]
fn a_term_that_does_not_occur_weighs_nothing() {
    let model = build(&["cat dog", "cat bird", "fish"]);
    for df in [0u64, 1, 2, 3, 7, u64::MAX] {
        for n in [0usize, 1, 3, 1000] {
            assert_eq!(model.calc_tf_idf(0, df, n), 0);
        }
    }
    let rows = model.term_frequencies();
    for (i, row) in model.document_weights().iter().enumerate() {
        for (t, weight) in row.iter().enumerate() {
            if rows[i][t] == 0 {
                assert_eq!(*weight, 0);
            } else {
                assert!(f64::from_bits(*weight) > 0.0);
            }
        }
    }
}

#[test]
fn a_term_that_every_document_holds_weighs_nothing() {
    let model = build(&["cat dog", "cat bird", "fish cat cat"]);
    assert_eq!(model.document_frequency()[0], 3);
    assert!(model.document_weights().iter().all(|row| row[0] == 0));
    assert_eq!(model.calc_tf_idf(5, 3, 3), 0);
    assert_eq!(model.calc_tf_idf(1, 1, 1), 0);
    assert_eq!(model.build_query_weights(&vec![4, 0, 0, 0]), vec![0, 0, 0, 0]);
}

#[test]
fn weight_of_a_term_comes_from_the_kernel() {
    let model = build(&["cat dog", "cat bird", "fish"]);
    assert_eq!(model.calc_tf_idf(1, 2, 3), weigh(1, 2, 3));
    assert_eq!(model.calc_tf_idf(4, 1, 10), weigh(4, 1, 10));
    assert!(close(f64::from_bits(model.calc_tf_idf(1, 2, 3)), 0.17609125905568124));
    assert!(close(f64::from_bits(model.calc_tf_idf(10, 1, 100)), 4.0));
}

#[test]
fn rarer_terms_weigh_more() {
    let model = build(&["cat dog", "cat bird", "fish"]);
    for n in [2usize, 3, 10, 1000] {
        let weights: Vec<f64> =
            (1..=n as u64).map(|df| f64::from_bits(model.calc_tf_idf(1, df, n))).collect();
        for pair in weights.windows(2) {
            assert!(pair[0] > pair[1]);
        }
        assert!(close(weights[0], (n as f64).log10()));
        assert_eq!(weights[n - 1], 0.0);
    }
}

#[test]
fn query_weights_follow_the_counts() {
    let model = build(&["cat dog", "cat bird", "fish"]);
    let weights = floats(&model.build_query_weights(&vec![2, 0, 1, 0]));
    assert!(close(weights[0], (1.0 + 2.0f64.log10()) * 1.5f64.log10()));
    assert_eq!(weights[1], 0.0);
    assert!(close(weights[2], 3.0f64.log10()));
    assert_eq!(weights[3], 0.0);
    assert_eq!(model.build_query_weights(&vec![]), Vec::<u64>::new());
    assert_eq!(model.build_query_weights(&vec![0, 0]), vec![0, 0]);
}

#[test]
fn zero_vectors_are_told_by_their_entries() {
    assert!(zero_vector(&vec![]));
    assert!(zero_vector(&vec![0, 0, 0]));
    assert!(zero_vector(&vec![(0.0f64).to_bits(), (-0.0f64).to_bits()]));
    assert!(!zero_vector(&vec![0, 1, 0]));
    assert!(!zero_vector(&vec![0, (1e-320f64).to_bits()]));
    assert!(!zero_vector(&vec![(-1.0f64).to_bits()]));
}

#[test]
fn a_zero_vector_is_similar_to_nothing() {
    let model = build(&["cat dog", "cat bird", "fish"]);
    let some = vec![(0.5f64).to_bits(), 0, (2.0f64).to_bits()];
    let none = vec![0, (-0.0f64).to_bits(), 0];
    assert_eq!(model.sim(&none, &some), 0);
    assert_eq!(model.sim(&some, &none), 0);
    assert_eq!(model.sim(&none, &none), 0);
    assert_eq!(model.sim(&vec![], &vec![]), 0);
}

#[test]
fn similarity_comes_from_the_kernel() {
    let model = build(&["cat dog", "cat bird", "fish"]);
    let a = vec![(3.0f64).to_bits(), (4.0f64).to_bits()];
    let b = vec![(4.0f64).to_bits(), (3.0f64).to_bits()];
    assert!(close(f64::from_bits(model.sim(&a, &b)), 0.96));
    assert!(close(f64::from_bits(model.sim(&a, &a)), 1.0));
    let c = vec![(1.0f64).to_bits(), 0];
    let d = vec![0, (1.0f64).to_bits()];
    assert_eq!(f64::from_bits(model.sim(&c, &d)), 0.0);
}

#[test]
fn search_on_an_empty_corpus_finds_nothing() {
    let model = build(&[]);
    assert_eq!(search(&model, "cat"), vec![]);
    assert_eq!(search(&model, ""), vec![]);
}

#[test]
fn query_without_known_terms_scores_zero_everywhere() {
    let model = build(&["cat dog", "cat bird", "fish"]);
    for query in ["horse", "", "zebra horse", "  "] {
        let ranked = search(&model, query);
        let docs: Vec<&str> = ranked.iter().map(|(doc, _)| doc.as_str()).collect();
        assert_eq!(docs, vec!["cat dog", "cat bird", "fish"]);
        assert!(ranked.iter().all(|(_, score)| score.to_bits() == 0));
    }
}

#[test]
fn search_returns_every_document_once() {
    let texts = ["red green", "green blue", "blue", "yellow red red", "", "green"];
    let model = build(&texts);
    for query in ["red", "green blue", "yellow", "none", "blue blue red"] {
        let ranked = search(&model, query);
        assert_eq!(ranked.len(), texts.len());
        let mut found: Vec<&str> = ranked.iter().map(|(doc, _)| doc.as_str()).collect();
        found.sort();
        let mut all = texts.to_vec();
        all.sort();
        assert_eq!(found, all);
        for pair in ranked.windows(2) {
            assert!(pair[0].1 >= pair[1].1);
        }
    }
}

#[test]
fn search_ranks_by_similarity() {
    let model = build(&["apple banana", "apple apple cherry", "banana cherry date", "date"]);
    let ranked = search(&model, "apple cherry");
    let docs: Vec<&str> = ranked.iter().map(|(doc, _)| doc.as_str()).collect();
    assert_eq!(docs, vec!["apple apple cherry", "apple banana", "banana cherry date", "date"]);
    assert!(ranked[0].1 > ranked[1].1 && ranked[1].1 > ranked[2].1 && ranked[2].1 > 0.0);
    assert_eq!(ranked[3].1, 0.0);
}

#[test]
fn own_text_ranks_at_the_top() {
    let texts = ["the cat sat", "the dog sat down", "a bird sang", "the cat and the dog"];
    let model = build(&texts);
    for text in texts.iter() {
        let ranked = search(&model, text);
        let own = ranked.iter().find(|(doc, _)| doc == text).unwrap().1;
        assert!((own - 1.0).abs() < 1e-9);
        assert!(ranked.iter().all(|(_, score)| *score <= own + 1e-9));
        assert_eq!(ranked[0].0, *text);
    }
}

#[test]
fn own_text_has_own_weights() {
    let texts = ["the cat sat", "the dog sat down", "a bird sang", "the cat and the dog", ""];
    let model = build(&texts);
    for (i, text) in texts.iter().enumerate() {
        let counts = model.query_vector(text);
        assert_eq!(counts, model.term_frequencies()[i]);
        assert_eq!(model.build_query_weights(&counts), model.document_weights()[i]);
    }
}

#[test]
fn search_after_merge_and_new_weights_sees_the_new_documents() {
    let mut model = build(&["cat dog", "cat bird"]);
    model.insert_docs(vec![String::from("fish")]);
    model.update_index();
    assert!(model.weights_stale());
    model.calculate_document_weights();
    assert!(!model.weights_stale());
    let ranked = search(&model, "fish");
    assert_eq!(ranked[0].0, "fish");
    assert!((ranked[0].1 - 1.0).abs() < 1e-9);
    assert_eq!(ranked[1], (String::from("cat dog"), 0.0));
    assert_eq!(ranked[2], (String::from("cat bird"), 0.0));
    let cats = search(&model, "cat");
    assert!((cats[0].1 - 0.346).abs() < 0.001);
    assert_eq!(cats[0].0, "cat dog");
    assert_eq!(cats[1].0, "cat bird");
    assert_eq!(cats[2], (String::from("fish"), 0.0));
}

#[test]
fn recomputing_gives_the_same_weights() {
    let mut model = build(&["cat dog", "cat bird", "fish"]);
    let before = model.document_weights().clone();
    model.calculate_document_weights();
    assert_eq!(model.document_weights(), &before);
    assert!(!model.weights_stale());
}
