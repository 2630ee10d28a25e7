use crate::document::Document;
use crate::model::{corpus_tokens, ranked_pairs, ModelView};
use crate::ranking::{
    law_equal_scores_keep_corpus_order, law_ranking_lists_every_document, ranking,
};
use crate::scoring::is_zero_vector;
use crate::terms::{
    document_count, lemma_absorb_extends, lemma_counts_padded, lemma_dictionary_concat,
    law_dictionary_holds_corpus_terms, lemma_document_count_concat,
    lemma_document_frequency_bounds, lemma_occurrences_contains, term_counts,
};
use crate::tokenizer::tokens;
use vstd::prelude::*;

verus! {

/// `corpus` after `more` documents were merged into it.
pub open spec fn merged<T, W, C>(corpus: ModelView<T, W, C>, more: Seq<T>) -> ModelView<T, W, C> {
    ModelView { documents: corpus.documents + more, ..corpus }
}

/// A row of `n` zeros.
pub open spec fn zeros(n: nat) -> Seq<nat> {
    Seq::new(n, |t: int| 0nat)
}

/// The number of rows that count column `t` at least once.
pub open spec fn rows_counting(rows: Seq<Seq<nat>>, t: int) -> nat
    decreases rows.len(),
{
    if rows.len() == 0 {
        0
    } else {
        rows_counting(rows.drop_last(), t) + if rows.last()[t] > 0 {
            1nat
        } else {
            0nat
        }
    }
}

proof fn lemma_merged_token_lists<
    T: Document,
    W: Fn(usize, u64, usize) -> u64,
    C: Fn(&Vec<u64>, &Vec<u64>) -> u64,
>(corpus: ModelView<T, W, C>, more: Seq<T>)
    ensures
        merged(corpus, more).token_lists() == corpus.token_lists() + corpus_tokens(
            corpus.regex,
            corpus.replacement,
            more,
        ),
{
    assert(merged(corpus, more).token_lists() =~= corpus.token_lists() + corpus_tokens(
        corpus.regex,
        corpus.replacement,
        more,
    ));
}

/// Merging never renumbers: the dictionary of the grown corpus begins with
/// the dictionary of the old one, so every term keeps its column.
pub proof fn law_columns_are_stable<
    T: Document,
    W: Fn(usize, u64, usize) -> u64,
    C: Fn(&Vec<u64>, &Vec<u64>) -> u64,
>(corpus: ModelView<T, W, C>, more: Seq<T>)
    ensures
        corpus.dictionary().is_prefix_of(merged(corpus, more).dictionary()),
{
    let new_lists = corpus_tokens(corpus.regex, corpus.replacement, more);
    lemma_merged_token_lists(corpus, more);
    lemma_dictionary_concat(corpus.token_lists(), new_lists);
    lemma_absorb_extends(corpus.dictionary(), new_lists.flatten());
}

/// After a merge the row of an old document is its old row, padded with a
/// zero for every column that the merge added.
pub proof fn law_rows_are_padded<
    T: Document,
    W: Fn(usize, u64, usize) -> u64,
    C: Fn(&Vec<u64>, &Vec<u64>) -> u64,
>(corpus: ModelView<T, W, C>, more: Seq<T>, i: int)
    requires
        0 <= i < corpus.documents.len(),
    ensures
        corpus.dictionary().len() <= merged(corpus, more).dictionary().len(),
        merged(corpus, more).term_frequencies()[i] == corpus.term_frequencies()[i] + zeros(
            (merged(corpus, more).dictionary().len() - corpus.dictionary().len()) as nat,
        ),
{
    let new_lists = corpus_tokens(corpus.regex, corpus.replacement, more);
    lemma_merged_token_lists(corpus, more);
    lemma_dictionary_concat(corpus.token_lists(), new_lists);
    lemma_counts_padded(corpus.token_lists(), new_lists.flatten(), i);
}

/// After a merge the document frequency of an old column is its old value
/// plus the number of merged documents that hold its term.
pub proof fn law_frequencies_accumulate<
    T: Document,
    W: Fn(usize, u64, usize) -> u64,
    C: Fn(&Vec<u64>, &Vec<u64>) -> u64,
>(corpus: ModelView<T, W, C>, more: Seq<T>, t: int)
    requires
        0 <= t < corpus.dictionary().len(),
    ensures
        t < merged(corpus, more).dictionary().len(),
        merged(corpus, more).document_frequency()[t] == corpus.document_frequency()[t]
            + document_count(
            corpus_tokens(corpus.regex, corpus.replacement, more),
            corpus.dictionary()[t],
        ),
{
    let new_lists = corpus_tokens(corpus.regex, corpus.replacement, more);
    law_columns_are_stable(corpus, more);
    lemma_merged_token_lists(corpus, more);
    assert(merged(corpus, more).dictionary()[t] == corpus.dictionary()[t]);
    lemma_document_count_concat(corpus.token_lists(), new_lists, corpus.dictionary()[t]);
}

/// Every column belongs to a term of the corpus: its document frequency is
/// at least one and at most the number of documents.
pub proof fn law_document_frequency_bounds<
    T: Document,
    W: Fn(usize, u64, usize) -> u64,
    C: Fn(&Vec<u64>, &Vec<u64>) -> u64,
>(corpus: ModelView<T, W, C>, t: int)
    requires
        0 <= t < corpus.dictionary().len(),
    ensures
        1 <= corpus.document_frequency()[t] <= corpus.documents.len(),
{
    lemma_document_frequency_bounds(corpus.token_lists(), t);
}

/// The document frequency of a column is the number of rows that count the
/// column at least once.
pub proof fn law_document_frequency_counts_rows<
    T: Document,
    W: Fn(usize, u64, usize) -> u64,
    C: Fn(&Vec<u64>, &Vec<u64>) -> u64,
>(corpus: ModelView<T, W, C>, t: int)
    requires
        0 <= t < corpus.dictionary().len(),
    ensures
        corpus.document_frequency()[t] == rows_counting(corpus.term_frequencies(), t),
{
    lemma_rows_counting(corpus.token_lists(), corpus.dictionary(), t, corpus.documents.len());
    assert(corpus.token_lists().take(corpus.documents.len() as int) =~= corpus.token_lists());
    assert(corpus.term_frequencies() =~= Seq::new(
        corpus.documents.len(),
        |i: int| term_counts(corpus.token_lists()[i], corpus.dictionary()),
    ));
}

proof fn lemma_rows_counting(
    lists: Seq<Seq<Seq<char>>>,
    dictionary: Seq<Seq<char>>,
    t: int,
    n: nat,
)
    requires
        0 <= t < dictionary.len(),
        n <= lists.len(),
    ensures
        document_count(lists.take(n as int), dictionary[t]) == rows_counting(
            Seq::new(n, |i: int| term_counts(lists[i], dictionary)),
            t,
        ),
    decreases n,
{
    let rows = Seq::new(n, |i: int| term_counts(lists[i], dictionary));
    if n > 0 {
        let fewer = Seq::new((n - 1) as nat, |i: int| term_counts(lists[i], dictionary));
        lemma_rows_counting(lists, dictionary, t, (n - 1) as nat);
        assert(rows.drop_last() =~= fewer);
        assert(lists.take(n as int).drop_last() =~= lists.take(n - 1));
        assert(lists.take(n as int).last() == lists[n - 1]);
    } else {
        assert(lists.take(0).len() == 0);
    }
}

/// Querying with the exact text of a document of the corpus gives that
/// document's own row of term counts: every one of its tokens has a column.
pub proof fn law_own_text_query<
    T: Document,
    W: Fn(usize, u64, usize) -> u64,
    C: Fn(&Vec<u64>, &Vec<u64>) -> u64,
>(corpus: ModelView<T, W, C>, i: int)
    requires
        0 <= i < corpus.documents.len(),
    ensures
        term_counts(
            tokens(corpus.regex, corpus.replacement, corpus.documents[i].text()),
            corpus.dictionary(),
        ) == corpus.term_frequencies()[i],
        forall|token: Seq<char>|
            tokens(corpus.regex, corpus.replacement, corpus.documents[i].text()).contains(token)
                ==> corpus.dictionary().contains(token),
{
    let lists = corpus.token_lists();
    assert forall|token: Seq<char>| lists[i].contains(token) implies corpus.dictionary().contains(
        token,
    ) by {
        law_dictionary_holds_corpus_terms(lists, token);
    }
}

/// With a weighting kernel that gives one weight per input, the weights of
/// the exact text of a document, taken as a query, are the weights of that
/// document.
pub proof fn law_own_text_has_own_weights<
    T: Document,
    W: Fn(usize, u64, usize) -> u64,
    C: Fn(&Vec<u64>, &Vec<u64>) -> u64,
>(corpus: ModelView<T, W, C>, i: int, query_weights: Seq<u64>)
    requires
        forall|tf: usize, df: u64, n: usize, a: u64, b: u64|
            call_ensures(corpus.weigh, (tf, df, n), a) && call_ensures(corpus.weigh, (tf, df, n), b)
                ==> a == b,
        corpus.weights_follow_counts(),
        0 <= i < corpus.documents.len(),
        corpus.weighted(
            term_counts(
                tokens(corpus.regex, corpus.replacement, corpus.documents[i].text()),
                corpus.dictionary(),
            ),
            query_weights,
        ),
    ensures
        query_weights == corpus.weights[i]@,
{
    law_own_text_query(corpus, i);
    assert forall|t: int| 0 <= t < query_weights.len() implies query_weights[t]
        == corpus.weights[i]@[t] by {
        assert(corpus.weights[i][t] == corpus.weights[i]@[t]);
    }
    assert(query_weights =~= corpus.weights[i]@);
}

/// In a corpus whose every term occurs in every document, every weight is
/// zero.
pub proof fn law_universal_terms_weigh_nothing<
    T: Document,
    W: Fn(usize, u64, usize) -> u64,
    C: Fn(&Vec<u64>, &Vec<u64>) -> u64,
>(corpus: ModelView<T, W, C>)
    requires
        corpus.weights_follow_counts(),
        forall|t: int|
            0 <= t < corpus.dictionary().len() ==> corpus.document_frequency()[t]
                == corpus.documents.len(),
    ensures
        forall|i: int|
            0 <= i < corpus.weights.len() ==> is_zero_vector((#[trigger] corpus.weights[i])@),
{
    assert forall|i: int| 0 <= i < corpus.weights.len() implies is_zero_vector(
        (#[trigger] corpus.weights[i])@,
    ) by {
        let row = corpus.weights[i]@;
        assert forall|t: int| 0 <= t < row.len() implies #[trigger] row[t] == 0 by {
            assert(corpus.weights[i][t] == 0);
        }
    }
}

/// `order` lists every document of a corpus of `n` documents exactly once.
pub open spec fn lists_each_once(order: Seq<int>, n: nat) -> bool {
    &&& order.len() == n
    &&& order.no_duplicates()
    &&& forall|i: int| 0 <= i < n ==> order.contains(i)
}

/// A search returns the whole corpus: as many entries as there are documents,
/// and behind them an order that lists every document exactly once, none
/// left out and none repeated.
pub proof fn law_search_returns_the_corpus<
    T: Document + Clone,
    W: Fn(usize, u64, usize) -> u64,
    C: Fn(&Vec<u64>, &Vec<u64>) -> u64,
>(corpus: ModelView<T, W, C>, query: Seq<char>, ranked: Seq<(T, u64)>)
    requires
        corpus.found(query, ranked),
    ensures
        ranked.len() == corpus.documents.len(),
        exists|order: Seq<int>|
            #![trigger lists_each_once(order, corpus.documents.len())]
            lists_each_once(order, corpus.documents.len()) && forall|k: int|
                0 <= k < ranked.len() ==> cloned(
                    corpus.documents[order[k]],
                    (#[trigger] ranked[k]).0,
                ),
{
    let (query_weights, scores) = choose|query_weights: Vec<u64>, scores: Seq<u64>|
        {
            &&& corpus.weighted(
                term_counts(
                    tokens(corpus.regex, corpus.replacement, query),
                    corpus.dictionary(),
                ),
                query_weights@,
            )
            &&& #[trigger] corpus.scored(query_weights, scores)
            &&& scores.len() == corpus.documents.len()
            &&& ranked_pairs(corpus.documents, scores, ranked)
        };
    law_ranking_lists_every_document(scores);
    assert(lists_each_once(ranking(scores), corpus.documents.len()));
}

/// Where every score is zero, a search returns the corpus in its own order.
proof fn lemma_zero_scores<T: Clone>(documents: Seq<T>, scores: Seq<u64>, ranked: Seq<(T, u64)>)
    requires
        scores.len() == documents.len(),
        forall|i: int| 0 <= i < scores.len() ==> scores[i] == 0,
        ranked_pairs(documents, scores, ranked),
    ensures
        forall|k: int|
            0 <= k < ranked.len() ==> cloned(documents[k], (#[trigger] ranked[k]).0) && ranked[k].1
                == 0,
{
    law_equal_scores_keep_corpus_order(scores);
    assert forall|k: int| 0 <= k < ranked.len() implies cloned(
        documents[k],
        (#[trigger] ranked[k]).0,
    ) && ranked[k].1 == 0 by {
        assert(ranking(scores)[k] == k);
    }
}

/// If every document has a zero vector of weights, every score is zero
/// whatever the query, and a search returns the corpus in its own order.
pub proof fn law_zero_weights_score_nothing<
    T: Document + Clone,
    W: Fn(usize, u64, usize) -> u64,
    C: Fn(&Vec<u64>, &Vec<u64>) -> u64,
>(corpus: ModelView<T, W, C>, query: Seq<char>, ranked: Seq<(T, u64)>)
    requires
        forall|i: int|
            0 <= i < corpus.weights.len() ==> is_zero_vector((#[trigger] corpus.weights[i])@),
        corpus.found(query, ranked),
    ensures
        forall|k: int|
            0 <= k < ranked.len() ==> cloned(corpus.documents[k], (#[trigger] ranked[k]).0)
                && ranked[k].1 == 0,
{
    let (query_weights, scores) = choose|query_weights: Vec<u64>, scores: Seq<u64>|
        {
            &&& corpus.weighted(
                term_counts(
                    tokens(corpus.regex, corpus.replacement, query),
                    corpus.dictionary(),
                ),
                query_weights@,
            )
            &&& #[trigger] corpus.scored(query_weights, scores)
            &&& scores.len() == corpus.documents.len()
            &&& ranked_pairs(corpus.documents, scores, ranked)
        };
    assert forall|i: int| 0 <= i < scores.len() implies scores[i] == 0 by {
        assert(is_zero_vector(corpus.weights[i]@));
    }
    lemma_zero_scores(corpus.documents, scores, ranked);
}

/// A query none of whose tokens has a column scores zero against every
/// document, and the search returns the corpus in its own order. An empty
/// query is such a query.
pub proof fn law_unknown_query_scores_nothing<
    T: Document + Clone,
    W: Fn(usize, u64, usize) -> u64,
    C: Fn(&Vec<u64>, &Vec<u64>) -> u64,
>(corpus: ModelView<T, W, C>, query: Seq<char>, ranked: Seq<(T, u64)>)
    requires
        forall|token: Seq<char>|
            tokens(corpus.regex, corpus.replacement, query).contains(token)
                ==> !corpus.dictionary().contains(token),
        corpus.found(query, ranked),
    ensures
        forall|k: int|
            0 <= k < ranked.len() ==> cloned(corpus.documents[k], (#[trigger] ranked[k]).0)
                && ranked[k].1 == 0,
{
    let found = tokens(corpus.regex, corpus.replacement, query);
    let counts = term_counts(found, corpus.dictionary());
    let (query_weights, scores) = choose|query_weights: Vec<u64>, scores: Seq<u64>|
        {
            &&& corpus.weighted(counts, query_weights@)
            &&& #[trigger] corpus.scored(query_weights, scores)
            &&& scores.len() == corpus.documents.len()
            &&& ranked_pairs(corpus.documents, scores, ranked)
        };
    assert forall|t: int| 0 <= t < query_weights@.len() implies #[trigger] query_weights@[t]
        == 0 by {
        let term = corpus.dictionary()[t];
        assert(corpus.dictionary().contains(term));
        lemma_occurrences_contains(found, term);
        assert(counts[t] == 0);
    }
    assert(is_zero_vector(query_weights@));
    assert forall|i: int| 0 <= i < scores.len() implies scores[i] == 0 by {
        assert(is_zero_vector(query_weights@));
    }
    lemma_zero_scores(corpus.documents, scores, ranked);
}

/// In a corpus whose every term occurs in every document, every score is
/// zero whatever the query, and a search returns the corpus in its own order.
pub proof fn law_degenerate_corpus_scores_nothing<
    T: Document + Clone,
    W: Fn(usize, u64, usize) -> u64,
    C: Fn(&Vec<u64>, &Vec<u64>) -> u64,
>(corpus: ModelView<T, W, C>, query: Seq<char>, ranked: Seq<(T, u64)>)
    requires
        corpus.weights_follow_counts(),
        forall|t: int|
            0 <= t < corpus.dictionary().len() ==> corpus.document_frequency()[t]
                == corpus.documents.len(),
        corpus.found(query, ranked),
    ensures
        forall|k: int|
            0 <= k < ranked.len() ==> cloned(corpus.documents[k], (#[trigger] ranked[k]).0)
                && ranked[k].1 == 0,
{
    law_universal_terms_weigh_nothing(corpus);
    law_zero_weights_score_nothing(corpus, query, ranked);
}

} // verus!
