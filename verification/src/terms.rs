use vstd::prelude::*;
use vstd::seq_lib::lemma_flatten_concat;

verus! {

/// How often `term` occurs in `tokens`.
pub open spec fn occurrences(tokens: Seq<Seq<char>>, term: Seq<char>) -> nat
    decreases tokens.len(),
{
    if tokens.len() == 0 {
        0
    } else {
        occurrences(tokens.drop_last(), term) + if tokens.last() == term {
            1nat
        } else {
            0nat
        }
    }
}

/// `dictionary` followed by the terms of `tokens` that it lacks, each once,
/// in the order in which they first occur.
pub open spec fn absorb(dictionary: Seq<Seq<char>>, tokens: Seq<Seq<char>>) -> Seq<Seq<char>>
    decreases tokens.len(),
{
    if tokens.len() == 0 {
        dictionary
    } else {
        let seen = absorb(dictionary, tokens.drop_last());
        if seen.contains(tokens.last()) {
            seen
        } else {
            seen.push(tokens.last())
        }
    }
}

/// The distinct terms of `tokens` in the order in which they first occur.
pub open spec fn distinct_terms(tokens: Seq<Seq<char>>) -> Seq<Seq<char>> {
    absorb(Seq::empty(), tokens)
}

/// The dictionary of a corpus, given as one token list per document: its
/// distinct terms in order of first occurrence across the corpus. The
/// position of a term is its column id.
pub open spec fn dictionary_of(lists: Seq<Seq<Seq<char>>>) -> Seq<Seq<char>> {
    distinct_terms(lists.flatten())
}

/// The row of term counts of one token list over the columns of `dictionary`.
/// Tokens that the dictionary lacks count nowhere.
pub open spec fn term_counts(tokens: Seq<Seq<char>>, dictionary: Seq<Seq<char>>) -> Seq<nat> {
    Seq::new(dictionary.len(), |t: int| occurrences(tokens, dictionary[t]))
}

/// The number of token lists in which `term` occurs at least once.
pub open spec fn document_count(lists: Seq<Seq<Seq<char>>>, term: Seq<char>) -> nat
    decreases lists.len(),
{
    if lists.len() == 0 {
        0
    } else {
        document_count(lists.drop_last(), term) + if occurrences(lists.last(), term) > 0 {
            1nat
        } else {
            0nat
        }
    }
}

/// The document frequency of every column of `dictionary`.
pub open spec fn document_counts(lists: Seq<Seq<Seq<char>>>, dictionary: Seq<Seq<char>>) -> Seq<
    nat,
> {
    Seq::new(dictionary.len(), |t: int| document_count(lists, dictionary[t]))
}

/// A row of counts as natural numbers.
pub open spec fn counts_view(row: Seq<usize>) -> Seq<nat> {
    Seq::new(row.len(), |t: int| row[t] as nat)
}

/// A vector of document frequencies as natural numbers.
pub open spec fn frequencies_view(frequencies: Seq<u64>) -> Seq<nat> {
    Seq::new(frequencies.len(), |t: int| frequencies[t] as nat)
}

/// One more token adds one to the count of its own term and nothing to the others.
pub proof fn lemma_occurrences_push(tokens: Seq<Seq<char>>, token: Seq<char>, term: Seq<char>)
    ensures
        occurrences(tokens.push(token), term) == occurrences(tokens, term) + if token == term {
            1nat
        } else {
            0nat
        },
{
    assert(tokens.push(token).drop_last() =~= tokens);
}

/// No term occurs more often than there are tokens.
pub proof fn lemma_occurrences_bound(tokens: Seq<Seq<char>>, term: Seq<char>)
    ensures
        occurrences(tokens, term) <= tokens.len(),
    decreases tokens.len(),
{
    if tokens.len() > 0 {
        lemma_occurrences_bound(tokens.drop_last(), term);
    }
}

/// A term occurs in a token list exactly if its count there is positive.
pub proof fn lemma_occurrences_contains(tokens: Seq<Seq<char>>, term: Seq<char>)
    ensures
        occurrences(tokens, term) > 0 <==> tokens.contains(term),
    decreases tokens.len(),
{
    if tokens.len() > 0 {
        let init = tokens.drop_last();
        lemma_occurrences_contains(init, term);
        if init.contains(term) {
            let i = choose|i: int| 0 <= i < init.len() && init[i] == term;
            assert(tokens[i] == term);
        }
        if tokens.last() == term {
            assert(tokens[tokens.len() - 1] == term);
        }
        if tokens.contains(term) {
            let i = choose|i: int| 0 <= i < tokens.len() && tokens[i] == term;
            if i < tokens.len() - 1 {
                assert(init[i] == term);
            }
        }
    }
}

/// Absorbing one more token adds it to the dictionary unless it is there.
pub proof fn lemma_absorb_push(dictionary: Seq<Seq<char>>, tokens: Seq<Seq<char>>, token: Seq<char>)
    ensures
        absorb(dictionary, tokens.push(token)) == if absorb(dictionary, tokens).contains(token) {
            absorb(dictionary, tokens)
        } else {
            absorb(dictionary, tokens).push(token)
        },
{
    assert(tokens.push(token).drop_last() =~= tokens);
}

/// Absorbing two token lists one after the other is absorbing them joined.
pub proof fn lemma_absorb_concat(
    dictionary: Seq<Seq<char>>,
    first: Seq<Seq<char>>,
    second: Seq<Seq<char>>,
)
    ensures
        absorb(dictionary, first + second) == absorb(absorb(dictionary, first), second),
    decreases second.len(),
{
    if second.len() == 0 {
        assert(first + second =~= first);
    } else {
        lemma_absorb_concat(dictionary, first, second.drop_last());
        assert((first + second).drop_last() =~= first + second.drop_last());
    }
}

/// Absorbing tokens never moves or removes what the dictionary already holds.
pub proof fn lemma_absorb_extends(dictionary: Seq<Seq<char>>, tokens: Seq<Seq<char>>)
    ensures
        dictionary.is_prefix_of(absorb(dictionary, tokens)),
    decreases tokens.len(),
{
    if tokens.len() > 0 {
        lemma_absorb_extends(dictionary, tokens.drop_last());
    }
}

/// After absorbing, the dictionary holds exactly what it held before and the
/// terms of the absorbed tokens.
pub proof fn lemma_absorb_contains(
    dictionary: Seq<Seq<char>>,
    tokens: Seq<Seq<char>>,
    term: Seq<char>,
)
    ensures
        absorb(dictionary, tokens).contains(term) <==> dictionary.contains(term) || tokens.contains(
            term,
        ),
    decreases tokens.len(),
{
    if tokens.len() > 0 {
        let init = tokens.drop_last();
        let seen = absorb(dictionary, init);
        let last = tokens.last();
        lemma_absorb_contains(dictionary, init, term);
        assert(tokens =~= init.push(last));
        assert(tokens.contains(term) <==> init.contains(term) || last == term) by {
            if init.contains(term) {
                let i = choose|i: int| 0 <= i < init.len() && init[i] == term;
                assert(tokens[i] == term);
            }
            if last == term {
                assert(tokens[tokens.len() - 1] == term);
            }
            if tokens.contains(term) {
                let i = choose|i: int| 0 <= i < tokens.len() && tokens[i] == term;
                if i < tokens.len() - 1 {
                    assert(init[i] == term);
                }
            }
        }
        if !seen.contains(last) {
            let grown = seen.push(last);
            assert(grown.contains(term) <==> seen.contains(term) || last == term) by {
                if seen.contains(term) {
                    let i = choose|i: int| 0 <= i < seen.len() && seen[i] == term;
                    assert(grown[i] == term);
                }
                if last == term {
                    assert(grown[grown.len() - 1] == term);
                }
                if grown.contains(term) {
                    let i = choose|i: int| 0 <= i < grown.len() && grown[i] == term;
                    if i < grown.len() - 1 {
                        assert(seen[i] == term);
                    }
                }
            }
        }
    }
}

/// Absorbing never gives a term a second column.
pub proof fn lemma_absorb_no_duplicates(dictionary: Seq<Seq<char>>, tokens: Seq<Seq<char>>)
    requires
        dictionary.no_duplicates(),
    ensures
        absorb(dictionary, tokens).no_duplicates(),
    decreases tokens.len(),
{
    if tokens.len() > 0 {
        lemma_absorb_no_duplicates(dictionary, tokens.drop_last());
    }
}

/// What absorbing adds beyond the old dictionary was not in the old dictionary.
pub proof fn lemma_absorb_fresh(dictionary: Seq<Seq<char>>, tokens: Seq<Seq<char>>, t: int)
    requires
        dictionary.no_duplicates(),
        dictionary.len() <= t < absorb(dictionary, tokens).len(),
    ensures
        !dictionary.contains(absorb(dictionary, tokens)[t]),
{
    let grown = absorb(dictionary, tokens);
    lemma_absorb_extends(dictionary, tokens);
    lemma_absorb_no_duplicates(dictionary, tokens);
    if dictionary.contains(grown[t]) {
        let i = choose|i: int| 0 <= i < dictionary.len() && dictionary[i] == grown[t];
        assert(grown[i] == dictionary[i]);
    }
}

/// The tokens of a corpus with one more document are those of the corpus
/// followed by those of the document.
pub proof fn lemma_flatten_push(lists: Seq<Seq<Seq<char>>>, tokens: Seq<Seq<char>>)
    ensures
        lists.push(tokens).flatten() == lists.flatten() + tokens,
{
    let one = seq![tokens];
    assert(lists.push(tokens) =~= lists + one);
    lemma_flatten_concat(lists, one);
    one.lemma_flatten_one_element();
}

/// The dictionary of a grown corpus is the old dictionary after it has
/// absorbed the tokens of the new documents.
pub proof fn lemma_dictionary_concat(lists: Seq<Seq<Seq<char>>>, more: Seq<Seq<Seq<char>>>)
    ensures
        dictionary_of(lists + more) == absorb(dictionary_of(lists), more.flatten()),
{
    lemma_flatten_concat(lists, more);
    lemma_absorb_concat(Seq::empty(), lists.flatten(), more.flatten());
}

/// A token is among the tokens of a corpus exactly if some document holds it.
pub proof fn lemma_flatten_contains(lists: Seq<Seq<Seq<char>>>, term: Seq<char>)
    ensures
        lists.flatten().contains(term) <==> exists|i: int|
            0 <= i < lists.len() && (#[trigger] lists[i]).contains(term),
    decreases lists.len(),
{
    if lists.len() == 0 {
    } else {
        let head = lists.first();
        let tail = lists.drop_first();
        lemma_flatten_contains(tail, term);
        let flat = lists.flatten();
        assert(flat == head + tail.flatten());
        if flat.contains(term) {
            let k = choose|k: int| 0 <= k < flat.len() && flat[k] == term;
            if k < head.len() {
                assert(head[k] == term);
                assert(lists[0].contains(term));
            } else {
                assert(tail.flatten()[k - head.len()] == term);
                let i = choose|i: int| 0 <= i < tail.len() && (#[trigger] tail[i]).contains(term);
                assert(lists[i + 1] == tail[i]);
            }
        }
        if exists|i: int| 0 <= i < lists.len() && (#[trigger] lists[i]).contains(term) {
            let i = choose|i: int| 0 <= i < lists.len() && (#[trigger] lists[i]).contains(term);
            if i == 0 {
                let k = choose|k: int| 0 <= k < head.len() && head[k] == term;
                assert(flat[k] == term);
            } else {
                assert(tail[i - 1] == lists[i]);
                let rest = tail.flatten();
                let k = choose|k: int| 0 <= k < rest.len() && rest[k] == term;
                assert(flat[head.len() + k] == term);
            }
        }
    }
}

/// One more document adds one to the document frequency of the terms it
/// holds and nothing to the others.
pub proof fn lemma_document_count_push(
    lists: Seq<Seq<Seq<char>>>,
    tokens: Seq<Seq<char>>,
    term: Seq<char>,
)
    ensures
        document_count(lists.push(tokens), term) == document_count(lists, term) + if occurrences(
            tokens,
            term,
        ) > 0 {
            1nat
        } else {
            0nat
        },
{
    assert(lists.push(tokens).drop_last() =~= lists);
}

/// No term is held by more documents than there are.
pub proof fn lemma_document_count_bound(lists: Seq<Seq<Seq<char>>>, term: Seq<char>)
    ensures
        document_count(lists, term) <= lists.len(),
    decreases lists.len(),
{
    if lists.len() > 0 {
        lemma_document_count_bound(lists.drop_last(), term);
    }
}

/// A term has document frequency zero exactly if no list holds it.
pub proof fn lemma_document_count_zero(lists: Seq<Seq<Seq<char>>>, term: Seq<char>)
    ensures
        document_count(lists, term) == 0 <==> forall|i: int|
            0 <= i < lists.len() ==> !(#[trigger] lists[i]).contains(term),
    decreases lists.len(),
{
    if lists.len() > 0 {
        let init = lists.drop_last();
        lemma_document_count_zero(init, term);
        lemma_occurrences_contains(lists.last(), term);
        if document_count(lists, term) == 0 {
            assert forall|i: int| 0 <= i < lists.len() implies !(#[trigger] lists[i]).contains(
                term,
            ) by {
                if i < lists.len() - 1 {
                    assert(init[i] == lists[i]);
                }
            }
        } else {
            if document_count(init, term) != 0 {
                let i = choose|i: int| 0 <= i < init.len() && (#[trigger] init[i]).contains(term);
                assert(lists[i] == init[i]);
            } else {
                assert(lists[lists.len() - 1].contains(term));
            }
        }
    }
}

/// Every token of a corpus has a column in its dictionary.
pub proof fn lemma_dictionary_covers(lists: Seq<Seq<Seq<char>>>, i: int, term: Seq<char>)
    requires
        0 <= i < lists.len(),
        lists[i].contains(term),
    ensures
        dictionary_of(lists).contains(term),
{
    lemma_flatten_contains(lists, term);
    lemma_absorb_contains(Seq::empty(), lists.flatten(), term);
}

/// A term has a column exactly if some document of the corpus holds it.
pub proof fn law_dictionary_holds_corpus_terms(lists: Seq<Seq<Seq<char>>>, term: Seq<char>)
    ensures
        dictionary_of(lists).contains(term) <==> exists|i: int|
            0 <= i < lists.len() && (#[trigger] lists[i]).contains(term),
{
    lemma_flatten_contains(lists, term);
    lemma_absorb_contains(Seq::empty(), lists.flatten(), term);
    assert(!Seq::<Seq<char>>::empty().contains(term));
}

/// No term has two columns.
pub proof fn law_dictionary_is_distinct(lists: Seq<Seq<Seq<char>>>)
    ensures
        dictionary_of(lists).no_duplicates(),
{
    lemma_absorb_no_duplicates(Seq::empty(), lists.flatten());
}

/// Every column belongs to a term that some document holds: its document
/// frequency is at least one and at most the number of documents.
pub proof fn lemma_document_frequency_bounds(lists: Seq<Seq<Seq<char>>>, t: int)
    requires
        0 <= t < dictionary_of(lists).len(),
    ensures
        1 <= document_counts(lists, dictionary_of(lists))[t] <= lists.len(),
{
    let term = dictionary_of(lists)[t];
    assert(dictionary_of(lists).contains(term));
    law_dictionary_holds_corpus_terms(lists, term);
    lemma_document_count_zero(lists, term);
    lemma_document_count_bound(lists, term);
}

/// The row of a document over a grown dictionary is its old row followed by
/// zeros: none of its tokens is among the terms that were added.
pub proof fn lemma_counts_padded(lists: Seq<Seq<Seq<char>>>, more: Seq<Seq<char>>, i: int)
    requires
        0 <= i < lists.len(),
    ensures
        dictionary_of(lists).len() <= absorb(dictionary_of(lists), more).len(),
        term_counts(lists[i], absorb(dictionary_of(lists), more)) == term_counts(
            lists[i],
            dictionary_of(lists),
        ) + Seq::new(
            (absorb(dictionary_of(lists), more).len() - dictionary_of(lists).len()) as nat,
            |t: int| 0nat,
        ),
{
    let small = dictionary_of(lists);
    let grown = absorb(small, more);
    lemma_absorb_extends(small, more);
    law_dictionary_is_distinct(lists);
    let padded = term_counts(lists[i], small) + Seq::new(
        (grown.len() - small.len()) as nat,
        |t: int| 0nat,
    );
    assert forall|t: int| 0 <= t < grown.len() implies term_counts(lists[i], grown)[t]
        == padded[t] by {
        if t < small.len() {
            assert(grown[t] == small[t]);
        } else {
            lemma_absorb_fresh(small, more, t);
            if lists[i].contains(grown[t]) {
                lemma_dictionary_covers(lists, i, grown[t]);
            }
            lemma_occurrences_contains(lists[i], grown[t]);
        }
    }
    assert(term_counts(lists[i], grown) =~= padded);
}

/// The document frequencies over a grown dictionary are the old ones followed
/// by zeros.
pub proof fn lemma_document_counts_padded(lists: Seq<Seq<Seq<char>>>, more: Seq<Seq<char>>)
    ensures
        dictionary_of(lists).len() <= absorb(dictionary_of(lists), more).len(),
        document_counts(lists, absorb(dictionary_of(lists), more)) == document_counts(
            lists,
            dictionary_of(lists),
        ) + Seq::new(
            (absorb(dictionary_of(lists), more).len() - dictionary_of(lists).len()) as nat,
            |t: int| 0nat,
        ),
{
    let small = dictionary_of(lists);
    let grown = absorb(small, more);
    lemma_absorb_extends(small, more);
    law_dictionary_is_distinct(lists);
    let padded = document_counts(lists, small) + Seq::new(
        (grown.len() - small.len()) as nat,
        |t: int| 0nat,
    );
    assert forall|t: int| 0 <= t < grown.len() implies document_counts(lists, grown)[t]
        == padded[t] by {
        if t < small.len() {
            assert(grown[t] == small[t]);
        } else {
            lemma_absorb_fresh(small, more, t);
            law_dictionary_holds_corpus_terms(lists, grown[t]);
            lemma_document_count_zero(lists, grown[t]);
        }
    }
    assert(document_counts(lists, grown) =~= padded);
}

/// The document frequency over two corpora joined is the sum of the two.
pub proof fn lemma_document_count_concat(
    lists: Seq<Seq<Seq<char>>>,
    more: Seq<Seq<Seq<char>>>,
    term: Seq<char>,
)
    ensures
        document_count(lists + more, term) == document_count(lists, term) + document_count(
            more,
            term,
        ),
    decreases more.len(),
{
    if more.len() == 0 {
        assert(lists + more =~= lists);
    } else {
        lemma_document_count_concat(lists, more.drop_last(), term);
        assert((lists + more).drop_last() =~= lists + more.drop_last());
    }
}

/// Columns stand in the order in which their terms first occur: before any
/// occurrence of a term, the term of every lower column has occurred.
pub proof fn law_columns_follow_first_occurrence(tokens: Seq<Seq<char>>, a: int, b: int, p: int)
    requires
        0 <= a < b < distinct_terms(tokens).len(),
        0 <= p < tokens.len(),
        tokens[p] == distinct_terms(tokens)[b],
    ensures
        exists|q: int| 0 <= q < p && tokens[q] == distinct_terms(tokens)[a],
    decreases tokens.len(),
{
    let none = Seq::<Seq<char>>::empty();
    let columns = absorb(none, tokens);
    let init = tokens.drop_last();
    let last = tokens.last();
    let seen = absorb(none, init);
    lemma_absorb_extends(none, init);
    assert(!none.contains(columns[a]));
    if p < init.len() && b < seen.len() {
        assert(init[p] == tokens[p]);
        law_columns_follow_first_occurrence(init, a, b, p);
        let q = choose|q: int| 0 <= q < p && init[q] == seen[a];
        assert(tokens[q] == columns[a]);
    } else {
        assert(seen.contains(columns[a])) by {
            if seen.contains(last) {
                assert(seen[a] == columns[a]);
            } else {
                assert(columns[a] == seen[a]);
            }
        }
        lemma_absorb_contains(none, init, columns[a]);
        let q = choose|q: int| 0 <= q < init.len() && init[q] == columns[a];
        assert(tokens[q] == columns[a]);
        if p < init.len() {
            // the term of column `b` is new with the last token, so it cannot occur at `p`
            assert(init[p] == last);
            lemma_absorb_contains(none, init, last);
            assert(init.contains(last));
        }
    }
}

} // verus!
