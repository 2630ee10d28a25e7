use crate::terms::{
    absorb, counts_view, dictionary_of, document_counts, frequencies_view, lemma_absorb_concat,
    lemma_absorb_push, lemma_counts_padded, lemma_dictionary_concat, lemma_document_count_bound,
    lemma_document_count_push, lemma_document_counts_padded, lemma_flatten_push,
    lemma_occurrences_bound, lemma_occurrences_push, occurrences, term_counts,
};
use vstd::hash_map::StringHashMap;
use vstd::prelude::*;

verus! {

/// `index` maps every term of `dictionary` to its position and holds no
/// other key: the two are inverse to each other.
spec fn index_matches(dictionary: Seq<Seq<char>>, index: Map<Seq<char>, usize>) -> bool {
    &&& forall|t: int|
        0 <= t < dictionary.len() ==> index.contains_key(#[trigger] dictionary[t])
            && index[dictionary[t]] == t
    &&& forall|term: Seq<char>| #[trigger]
        index.contains_key(term) ==> index[term] < dictionary.len()
            && dictionary[index[term] as int] == term
}

proof fn lemma_index_matches_contains(
    dictionary: Seq<Seq<char>>,
    index: Map<Seq<char>, usize>,
    term: Seq<char>,
)
    requires
        index_matches(dictionary, index),
    ensures
        dictionary.contains(term) <==> index.contains_key(term),
{
    if dictionary.contains(term) {
        let t = choose|t: int| 0 <= t < dictionary.len() && dictionary[t] == term;
        assert(index.contains_key(dictionary[t]));
    }
    if index.contains_key(term) {
        assert(dictionary[index[term] as int] == term);
    }
}

/// Gives every token that has no column yet the next free column.
fn learn_terms(
    dictionary: &mut Vec<String>,
    index: &mut StringHashMap<usize>,
    tokens: &Vec<String>,
)
    requires
        index_matches(old(dictionary).deep_view(), old(index)@),
    ensures
        final(dictionary).deep_view() == absorb(old(dictionary).deep_view(), tokens.deep_view()),
        index_matches(final(dictionary).deep_view(), final(index)@),
{
    let ghost start = dictionary.deep_view();
    let ghost all = tokens.deep_view();
    assert(all.take(0) =~= Seq::empty());
    for j in 0..tokens.len()
        invariant
            all == tokens.deep_view(),
            dictionary.deep_view() == absorb(start, all.take(j as int)),
            index_matches(dictionary.deep_view(), index@),
    {
        let ghost seen = dictionary.deep_view();
        let ghost token = all[j as int];
        proof {
            assert(all.take(j + 1) =~= all.take(j as int).push(token));
            lemma_absorb_push(start, all.take(j as int), token);
            lemma_index_matches_contains(seen, index@, token);
        }
        if !index.contains_key(tokens[j].as_str()) {
            let id = dictionary.len();
            index.insert(tokens[j].clone(), id);
            dictionary.push(tokens[j].clone());
            proof {
                let grown = dictionary.deep_view();
                assert(grown =~= seen.push(token));
                assert forall|t: int| 0 <= t < grown.len() implies index@.contains_key(
                    #[trigger] grown[t],
                ) && index@[grown[t]] == t by {
                    if t < seen.len() {
                        assert(grown[t] == seen[t]);
                        assert(seen.contains(seen[t]));
                    }
                }
            }
        }
    }
    assert(all.take(tokens.len() as int) =~= all);
}

/// Counts the tokens column by column; a token without a column is passed over.
fn count_terms(
    tokens: &Vec<String>,
    dictionary: &Vec<String>,
    index: &StringHashMap<usize>,
) -> (row: Vec<usize>)
    requires
        index_matches(dictionary.deep_view(), index@),
    ensures
        counts_view(row@) == term_counts(tokens.deep_view(), dictionary.deep_view()),
{
    let ghost columns = dictionary.deep_view();
    let ghost all = tokens.deep_view();
    let mut row: Vec<usize> = vec![0usize; dictionary.len()];
    assert(all.take(0) =~= Seq::empty());
    for j in 0..tokens.len()
        invariant
            all == tokens.deep_view(),
            columns == dictionary.deep_view(),
            index_matches(columns, index@),
            row.len() == columns.len(),
            forall|t: int|
                0 <= t < row.len() ==> #[trigger] row[t] == occurrences(
                    all.take(j as int),
                    columns[t],
                ),
    {
        let ghost token = all[j as int];
        let ghost before = row@;
        proof {
            assert(all.take(j + 1) =~= all.take(j as int).push(token));
            assert forall|t: int| 0 <= t < columns.len() implies occurrences(
                all.take(j + 1),
                #[trigger] columns[t],
            ) == occurrences(all.take(j as int), columns[t]) + if token == columns[t] {
                1nat
            } else {
                0nat
            } by {
                lemma_occurrences_push(all.take(j as int), token, columns[t]);
            }
            lemma_index_matches_contains(columns, index@, token);
        }
        match index.get(tokens[j].as_str()) {
            Some(column) => {
                let column = *column;
                proof {
                    lemma_occurrences_bound(all.take(j as int), token);
                }
                row[column] += 1;
                proof {
                    assert forall|t: int| 0 <= t < row.len() implies #[trigger] row[t]
                        == occurrences(all.take(j + 1), columns[t]) by {
                        if t != column {
                            assert(before[t] == row[t]);
                            assert(index@[columns[t]] == t);
                        }
                    }
                }
            },
            None => {
                proof {
                    assert forall|t: int| 0 <= t < row.len() implies columns[t] != token by {
                        assert(columns.contains(columns[t]));
                    }
                }
            },
        }
    }
    assert(all.take(tokens.len() as int) =~= all);
    assert(counts_view(row@) =~= term_counts(all, columns));
    row
}

/// Adds one document's row to the document frequencies: every column that
/// the row counts at least once gains one.
fn note_row(frequencies: &mut Vec<u64>, row: &Vec<usize>)
    requires
        old(frequencies).len() == row.len(),
        forall|t: int| 0 <= t < row.len() ==> old(frequencies)[t] < u64::MAX,
    ensures
        final(frequencies).len() == row.len(),
        forall|t: int|
            0 <= t < row.len() ==> #[trigger] final(frequencies)[t] == old(frequencies)[t]
                + if row[t] > 0 {
                1int
            } else {
                0int
            },
{
    let ghost before = frequencies@;
    for t in 0..row.len()
        invariant
            frequencies.len() == row.len(),
            before.len() == row.len(),
            forall|u: int| 0 <= u < row.len() ==> before[u] < u64::MAX,
            forall|u: int| t <= u < row.len() ==> #[trigger] frequencies[u] == before[u],
            forall|u: int|
                0 <= u < t ==> #[trigger] frequencies[u] == before[u] + if row[u] > 0 {
                    1int
                } else {
                    0int
                },
    {
        if row[t] > 0 {
            frequencies[t] += 1;
        }
    }
}

/// The stored columns, rows and frequencies are those of the corpus whose
/// token lists are `lists`.
spec fn holds_index_of(
    dictionary: Seq<Seq<char>>,
    index: Map<Seq<char>, usize>,
    rows: Seq<Vec<usize>>,
    frequencies: Seq<u64>,
    lists: Seq<Seq<Seq<char>>>,
) -> bool {
    &&& dictionary == dictionary_of(lists)
    &&& index_matches(dictionary, index)
    &&& rows.len() == lists.len()
    &&& forall|i: int|
        0 <= i < rows.len() ==> counts_view((#[trigger] rows[i])@) == term_counts(
            lists[i],
            dictionary,
        )
    &&& frequencies_view(frequencies) == document_counts(lists, dictionary)
}

/// The term-document table of a corpus that is given as token lists, one per
/// document: the dictionary, a lookup from term to column, a row of term
/// counts for every document, and the document frequency of every column.
///
/// Its view is the sequence of token lists that were added, in the order of
/// the documents.
pub struct TermTable {
    dictionary: Vec<String>,
    index: StringHashMap<usize>,
    term_frequencies: Vec<Vec<usize>>,
    document_frequency: Vec<u64>,
    lists: Ghost<Seq<Seq<Seq<char>>>>,
}

impl View for TermTable {
    type V = Seq<Seq<Seq<char>>>;

    closed spec fn view(&self) -> Seq<Seq<Seq<char>>> {
        self.lists@
    }
}

impl TermTable {
    /// What the table stores is the index of its token lists.
    pub closed spec fn wf(&self) -> bool {
        holds_index_of(
            self.dictionary.deep_view(),
            self.index@,
            self.term_frequencies@,
            self.document_frequency@,
            self.lists@,
        )
    }

    /// The table of the empty corpus.
    pub fn new() -> (table: Self)
        ensures
            table.wf(),
            table@ == Seq::<Seq<Seq<char>>>::empty(),
    {
        let table = TermTable {
            dictionary: Vec::new(),
            index: StringHashMap::new(),
            term_frequencies: Vec::new(),
            document_frequency: Vec::new(),
            lists: Ghost(Seq::empty()),
        };
        proof {
            assert(table.dictionary.deep_view() =~= Seq::empty());
            assert(frequencies_view(table.document_frequency@) =~= document_counts(
                table.lists@,
                table.dictionary.deep_view(),
            ));
        }
        table
    }

    /// Adds the documents whose token lists are `batch`, in that order, behind
    /// those that the table holds. A term that has a column keeps it; new
    /// terms get the columns that follow, in order of first occurrence; the
    /// rows of the old documents are padded with zeros; the document
    /// frequencies take the new documents in.
    #[verifier::loop_isolation(false)]
    pub fn add_documents(&mut self, batch: &Vec<Vec<String>>)
        requires
            old(self).wf(),
        ensures
            final(self).wf(),
            final(self)@ == old(self)@ + batch.deep_view(),
    {
        let ghost old_lists = self.lists@;
        let ghost new_lists = batch.deep_view();
        let ghost old_rows = self.term_frequencies@;
        let ghost old_frequencies = self.document_frequency@;
        let ghost old_dictionary = self.dictionary.deep_view();

        assert(new_lists.take(0) =~= Seq::empty());
        assert(absorb(old_dictionary, Seq::empty()) == old_dictionary);
        for k in 0..batch.len()
            invariant
                self.lists@ == old_lists,
                self.term_frequencies@ == old_rows,
                self.document_frequency@ == old_frequencies,
                self.dictionary.deep_view() == absorb(
                    old_dictionary,
                    new_lists.take(k as int).flatten(),
                ),
                index_matches(self.dictionary.deep_view(), self.index@),
        {
            proof {
                assert(batch[k as int].deep_view() == new_lists[k as int]);
                let done = new_lists.take(k as int);
                assert(new_lists.take(k + 1) =~= done.push(new_lists[k as int]));
                lemma_flatten_push(done, new_lists[k as int]);
                lemma_absorb_concat(old_dictionary, done.flatten(), new_lists[k as int]);
            }
            learn_terms(&mut self.dictionary, &mut self.index, &batch[k]);
        }
        let ghost all_lists = old_lists + new_lists;
        let ghost columns = self.dictionary.deep_view();
        proof {
            assert(new_lists.take(batch.len() as int) =~= new_lists);
            lemma_dictionary_concat(old_lists, new_lists);
            lemma_document_counts_padded(old_lists, new_lists.flatten());
        }
        let width = self.dictionary.len();
        let rows = self.term_frequencies.len();
        for i in 0..rows
            invariant
                self.lists@ == old_lists,
                self.document_frequency@ == old_frequencies,
                self.dictionary.deep_view() == columns,
                index_matches(columns, self.index@),
                self.term_frequencies.len() == rows,
                forall|r: int| i <= r < rows ==> #[trigger] self.term_frequencies[r] == old_rows[r],
                forall|r: int|
                    0 <= r < i ==> counts_view((#[trigger] self.term_frequencies[r])@)
                        == term_counts(old_lists[r], columns),
        {
            proof {
                lemma_counts_padded(old_lists, new_lists.flatten(), i as int);
            }
            let ghost short = self.term_frequencies[i as int]@;
            self.term_frequencies[i].resize(width, 0);
            proof {
                let long = self.term_frequencies[i as int]@;
                assert(long.subrange(0, short.len() as int) == short);
                assert forall|t: int| 0 <= t < long.len() implies counts_view(long)[t]
                    == term_counts(old_lists[i as int], columns)[t] by {
                    if t < short.len() {
                        assert(long[t] == long.subrange(0, short.len() as int)[t]);
                        assert(counts_view(short)[t] == short[t]);
                    }
                }
                assert(counts_view(long) =~= term_counts(old_lists[i as int], columns));
            }
        }
        self.document_frequency.resize(width, 0);
        proof {
            let long = self.document_frequency@;
            assert(long.subrange(0, old_frequencies.len() as int) == old_frequencies);
            assert forall|t: int| 0 <= t < long.len() implies frequencies_view(long)[t]
                == document_counts(old_lists, columns)[t] by {
                if t < old_frequencies.len() {
                    assert(long[t] == long.subrange(0, old_frequencies.len() as int)[t]);
                    assert(frequencies_view(old_frequencies)[t] == old_frequencies[t]);
                }
            }
            assert(frequencies_view(long) =~= document_counts(old_lists, columns));
            assert(all_lists.take(rows as int) =~= old_lists);
        }
        for k in 0..batch.len()
            invariant
                self.lists@ == old_lists,
                self.dictionary.deep_view() == columns,
                index_matches(columns, self.index@),
                self.term_frequencies.len() == rows + k,
                forall|r: int|
                    0 <= r < rows + k ==> counts_view((#[trigger] self.term_frequencies[r])@)
                        == term_counts(all_lists[r], columns),
                frequencies_view(self.document_frequency@) == document_counts(
                    all_lists.take(rows + k),
                    columns,
                ),
        {
            let row = count_terms(&batch[k], &self.dictionary, &self.index);
            let ghost seen = all_lists.take(rows + k);
            let ghost counted = self.document_frequency@;
            let ghost counts = row@;
            self.term_frequencies.push(row);
            proof {
                assert(batch[k as int].deep_view() == new_lists[k as int]);
                assert(counts_view(counts).len() == columns.len());
                assert(frequencies_view(counted).len() == columns.len());
                assert(all_lists[rows + k] == new_lists[k as int]);
                assert(all_lists.take(rows + k + 1) =~= seen.push(all_lists[rows + k]));
                assert(self.term_frequencies.len() == rows + k + 1);
                assert forall|t: int| 0 <= t < counts.len() implies counted[t] < u64::MAX by {
                    lemma_document_count_bound(seen, columns[t]);
                    assert(frequencies_view(counted)[t] == counted[t]);
                }
            }
            note_row(&mut self.document_frequency, &self.term_frequencies[rows + k]);
            proof {
                let counted_now = self.document_frequency@;
                assert forall|t: int| 0 <= t < columns.len() implies frequencies_view(
                    counted_now,
                )[t] == document_counts(all_lists.take(rows + k + 1), columns)[t] by {
                    lemma_document_count_push(seen, all_lists[rows + k], columns[t]);
                    assert(frequencies_view(counted)[t] == counted[t]);
                    assert(counts_view(counts)[t] == counts[t]);
                }
                assert(frequencies_view(counted_now) =~= document_counts(
                    all_lists.take(rows + k + 1),
                    columns,
                ));
            }
        }
        proof {
            assert(all_lists.take(rows + batch.len()) =~= all_lists);
            self.lists = Ghost(all_lists);
        }
    }

    /// The count vector of a token list over the columns of the dictionary.
    /// Tokens that have no column are passed over.
    pub fn count(&self, tokens: &Vec<String>) -> (counts: Vec<usize>)
        requires
            self.wf(),
        ensures
            counts_view(counts@) == term_counts(tokens.deep_view(), dictionary_of(self@)),
    {
        count_terms(tokens, &self.dictionary, &self.index)
    }

    /// The number of columns.
    pub fn vector_length(&self) -> (n: usize)
        requires
            self.wf(),
        ensures
            n == dictionary_of(self@).len(),
    {
        self.dictionary.len()
    }

    /// The terms in column order.
    pub fn dictionary(&self) -> (dictionary: &Vec<String>)
        requires
            self.wf(),
        ensures
            dictionary.deep_view() == dictionary_of(self@),
    {
        &self.dictionary
    }

    /// The column of `term`, if it has one.
    pub fn term_id(&self, term: &str) -> (id: Option<usize>)
        requires
            self.wf(),
        ensures
            match id {
                Some(t) => t < dictionary_of(self@).len() && dictionary_of(self@)[t as int]
                    == term@,
                None => !dictionary_of(self@).contains(term@),
            },
    {
        proof {
            lemma_index_matches_contains(self.dictionary.deep_view(), self.index@, term@);
        }
        match self.index.get(term) {
            Some(t) => Some(*t),
            None => None,
        }
    }

    /// The rows of term counts, one per document.
    pub fn term_frequencies(&self) -> (rows: &Vec<Vec<usize>>)
        requires
            self.wf(),
        ensures
            rows.len() == self@.len(),
            forall|i: int|
                0 <= i < rows.len() ==> counts_view((#[trigger] rows[i])@) == term_counts(
                    self@[i],
                    dictionary_of(self@),
                ),
    {
        &self.term_frequencies
    }

    /// The document frequency of every column.
    pub fn document_frequency(&self) -> (frequencies: &Vec<u64>)
        requires
            self.wf(),
        ensures
            frequencies_view(frequencies@) == document_counts(self@, dictionary_of(self@)),
    {
        &self.document_frequency
    }
}

} // verus!
