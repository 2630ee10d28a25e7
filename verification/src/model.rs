use crate::document::Document;
use crate::ranking::{ids_view, is_ranking, law_ranking_exists, ranked_order, ranking};
use crate::scoring::{cell_weighted, cosine_accepts, similar, weigh_accepts, zero_vector};
use crate::table::TermTable;
use crate::terms::{
    counts_view, dictionary_of, document_counts, frequencies_view, lemma_document_frequency_bounds,
    term_counts,
};
use crate::tokenizer::{tokenize, tokens};
use regex::Regex;
use vstd::prelude::*;

verus! {

/// The token list of every document of a corpus under one normalization rule.
pub open spec fn corpus_tokens<T: Document>(
    re: Regex,
    replacement: Seq<char>,
    documents: Seq<T>,
) -> Seq<Seq<Seq<char>>> {
    Seq::new(documents.len(), |i: int| tokens(re, replacement, documents[i].text()))
}

/// What a model is: its corpus, the documents that wait to be merged, the
/// normalization rule, the two kernels that do the arithmetic, and the
/// weight matrix. Dictionary, counts and frequencies follow from corpus and
/// rule.
pub struct ModelView<T, W, C> {
    pub documents: Seq<T>,
    pub queued: Seq<T>,
    pub regex: Regex,
    pub replacement: Seq<char>,
    /// Gives the weight of a term from its term frequency, its document
    /// frequency and the number of documents.
    pub weigh: W,
    /// Gives the similarity of a query and a document from their weights.
    pub cosine: C,
    /// One row of weights per document, as of the last computation.
    pub weights: Seq<Vec<u64>>,
    /// Whether the corpus has changed since the weights were computed.
    pub weights_stale: bool,
}

/// `pairs` holds a copy of every document with its score, in ranked order.
pub open spec fn ranked_pairs<T: Clone>(
    documents: Seq<T>,
    scores: Seq<u64>,
    pairs: Seq<(T, u64)>,
) -> bool {
    &&& pairs.len() == documents.len()
    &&& forall|k: int|
        0 <= k < pairs.len() ==> cloned(documents[ranking(scores)[k]], (#[trigger] pairs[k]).0)
            && pairs[k].1 == scores[ranking(scores)[k]]
}

impl<T: Document, W: Fn(usize, u64, usize) -> u64, C: Fn(&Vec<u64>, &Vec<u64>) -> u64> ModelView<
    T,
    W,
    C,
> {
    /// The tokens of every document of the corpus.
    pub open spec fn token_lists(self) -> Seq<Seq<Seq<char>>> {
        corpus_tokens(self.regex, self.replacement, self.documents)
    }

    /// The terms of the corpus; the position of a term is its column id.
    pub open spec fn dictionary(self) -> Seq<Seq<char>> {
        dictionary_of(self.token_lists())
    }

    /// One row of term counts per document, over the columns of the dictionary.
    pub open spec fn term_frequencies(self) -> Seq<Seq<nat>> {
        Seq::new(
            self.documents.len(),
            |i: int| term_counts(self.token_lists()[i], self.dictionary()),
        )
    }

    /// For every column, the number of documents that hold its term.
    pub open spec fn document_frequency(self) -> Seq<nat> {
        document_counts(self.token_lists(), self.dictionary())
    }

    /// Both kernels take what the model will hand them.
    pub open spec fn kernels_fit(self) -> bool {
        weigh_accepts(self.weigh) && cosine_accepts(self.cosine)
    }

    /// The weight matrix has one row per document and one entry per column,
    /// and every entry is the weight of its term in its document.
    pub open spec fn weights_follow_counts(self) -> bool {
        &&& self.weights.len() == self.documents.len()
        &&& forall|i: int|
            0 <= i < self.weights.len() ==> (#[trigger] self.weights[i]).len()
                == self.dictionary().len()
        &&& forall|i: int, t: int|
            0 <= i < self.documents.len() && 0 <= t < self.dictionary().len() ==> cell_weighted(
                self.weigh,
                self.term_frequencies()[i][t],
                self.document_frequency()[t],
                self.documents.len(),
                #[trigger] self.weights[i][t],
            )
    }

    /// `weights` are the weights of the terms of `counts`, column by column.
    pub open spec fn weighted(self, counts: Seq<nat>, weights: Seq<u64>) -> bool {
        &&& weights.len() == counts.len()
        &&& counts.len() <= self.dictionary().len()
        &&& forall|t: int|
            0 <= t < counts.len() ==> cell_weighted(
                self.weigh,
                counts[t],
                self.document_frequency()[t],
                self.documents.len(),
                #[trigger] weights[t],
            )
    }

    /// `scores` holds, for every document, the similarity of the query
    /// weights to the weights of the document.
    pub open spec fn scored(self, query_weights: Vec<u64>, scores: Seq<u64>) -> bool {
        &&& scores.len() == self.weights.len()
        &&& forall|i: int|
            0 <= i < scores.len() ==> similar(
                self.cosine,
                query_weights,
                self.weights[i],
                #[trigger] scores[i],
            )
    }
}

impl<
    T: Document + Clone,
    W: Fn(usize, u64, usize) -> u64,
    C: Fn(&Vec<u64>, &Vec<u64>) -> u64,
> ModelView<T, W, C> {
    /// `ranked` answers `query`: the query was tokenized and counted over the
    /// dictionary, its counts were weighted, every document was scored
    /// against the query weights, and the documents were ranked by score.
    pub open spec fn found(self, query: Seq<char>, ranked: Seq<(T, u64)>) -> bool {
        exists|query_weights: Vec<u64>, scores: Seq<u64>|
            {
                &&& self.weighted(
                    term_counts(tokens(self.regex, self.replacement, query), self.dictionary()),
                    query_weights@,
                )
                &&& #[trigger] self.scored(query_weights, scores)
                &&& scores.len() == self.documents.len()
                &&& ranked_pairs(self.documents, scores, ranked)
            }
    }
}

/// Whether documents wait to be merged.
#[derive(Clone, Copy, Debug, PartialEq, Eq, Structural)]
pub enum IndexState {
    Idle,
    Queued,
}

/// What a merge did.
#[derive(Clone, Copy, Debug, PartialEq, Eq, Structural)]
pub enum MergeOutcome {
    NothingQueued,
    Merged,
}

/// A searchable term index over a growing corpus.
///
/// The model does everything but the arithmetic on weights and scores, which
/// it leaves to two kernels that it is built with. Weights and scores are
/// held as the bits of 64-bit floating-point numbers.
pub struct Model<T, W, C> {
    table: TermTable,
    documents: Vec<T>,
    replacement: String,
    processing_regex: Regex,
    queued_for_indexing: Vec<T>,
    weigh: W,
    cosine: C,
    document_weights: Vec<Vec<u64>>,
    weights_stale: bool,
}

impl<T, W, C> View for Model<T, W, C> {
    type V = ModelView<T, W, C>;

    closed spec fn view(&self) -> ModelView<T, W, C> {
        ModelView {
            documents: self.documents@,
            queued: self.queued_for_indexing@,
            regex: self.processing_regex,
            replacement: self.replacement@,
            weigh: self.weigh,
            cosine: self.cosine,
            weights: self.document_weights@,
            weights_stale: self.weights_stale,
        }
    }
}

impl<T: Document, W: Fn(usize, u64, usize) -> u64, C: Fn(&Vec<u64>, &Vec<u64>) -> u64> Model<
    T,
    W,
    C,
> {
    /// The model is well formed: what it stores is the index of its corpus,
    /// its kernels take what it hands them, and its weights, unless stale,
    /// are those of the corpus.
    pub open spec fn wf(&self) -> bool {
        &&& self.indexed()
        &&& self@.kernels_fit()
        &&& !self@.weights_stale ==> self@.weights_follow_counts()
    }

    /// The table inside is that of the token lists of the current corpus.
    pub closed spec fn indexed(&self) -> bool {
        self.table.wf() && self.table@ == self@.token_lists()
    }

    /// The tokens of one document under a normalization rule.
    pub fn preprocess(doc: &T, replacement: &str, processing_regex: &Regex) -> (out: Vec<String>)
        ensures
            out.deep_view() == tokens(*processing_regex, replacement@, doc.text()),
    {
        let data = doc.get_data();
        tokenize(data.as_str(), replacement, processing_regex)
    }

    /// Appends `docs` to the corpus and adds their token lists to the table.
    #[verifier::loop_isolation(false)]
    fn index_documents(&mut self, docs: Vec<T>)
        requires
            old(self).indexed(),
        ensures
            final(self).indexed(),
            final(self)@ == (ModelView {
                documents: old(self)@.documents + docs@,
                ..old(self)@
            }),
    {
        let mut docs = docs;
        let ghost before = self@;
        let ghost added = docs@;
        let ghost new_lists = corpus_tokens(before.regex, before.replacement, added);
        let mut processed: Vec<Vec<String>> = Vec::new();
        for k in 0..docs.len()
            invariant
                docs@ == added,
                *self == *old(self),
                processed.len() == k,
                forall|i: int| 0 <= i < k ==> (#[trigger] processed[i]).deep_view() == new_lists[i],
        {
            let found = Self::preprocess(
                &docs[k],
                self.replacement.as_str(),
                &self.processing_regex,
            );
            processed.push(found);
        }
        assert(processed.deep_view() =~= new_lists);
        self.table.add_documents(&processed);
        self.documents.append(&mut docs);
        assert(self@.token_lists() =~= before.token_lists() + new_lists);
    }

    /// Builds the index of a corpus and computes its weights. Columns are
    /// numbered in the order in which their terms first occur, documents in
    /// the order given.
    pub fn construct(
        documents: Vec<T>,
        replacement: String,
        processing_regex: Regex,
        weigh: W,
        cosine: C,
    ) -> (model: Self)
        requires
            weigh_accepts(weigh),
            cosine_accepts(cosine),
        ensures
            model.wf(),
            model@ == (ModelView {
                documents: documents@,
                queued: Seq::empty(),
                regex: processing_regex,
                replacement: replacement@,
                weigh,
                cosine,
                weights: model@.weights,
                weights_stale: false,
            }),
    {
        let mut model = Model {
            table: TermTable::new(),
            documents: Vec::new(),
            replacement,
            processing_regex,
            queued_for_indexing: Vec::new(),
            weigh,
            cosine,
            document_weights: Vec::new(),
            weights_stale: true,
        };
        proof {
            assert(model@.token_lists() =~= Seq::empty());
            assert(Seq::<T>::empty() + documents@ =~= documents@);
        }
        model.index_documents(documents);
        model.calculate_document_weights();
        model
    }

    /// Queues `docs` for the next merge. Nothing else changes.
    pub fn insert_docs(&mut self, docs: Vec<T>)
        ensures
            final(self)@ == (ModelView { queued: old(self)@.queued + docs@, ..old(self)@ }),
            old(self).wf() ==> final(self).wf(),
    {
        let mut docs = docs;
        self.queued_for_indexing.append(&mut docs);
    }

    /// Merges the queued documents into the corpus, in the order in which
    /// they were queued, and empties the queue. The weights are left as they
    /// are and are stale from then on. With nothing queued the model stays as
    /// it is.
    pub fn update_index(&mut self) -> (outcome: MergeOutcome)
        requires
            old(self).wf(),
        ensures
            final(self).wf(),
            old(self)@.queued.len() == 0 ==> outcome == MergeOutcome::NothingQueued && *final(self)
                == *old(self),
            old(self)@.queued.len() > 0 ==> outcome == MergeOutcome::Merged && final(self)@ == (
            ModelView {
                documents: old(self)@.documents + old(self)@.queued,
                queued: Seq::empty(),
                weights_stale: true,
                ..old(self)@
            }),
    {
        if self.queued_for_indexing.len() == 0 {
            return MergeOutcome::NothingQueued;
        }
        let mut queued: Vec<T> = Vec::new();
        std::mem::swap(&mut self.queued_for_indexing, &mut queued);
        self.index_documents(queued);
        self.weights_stale = true;
        MergeOutcome::Merged
    }

    /// The weight of a term that occurs `term_frequency` times where
    /// `term_df` of `total_items` documents hold it. A term that does not
    /// occur weighs nothing, whatever its document frequency; neither does a
    /// term that every document holds. Every other weight comes from the
    /// kernel.
    pub fn calc_tf_idf(&self, term_frequency: usize, term_df: u64, total_items: usize) -> (weight:
        u64)
        requires
            self.wf(),
            term_frequency >= 1 ==> 1 <= term_df <= total_items,
        ensures
            cell_weighted(
                self@.weigh,
                term_frequency as nat,
                term_df as nat,
                total_items as nat,
                weight,
            ),
            term_frequency == 0 ==> weight == 0,
    {
        if term_frequency == 0 || term_df == total_items as u64 {
            0
        } else {
            assert(self@.weigh == self.weigh);
            assert(call_requires(self@.weigh, (term_frequency, term_df, total_items)));
            (self.weigh)(term_frequency, term_df, total_items)
        }
    }

    /// Recomputes the whole weight matrix from the term counts and the
    /// document frequencies. The weights are fresh afterwards.
    pub fn calculate_document_weights(&mut self)
        requires
            old(self).wf(),
        ensures
            final(self).wf(),
            final(self)@ == (ModelView {
                weights: final(self)@.weights,
                weights_stale: false,
                ..old(self)@
            }),
    {
        let ghost view = self@;
        let total = self.documents.len();
        let rows = self.table.term_frequencies();
        let frequencies = self.table.document_frequency();
        let width = self.table.vector_length();
        let mut weights: Vec<Vec<u64>> = Vec::new();
        assert(frequencies_view(frequencies@).len() == frequencies.len());
        for i in 0..rows.len()
            invariant
                self.wf(),
                self@ == view,
                frequencies.len() == width,
                total == view.documents.len(),
                width == view.dictionary().len(),
                rows.len() == total,
                forall|r: int|
                    0 <= r < rows.len() ==> counts_view((#[trigger] rows[r])@)
                        == view.term_frequencies()[r],
                frequencies_view(frequencies@) == view.document_frequency(),
                weights.len() == i,
                forall|r: int| 0 <= r < i ==> (#[trigger] weights[r]).len() == width,
                forall|r: int, t: int|
                    0 <= r < i && 0 <= t < width ==> cell_weighted(
                        view.weigh,
                        view.term_frequencies()[r][t],
                        view.document_frequency()[t],
                        total as nat,
                        #[trigger] weights[r][t],
                    ),
        {
            let ghost done = weights@;
            let mut row: Vec<u64> = Vec::new();
            assert(counts_view(rows[i as int]@).len() == rows[i as int].len());
            assert(view.term_frequencies()[i as int].len() == width);
            for t in 0..width
                invariant
                    self.wf(),
                    self@ == view,
                    total == view.documents.len(),
                    width == view.dictionary().len(),
                    0 <= i < rows.len(),
                    rows[i as int].len() == width,
                    counts_view(rows[i as int]@) == view.term_frequencies()[i as int],
                    frequencies_view(frequencies@) == view.document_frequency(),
                    frequencies.len() == width,
                    row.len() == t,
                    forall|u: int|
                        0 <= u < t ==> cell_weighted(
                            view.weigh,
                            view.term_frequencies()[i as int][u],
                            view.document_frequency()[u],
                            total as nat,
                            #[trigger] row[u],
                        ),
            {
                proof {
                    lemma_document_frequency_bounds(view.token_lists(), t as int);
                    assert(counts_view(rows[i as int]@)[t as int] == rows[i as int][t as int]);
                    assert(frequencies_view(frequencies@)[t as int] == frequencies[t as int]);
                }
                let weight = self.calc_tf_idf(rows[i][t], frequencies[t], total);
                row.push(weight);
            }
            weights.push(row);
            assert forall|r: int, t: int| 0 <= r < i + 1 && 0 <= t < width implies cell_weighted(
                view.weigh,
                view.term_frequencies()[r][t],
                view.document_frequency()[t],
                total as nat,
                #[trigger] weights[r][t],
            ) by {
                if r < i {
                    assert(weights[r] == done[r]);
                }
            }
        }
        self.document_weights = weights;
        self.weights_stale = false;
    }

    /// The weights of a query, given its count vector: for every column the
    /// weight of the column's term at the count that the vector gives.
    pub fn build_query_weights(&self, query_vec: &Vec<usize>) -> (query_weights: Vec<u64>)
        requires
            self.wf(),
            query_vec.len() <= self@.dictionary().len(),
        ensures
            self@.weighted(counts_view(query_vec@), query_weights@),
    {
        let total = self.documents.len();
        let frequencies = self.table.document_frequency();
        let mut query_weights: Vec<u64> = Vec::new();
        assert(frequencies_view(frequencies@).len() == frequencies.len());
        for t in 0..query_vec.len()
            invariant
                self.wf(),
                frequencies.len() == self@.dictionary().len(),
                total == self@.documents.len(),
                query_vec.len() <= self@.dictionary().len(),
                frequencies_view(frequencies@) == self@.document_frequency(),
                query_weights.len() == t,
                forall|u: int|
                    0 <= u < t ==> cell_weighted(
                        self@.weigh,
                        counts_view(query_vec@)[u],
                        self@.document_frequency()[u],
                        total as nat,
                        #[trigger] query_weights[u],
                    ),
        {
            proof {
                lemma_document_frequency_bounds(self@.token_lists(), t as int);
                assert(frequencies_view(frequencies@)[t as int] == frequencies[t as int]);
            }
            let weight = self.calc_tf_idf(query_vec[t], frequencies[t], total);
            query_weights.push(weight);
        }
        query_weights
    }

    /// The similarity of a query and a document, given their weights. A zero
    /// vector is similar to nothing: if either vector is one, the similarity
    /// is zero. Every other similarity comes from the kernel.
    pub fn sim(&self, query: &Vec<u64>, doc: &Vec<u64>) -> (score: u64)
        requires
            self.wf(),
            query.len() == doc.len(),
        ensures
            similar(self@.cosine, *query, *doc, score),
    {
        if zero_vector(query) || zero_vector(doc) {
            0
        } else {
            assert(self@.cosine == self.cosine);
            assert(call_requires(self@.cosine, (query, doc)));
            (self.cosine)(query, doc)
        }
    }

    /// Whether the corpus has changed since the weights were computed.
    pub fn weights_stale(&self) -> (stale: bool)
        ensures
            stale == self@.weights_stale,
    {
        self.weights_stale
    }

    /// The weight matrix as of the last computation, one row per document.
    pub fn document_weights(&self) -> (weights: &Vec<Vec<u64>>)
        ensures
            weights@ == self@.weights,
    {
        &self.document_weights
    }

    /// Whether documents wait to be merged.
    pub fn state(&self) -> (state: IndexState)
        ensures
            state == if self@.queued.len() == 0 {
                IndexState::Idle
            } else {
                IndexState::Queued
            },
    {
        if self.queued_for_indexing.len() == 0 {
            IndexState::Idle
        } else {
            IndexState::Queued
        }
    }

    /// The number of columns: the size of the dictionary.
    pub fn vector_length(&self) -> (n: usize)
        requires
            self.wf(),
        ensures
            n == self@.dictionary().len(),
    {
        self.table.vector_length()
    }

    /// The corpus, in document order.
    pub fn documents(&self) -> (documents: &Vec<T>)
        ensures
            documents@ == self@.documents,
    {
        &self.documents
    }

    /// The documents that wait to be merged, in the order of their arrival.
    pub fn queued_for_indexing(&self) -> (queued: &Vec<T>)
        ensures
            queued@ == self@.queued,
    {
        &self.queued_for_indexing
    }

    /// The compiled expression of the normalization rule.
    pub fn processing_regex(&self) -> (re: &Regex)
        ensures
            *re == self@.regex,
    {
        &self.processing_regex
    }

    /// The replacement of the normalization rule.
    pub fn replacement(&self) -> (replacement: &String)
        ensures
            replacement@ == self@.replacement,
    {
        &self.replacement
    }

    /// The terms in column order.
    pub fn dictionary(&self) -> (dictionary: &Vec<String>)
        requires
            self.wf(),
        ensures
            dictionary.deep_view() == self@.dictionary(),
    {
        self.table.dictionary()
    }

    /// The column of `term`, if it has one.
    pub fn term_id(&self, term: &str) -> (id: Option<usize>)
        requires
            self.wf(),
        ensures
            match id {
                Some(t) => t < self@.dictionary().len() && self@.dictionary()[t as int] == term@,
                None => !self@.dictionary().contains(term@),
            },
    {
        self.table.term_id(term)
    }

    /// The rows of term counts, one per document.
    pub fn term_frequencies(&self) -> (rows: &Vec<Vec<usize>>)
        requires
            self.wf(),
        ensures
            rows.len() == self@.documents.len(),
            forall|i: int|
                0 <= i < rows.len() ==> counts_view((#[trigger] rows[i])@)
                    == self@.term_frequencies()[i],
    {
        self.table.term_frequencies()
    }

    /// The document frequency of every column.
    pub fn document_frequency(&self) -> (frequencies: &Vec<u64>)
        requires
            self.wf(),
        ensures
            frequencies_view(frequencies@) == self@.document_frequency(),
    {
        self.table.document_frequency()
    }

    /// The count vector of a query over the columns of the dictionary. Tokens
    /// that the dictionary lacks are passed over.
    pub fn query_vector(&self, query: &str) -> (counts: Vec<usize>)
        requires
            self.wf(),
        ensures
            counts_view(counts@) == term_counts(
                tokens(self@.regex, self@.replacement, query@),
                self@.dictionary(),
            ),
    {
        let found = tokenize(query, self.replacement.as_str(), &self.processing_regex);
        self.table.count(&found)
    }
}

impl<T: Clone, W, C> Model<T, W, C> {
    /// Pairs every document with its score, in ranked order.
    fn rank_all(&self, scores: &Vec<u64>) -> (pairs: Vec<(T, u64)>)
        requires
            scores.len() == self.documents.len(),
        ensures
            ranked_pairs(self.documents@, scores@, pairs@),
    {
        let order = ranked_order(scores);
        proof {
            law_ranking_exists(scores@);
        }
        let mut pairs: Vec<(T, u64)> = Vec::new();
        for k in 0..order.len()
            invariant
                ids_view(order@) == ranking(scores@),
                is_ranking(scores@, ranking(scores@)),
                scores.len() == self.documents.len(),
                pairs.len() == k,
                forall|j: int|
                    0 <= j < k ==> cloned(
                        self.documents[ranking(scores@)[j]],
                        (#[trigger] pairs[j]).0,
                    ) && pairs[j].1 == scores[ranking(scores@)[j]],
        {
            let id = order[k];
            assert(ids_view(order@)[k as int] == id);
            assert(0 <= ranking(scores@)[k as int] < scores.len());
            pairs.push((self.documents[id].clone(), scores[id]));
        }
        pairs
    }

    /// Ranks the corpus by `scores`, which holds one score per document in
    /// corpus order. Returns every document with its score, highest score
    /// first, documents with equal scores in corpus order; `None` if the
    /// number of scores is not the number of documents.
    pub fn rank(&self, scores: &Vec<u64>) -> (ranked: Option<Vec<(T, u64)>>)
        ensures
            ranked is Some <==> scores.len() == self@.documents.len(),
            ranked matches Some(pairs) ==> ranked_pairs(self@.documents, scores@, pairs@),
    {
        if scores.len() != self.documents.len() {
            return None;
        }
        Some(self.rank_all(scores))
    }
}

impl<
    T: Document + Clone,
    W: Fn(usize, u64, usize) -> u64,
    C: Fn(&Vec<u64>, &Vec<u64>) -> u64,
> Model<T, W, C> {
    /// Ranks every document of the corpus against `query`: the query is
    /// tokenized with the rule of the corpus and counted over the dictionary,
    /// the counts are weighted, every document is scored by the similarity of
    /// its weights to those of the query, and the documents are returned with
    /// their scores, highest score first, documents with equal scores in
    /// corpus order.
    ///
    /// The weights must not be stale.
    pub fn search(&self, query: String) -> (ranked: Vec<(T, u64)>)
        requires
            self.wf(),
            !self@.weights_stale,
        ensures
            ranked.len() == self@.documents.len(),
            self@.found(query@, ranked@),
    {
        let query_vec = self.query_vector(query.as_str());
        assert(counts_view(query_vec@).len() == self@.dictionary().len());
        let query_weight = self.build_query_weights(&query_vec);
        let mut scores: Vec<u64> = Vec::new();
        for i in 0..self.document_weights.len()
            invariant
                self.wf(),
                !self@.weights_stale,
                query_weight.len() == self@.dictionary().len(),
                scores.len() == i,
                forall|j: int|
                    0 <= j < i ==> similar(
                        self@.cosine,
                        query_weight,
                        self@.weights[j],
                        #[trigger] scores[j],
                    ),
        {
            let score = self.sim(&query_weight, &self.document_weights[i]);
            scores.push(score);
        }
        let ranked = self.rank_all(&scores);
        proof {
            assert(self@.scored(query_weight, scores@));
            assert(ranked_pairs(self@.documents, scores@, ranked@));
        }
        ranked
    }
}

} // verus!
