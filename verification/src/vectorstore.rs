//! The in-memory vector store: documents indexed by their embeddings and
//! queried by brute force.
//!
//! A query scores every entry, so it costs time in proportion to the number
//! of entries times the width of an embedding. There is no index structure:
//! the store is meant for small corpora.
//!
//! All entries of a store have embeddings of one width, fixed by the first
//! insertion. Adding several documents stops at the first one that fails and
//! keeps those inserted before it.

use vstd::prelude::*;
use crate::embedding::Embeddings;
use crate::schema::{Document, DocumentView};
use crate::similarity::{
    dot_product, is_top_k, lemma_top_k_unique, nearest, score, score_of, score_views, Score,
    ScoreValue, MAX_DIMENSION,
};
use crate::text::{decimal, decimal_text, lemma_decimal_injective};

verus! {

/// Why the store refused an operation.
#[derive(Debug)]
pub enum VectorStoreError {
    /// The embedding model failed, or gave a vector wider than the store
    /// admits. The message says which.
    EmbeddingFailed(String),
    /// A vector's width differs from that of the store's entries.
    DimensionMismatch { expected: usize, found: usize },
}

/// One indexed document.
pub struct Entry {
    id: String,
    embedding: Vec<i16>,
    document: Document,
}

/// What an entry is.
pub struct EntryView {
    pub id: Seq<char>,
    pub embedding: Seq<i16>,
    pub document: DocumentView,
}

impl View for Entry {
    type V = EntryView;

    closed spec fn view(&self) -> EntryView {
        EntryView { id: self.id@, embedding: self.embedding@, document: self.document@ }
    }
}

/// The entries of a store, without an embedding model: documents indexed
/// under vectors that the caller supplies.
pub struct VectorIndex {
    entries: Vec<Entry>,
}

/// A store over the embedding model `E`: an index and the model that embeds
/// documents and queries for it.
pub struct InMemoryVectorStore<E: Embeddings> {
    embeddings: E,
    index: VectorIndex,
}

/// The views of a sequence of entries.
pub open spec fn entry_views(entries: Seq<Entry>) -> Seq<EntryView> {
    entries.map_values(|e: Entry| e@)
}

/// The views of a sequence of documents.
pub open spec fn document_views(documents: Seq<Document>) -> Seq<DocumentView> {
    documents.map_values(|d: Document| d@)
}

/// The entries are numbered in order of insertion and their embeddings have
/// one admitted width.
pub open spec fn consistent(entries: Seq<EntryView>) -> bool {
    &&& forall|i: int| 0 <= i < entries.len() ==> (#[trigger] entries[i]).id == decimal_text(i as nat)
    &&& forall|i: int|
        0 <= i < entries.len() ==> (#[trigger] entries[i]).embedding.len()
            == entries[0].embedding.len()
    &&& forall|i: int|
        0 <= i < entries.len() ==> (#[trigger] entries[i]).embedding.len() <= MAX_DIMENSION
}

/// The score of each entry for the query `q`.
pub open spec fn scores_for(entries: Seq<EntryView>, q: Seq<i16>) -> Seq<Score> {
    Seq::new(entries.len(), |i: int| score_of(entries[i].embedding, q))
}

/// The positions of the `k` entries most similar to `q`, most similar first
/// and, among equally similar ones, earliest inserted first; all positions
/// where the store holds fewer than `k` entries.
pub open spec fn ranking(entries: Seq<EntryView>, q: Seq<i16>, k: nat) -> Seq<int> {
    choose|picks: Seq<int>|
        is_top_k(scores_for(entries, q), entries.len() as int, k as int, picks)
}

/// The documents of the `k` entries most similar to `q`, in ranking order.
pub open spec fn ranked_documents(entries: Seq<EntryView>, q: Seq<i16>, k: nat) -> Seq<
    DocumentView,
> {
    ranking(entries, q, k).map_values(|i: int| entries[i].document)
}

/// What inserting a vector of width `width` into `entries` comes to.
pub enum Admission {
    /// The vector is wider than the store admits.
    TooWide,
    /// The store's entries have the width `expected`, which is another one.
    Mismatch { expected: nat },
    /// The vector is admitted.
    Admitted,
}

/// What the embedding model made of a text, as the store reads it.
pub open spec fn embedded_view(embedded: Result<Vec<i16>, String>) -> Result<Seq<i16>, Seq<char>> {
    match embedded {
        Ok(vector) => Ok(vector@),
        Err(message) => Err(message@),
    }
}

/// `out` is what a search for the `k` nearest entries comes to, given what
/// the embedding model made of the query: the model's failure is handed on
/// with its message, a vector of another width than the entries' is refused,
/// and any other vector gives the documents of its ranking.
pub open spec fn is_search_result(
    entries: Seq<EntryView>,
    embedded: Result<Seq<i16>, Seq<char>>,
    k: nat,
    out: Result<Vec<Document>, VectorStoreError>,
) -> bool {
    match embedded {
        Err(message) => out matches Err(VectorStoreError::EmbeddingFailed(m)) && m@ == message,
        Ok(query) => if entries.len() > 0 && entries[0].embedding.len() != query.len() {
            out matches Err(VectorStoreError::DimensionMismatch { expected, found }) && expected
                == entries[0].embedding.len() && found == query.len()
        } else {
            out matches Ok(documents) && document_views(documents@) == ranked_documents(
                entries,
                query,
                k,
            ) && documents@.len() == if k <= entries.len() {
                k
            } else {
                entries.len()
            }
        },
    }
}

/// The message of the error for a vector that is too wide.
pub open spec fn too_wide_message() -> Seq<char> {
    "the embedding is wider than the store admits"@
}

/// Whether a vector of width `width` can join `entries`. Where the store
/// holds entries, their width decides; the limit on the width is for the
/// first insertion, which fixes the store's width.
pub open spec fn admission(entries: Seq<EntryView>, width: nat) -> Admission {
    if entries.len() > 0 {
        if entries[0].embedding.len() != width {
            Admission::Mismatch { expected: entries[0].embedding.len() }
        } else {
            Admission::Admitted
        }
    } else if width > MAX_DIMENSION {
        Admission::TooWide
    } else {
        Admission::Admitted
    }
}

/// `e` is the error with which `entries` refuse what the embedding model made
/// of a document: the model's failure with its message, a vector too wide for
/// a first insertion, or a vector of another width than the entries'.
pub open spec fn is_refusal(
    entries: Seq<EntryView>,
    embedded: Result<Seq<i16>, Seq<char>>,
    e: VectorStoreError,
) -> bool {
    match embedded {
        Err(message) => e matches VectorStoreError::EmbeddingFailed(m) && m@ == message,
        Ok(vector) => match admission(entries, vector.len()) {
            Admission::TooWide => e matches VectorStoreError::EmbeddingFailed(m) && m@
                == too_wide_message(),
            Admission::Mismatch { expected } => e matches VectorStoreError::DimensionMismatch {
                expected: x,
                found,
            } && x == expected && found == vector.len(),
            Admission::Admitted => false,
        },
    }
}

/// `out` and `after` are what inserting `document` into `entries` comes to,
/// given what the embedding model made of it: an admitted vector is stored
/// under the next id, and anything else is refused and changes nothing.
pub open spec fn is_insert_result(
    entries: Seq<EntryView>,
    document: DocumentView,
    embedded: Result<Seq<i16>, Seq<char>>,
    out: Result<String, VectorStoreError>,
    after: Seq<EntryView>,
) -> bool {
    match out {
        Ok(id) => embedded matches Ok(vector) && admission(entries, vector.len()) is Admitted
            && id@ == decimal_text(entries.len()) && after == entries.push(
            EntryView { id: id@, embedding: vector, document },
        ),
        Err(e) => is_refusal(entries, embedded, e) && after == entries,
    }
}

/// `later` begins with the entries of `earlier`, unchanged.
pub open spec fn extends(later: Seq<EntryView>, earlier: Seq<EntryView>) -> bool {
    &&& earlier.len() <= later.len()
    &&& forall|i: int| 0 <= i < earlier.len() ==> later[i] == earlier[i]
}

/// The entries of `later` from position `from` on hold exactly the first
/// `count` of `documents`, in order.
pub open spec fn holds_documents(
    later: Seq<EntryView>,
    from: int,
    documents: Seq<DocumentView>,
    count: int,
) -> bool {
    &&& later.len() == from + count
    &&& forall|i: int| 0 <= i < count ==> (#[trigger] later[from + i]).document == documents[i]
}

impl View for VectorIndex {
    type V = Seq<EntryView>;

    closed spec fn view(&self) -> Seq<EntryView> {
        entry_views(self.entries@)
    }
}

impl<E: Embeddings> View for InMemoryVectorStore<E> {
    type V = Seq<EntryView>;

    closed spec fn view(&self) -> Seq<EntryView> {
        self.index@
    }
}

impl VectorIndex {
    /// The index's entries are consistent.
    pub open spec fn well_formed(&self) -> bool {
        consistent(self@)
    }

    /// An empty index.
    pub fn new() -> (out: Self)
        ensures
            out@ == Seq::<EntryView>::empty(),
            out.well_formed(),
    {
        let out = VectorIndex { entries: Vec::new() };
        assert(out@ =~= Seq::<EntryView>::empty());
        out
    }

    /// The number of entries.
    pub fn len(&self) -> (out: usize)
        ensures
            out == self@.len(),
    {
        self.entries.len()
    }

    /// The width of the store's embeddings; `None` while the store is empty.
    pub fn dimension(&self) -> (out: Option<usize>)
        ensures
            match out {
                Some(width) => self@.len() > 0 && width == self@[0].embedding.len(),
                None => self@.len() == 0,
            },
    {
        if self.entries.len() == 0 {
            None
        } else {
            Some(self.entries[0].embedding.len())
        }
    }

    /// The id of the entry at position `index`.
    pub fn id(&self, index: usize) -> (out: &String)
        requires
            index < self@.len(),
        ensures
            out@ == self@[index as int].id,
    {
        &self.entries[index].id
    }

    /// The document of the entry at position `index`.
    pub fn document(&self, index: usize) -> (out: &Document)
        requires
            index < self@.len(),
        ensures
            out@ == self@[index as int].document,
    {
        &self.entries[index].document
    }

    /// The embedding of the entry at position `index`.
    pub fn embedding(&self, index: usize) -> (out: &Vec<i16>)
        requires
            index < self@.len(),
        ensures
            out@ == self@[index as int].embedding,
    {
        &self.entries[index].embedding
    }

    /// Indexes `document` under `embedding` and returns the id of
    /// the new entry: the decimal numeral of its position.
    ///
    /// Where the store holds entries, a vector of another width than theirs
    /// is refused as a mismatch. The first vector of a store is refused where
    /// it is wider than the store admits. A refusal changes nothing.
    pub fn insert(&mut self, document: Document, embedding: Vec<i16>) -> (out: Result<
        String,
        VectorStoreError,
    >)
        requires
            old(self).well_formed(),
        ensures
            final(self).well_formed(),
            is_insert_result(old(self)@, document@, Ok(embedding@), out, final(self)@),
    {
        if self.entries.len() > 0 {
            let expected = self.entries[0].embedding.len();
            if embedding.len() != expected {
                return Err(
                    VectorStoreError::DimensionMismatch { expected, found: embedding.len() },
                );
            }
        } else if embedding.len() > MAX_DIMENSION {
            return Err(
                VectorStoreError::EmbeddingFailed(
                    String::from_str("the embedding is wider than the store admits"),
                ),
            );
        }
        let id = decimal(self.entries.len());
        let ghost entry = EntryView { id: id@, embedding: embedding@, document: document@ };
        self.entries.push(Entry { id: id.clone(), embedding, document });
        proof {
            assert(self@ =~= old(self)@.push(entry));
            assert forall|i: int| 0 <= i < self@.len() implies (#[trigger] self@[i]).embedding.len()
                == self@[0].embedding.len() by {
                if i < old(self)@.len() {
                    assert(self@[i] == old(self)@[i]);
                }
                if 0 < old(self)@.len() {
                    assert(self@[0] == old(self)@[0]);
                }
            }
        }
        Ok(id)
    }

    /// Indexes `document`, given what the embedding model made of it: a
    /// failure of the model is handed on with its message and changes
    /// nothing, and a vector is inserted as `insert` does.
    pub fn insert_embedded(&mut self, document: Document, embedded: Result<Vec<i16>, String>) -> (out:
        Result<String, VectorStoreError>)
        requires
            old(self).well_formed(),
        ensures
            final(self).well_formed(),
            is_insert_result(old(self)@, document@, embedded_view(embedded), out, final(self)@),
    {
        match embedded {
            Ok(vector) => self.insert(document, vector),
            Err(message) => Err(VectorStoreError::EmbeddingFailed(message)),
        }
    }

    /// The score of every entry for `query`.
    fn scores(&self, query: &[i16]) -> (out: Vec<ScoreValue>)
        requires
            self.well_formed(),
            self@.len() > 0 ==> query@.len() == self@[0].embedding.len(),
        ensures
            score_views(out@) == scores_for(self@, query@),
            forall|i: int| 0 <= i < out@.len() ==> (#[trigger] out@[i]).bounded(),
    {
        let mut out: Vec<ScoreValue> = Vec::new();
        if self.entries.len() == 0 {
            assert(score_views(out@) =~= scores_for(self@, query@));
            return out;
        }
        assert(self@[0].embedding.len() <= MAX_DIMENSION);
        let query_norm = dot_product(query, query);
        let mut i: usize = 0;
        while i < self.entries.len()
            invariant
                i <= self.entries.len(),
                self.well_formed(),
                query@.len() == self@[0].embedding.len(),
                query_norm == crate::similarity::norm2(query@),
                out@.len() == i,
                forall|j: int| 0 <= j < i ==> (#[trigger] out@[j])@ == score_of(
                    self@[j].embedding,
                    query@,
                ),
                forall|j: int| 0 <= j < i ==> (#[trigger] out@[j]).bounded(),
            decreases self.entries.len() - i,
        {
            assert(self@[i as int].embedding.len() == self@[0].embedding.len());
            assert(self@[i as int].embedding.len() <= MAX_DIMENSION);
            out.push(score(self.entries[i].embedding.as_slice(), query, query_norm));
            i += 1;
        }
        assert(score_views(out@) =~= scores_for(self@, query@));
        out
    }

    /// The documents of the `k` entries most similar to the vector `query`,
    /// most similar first; among equally similar entries the one inserted
    /// earlier comes first. Where the store holds fewer than `k` entries all
    /// of them are returned.
    ///
    /// A query of another width than the store's entries is refused.
    pub fn search(&self, query: &[i16], k: usize) -> (out: Result<Vec<Document>, VectorStoreError>)
        requires
            self.well_formed(),
        ensures
            is_search_result(self@, Ok(query@), k as nat, out),
            out is Ok ==> is_top_k(
                scores_for(self@, query@),
                self@.len() as int,
                k as int,
                ranking(self@, query@, k as nat),
            ),
    {
        if self.entries.len() > 0 {
            let expected = self.entries[0].embedding.len();
            if query.len() != expected {
                return Err(VectorStoreError::DimensionMismatch { expected, found: query.len() });
            }
        }
        let scores = self.scores(query);
        let picks = nearest(&scores, k);
        let ghost picked = picks@.map_values(|i: usize| i as int);
        proof {
            let chosen = ranking(self@, query@, k as nat);
            assert(score_views(scores@).len() == scores@.len());
            assert(scores_for(self@, query@).len() == self@.len());
            assert(is_top_k(scores_for(self@, query@), self@.len() as int, k as int, picked));
            lemma_top_k_unique(
                scores_for(self@, query@),
                self@.len() as int,
                k as int,
                picked,
                chosen,
            );
        }
        let mut documents: Vec<Document> = Vec::new();
        let mut i: usize = 0;
        while i < picks.len()
            invariant
                i <= picks.len(),
                picked == picks@.map_values(|i: usize| i as int),
                forall|a: int| 0 <= a < picked.len() ==> 0 <= #[trigger] picked[a] < self@.len(),
                documents@.len() == i,
                forall|a: int|
                    0 <= a < i ==> (#[trigger] documents@[a])@ == self@[picked[a]].document,
            decreases picks.len() - i,
        {
            assert(picked[i as int] == picks@[i as int]);
            documents.push(self.entries[picks[i]].document.clone());
            i += 1;
        }
        assert(document_views(documents@) =~= ranked_documents(self@, query@, k as nat));
        Ok(documents)
    }

    /// The search for the `k` nearest entries, given what the embedding
    /// model made of the query: a failure of the model is handed on with its
    /// message, and a vector is searched for as `search` does.
    pub fn search_embedded(&self, embedded: Result<Vec<i16>, String>, k: usize) -> (out: Result<
        Vec<Document>,
        VectorStoreError,
    >)
        requires
            self.well_formed(),
        ensures
            is_search_result(self@, embedded_view(embedded), k as nat, out),
    {
        match embedded {
            Ok(vector) => self.search(vector.as_slice(), k),
            Err(message) => Err(VectorStoreError::EmbeddingFailed(message)),
        }
    }
}

impl<E: Embeddings> InMemoryVectorStore<E> {
    /// The store's entries are consistent.
    pub open spec fn well_formed(&self) -> bool {
        consistent(self@)
    }

    /// An empty store over `embeddings`.
    pub fn new(embeddings: E) -> (out: Self)
        ensures
            out@ == Seq::<EntryView>::empty(),
            out.well_formed(),
    {
        InMemoryVectorStore { embeddings, index: VectorIndex::new() }
    }

    /// The store's index.
    pub fn index(&self) -> (out: &VectorIndex)
        ensures
            out@ == self@,
    {
        &self.index
    }

    /// The number of entries.
    pub fn len(&self) -> (out: usize)
        ensures
            out == self@.len(),
    {
        self.index.len()
    }

    /// Embeds each document's text, indexes a copy of the document, and
    /// returns the ids of the new entries in the order of `documents`.
    ///
    /// The call stops at the first document whose embedding fails or is
    /// refused. The documents before it stay in the store.
    pub fn add_documents(&mut self, documents: &Vec<Document>) -> (out: Result<
        Vec<String>,
        VectorStoreError,
    >)
        requires
            old(self).well_formed(),
        ensures
            final(self).well_formed(),
            extends(final(self)@, old(self)@),
            match out {
                Ok(ids) => {
                    &&& holds_documents(
                        final(self)@,
                        old(self)@.len() as int,
                        document_views(documents@),
                        documents@.len() as int,
                    )
                    &&& ids@.len() == documents@.len()
                    &&& forall|i: int|
                        0 <= i < ids@.len() ==> (#[trigger] ids@[i])@ == decimal_text(
                            (old(self)@.len() + i) as nat,
                        )
                },
                Err(e) => {
                    &&& exists|count: int|
                        0 <= count < documents@.len() && holds_documents(
                            final(self)@,
                            old(self)@.len() as int,
                            document_views(documents@),
                            count,
                        )
                    &&& exists|embedded: Result<Seq<i16>, Seq<char>>|
                        is_refusal(final(self)@, embedded, e)
                    &&& e matches VectorStoreError::DimensionMismatch { expected, found }
                        ==> final(self)@.len() > 0 && expected == final(self)@[0].embedding.len()
                        && found != expected
                },
            },
    {
        let mut ids: Vec<String> = Vec::new();
        let mut i: usize = 0;
        while i < documents.len()
            invariant
                i <= documents.len(),
                self.well_formed(),
                extends(self@, old(self)@),
                holds_documents(
                    self@,
                    old(self)@.len() as int,
                    document_views(documents@),
                    i as int,
                ),
                ids@.len() == i,
                forall|j: int|
                    0 <= j < i ==> (#[trigger] ids@[j])@ == decimal_text(
                        (old(self)@.len() + j) as nat,
                    ),
            decreases documents.len() - i,
        {
            let document = &documents[i];
            let text = document.page_content();
            let embedded = self.embeddings.embed_query(text.as_str());
            let ghost made = embedded_view(embedded);
            let ghost before = self@;
            match self.index.insert_embedded(document.clone(), embedded) {
                Ok(id) => {
                    ids.push(id);
                },
                Err(e) => {
                    assert(self@ == before);
                    assert(holds_documents(
                        self@,
                        old(self)@.len() as int,
                        document_views(documents@),
                        i as int,
                    ));
                    assert(is_refusal(self@, made, e));
                    return Err(e);
                },
            }
            proof {
                assert forall|j: int| 0 <= j < i + 1 implies (#[trigger] self@[old(self)@.len()
                    + j]).document == document_views(documents@)[j] by {
                    if j < i {
                        assert(self@[old(self)@.len() + j] == before[old(self)@.len() + j]);
                    }
                }
            }
            i += 1;
        }
        Ok(ids)
    }

    /// Embeds `query` and returns the documents of the `k` most similar
    /// entries, as `search` does for the query's vector. The store is not
    /// changed.
    ///
    /// Whatever the embedding model makes of the query, the result is what
    /// `search_embedded` gives for it: the model's failure with its message, a
    /// refusal of a vector of another width than the entries', or the
    /// documents of the vector's ranking.
    pub fn similarity_search(&mut self, query: &str, k: usize) -> (out: Result<
        Vec<Document>,
        VectorStoreError,
    >)
        requires
            old(self).well_formed(),
        ensures
            final(self)@ == old(self)@,
            exists|embedded: Result<Seq<i16>, Seq<char>>|
                is_search_result(old(self)@, embedded, k as nat, out),
            out matches Ok(documents) ==> documents@.len() == if k <= old(self)@.len() {
                k as int
            } else {
                old(self)@.len() as int
            },
            out matches Err(VectorStoreError::DimensionMismatch { expected, found }) ==> old(
                self,
            )@.len() > 0 && expected == old(self)@[0].embedding.len() && found != expected,
    {
        let embedded = self.embeddings.embed_query(query);
        let ghost made = embedded_view(embedded);
        let out = self.index.search_embedded(embedded, k);
        assert(is_search_result(old(self)@, made, k as nat, out));
        out
    }
}

/// The ids of a store are unique: different entries have different ids.
pub proof fn lemma_ids_unique(entries: Seq<EntryView>, i: int, j: int)
    requires
        consistent(entries),
        0 <= i < entries.len(),
        0 <= j < entries.len(),
        i != j,
    ensures
        entries[i].id != entries[j].id,
{
    if entries[i].id == entries[j].id {
        lemma_decimal_injective(i as nat, j as nat);
    }
}

/// The scores of a store's entries for any query are valid fractions.
pub proof fn lemma_scores_valid(entries: Seq<EntryView>, q: Seq<i16>)
    ensures
        crate::similarity::valid_scores(scores_for(entries, q)),
{
    assert forall|i: int| 0 <= i < scores_for(entries, q).len() implies (#[trigger] scores_for(
        entries,
        q,
    )[i]).den > 0 by {
        let e = entries[i].embedding;
        crate::similarity::lemma_norm2_nonnegative(e, e.len() as int);
    }
}

/// The ranking of a store for a query is sorted by similarity, highest first;
/// entries of equal similarity keep the order of their insertion; it holds
/// `k` positions, or all where the store holds fewer; and no entry outside it
/// is ranked before one inside.
pub proof fn lemma_ranking_is_top_k(entries: Seq<EntryView>, q: Seq<i16>, k: nat)
    ensures
        is_top_k(scores_for(entries, q), entries.len() as int, k as int, ranking(entries, q, k)),
        ranking(entries, q, k).len() == if k <= entries.len() {
            k
        } else {
            entries.len()
        },
        forall|a: int, b: int|
            0 <= a < b < ranking(entries, q, k).len() ==> {
                let first = scores_for(entries, q)[#[trigger] ranking(entries, q, k)[a]];
                let second = scores_for(entries, q)[#[trigger] ranking(entries, q, k)[b]];
                &&& !crate::similarity::below(first, second)
                &&& !crate::similarity::below(second, first) ==> ranking(entries, q, k)[a]
                    < ranking(entries, q, k)[b]
            },
{
    lemma_scores_valid(entries, q);
    crate::similarity::lemma_top_k_exists(scores_for(entries, q), k as int);
    let scores = scores_for(entries, q);
    let picks = ranking(entries, q, k);
    assert forall|a: int, b: int| 0 <= a < b < picks.len() implies {
        let first = scores[#[trigger] picks[a]];
        let second = scores[#[trigger] picks[b]];
        &&& !crate::similarity::below(first, second)
        &&& !crate::similarity::below(second, first) ==> picks[a] < picks[b]
    } by {
        crate::similarity::lemma_top_k_order(scores, entries.len() as int, k as int, picks, a, b);
    }
}

/// Round trip: a query whose vector equals the embedding of an entry, and has
/// positive magnitude, has similarity 1 to that entry, and the entry is
/// ranked first unless an entry inserted before it has similarity 1 to the
/// query as well.
pub proof fn lemma_round_trip(entries: Seq<EntryView>, q: Seq<i16>, k: nat, i: int)
    requires
        consistent(entries),
        0 <= i < entries.len(),
        entries[i].embedding == q,
        crate::similarity::norm2(q) > 0,
        k >= 1,
        forall|j: int|
            0 <= j < i ==> !crate::similarity::is_full_similarity(
                (#[trigger] entries[j]).embedding,
                q,
            ),
    ensures
        crate::similarity::is_full_similarity(entries[i].embedding, q),
        ranking(entries, q, k).len() >= 1,
        ranking(entries, q, k)[0] == i,
{
    lemma_ranking_is_top_k(entries, q, k);
    let scores = scores_for(entries, q);
    let picks = ranking(entries, q, k);
    let first = picks[0];
    crate::similarity::lemma_query_scores_highest(q, q);
    if first != i {
        assert(0 <= first < entries.len());
        assert(entries[first].embedding.len() == entries[0].embedding.len());
        assert(entries[i].embedding.len() == entries[0].embedding.len());
        crate::similarity::lemma_query_scores_highest(entries[first].embedding, q);
        assert(scores[first] == score_of(entries[first].embedding, q));
        assert(scores[i] == score_of(q, q));
        assert(crate::similarity::precedes(scores, first, i)) by {
            if picks.contains(i) {
                let b = choose|b: int| 0 <= b < picks.len() && picks[b] == i;
                assert(crate::similarity::precedes(scores, picks[0], picks[b]));
            }
        }
    }
}

} // verus!
