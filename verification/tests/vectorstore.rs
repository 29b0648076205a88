use mini_langchain::embedding::{Embeddings, MockEmbeddings, MOCK_DIMENSION};
use mini_langchain::schema::Document;
use mini_langchain::similarity::{dot_product, is_below, nearest, score, ScoreValue, MAX_DIMENSION};
use mini_langchain::vectorstore::{InMemoryVectorStore, VectorIndex, VectorStoreError};

/// Reads a vector from the text: numbers separated by commas; "fail" fails.
struct Listed;

impl Embeddings for Listed {
    fn embed_query(&mut self, text: &str) -> Result<Vec<i16>, String> {
        if text == "fail" {
            return Err("no embedding".to_string());
        }
        Ok(text.split(',').map(|p| p.trim().parse::<i16>().unwrap()).collect())
    }
}

fn doc(text: &str) -> Document {
    Document::new(text.to_string(), None)
}

fn contents(docs: &[Document]) -> Vec<String> {
    docs.iter().map(|d| d.page_content()).collect()
}

#[test]
fn dot_product_values() {
    assert_eq!(dot_product(&[1, 2, 3], &[4, 5, 6]), 32);
    assert_eq!(dot_product(&[-3, 4], &[3, 4]), 7);
    assert_eq!(dot_product(&[], &[]), 0);
    assert_eq!(dot_product(&[i16::MIN, i16::MIN], &[i16::MIN, i16::MIN]), 2 * 32768 * 32768);
}

#[test]
fn score_is_signed_square_over_squared_magnitude() {
    let q = [3i16, 4];
    let s = score(&[1, 0], &q, 25);
    assert_eq!((s.num, s.den), (9, 1));
    let s = score(&[-2, 0], &q, 25);
    assert_eq!((s.num, s.den), (-36, 4));
    let s = score(&[0, 0], &q, 25);
    assert_eq!((s.num, s.den), (0, 1));
    let s = score(&[1, 1], &[0, 0], 0);
    assert_eq!((s.num, s.den), (0, 1));
}

#[test]
fn score_comparison_is_exact() {
    let a = ScoreValue { num: 1, den: 3 };
    let b = ScoreValue { num: 2, den: 6 };
    let c = ScoreValue { num: -1, den: 2 };
    assert!(!is_below(a, b));
    assert!(!is_below(b, a));
    assert!(is_below(c, a));
    assert!(!is_below(a, c));
}

#[test]
fn score_at_the_limits_does_not_overflow() {
    let wide = vec![i16::MIN; MAX_DIMENSION];
    let norm = dot_product(&wide, &wide);
    let s = score(&wide, &wide, norm);
    assert!(!is_below(s, s));
    assert_eq!(s.den as i64, norm);
}

#[test]
fn nearest_orders_by_score_then_insertion() {
    let scores = vec![
        ScoreValue { num: 1, den: 2 },
        ScoreValue { num: 3, den: 4 },
        ScoreValue { num: 2, den: 4 },
        ScoreValue { num: -1, den: 1 },
        ScoreValue { num: 6, den: 8 },
    ];
    assert_eq!(nearest(&scores, 10), vec![1, 4, 0, 2, 3]);
    assert_eq!(nearest(&scores, 3), vec![1, 4, 0]);
    assert_eq!(nearest(&scores, 0), Vec::<usize>::new());
    assert_eq!(nearest(&Vec::new(), 3), Vec::<usize>::new());
}

#[test]
fn add_documents_returns_ids_in_order() {
    let mut store = InMemoryVectorStore::new(Listed);
    let ids = store.add_documents(&vec![doc("1,0"), doc("0,1")]).unwrap();
    assert_eq!(ids, vec!["0".to_string(), "1".to_string()]);
    let more = store.add_documents(&vec![doc("1,1")]).unwrap();
    assert_eq!(more, vec!["2".to_string()]);
    assert_eq!(store.len(), 3);
    assert_eq!(store.index().id(2), "2");
    assert_eq!(store.index().document(1).page_content(), "0,1");
    assert_eq!(store.index().embedding(2), &vec![1i16, 1]);
    assert_eq!(store.index().dimension(), Some(2));
}

#[test]
fn empty_store_has_no_dimension_and_no_results() {
    let mut store = InMemoryVectorStore::new(Listed);
    assert_eq!(store.index().dimension(), None);
    assert!(store.similarity_search("1,2,3", 5).unwrap().is_empty());
}

#[test]
fn add_documents_keeps_what_came_before_a_failure() {
    let mut store = InMemoryVectorStore::new(Listed);
    match store.add_documents(&vec![doc("1,0"), doc("fail"), doc("0,1")]) {
        Err(VectorStoreError::EmbeddingFailed(message)) => assert_eq!(message, "no embedding"),
        other => panic!("unexpected outcome: {:?}", other.map(|_| ())),
    }
    assert_eq!(store.len(), 1);
    assert_eq!(store.index().document(0).page_content(), "1,0");
}

#[test]
fn add_documents_refuses_another_width() {
    let mut store = InMemoryVectorStore::new(Listed);
    match store.add_documents(&vec![doc("1,0"), doc("1,0,0")]) {
        Err(VectorStoreError::DimensionMismatch { expected, found }) => {
            assert_eq!(expected, 2);
            assert_eq!(found, 3);
        }
        other => panic!("unexpected outcome: {:?}", other.map(|_| ())),
    }
    assert_eq!(store.len(), 1);
}

#[test]
fn insert_refuses_too_wide_a_vector() {
    let mut store = VectorIndex::new();
    let out = store.insert(doc("wide"), vec![1; MAX_DIMENSION + 1]);
    assert!(matches!(out, Err(VectorStoreError::EmbeddingFailed(_))));
    assert_eq!(store.len(), 0);
    assert_eq!(store.insert(doc("fits"), vec![1; MAX_DIMENSION]).unwrap(), "0");
}

#[test]
fn search_refuses_a_query_of_another_width() {
    let mut store = InMemoryVectorStore::new(Listed);
    store.add_documents(&vec![doc("1,0")]).unwrap();
    match store.index().search(&[1, 0, 0], 1) {
        Err(VectorStoreError::DimensionMismatch { expected, found }) => {
            assert_eq!(expected, 2);
            assert_eq!(found, 3);
        }
        other => panic!("unexpected outcome: {:?}", other.map(|_| ())),
    }
}

#[test]
fn similarity_search_sorts_by_cosine_similarity() {
    let mut store = InMemoryVectorStore::new(Listed);
    store.add_documents(&vec![doc("0,10"), doc("10,1"), doc("-5,0"), doc("3,3"), doc("100,0")]).unwrap();
    let found = store.similarity_search("1,0", 5).unwrap();
    assert_eq!(contents(&found), vec!["100,0", "10,1", "3,3", "0,10", "-5,0"]);
    let top = store.similarity_search("1,0", 2).unwrap();
    assert_eq!(contents(&top), vec!["100,0", "10,1"]);
}

#[test]
fn similarity_search_breaks_ties_by_insertion_order() {
    let mut store = InMemoryVectorStore::new(Listed);
    store.add_documents(&vec![doc("2,2"), doc("0,1"), doc("1,1"), doc("5,5")]).unwrap();
    let found = store.similarity_search("1,1", 3).unwrap();
    assert_eq!(contents(&found), vec!["2,2", "1,1", "5,5"]);
}

#[test]
fn similarity_search_truncates_to_the_entries_there_are() {
    let mut store = InMemoryVectorStore::new(Listed);
    store.add_documents(&vec![doc("1,0"), doc("0,1")]).unwrap();
    assert_eq!(store.similarity_search("1,0", 10).unwrap().len(), 2);
    assert_eq!(store.similarity_search("1,0", 0).unwrap().len(), 0);
}

#[test]
fn zero_vectors_score_zero() {
    let mut store = InMemoryVectorStore::new(Listed);
    store.add_documents(&vec![doc("-1,0"), doc("0,0"), doc("1,0")]).unwrap();
    let found = store.similarity_search("1,0", 3).unwrap();
    assert_eq!(contents(&found), vec!["1,0", "0,0", "-1,0"]);
    let all_equal = store.similarity_search("0,0", 3).unwrap();
    assert_eq!(contents(&all_equal), vec!["-1,0", "0,0", "1,0"]);
}

#[test]
fn similarity_search_reports_a_failed_query_embedding() {
    let mut store = InMemoryVectorStore::new(Listed);
    store.add_documents(&vec![doc("1,0")]).unwrap();
    assert!(matches!(store.similarity_search("fail", 1), Err(VectorStoreError::EmbeddingFailed(_))));
    assert_eq!(store.len(), 1);
}

#[test]
fn round_trip_returns_the_inserted_document_first() {
    let mut store = InMemoryVectorStore::new(MockEmbeddings::new());
    let docs = vec![doc("alpha beta"), doc("the quick brown fox"), doc("zzzz")];
    store.add_documents(&docs).unwrap();
    for d in &docs {
        let text = d.page_content();
        let found = store.similarity_search(&text, 1).unwrap();
        assert_eq!(found[0].page_content(), text);
        let q = MockEmbeddings::new().embed(&text);
        let d2 = dot_product(&q, &q);
        assert!(d2 > 0);
        let s = score(&q, &q, d2);
        assert_eq!(s.num, (d2 as i128) * (s.den));
    }
}

#[test]
fn mock_embedding_counts_characters_by_code() {
    let e = MockEmbeddings::new().embed("aab");
    assert_eq!(e.len(), MOCK_DIMENSION);
    // 'a' is 97 = 1 mod 8, 'b' is 98 = 2 mod 8
    assert_eq!(e, vec![0, 2, 1, 0, 0, 0, 0, 0]);
    assert_eq!(MockEmbeddings::new().embed(""), vec![0; 8]);
    let mut model = MockEmbeddings::new();
    assert_eq!(model.embed_query("aab").unwrap(), e);
}

#[test]
fn mock_embedding_saturates() {
    let long = "a".repeat(40000);
    let e = MockEmbeddings::new().embed(&long);
    assert_eq!(e[1], i16::MAX);
}

#[test]
fn stored_document_is_a_copy() {
    let mut store = InMemoryVectorStore::new(Listed);
    let docs = vec![doc("1,0")];
    store.add_documents(&docs).unwrap();
    drop(docs);
    assert_eq!(store.index().document(0).page_content(), "1,0");
}

#[test]
fn index_search_by_vector() {
    let mut index = VectorIndex::new();
    assert_eq!(index.insert(doc("a"), vec![1, 0]).unwrap(), "0");
    assert_eq!(index.insert(doc("b"), vec![0, 1]).unwrap(), "1");
    match index.insert(doc("c"), vec![1]) {
        Err(VectorStoreError::DimensionMismatch { expected, found }) => {
            assert_eq!((expected, found), (2, 1));
        }
        other => panic!("unexpected outcome: {:?}", other),
    }
    let found = index.search(&[1, 5], 1).unwrap();
    assert_eq!(contents(&found), vec!["b"]);
    assert_eq!(index.len(), 2);
}

#[test]
fn search_embedded_covers_each_outcome_of_the_model() {
    let mut index = VectorIndex::new();
    index.insert(doc("a"), vec![1, 0]).unwrap();
    index.insert(doc("b"), vec![0, 1]).unwrap();
    let found = index.search_embedded(Ok(vec![0, 3]), 2).unwrap();
    assert_eq!(contents(&found), vec!["b", "a"]);
    match index.search_embedded(Err("model down".to_string()), 2) {
        Err(VectorStoreError::EmbeddingFailed(message)) => assert_eq!(message, "model down"),
        other => panic!("unexpected outcome: {:?}", other.map(|_| ())),
    }
    match index.search_embedded(Ok(vec![1]), 2) {
        Err(VectorStoreError::DimensionMismatch { expected, found }) => {
            assert_eq!((expected, found), (2, 1));
        }
        other => panic!("unexpected outcome: {:?}", other.map(|_| ())),
    }
}

#[test]
fn similarity_search_hands_the_model_failure_on_with_its_message() {
    let mut store = InMemoryVectorStore::new(Listed);
    store.add_documents(&vec![doc("1,0")]).unwrap();
    match store.similarity_search("fail", 1) {
        Err(VectorStoreError::EmbeddingFailed(message)) => assert_eq!(message, "no embedding"),
        other => panic!("unexpected outcome: {:?}", other.map(|_| ())),
    }
    match store.similarity_search("1,0,0", 1) {
        Err(VectorStoreError::DimensionMismatch { expected, found }) => {
            assert_eq!((expected, found), (2, 3));
        }
        other => panic!("unexpected outcome: {:?}", other.map(|_| ())),
    }
}

#[test]
fn wider_vector_on_a_filled_index_is_a_mismatch() {
    let mut index = VectorIndex::new();
    index.insert(doc("a"), vec![1, 0]).unwrap();
    match index.insert(doc("wide"), vec![1; MAX_DIMENSION + 1]) {
        Err(VectorStoreError::DimensionMismatch { expected, found }) => {
            assert_eq!((expected, found), (2, MAX_DIMENSION + 1));
        }
        other => panic!("unexpected outcome: {:?}", other),
    }
    assert_eq!(index.len(), 1);
    assert_eq!(index.dimension(), Some(2));
}

#[test]
fn insert_embedded_covers_each_outcome_of_the_model() {
    let mut index = VectorIndex::new();
    match index.insert_embedded(doc("a"), Err("model down".to_string())) {
        Err(VectorStoreError::EmbeddingFailed(message)) => assert_eq!(message, "model down"),
        other => panic!("unexpected outcome: {:?}", other),
    }
    match index.insert_embedded(doc("a"), Ok(vec![0; MAX_DIMENSION + 1])) {
        Err(VectorStoreError::EmbeddingFailed(message)) => {
            assert_eq!(message, "the embedding is wider than the store admits")
        }
        other => panic!("unexpected outcome: {:?}", other),
    }
    assert_eq!(index.len(), 0);
    assert_eq!(index.insert_embedded(doc("a"), Ok(vec![1, 2, 3])).unwrap(), "0");
    match index.insert_embedded(doc("b"), Ok(vec![1, 2])) {
        Err(VectorStoreError::DimensionMismatch { expected, found }) => {
            assert_eq!((expected, found), (3, 2));
        }
        other => panic!("unexpected outcome: {:?}", other),
    }
    assert_eq!(index.len(), 1);
    assert_eq!(index.embedding(0), &vec![1i16, 2, 3]);
}

#[test]
fn add_documents_to_an_empty_store_fixes_the_width_with_the_first_document() {
    let mut store = InMemoryVectorStore::new(Listed);
    match store.add_documents(&vec![doc("1,0,0"), doc("1,0")]) {
        Err(VectorStoreError::DimensionMismatch { expected, found }) => {
            assert_eq!((expected, found), (3, 2));
        }
        other => panic!("unexpected outcome: {:?}", other.map(|_| ())),
    }
    assert_eq!(store.len(), 1);
    assert_eq!(store.index().embedding(0).len(), 3);
}
