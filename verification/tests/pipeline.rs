use semsearch::client::validate_embedding;
use semsearch::client::EmbedConfig;
use semsearch::client::EMBED_DIM;
use semsearch::corpus::demo_corpus;
use semsearch::corpus::CORPUS_LEN;
use semsearch::distance::squared_distance;
use semsearch::error::PipelineError;
use semsearch::loader::load_embedded;
use semsearch::store::VectorStore;

fn dim_vec(dim: usize, first: i32) -> Vec<i32> {
    let mut v = vec![0i32; dim];
    v[0] = first;
    v
}

#[test]
fn squared_distance_exact_value() {
    let a = vec![1, 2, 3];
    let b = vec![4, 6, 3];
    assert_eq!(squared_distance(&a, &b), 25);
    assert_eq!(squared_distance(&a, &a), 0);
}

#[test]
fn squared_distance_extreme_components() {
    let a = vec![i32::MAX, i32::MIN];
    let b = vec![i32::MIN, i32::MAX];
    let d = (i32::MAX as i64 - i32::MIN as i64) as u128;
    assert_eq!(squared_distance(&a, &b), 2 * d * d);
}

#[test]
fn insert_assigns_sequential_ids() {
    let mut store = VectorStore::new(2);
    assert_eq!(store.insert("a".to_string(), vec![0, 0]).unwrap(), 0);
    assert_eq!(store.insert("b".to_string(), vec![1, 0]).unwrap(), 1);
    assert_eq!(store.insert("c".to_string(), vec![2, 0]).unwrap(), 2);
    assert_eq!(store.len(), 3);
}

#[test]
fn insert_wrong_dimension_fails_and_preserves_store() {
    let mut store = VectorStore::new(3);
    store.insert("ok".to_string(), vec![1, 2, 3]).unwrap();
    let err = store.insert("bad".to_string(), vec![1, 2]).unwrap_err();
    assert_eq!(err, PipelineError::Schema { expected: 3, actual: 2 });
    assert_eq!(store.len(), 1);
    let res = store.query(&vec![1, 2, 3], 5).unwrap();
    assert_eq!(res.len(), 1);
    assert_eq!(res[0].text, "ok");
}

#[test]
fn query_wrong_dimension_fails() {
    let mut store = VectorStore::new(3);
    store.insert("ok".to_string(), vec![1, 2, 3]).unwrap();
    let err = store.query(&vec![1, 2], 1).unwrap_err();
    assert_eq!(err, PipelineError::Schema { expected: 3, actual: 2 });
}

#[test]
fn query_exact_vector_returns_it_first_with_distance_zero() {
    let mut store = VectorStore::new(2);
    store.insert("far".to_string(), vec![100, 100]).unwrap();
    store.insert("near".to_string(), vec![3, 4]).unwrap();
    store.insert("mid".to_string(), vec![10, 10]).unwrap();
    let res = store.query(&vec![3, 4], 10).unwrap();
    assert_eq!(res.len(), 3);
    assert_eq!(res[0].text, "near");
    assert_eq!(res[0].distance, 0);
    assert_eq!(res[1].text, "mid");
    assert_eq!(res[2].text, "far");
}

#[test]
fn query_returns_all_documents_when_k_exceeds_count() {
    let mut store = VectorStore::new(2);
    for i in 0..5 {
        store.insert(format!("doc{i}"), vec![i, 0]).unwrap();
    }
    let res = store.query(&vec![0, 0], 100).unwrap();
    assert_eq!(res.len(), 5);
}

#[test]
fn query_truncates_to_k() {
    let mut store = VectorStore::new(2);
    for i in 0..5 {
        store.insert(format!("doc{i}"), vec![i, 0]).unwrap();
    }
    let res = store.query(&vec![0, 0], 2).unwrap();
    assert_eq!(res.len(), 2);
    assert_eq!(res[0].text, "doc0");
    assert_eq!(res[1].text, "doc1");
}

#[test]
fn query_breaks_distance_ties_by_insertion_order() {
    let mut store = VectorStore::new(1);
    store.insert("plus".to_string(), vec![5]).unwrap();
    store.insert("minus".to_string(), vec![-5]).unwrap();
    store.insert("same".to_string(), vec![5]).unwrap();
    let res = store.query(&vec![0], 3).unwrap();
    assert_eq!(res[0].text, "plus");
    assert_eq!(res[0].id, 0);
    assert_eq!(res[1].text, "minus");
    assert_eq!(res[2].text, "same");
    assert!(res[0].distance == 25 && res[1].distance == 25 && res[2].distance == 25);
}

#[test]
fn query_empty_store_returns_empty_list() {
    let store = VectorStore::new(EMBED_DIM);
    let res = store.query(&vec![0; EMBED_DIM], 8).unwrap();
    assert!(res.is_empty());
}

#[test]
fn load_embedded_inserts_whole_batch() {
    let mut store = VectorStore::new(4);
    let items: Vec<(String, Vec<i32>)> = (0..3)
        .map(|i| (format!("t{i}"), dim_vec(4, i)))
        .collect();
    let n = load_embedded(&mut store, &items).unwrap();
    assert_eq!(n, 3);
    assert_eq!(store.len(), 3);
}

#[test]
fn load_embedded_stops_at_first_mismatch() {
    let mut store = VectorStore::new(3);
    let items = vec![
        ("good".to_string(), vec![1, 2, 3]),
        ("short".to_string(), vec![1, 2]),
        ("never".to_string(), vec![4, 5, 6]),
    ];
    let err = load_embedded(&mut store, &items).unwrap_err();
    assert_eq!(err, PipelineError::Schema { expected: 3, actual: 2 });
    assert_eq!(store.len(), 1);
}

#[test]
fn mismatched_embedding_fails_fast_before_any_insert() {
    let mut store = VectorStore::new(EMBED_DIM);
    let items = vec![("model changed".to_string(), vec![0i32; 128])];
    let err = load_embedded(&mut store, &items).unwrap_err();
    assert_eq!(err, PipelineError::Schema { expected: 384, actual: 128 });
    assert_eq!(store.len(), 0);
    assert_eq!(
        validate_embedding(EMBED_DIM, &vec![0i32; 128]).unwrap_err(),
        PipelineError::Schema { expected: 384, actual: 128 }
    );
}

#[test]
fn loading_corpus_twice_duplicates_documents() {
    let mut store = VectorStore::new(4);
    let titles = demo_corpus();
    let items: Vec<(String, Vec<i32>)> = titles
        .iter()
        .enumerate()
        .map(|(i, t)| (t.to_string(), dim_vec(4, i as i32)))
        .collect();
    assert_eq!(load_embedded(&mut store, &items).unwrap(), CORPUS_LEN);
    assert_eq!(load_embedded(&mut store, &items).unwrap(), CORPUS_LEN);
    assert_eq!(store.len(), 2 * CORPUS_LEN);
    let res = store.query(&dim_vec(4, 0), 2).unwrap();
    assert_eq!(res.len(), 2);
    assert_eq!(res[0].text, res[1].text);
    assert_eq!(res[0].distance, 0);
    assert_eq!(res[1].distance, 0);
    assert_eq!(res[0].id, 0);
    assert_eq!(res[1].id, CORPUS_LEN);
}

#[test]
fn full_corpus_query_returns_eight_ranked_results() {
    let mut store = VectorStore::new(EMBED_DIM);
    let titles = demo_corpus();
    assert_eq!(titles.len(), CORPUS_LEN);
    let items: Vec<(String, Vec<i32>)> = titles
        .iter()
        .enumerate()
        .map(|(i, t)| (t.to_string(), dim_vec(EMBED_DIM, (i as i32 + 1) * 10)))
        .collect();
    assert_eq!(load_embedded(&mut store, &items).unwrap(), CORPUS_LEN);
    let query = dim_vec(EMBED_DIM, 0);
    let res = store.query(&query, 8).unwrap();
    assert_eq!(res.len(), 8);
    for w in res.windows(2) {
        assert!(w[0].distance <= w[1].distance);
    }
    assert_eq!(res[0].text, titles[0]);
}

#[test]
fn corpus_holds_the_twelve_titles() {
    let titles = demo_corpus();
    assert_eq!(titles.len(), 12);
    assert_eq!(titles[3], "Vector embeddings enable semantic search over documents");
    assert_eq!(titles[11], "RAG: chunking, embeddings, and prompt assembly");
}

#[test]
fn reference_config_and_endpoint() {
    let cfg = EmbedConfig::reference();
    assert_eq!(cfg.base_url, "http://localhost:11434");
    assert_eq!(cfg.model, "all-minilm");
    assert_eq!(cfg.timeout_secs, 60);
    assert_eq!(cfg.dim, 384);
    assert_eq!(cfg.endpoint_url(), "http://localhost:11434/api/embeddings");
}

#[test]
fn validate_embedding_accepts_matching_length() {
    assert!(validate_embedding(3, &vec![1, 2, 3]).is_ok());
    assert!(validate_embedding(0, &Vec::new()).is_ok());
}

#[test]
fn error_kind_names() {
    assert_eq!(PipelineError::Transport.kind_name(), "embedding unavailable");
    assert_eq!(
        PipelineError::Schema { expected: 384, actual: 128 }.kind_name(),
        "dimensionality mismatch"
    );
}
