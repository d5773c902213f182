use vstd::prelude::*;

verus! {

/// How many texts the demo corpus holds.
pub const CORPUS_LEN: usize = 12;

/// The fixed demo corpus: twelve short technology-article titles, in the
/// order they are loaded into the store.
pub fn demo_corpus() -> (r: Vec<&'static str>)
    ensures
        r@.len() == CORPUS_LEN,
        r@[0]@ == "React state management patterns for shared components"@,
        r@[1]@ == "Using CSS Grid for responsive dashboard layouts"@,
        r@[2]@ == "Training a transformer on small datasets with regularization"@,
        r@[3]@ == "Vector embeddings enable semantic search over documents"@,
        r@[4]@ == "Kafka partitions and consumer groups for scalable throughput"@,
        r@[5]@ == "Optimizing Spark DataFrames with predicate pushdown"@,
        r@[6]@ == "Designing idempotent Airflow DAGs for reliability"@,
        r@[7]@ == "Docker multi-stage builds to keep images small"@,
        r@[8]@ == "Kubernetes Ingress vs Service: routing trade-offs"@,
        r@[9]@ == "Time-series downsampling with Rust and Polars"@,
        r@[10]@ == "Postgres: B-tree vs GIN indexes for text search"@,
        r@[11]@ == "RAG: chunking, embeddings, and prompt assembly"@,
{
    let mut v: Vec<&'static str> = Vec::new();
    v.push("React state management patterns for shared components");
    v.push("Using CSS Grid for responsive dashboard layouts");
    v.push("Training a transformer on small datasets with regularization");
    v.push("Vector embeddings enable semantic search over documents");
    v.push("Kafka partitions and consumer groups for scalable throughput");
    v.push("Optimizing Spark DataFrames with predicate pushdown");
    v.push("Designing idempotent Airflow DAGs for reliability");
    v.push("Docker multi-stage builds to keep images small");
    v.push("Kubernetes Ingress vs Service: routing trade-offs");
    v.push("Time-series downsampling with Rust and Polars");
    v.push("Postgres: B-tree vs GIN indexes for text search");
    v.push("RAG: chunking, embeddings, and prompt assembly");
    v
}

} // verus!
