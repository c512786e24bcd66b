use rag_core::embedding::Embedding;
use rag_core::errors::RagError;
use rag_core::orchestrator::{
    answer_query, build_context, build_prompt, first_choice_trimmed, first_embedding,
    CompletionProvider, EchoCompleter, EmbeddingProvider, FixedEmbedder, GenerationParams,
    DEFAULT_TOP_K,
};
use rag_core::store::{Document, VectorDB};

fn emb(coords: Vec<i64>) -> Embedding {
    Embedding::new(coords).expect("coordinates within fixed-point range")
}

fn doc(id: &str, content: &str) -> Document {
    Document { id: id.to_string(), content: content.to_string() }
}

struct FailingEmbedder;

impl EmbeddingProvider for FailingEmbedder {
    fn embed(&self, _text: &str) -> Result<Embedding, RagError> {
        Err(RagError::AuthError)
    }
}

struct FailingCompleter;

impl CompletionProvider for FailingCompleter {
    fn complete(&self, _prompt: &str, _params: &GenerationParams) -> Result<String, RagError> {
        Err(RagError::NetworkError)
    }
}

struct PaddedCompleter;

impl CompletionProvider for PaddedCompleter {
    fn complete(&self, _prompt: &str, _params: &GenerationParams) -> Result<String, RagError> {
        Ok("  a generated answer \n".to_string())
    }
}

fn two_document_store() -> VectorDB {
    let mut db = VectorDB::new();
    db.add_document("a".to_string(), emb(vec![1, 0]), doc("a", "alpha")).unwrap();
    db.add_document("b".to_string(), emb(vec![0, 1]), doc("b", "beta")).unwrap();
    db
}

#[test]
fn orchestrator_assembles_exactly_the_top_context() {
    let db = two_document_store();
    let embedder = FixedEmbedder::new(emb(vec![1, 0]));
    let completer = EchoCompleter::new();
    let params = GenerationParams::default();
    let answer = answer_query(&db, &embedder, &completer, "what?", 1, &params).unwrap();
    assert_eq!(answer, "Context: alpha\n\nQuestion: what?\n\nAnswer:");
}

#[test]
fn orchestrator_concatenates_ranked_contents() {
    let db = two_document_store();
    let embedder = FixedEmbedder::new(emb(vec![1, 1]));
    let completer = EchoCompleter::new();
    let params = GenerationParams::default();
    let answer = answer_query(&db, &embedder, &completer, "both?", 2, &params).unwrap();
    assert_eq!(answer, "Context: alpha beta\n\nQuestion: both?\n\nAnswer:");
}

#[test]
fn orchestrator_trims_the_completion() {
    let db = two_document_store();
    let embedder = FixedEmbedder::new(emb(vec![1, 0]));
    let completer = PaddedCompleter;
    let params = GenerationParams::default();
    let answer = answer_query(&db, &embedder, &completer, "what?", 1, &params).unwrap();
    assert_eq!(answer, "a generated answer");
}

#[test]
fn orchestrator_propagates_embedding_failure() {
    let db = two_document_store();
    let completer = EchoCompleter::new();
    let params = GenerationParams::default();
    let r = answer_query(&db, &FailingEmbedder, &completer, "what?", 1, &params);
    assert_eq!(r, Err(RagError::AuthError));
}

#[test]
fn orchestrator_propagates_completion_failure() {
    let db = two_document_store();
    let embedder = FixedEmbedder::new(emb(vec![1, 0]));
    let params = GenerationParams::default();
    let r = answer_query(&db, &embedder, &FailingCompleter, "what?", 1, &params);
    assert_eq!(r, Err(RagError::NetworkError));
}

#[test]
fn orchestrator_propagates_dimension_mismatch() {
    let db = two_document_store();
    let embedder = FixedEmbedder::new(emb(vec![1, 0, 0]));
    let completer = EchoCompleter::new();
    let params = GenerationParams::default();
    let r = answer_query(&db, &embedder, &completer, "what?", 1, &params);
    assert_eq!(r, Err(RagError::DimensionMismatch));
}

#[test]
fn orchestrator_rejects_degenerate_query_embedding() {
    let db = two_document_store();
    let embedder = FixedEmbedder::new(emb(vec![0, 0]));
    let completer = EchoCompleter::new();
    let params = GenerationParams::default();
    let r = answer_query(&db, &embedder, &completer, "what?", 1, &params);
    assert_eq!(r, Err(RagError::DegenerateVector));
}

#[test]
fn orchestrator_answers_on_an_empty_store() {
    let db = VectorDB::new();
    let embedder = FixedEmbedder::new(emb(vec![1, 0]));
    let completer = EchoCompleter::new();
    let params = GenerationParams::default();
    let answer = answer_query(&db, &embedder, &completer, "what?", DEFAULT_TOP_K, &params).unwrap();
    assert_eq!(answer, "Context: \n\nQuestion: what?\n\nAnswer:");
}

#[test]
fn build_context_joins_with_single_spaces() {
    let empty: Vec<Document> = Vec::new();
    assert_eq!(build_context(&empty), "");
    let one = vec![doc("a", "alpha")];
    assert_eq!(build_context(&one), "alpha");
    let three = vec![doc("a", "alpha"), doc("b", "beta"), doc("c", "gamma")];
    assert_eq!(build_context(&three), "alpha beta gamma");
}

#[test]
fn build_prompt_renders_the_template() {
    assert_eq!(
        build_prompt("some context", "a question"),
        "Context: some context\n\nQuestion: a question\n\nAnswer:"
    );
}

#[test]
fn first_embedding_takes_the_first_row() {
    assert_eq!(first_embedding(Vec::new()), Err(RagError::MalformedResponse));
    let rows = vec![vec![1, 2, 3], vec![4, 5, 6]];
    assert_eq!(first_embedding(rows), Ok(vec![1, 2, 3]));
}

#[test]
fn first_choice_is_trimmed() {
    assert_eq!(first_choice_trimmed(Vec::new()), Err(RagError::MalformedResponse));
    let choices = vec!["  hello world \t\n".to_string(), "ignored".to_string()];
    assert_eq!(first_choice_trimmed(choices), Ok("hello world".to_string()));
}

#[test]
fn default_generation_parameters_match_the_reference_configuration() {
    let p = GenerationParams::default();
    assert_eq!(p.max_tokens, 500);
    assert_eq!(p.temperature_milli, 700);
    assert_eq!(p.top_p_milli, 900);
    assert_eq!(p.frequency_penalty_milli, 0);
    assert_eq!(p.presence_penalty_milli, 0);
    assert_eq!(DEFAULT_TOP_K, 5);
}
