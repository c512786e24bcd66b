//! The query orchestrator: embed the query, rank it against the store,
//! assemble a context, request a completion, return the trimmed answer.
//!
//! The embedding and completion providers are opaque remote
//! capabilities behind the two traits below; a deterministic stub
//! implementation of each lives here too, so the orchestration can be
//! exercised without network access. A network-backed driver sits
//! outside this crate and performs every provider call outside the
//! store's critical section.

use crate::embedding::Embedding;
use crate::errors::RagError;
use crate::store::{ranking, Document, VectorDB};
use vstd::prelude::*;
use vstd::string::StringExecFns;

verus! {

/// Default number of top-ranked documents placed into the context.
pub const DEFAULT_TOP_K: usize = 5;

/// Generation parameters handed to the completion provider. The
/// fractional parameters are carried in thousandths, so they stay
/// exact; a network driver divides by 1000 when it serializes them.
#[derive(Clone, Copy, Debug, PartialEq, Eq, Structural)]
pub struct GenerationParams {
    pub max_tokens: u64,
    pub temperature_milli: i64,
    pub top_p_milli: i64,
    pub frequency_penalty_milli: i64,
    pub presence_penalty_milli: i64,
}

impl Default for GenerationParams {
    /// The reference configuration: 500 tokens, temperature 0.7,
    /// nucleus-sampling top-p 0.9, no penalties.
    fn default() -> (p: GenerationParams)
        ensures
            p == (GenerationParams {
                max_tokens: 500,
                temperature_milli: 700,
                top_p_milli: 900,
                frequency_penalty_milli: 0,
                presence_penalty_milli: 0,
            }),
    {
        GenerationParams {
            max_tokens: 500,
            temperature_milli: 700,
            top_p_milli: 900,
            frequency_penalty_milli: 0,
            presence_penalty_milli: 0,
        }
    }
}

/// Maps text to a fixed-length embedding vector. Fails with
/// `NetworkError`, `AuthError` or `MalformedResponse`.
pub trait EmbeddingProvider {
    fn embed(&self, text: &str) -> Result<Embedding, RagError>;
}

/// Maps a prompt to generated text. Fails with `NetworkError`,
/// `AuthError` or `MalformedResponse`.
pub trait CompletionProvider {
    fn complete(&self, prompt: &str, params: &GenerationParams) -> Result<String, RagError>;
}

/// What a sequence of documents contributes to the context: the
/// `content` fields in order, separated by single spaces.
pub open spec fn joined_contents(docs: Seq<Document>, n: int) -> Seq<char>
    decreases n,
{
    if n <= 0 {
        Seq::empty()
    } else if n == 1 {
        docs[0].content@
    } else {
        joined_contents(docs, n - 1) + " "@ + docs[n - 1].content@
    }
}

/// Concatenates the documents' content fields in ranked order,
/// separated by single spaces.
pub fn build_context(docs: &Vec<Document>) -> (r: String)
    ensures
        r@ == joined_contents(docs@, docs@.len() as int),
{
    let mut r = String::new();
    let n = docs.len();
    let mut i: usize = 0;
    while i < n
        invariant
            i <= n,
            n == docs@.len(),
            r@ == joined_contents(docs@, i as int),
        decreases n - i,
    {
        if i > 0 {
            r.append(" ");
        }
        r.append(docs[i].content.as_str());
        i += 1;
    }
    r
}

/// The fixed prompt template around a context and a question.
pub open spec fn prompt_of(context: Seq<char>, user_query: Seq<char>) -> Seq<char> {
    "Context: "@ + context + "\n\nQuestion: "@ + user_query + "\n\nAnswer:"@
}

/// Renders the prompt template for one context and one question.
pub fn build_prompt(context: &str, user_query: &str) -> (r: String)
    ensures
        r@ == prompt_of(context@, user_query@),
{
    let mut r = String::new();
    r.append("Context: ");
    r.append(context);
    r.append("\n\nQuestion: ");
    r.append(user_query);
    r.append("\n\nAnswer:");
    r
}

/// What `str::trim` returns for a given character sequence; trimming
/// depends on the characters alone.
pub uninterp spec fn trimmed_of(s: Seq<char>) -> Seq<char>;

/// Relies on str::trim: removes leading and trailing whitespace; the
/// result is a subslice, so it is never longer than the input, and it
/// depends on the input characters alone.
#[verifier::external_body]
fn trim_str(s: &str) -> (r: String)
    ensures
        r@ == trimmed_of(s@),
        r@.len() <= s@.len(),
{
    s.trim().to_string()
}

/// The context that a successful query assembles: the contents of the
/// `min(k, size)` best-ranked documents, space-separated.
pub open spec fn context_of(s: Seq<crate::store::StoreEntry>, q: Seq<i64>, k: int) -> Seq<char> {
    let m = if k < s.len() {
        k
    } else {
        s.len() as int
    };
    joined_contents(
        Seq::new(m as nat, |j: int| s[ranking(s, q)[j]].document),
        m,
    )
}

/// Ranks the store against a query embedding and assembles the context
/// string from the best `top_k` documents. Succeeds exactly when the
/// store's query does, and then returns exactly the ranked contents,
/// space-separated.
pub fn retrieve_context(db: &VectorDB, query_embedding: &Embedding, top_k: usize) -> (r: Result<
    String,
    RagError,
>)
    ensures
        r matches Ok(c) ==> c@ == context_of(db@, query_embedding@, top_k as int),
        r matches Err(e) ==> (e == RagError::DimensionMismatch || e == RagError::DegenerateVector)
            && db@.len() > 0,
        db@.len() == 0 ==> (r matches Ok(c) && c@ == Seq::<char>::empty()),
        db@.len() > 0 && query_embedding@.len() == db@[0].embedding@.len() && crate::embedding::norm_sq(
            query_embedding@,
        ) != 0 && (forall|m: int|
            0 <= m < db@.len() ==> #[trigger] crate::store::entry_norm(db@, m) != 0) ==> r is Ok,
{
    let docs = match db.query(query_embedding, top_k) {
        Ok(docs) => docs,
        Err(e) => {
            return Err(e);
        },
    };
    let context = build_context(&docs);
    proof {
        let m = if (top_k as int) < db@.len() {
            top_k as int
        } else {
            db@.len() as int
        };
        let ranked = Seq::new(m as nat, |j: int| db@[ranking(db@, query_embedding@)[j]].document);
        assert(docs@ =~= ranked);
    }
    Ok(context)
}

/// Picks the embedding out of a provider response already reduced to
/// plain coordinate rows. An empty row list is a malformed response;
/// otherwise the first row is the embedding, as the reference provider
/// defines it.
pub fn first_embedding(rows: Vec<Vec<i64>>) -> (r: Result<Vec<i64>, RagError>)
    ensures
        rows@.len() == 0 ==> r == Err::<Vec<i64>, RagError>(RagError::MalformedResponse),
        rows@.len() > 0 ==> (r matches Ok(v) && v == rows@[0]),
{
    let mut rows = rows;
    if rows.len() == 0 {
        return Err(RagError::MalformedResponse);
    }
    Ok(rows.remove(0))
}

/// Picks the answer out of a completion response already reduced to its
/// plain choice texts. An empty choice list is a malformed response;
/// otherwise the answer is the first choice's text, trimmed.
pub fn first_choice_trimmed(choices: Vec<String>) -> (r: Result<String, RagError>)
    ensures
        choices@.len() == 0 ==> r == Err::<String, RagError>(RagError::MalformedResponse),
        choices@.len() > 0 ==> (r matches Ok(t) && t@ == trimmed_of(choices@[0]@)),
{
    if choices.len() == 0 {
        return Err(RagError::MalformedResponse);
    }
    Ok(trim_str(choices[0].as_str()))
}

/// Answers a user query against the store: embed the query, rank the
/// store, assemble the context, build the prompt, request a completion,
/// return the trimmed answer. Each step may fail; the first failure is
/// returned unchanged and nothing is retried. The store is never
/// mutated. A successful answer is always a trimmed completion.
pub fn answer_query<E: EmbeddingProvider, C: CompletionProvider>(
    db: &VectorDB,
    embedder: &E,
    completer: &C,
    user_query: &str,
    top_k: usize,
    params: &GenerationParams,
) -> (r: Result<String, RagError>)
    ensures
        r matches Ok(ans) ==> exists|raw: Seq<char>| ans@ == #[trigger] trimmed_of(raw),
{
    let query_embedding = match embedder.embed(user_query) {
        Ok(e) => e,
        Err(e) => {
            return Err(e);
        },
    };
    let context = match retrieve_context(db, &query_embedding, top_k) {
        Ok(c) => c,
        Err(e) => {
            return Err(e);
        },
    };
    let prompt = build_prompt(context.as_str(), user_query);
    let completion = match completer.complete(prompt.as_str(), params) {
        Ok(c) => c,
        Err(e) => {
            return Err(e);
        },
    };
    let answer = trim_str(completion.as_str());
    Ok(answer)
}

/// A deterministic embedding provider for tests and offline use: it
/// returns the same fixed vector for every input text.
pub struct FixedEmbedder {
    vector: Embedding,
}

impl FixedEmbedder {
    /// A stub provider that answers every request with `vector`.
    pub fn new(vector: Embedding) -> (r: FixedEmbedder)
        ensures
            r.fixed_vector() == vector@,
    {
        FixedEmbedder { vector }
    }

    /// The coordinates this stub answers with.
    pub closed spec fn fixed_vector(&self) -> Seq<i64> {
        self.vector@
    }
}

impl EmbeddingProvider for FixedEmbedder {
    fn embed(&self, _text: &str) -> Result<Embedding, RagError> {
        Ok(self.vector.duplicate())
    }
}

/// A deterministic completion provider for tests and offline use: it
/// echoes the prompt back as the generated text, which lets a caller
/// observe exactly what prompt the orchestrator assembled.
pub struct EchoCompleter {}

impl EchoCompleter {
    /// A stub provider that echoes every prompt.
    pub fn new() -> EchoCompleter {
        EchoCompleter {  }
    }
}

impl CompletionProvider for EchoCompleter {
    fn complete(&self, prompt: &str, _params: &GenerationParams) -> Result<String, RagError> {
        Ok(String::from_str(prompt))
    }
}

} // verus!
