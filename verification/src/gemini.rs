//! Shapes of the remote document-search service's requests and replies, as
//! the engines consume them, and the pure helpers that read them.
//!
//! The surrounding program performs the network calls and decodes the wire
//! format into these types; everything that then inspects them is verified
//! here and in the engine modules.

use vstd::prelude::*;

use crate::text::str_eq;

verus! {

/// Reply to creating a remote store: its identifier, timestamps, and the
/// mirrored document counts.
#[derive(Debug, Clone)]
pub struct FileSearchStore {
    /// Remote identifier of the store.
    pub name: String,
    /// Human-readable title, when reported.
    pub display_name: Option<String>,
    /// Remote creation timestamp, when reported.
    pub create_time: Option<String>,
    /// Remote update timestamp, when reported.
    pub update_time: Option<String>,
    /// Number of active documents the remote store holds.
    pub active_documents_count: i64,
    /// Number of documents still being processed remotely.
    pub pending_documents_count: i64,
    /// Number of documents that failed remote processing.
    pub failed_documents_count: i64,
    /// Total size of the remote store in bytes.
    pub size_bytes: i64,
}

/// Reply to listing remote stores.
#[derive(Debug, Clone)]
pub struct ListStoresResponse {
    /// The stores of the current page.
    pub file_search_stores: Vec<FileSearchStore>,
    /// Continuation token, when more pages exist.
    pub next_page_token: Option<String>,
}

/// Remote metadata of one uploaded document.
#[derive(Debug, Clone)]
pub struct Document {
    /// Remote identifier of the document.
    pub name: String,
    /// Display name, when reported.
    pub display_name: Option<String>,
    /// Remote processing state, as free-form text.
    pub state: Option<String>,
    /// Size of the document in bytes.
    pub size_bytes: i64,
    /// MIME type the service detected.
    pub mime_type: Option<String>,
    /// Remote creation timestamp, when reported.
    pub create_time: Option<String>,
    /// Remote update timestamp, when reported.
    pub update_time: Option<String>,
}

/// Reply to listing remote documents.
#[derive(Debug, Clone)]
pub struct ListDocumentsResponse {
    /// The documents of the current page.
    pub documents: Vec<Document>,
    /// Continuation token, when more pages exist.
    pub next_page_token: Option<String>,
}

/// A long-running remote operation, as the polling engine observes it.
#[derive(Debug, Clone)]
pub struct Operation {
    /// Handle of the operation.
    pub name: String,
    /// Whether the operation has finished.
    pub done: bool,
    /// The failure, when the operation finished unsuccessfully.
    pub error: Option<OperationError>,
    /// The result, when the operation finished successfully.
    pub response: Option<OperationResponse>,
}

/// Failure report of a finished remote operation.
#[derive(Debug, Clone)]
pub struct OperationError {
    /// Numeric error code.
    pub code: i64,
    /// Human-readable message.
    pub message: String,
}

/// Result of a successfully finished remote operation.
#[derive(Debug, Clone)]
pub struct OperationResponse {
    /// Type marker of the embedded result.
    pub type_url: Option<String>,
    /// Remote identifier of the document the operation produced.
    pub document_name: Option<String>,
}

/// Reply the service sends when a request fails.
#[derive(Debug, Clone)]
pub struct ApiErrorResponse {
    /// The failure itself.
    pub error: ApiErrorDetail,
}

/// Body of a failed request's reply.
#[derive(Debug, Clone)]
pub struct ApiErrorDetail {
    /// Numeric error code.
    pub code: i64,
    /// Human-readable message.
    pub message: String,
    /// Symbolic status, when reported.
    pub status: Option<String>,
}

/// Request body for creating a remote store.
#[derive(Debug, Clone)]
pub struct CreateStoreRequest {
    /// Title the store is created under.
    pub display_name: Option<String>,
}

/// Chunking parameters an upload may carry.
#[derive(Debug, Clone)]
pub struct ChunkingConfig {
    /// Upper bound of tokens per chunk.
    pub max_tokens_per_chunk: Option<i64>,
    /// Upper bound of overlapping tokens between chunks.
    pub max_overlap_tokens: Option<i64>,
}

/// A list of strings inside document metadata.
#[derive(Debug, Clone)]
pub struct StringListValue {
    /// The values themselves.
    pub values: Vec<String>,
}

/// One conversation turn sent to or received from the answer service.
#[derive(Debug, Clone)]
pub struct Content {
    /// Speaker of the turn.
    pub role: String,
    /// The turn's parts.
    pub parts: Vec<Part>,
}

/// One part of a conversation turn.
#[derive(Debug, Clone)]
pub struct Part {
    /// Plain text, when the part carries any.
    pub text: Option<String>,
}

/// A tool the answer service may use.
#[derive(Debug, Clone)]
pub struct Tool {
    /// The document-search tool, when enabled.
    pub file_search: Option<FileSearchTool>,
}

/// The document-search tool's configuration.
#[derive(Debug, Clone)]
pub struct FileSearchTool {
    /// Remote identifiers of the stores to search.
    pub file_search_store_names: Vec<String>,
}

/// Reply of the answer service.
#[derive(Debug, Clone)]
pub struct GenerateContentResponse {
    /// Candidate answers, best first.
    pub candidates: Vec<Candidate>,
    /// Token accounting, when reported.
    pub usage_metadata: Option<UsageMetadata>,
}

/// One candidate answer.
#[derive(Debug, Clone)]
pub struct Candidate {
    /// The answer itself.
    pub content: Content,
    /// Why generation stopped, when reported.
    pub finish_reason: Option<String>,
    /// Which documents grounded the answer, when reported.
    pub grounding_metadata: Option<GroundingMetadata>,
}

/// The documents an answer was grounded in.
#[derive(Debug, Clone)]
pub struct GroundingMetadata {
    /// The retrieved passages.
    pub grounding_chunks: Vec<GroundingChunk>,
    /// Which parts of the answer rest on which passages.
    pub grounding_supports: Vec<GroundingSupport>,
}

/// One retrieved passage.
#[derive(Debug, Clone)]
pub struct GroundingChunk {
    /// The passage's source, when reported.
    pub retrieved_context: Option<RetrievedContext>,
}

/// Source of a retrieved passage.
#[derive(Debug, Clone)]
pub struct RetrievedContext {
    /// Source URI, when reported.
    pub uri: Option<String>,
    /// Source document's display name, when reported.
    pub title: Option<String>,
    /// The passage text, when reported.
    pub text: Option<String>,
}

/// Which passages one answer span rests on.
#[derive(Debug, Clone)]
pub struct GroundingSupport {
    /// Indices into the passage list.
    pub grounding_chunk_indices: Vec<i64>,
}

/// Token accounting of one reply.
#[derive(Debug, Clone)]
pub struct UsageMetadata {
    /// Tokens of the request.
    pub prompt_token_count: i64,
    /// Tokens of the candidates.
    pub candidates_token_count: i64,
    /// Tokens in total.
    pub total_token_count: i64,
}

/// Answer of a document-search query: the text and its source documents.
#[derive(Debug, Clone)]
pub struct ChatQueryResult {
    /// The answer text.
    pub content: String,
    /// Display names of the documents the answer rests on, without
    /// duplicates.
    pub sources: Vec<String>,
}

/// The source name a retrieved passage contributes: its title, or its URI
/// when no title was reported.
pub open spec fn chunk_source(c: GroundingChunk) -> Option<Seq<char>> {
    match c.retrieved_context {
        Some(rc) => match rc.title {
            Some(t) => Some(t@),
            None => match rc.uri {
                Some(u) => Some(u@),
                None => None,
            },
        },
        None => None,
    }
}

/// The passages of the best candidate, or nothing when there is none.
pub open spec fn response_chunks(r: GenerateContentResponse) -> Seq<GroundingChunk> {
    if r.candidates.len() > 0 {
        match r.candidates[0].grounding_metadata {
            Some(gm) => gm.grounding_chunks@,
            None => Seq::empty(),
        }
    } else {
        Seq::empty()
    }
}

/// A string occurs in the list.
pub open spec fn strings_contain(names: Seq<String>, n: Seq<char>) -> bool {
    exists|t: int| 0 <= t < names.len() && #[trigger] names[t]@ == n
}

/// Every collected source name is the source of some passage.
pub open spec fn sources_from_chunks(r: Seq<String>, chunks: Seq<GroundingChunk>) -> bool {
    forall|k: int|
        #![trigger r[k]]
        0 <= k < r.len() ==> exists|c: int|
            0 <= c < chunks.len() && chunk_source(#[trigger] chunks[c]) == Some(r[k]@)
}

/// Collects the source document names of a reply's best candidate, without
/// duplicates: every reported source occurs exactly once, in first-seen
/// order.
pub fn extract_sources(response: &GenerateContentResponse) -> (r: Vec<String>)
    ensures
        forall|a: int, b: int| 0 <= a < b < r@.len() ==> r@[a]@ != r@[b]@,
        sources_from_chunks(r@, response_chunks(*response)),
        forall|c: int|
            0 <= c < response_chunks(*response).len() ==> (match chunk_source(
                #[trigger] response_chunks(*response)[c],
            ) {
                Some(n) => strings_contain(r@, n),
                None => true,
            }),
{
    let mut out: Vec<String> = Vec::new();
    if response.candidates.len() == 0 {
        return out;
    }
    let gm = match &response.candidates[0].grounding_metadata {
        Some(gm) => gm,
        None => {
            return out;
        },
    };
    let ghost chunks = response_chunks(*response);
    proof {
        assert(chunks == gm.grounding_chunks@);
    }
    let n = gm.grounding_chunks.len();
    let mut i: usize = 0;
    while i < n
        invariant
            n == chunks.len(),
            chunks == gm.grounding_chunks@,
            i <= n,
            forall|a: int, b: int| 0 <= a < b < out@.len() ==> out@[a]@ != out@[b]@,
            sources_from_chunks(out@, chunks),
            forall|c: int|
                0 <= c < i ==> (match chunk_source(#[trigger] chunks[c]) {
                    Some(nm) => strings_contain(out@, nm),
                    None => true,
                }),
        decreases n - i,
    {
        let source: Option<&String> = match &gm.grounding_chunks[i].retrieved_context {
            Some(rc) => match &rc.title {
                Some(t) => Some(t),
                None => match &rc.uri {
                    Some(u) => Some(u),
                    None => None,
                },
            },
            None => None,
        };
        proof {
            assert(match source {
                Some(s) => chunk_source(chunks[i as int]) == Some(s@),
                None => chunk_source(chunks[i as int]) is None,
            });
        }
        let ghost pre = out@;
        match source {
            Some(s) => {
                if !string_in(&out, s.as_str()) {
                    out.push(s.clone());
                    proof {
                        assert(forall|t: int|
                            0 <= t < pre.len() ==> #[trigger] out@[t]@ == pre[t]@);
                        assert(out@[pre.len() as int]@ == s@);
                    }
                }
            },
            None => {},
        }
        proof {
            assert forall|c: int| 0 <= c < i + 1 implies (match chunk_source(
                #[trigger] chunks[c],
            ) {
                Some(nm) => strings_contain(out@, nm),
                None => true,
            }) by {
                if c < i {
                    match chunk_source(chunks[c]) {
                        Some(nm) => {
                            let t = choose|t: int| 0 <= t < pre.len() && #[trigger] pre[t]@ == nm;
                            assert(out@[t]@ == nm);
                        },
                        None => {},
                    }
                } else {
                    match chunk_source(chunks[c]) {
                        Some(nm) => {
                            if out@.len() > pre.len() {
                                assert(out@[pre.len() as int]@ == nm);
                            } else {
                                let t = choose|t: int|
                                    0 <= t < pre.len() && #[trigger] pre[t]@ == nm;
                                assert(out@[t]@ == nm);
                            }
                        },
                        None => {},
                    }
                }
            }
        }
        i = i + 1;
    }
    out
}

/// The string occurs in the list, decided character for character.
fn string_in(names: &Vec<String>, s: &str) -> (r: bool)
    ensures
        r == strings_contain(names@, s@),
{
    let n = names.len();
    let mut i: usize = 0;
    while i < n
        invariant
            n == names@.len(),
            i <= n,
            forall|t: int| 0 <= t < i ==> #[trigger] names@[t]@ != s@,
        decreases n - i,
    {
        if str_eq(names[i].as_str(), s) {
            return true;
        }
        i = i + 1;
    }
    false
}

} // verus!
