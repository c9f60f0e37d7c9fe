//! Retrieval-augmented question answering over a fixed corpus: context
//! assembly from nearest-neighbour hits, prompt rendering, and the
//! conversation state machine that polling clients observe.

pub mod conversation;
pub mod corpus;
pub mod embeddings;
pub mod pipeline;
pub mod prompt;
pub mod text;

pub use conversation::{
    convo_resp_from_slug, ChatRequest, ChatStarted, ConversationError, ConversationResponse,
    ConversationState, ConversationStore,
};
pub use corpus::{ContextError, CorpusError, SentenceRecord, SentenceStore};
pub use embeddings::{EmbeddingUsage, EmbeddingsRequest, IntoEmbeddingsRequest};
pub use pipeline::{resolve_answer, resolve_context, ResolveError};
pub use prompt::{AnswerResp, CompletionRequest};
