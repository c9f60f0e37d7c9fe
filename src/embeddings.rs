//! The embedding request that turns a text into its query vector.

use vstd::prelude::*;

verus! {

/// The model that embeddings are asked of.
pub const EMBEDDING_DEFAULT_MODEL: &'static str = "text-embedding-ada-002";

/// A request for the embedding of one text.
#[derive(Debug, Clone)]
pub struct EmbeddingsRequest {
    pub input: String,
    pub model: &'static str,
}

/// Token counts of an embedding call.
#[derive(Debug, Clone)]
pub struct EmbeddingUsage {
    pub prompt_tokens: i64,
    pub total_tokens: i64,
}

impl EmbeddingsRequest {
    /// A request for the embedding of `input` under the default model.
    pub fn new(input: String) -> (r: EmbeddingsRequest)
        ensures
            r.input@ == input@,
            r.model@ == EMBEDDING_DEFAULT_MODEL@,
    {
        EmbeddingsRequest { input, model: EMBEDDING_DEFAULT_MODEL }
    }
}

/// Whatever can stand for an embedding request: a request itself, or a text
/// to embed under the default model.
pub trait IntoEmbeddingsRequest: Sized {
    /// The text that the request embeds.
    spec fn embedding_input(&self) -> Seq<char>;

    /// The model that the request names.
    spec fn embedding_model(&self) -> Seq<char>;

    fn into(self) -> (r: EmbeddingsRequest)
        ensures
            r.input@ == self.embedding_input(),
            r.model@ == self.embedding_model(),
    ;
}

impl IntoEmbeddingsRequest for EmbeddingsRequest {
    open spec fn embedding_input(&self) -> Seq<char> {
        self.input@
    }

    open spec fn embedding_model(&self) -> Seq<char> {
        self.model@
    }

    fn into(self) -> (r: EmbeddingsRequest) {
        self
    }
}

impl IntoEmbeddingsRequest for String {
    open spec fn embedding_input(&self) -> Seq<char> {
        self@
    }

    open spec fn embedding_model(&self) -> Seq<char> {
        EMBEDDING_DEFAULT_MODEL@
    }

    fn into(self) -> (r: EmbeddingsRequest) {
        EmbeddingsRequest::new(self)
    }
}

impl<'a> IntoEmbeddingsRequest for &'a str {
    open spec fn embedding_input(&self) -> Seq<char> {
        (*self)@
    }

    open spec fn embedding_model(&self) -> Seq<char> {
        EMBEDDING_DEFAULT_MODEL@
    }

    fn into(self) -> (r: EmbeddingsRequest) {
        EmbeddingsRequest::new(self.to_string())
    }
}

} // verus!
