use snakegpt::embeddings::{EmbeddingUsage, EmbeddingsRequest, IntoEmbeddingsRequest, EMBEDDING_DEFAULT_MODEL};
use snakegpt::prompt::{
    first_choice, render_prompt, sentences_of_completion, AnswerResp, CompletionChoice,
    CompletionRequest, CompletionResponse, CompletionUsage, Message,
};

#[test]
fn prompt_has_context_then_divider_then_question() {
    let prompt = render_prompt("CTX line\nmore", "Why?");
    assert!(prompt.starts_with("You are a helpful chatbot Answering questions about Battlesnake.\n"));
    assert!(prompt.ends_with(
        "Context:\nCTX line\nmore\n\n--------------------------------------\n\nWhy?\n"
    ));
    assert!(prompt.contains("\nYour job is to answer the users questions about Battlesnake as accurately as possible.\n\n\nBelow is some context"));
}

#[test]
fn prompt_does_not_escape() {
    let prompt = render_prompt("{context}", "----");
    assert!(prompt.ends_with("Context:\n{context}\n\n--------------------------------------\n\n----\n"));
}

#[test]
fn completion_request_for_chat_model() {
    let r = CompletionRequest::gpt_3_5_turbo("hello");
    assert_eq!(r.model, "gpt-3.5-turbo");
    assert_eq!(r.messages.len(), 1);
    assert_eq!(r.messages[0].content, "hello");
    assert_eq!(r.messages[0].role, "user");
}

#[test]
fn first_choice_of_empty_response() {
    let r = CompletionResponse {
        choices: vec![],
        created: 1,
        id: "x".to_string(),
        model: "m".to_string(),
        object: "o".to_string(),
        usage: CompletionUsage { completion_tokens: 0, prompt_tokens: 0, total_tokens: 0 },
    };
    assert_eq!(first_choice(&r), None);
}

#[test]
fn embeddings_request_uses_default_model() {
    let r = EmbeddingsRequest::new("text".to_string());
    assert_eq!(r.input, "text");
    assert_eq!(r.model, "text-embedding-ada-002");
    assert_eq!(EMBEDDING_DEFAULT_MODEL, "text-embedding-ada-002");
}

#[test]
fn into_embeddings_request() {
    let a = IntoEmbeddingsRequest::into("from str");
    assert_eq!(a.input, "from str");
    assert_eq!(a.model, EMBEDDING_DEFAULT_MODEL);
    let b = IntoEmbeddingsRequest::into("from string".to_string());
    assert_eq!(b.input, "from string");
    let c = IntoEmbeddingsRequest::into(EmbeddingsRequest { input: "x".to_string(), model: "other" });
    assert_eq!(c.model, "other");
    assert_eq!(c.input, "x");
}

#[test]
fn plain_records() {
    let u = EmbeddingUsage { prompt_tokens: 3, total_tokens: 3 };
    assert_eq!(u.prompt_tokens + u.total_tokens, 6);
    let a = AnswerResp { answer: "a".to_string(), context: "c".to_string() };
    assert_eq!(a.clone().answer, "a");
    assert_eq!(a.context, "c");
}

#[test]
fn split_prompt_precedes_the_page() {
    let p = snakegpt::prompt::render_split_prompt("# Title");
    assert_eq!(
        p,
        "I will paste a block of markdown. I need you to remove all the formatting, and break each sentence onto its own line\n        Make sure each sentence has a blank line between it. Code blocks should be considered a single sentence.\n        \n        # Title"
    );
}

#[test]
fn sentences_of_a_splitting_completion() {
    let mut r = CompletionResponse {
        choices: vec![],
        created: 1,
        id: "x".to_string(),
        model: "m".to_string(),
        object: "o".to_string(),
        usage: CompletionUsage { completion_tokens: 0, prompt_tokens: 0, total_tokens: 0 },
    };
    assert_eq!(sentences_of_completion(&r), None);
    r.choices.push(CompletionChoice {
        finish_reason: "stop".to_string(),
        index: 0,
        message: Message { content: "One.\n\nTwo.\nStill two.\n\nThree.".to_string(), role: "assistant".to_string() },
    });
    assert_eq!(
        sentences_of_completion(&r),
        Some(vec!["One.".to_string(), "Two.\nStill two.".to_string(), "Three.".to_string()])
    );
}
