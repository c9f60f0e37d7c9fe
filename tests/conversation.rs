use snakegpt::conversation::{ChatRequest, ConversationError, ConversationState, ConversationStore};
use snakegpt::corpus::{SentenceRecord, SentenceStore};
use snakegpt::pipeline::{resolve_answer, resolve_context, ResolveError};
use snakegpt::prompt::{
    render_prompt, CompletionChoice, CompletionResponse, CompletionUsage, Message,
};

fn request(slug: &str, question: &str) -> ChatRequest {
    ChatRequest { conversation_slug: slug.to_string(), question: question.to_string() }
}

fn completion(texts: &[&str]) -> CompletionResponse {
    CompletionResponse {
        choices: texts
            .iter()
            .enumerate()
            .map(|(i, t)| CompletionChoice {
                finish_reason: "stop".to_string(),
                index: i as i64,
                message: Message { content: t.to_string(), role: "assistant".to_string() },
            })
            .collect(),
        created: 0,
        id: "cmpl".to_string(),
        model: "gpt-3.5-turbo".to_string(),
        object: "chat.completion".to_string(),
        usage: CompletionUsage { completion_tokens: 1, prompt_tokens: 1, total_tokens: 2 },
    }
}

fn doc1() -> SentenceStore {
    let mut corpus = SentenceStore::new();
    for p in 0..5u32 {
        let r = SentenceRecord {
            id: 10 + p as u64,
            document_id: 1,
            position: p,
            text: format!("Sentence {p} of doc1."),
        };
        assert_eq!(corpus.insert(r), Ok(true));
    }
    corpus
}

#[test]
fn start_is_idempotent() {
    let mut store = ConversationStore::new();
    let first = store.start_chat(request("abc", "q1"));
    assert!(first.created);
    assert_eq!(first.conversation.question, "q1");
    let second = store.start_chat(request("abc", "q2"));
    assert!(!second.created);
    assert_eq!(second.conversation.question, "q1");
    assert_eq!(store.get_conversation("abc").unwrap().question, "q1");
}

#[test]
fn unknown_slug_is_not_found() {
    let mut store = ConversationStore::new();
    assert_eq!(store.get_conversation("unknown-slug").unwrap_err(), ConversationError::NotFound);
    store.start_chat(request("abc", "q"));
    assert_eq!(store.get_conversation("unknown-slug").unwrap_err(), ConversationError::NotFound);
}

#[test]
fn fields_are_set_once_and_stay() {
    let mut store = ConversationStore::new();
    store.start_chat(request("s", "q"));
    assert_eq!(store.record_context("s", "c1".to_string()), Ok(()));
    assert_eq!(store.record_context("s", "c2".to_string()), Err(ConversationError::ContextAlreadySet));
    assert_eq!(store.get_conversation("s").unwrap().context.as_deref(), Some("c1"));
    assert_eq!(store.record_answer("s", "a1".to_string()), Ok(()));
    assert_eq!(store.record_answer("s", "a2".to_string()), Err(ConversationError::AnswerAlreadySet));
    let c = store.get_conversation("s").unwrap();
    assert_eq!(c.context.as_deref(), Some("c1"));
    assert_eq!(c.answer.as_deref(), Some("a1"));
    assert_eq!(c.state(), ConversationState::Answered);
    let again = store.start_chat(request("s", "other"));
    assert_eq!(again.conversation.answer.as_deref(), Some("a1"));
}

#[test]
fn answer_needs_context_first() {
    let mut store = ConversationStore::new();
    store.start_chat(request("s", "q"));
    assert_eq!(store.record_answer("s", "a".to_string()), Err(ConversationError::ContextMissing));
    let c = store.get_conversation("s").unwrap();
    assert!(c.answer.is_none());
    assert_eq!(c.state(), ConversationState::Created);
}

#[test]
fn writes_to_unknown_slug_are_refused() {
    let mut store = ConversationStore::new();
    assert_eq!(store.record_context("x", "c".to_string()), Err(ConversationError::NotFound));
    assert_eq!(store.record_answer("x", "a".to_string()), Err(ConversationError::NotFound));
}

#[test]
fn conversations_are_independent() {
    let mut store = ConversationStore::new();
    store.start_chat(request("a", "qa"));
    store.start_chat(request("b", "qb"));
    assert_eq!(store.record_context("b", "cb".to_string()), Ok(()));
    assert!(store.get_conversation("a").unwrap().context.is_none());
    assert_eq!(store.get_conversation("b").unwrap().state(), ConversationState::ContextReady);
}

#[test]
fn end_to_end_resolution() {
    let corpus = doc1();
    let mut store = ConversationStore::new();
    let started = store.start_chat(request("abc", "What is a hazard?"));
    assert!(started.created);
    assert!(started.conversation.context.is_none());
    assert!(started.conversation.answer.is_none());
    assert_eq!(started.conversation.state(), ConversationState::Created);

    let expected_context = "Sentence 0 of doc1.\nSentence 1 of doc1.\nSentence 2 of doc1.\nSentence 3 of doc1.\nSentence 4 of doc1.";
    let prompt = resolve_context(&mut store, &corpus, "abc", &vec![12]).unwrap();
    assert_eq!(prompt, render_prompt(expected_context, "What is a hazard?"));
    let polled = store.get_conversation("abc").unwrap();
    assert_eq!(polled.context.as_deref(), Some(expected_context));
    assert!(polled.answer.is_none());

    let answer = resolve_answer(&mut store, "abc", &completion(&["A hazard is a tile.", "second"])).unwrap();
    assert_eq!(answer, "A hazard is a tile.");
    let polled = store.get_conversation("abc").unwrap();
    assert_eq!(polled.answer.as_deref(), Some("A hazard is a tile."));
    assert_eq!(polled.context.as_deref(), Some(expected_context));
}

#[test]
fn failed_context_step_leaves_conversation_created() {
    let corpus = doc1();
    let mut store = ConversationStore::new();
    store.start_chat(request("abc", "q"));
    let r = resolve_context(&mut store, &corpus, "abc", &vec![99]);
    assert!(matches!(r, Err(ResolveError::Context(_))));
    assert_eq!(store.get_conversation("abc").unwrap().state(), ConversationState::Created);
}

#[test]
fn completion_without_choices_leaves_context_ready() {
    let corpus = doc1();
    let mut store = ConversationStore::new();
    store.start_chat(request("abc", "q"));
    resolve_context(&mut store, &corpus, "abc", &vec![10]).unwrap();
    assert_eq!(resolve_answer(&mut store, "abc", &completion(&[])), Err(ResolveError::NoChoices));
    assert_eq!(store.get_conversation("abc").unwrap().state(), ConversationState::ContextReady);
}

#[test]
fn second_resolution_is_refused() {
    let corpus = doc1();
    let mut store = ConversationStore::new();
    store.start_chat(request("abc", "q"));
    resolve_context(&mut store, &corpus, "abc", &vec![10]).unwrap();
    assert_eq!(
        resolve_context(&mut store, &corpus, "abc", &vec![14]),
        Err(ResolveError::Store(ConversationError::ContextAlreadySet))
    );
    assert_eq!(
        resolve_context(&mut store, &corpus, "nope", &vec![14]),
        Err(ResolveError::Store(ConversationError::NotFound))
    );
}
