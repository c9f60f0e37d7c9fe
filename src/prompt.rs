//! The completion prompt, the completion request that carries it, and the
//! parts of a completion response that the answer is read from.

use vstd::prelude::*;

use crate::text::{split_blank_lines, split_sentences, views};

verus! {

/// The instructions that open every prompt, up to where the context goes.
pub const PROMPT_HEAD: &'static str = "You are a helpful chatbot Answering questions about Battlesnake.
Battlesnake is an online competitve programming game.
The goal of a battlesnake developer is to build a snake that can survive
on the board the longest.

Your job is to answer the users questions about Battlesnake as accurately as possible.


Below is some context about the Users qustion. Use it to help you answer the question.
After the context will be dashes like this: ----
Below the dashes is the users question that you should answer.

Context:
";

/// What stands between the context and the question.
pub const PROMPT_DIVIDER: &'static str = "

--------------------------------------

";

/// What follows the question.
pub const PROMPT_TAIL: &'static str = "
";

/// The model that completions are asked of.
pub const COMPLETION_MODEL: &'static str = "gpt-3.5-turbo";

/// The role under which the prompt is sent.
pub const USER_ROLE: &'static str = "user";

/// The prompt for a question with its context: the fixed instructions, the
/// context and the question verbatim, neither escaped.
pub open spec fn prompt_text(context: Seq<char>, question: Seq<char>) -> Seq<char> {
    PROMPT_HEAD@ + context + PROMPT_DIVIDER@ + question + PROMPT_TAIL@
}

/// Renders the prompt for `question` with `context`.
pub fn render_prompt(context: &str, question: &str) -> (r: String)
    ensures
        r@ == prompt_text(context@, question@),
{
    let mut out = PROMPT_HEAD.to_string();
    out.append(context);
    out.append(PROMPT_DIVIDER);
    out.append(question);
    out.append(PROMPT_TAIL);
    out
}

/// One chat message.
#[derive(Debug, Clone)]
pub struct Message {
    pub content: String,
    pub role: String,
}

/// A chat completion request.
#[derive(Debug, Clone)]
pub struct CompletionRequest {
    pub messages: Vec<Message>,
    pub model: String,
}

impl CompletionRequest {
    /// A request to the chat model with `prompt` as the one user message.
    pub fn gpt_3_5_turbo(prompt: &str) -> (r: CompletionRequest)
        ensures
            r.model@ == COMPLETION_MODEL@,
            r.messages@.len() == 1,
            r.messages@[0].content@ == prompt@,
            r.messages@[0].role@ == USER_ROLE@,
    {
        let message = Message { content: prompt.to_string(), role: USER_ROLE.to_string() };
        let mut messages: Vec<Message> = Vec::new();
        messages.push(message);
        CompletionRequest { messages, model: COMPLETION_MODEL.to_string() }
    }
}

/// One generated alternative.
#[derive(Debug, Clone)]
pub struct CompletionChoice {
    pub finish_reason: String,
    pub index: i64,
    pub message: Message,
}

/// Token counts of a completion.
#[derive(Debug, Clone)]
pub struct CompletionUsage {
    pub completion_tokens: i64,
    pub prompt_tokens: i64,
    pub total_tokens: i64,
}

/// A chat completion response.
#[derive(Debug, Clone)]
pub struct CompletionResponse {
    pub choices: Vec<CompletionChoice>,
    pub created: i64,
    pub id: String,
    pub model: String,
    pub object: String,
    pub usage: CompletionUsage,
}

/// The text of the first choice, if there is one.
pub open spec fn first_choice_text(response: CompletionResponse) -> Option<Seq<char>> {
    if response.choices@.len() > 0 {
        Some(response.choices@[0].message.content@)
    } else {
        None
    }
}

/// The text of the response's first choice; none when it has no choices.
pub fn first_choice(response: &CompletionResponse) -> (r: Option<String>)
    ensures
        match r {
            Some(t) => first_choice_text(*response) == Some(t@),
            None => first_choice_text(*response) is None,
        },
{
    if response.choices.len() > 0 {
        Some(response.choices[0].message.content.clone())
    } else {
        None
    }
}

/// The instructions that precede a markdown document sent to be split into
/// sentences.
pub const SPLIT_PROMPT_HEAD: &'static str = "I will paste a block of markdown. I need you to remove all the formatting, and break each sentence onto its own line\n        Make sure each sentence has a blank line between it. Code blocks should be considered a single sentence.\n        \n        ";

/// The prompt that asks for `blob` to be split into sentences.
pub open spec fn split_prompt_text(blob: Seq<char>) -> Seq<char> {
    SPLIT_PROMPT_HEAD@ + blob
}

/// Renders the prompt that asks for `blob` to be split into sentences.
pub fn render_split_prompt(blob: &str) -> (r: String)
    ensures
        r@ == split_prompt_text(blob@),
{
    let mut out = SPLIT_PROMPT_HEAD.to_string();
    out.append(blob);
    out
}

/// The sentences of a splitting completion: its first choice cut at double
/// line breaks; none when it has no choices.
pub fn sentences_of_completion(response: &CompletionResponse) -> (r: Option<Vec<String>>)
    ensures
        match r {
            Some(v) => first_choice_text(*response) matches Some(t) && views(v@)
                == split_blank_lines(t),
            None => first_choice_text(*response) is None,
        },
{
    match first_choice(response) {
        Some(t) => Some(split_sentences(t.as_str())),
        None => None,
    }
}

/// An answer together with the context it was given.
#[derive(Debug, Clone)]
pub struct AnswerResp {
    pub answer: String,
    pub context: String,
}

} // verus!
