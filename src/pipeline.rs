//! The resolution of a conversation, as steps that take what the outside
//! calls returned and write the result back to the store. The caller runs
//! the outside calls (embedding, nearest-neighbour search, completion) in
//! between; a step that fails leaves the conversation where it stood.

use vstd::prelude::*;

use crate::conversation::{
    answer_recorded, context_recorded, ConversationError, ConversationStore, ConversationView,
};
use crate::corpus::{all_known, context_of, ContextError, SentenceStore};
use crate::prompt::{first_choice, first_choice_text, prompt_text, render_prompt, CompletionResponse};

verus! {

/// Why a resolution step stopped.
#[derive(Debug, Clone, Copy, PartialEq, Eq, Structural)]
pub enum ResolveError {
    /// The context could not be assembled from the hits.
    Context(ContextError),
    /// The store refused the write.
    Store(ConversationError),
    /// The completion came back without any choice.
    NoChoices,
}

/// Assembles the context for the hits, nearest first, records it on the
/// conversation under `slug`, and gives the prompt to send for completion.
pub fn resolve_context(
    store: &mut ConversationStore,
    corpus: &SentenceStore,
    slug: &str,
    hits: &Vec<u64>,
) -> (r: Result<String, ResolveError>)
    requires
        old(store).wf(),
    ensures
        final(store).wf(),
        !all_known(corpus@, hits@) ==> final(store)@ == old(store)@ && r matches Err(
            ResolveError::Context(_),
        ),
        all_known(corpus@, hits@) ==> ({
            let (m, outcome) = context_recorded(old(store)@, slug@, context_of(corpus@, hits@));
            &&& final(store)@ == m
            &&& match outcome {
                Ok(_) => r matches Ok(p) && p@ == prompt_text(
                    context_of(corpus@, hits@),
                    old(store)@[slug@].question,
                ),
                Err(e) => r == Err::<String, ResolveError>(ResolveError::Store(e)),
            }
        }),
{
    let context = match corpus.assemble_context(hits) {
        Ok(c) => c,
        Err(e) => {
            return Err(ResolveError::Context(e));
        },
    };
    let ghost before: Map<Seq<char>, ConversationView> = store@;
    let ghost text = context@;
    let prompt_context = context.clone();
    match store.record_context(slug, context) {
        Ok(()) => {},
        Err(e) => {
            return Err(ResolveError::Store(e));
        },
    }
    match store.get_conversation(slug) {
        Ok(c) => {
            assert(c.question@ == before[slug@].question);
            Ok(render_prompt(prompt_context.as_str(), c.question.as_str()))
        },
        Err(e) => Err(ResolveError::Store(e)),
    }
}

/// Records the text of the completion's first choice as the answer of the
/// conversation under `slug`, and gives it back.
pub fn resolve_answer(
    store: &mut ConversationStore,
    slug: &str,
    response: &CompletionResponse,
) -> (r: Result<String, ResolveError>)
    requires
        old(store).wf(),
    ensures
        final(store).wf(),
        first_choice_text(*response) is None ==> final(store)@ == old(store)@ && r
            == Err::<String, ResolveError>(ResolveError::NoChoices),
        first_choice_text(*response) matches Some(t) ==> ({
            let (m, outcome) = answer_recorded(old(store)@, slug@, t);
            &&& final(store)@ == m
            &&& match outcome {
                Ok(_) => r matches Ok(a) && a@ == t,
                Err(e) => r == Err::<String, ResolveError>(ResolveError::Store(e)),
            }
        }),
{
    let answer = match first_choice(response) {
        Some(a) => a,
        None => {
            return Err(ResolveError::NoChoices);
        },
    };
    let reply = answer.clone();
    match store.record_answer(slug, answer) {
        Ok(()) => Ok(reply),
        Err(e) => Err(ResolveError::Store(e)),
    }
}

} // verus!
