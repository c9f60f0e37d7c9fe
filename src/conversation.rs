//! The conversation store: one record per slug, whose context and answer
//! are each filled in at most once, the answer never before the context.

use vstd::prelude::*;

verus! {

/// A snapshot of one conversation as callers see it.
#[derive(Debug, Clone)]
pub struct ConversationResponse {
    pub slug: String,
    pub question: String,
    pub context: Option<String>,
    pub answer: Option<String>,
}

/// The mathematical content of a conversation.
pub struct ConversationView {
    pub slug: Seq<char>,
    pub question: Seq<char>,
    pub context: Option<Seq<char>>,
    pub answer: Option<Seq<char>>,
}

/// The view of an optional string.
pub open spec fn opt_view(o: Option<String>) -> Option<Seq<char>> {
    match o {
        Some(s) => Some(s@),
        None => None,
    }
}

impl View for ConversationResponse {
    type V = ConversationView;

    open spec fn view(&self) -> ConversationView {
        ConversationView {
            slug: self.slug@,
            question: self.question@,
            context: opt_view(self.context),
            answer: opt_view(self.answer),
        }
    }
}

impl ConversationResponse {
    /// Where this conversation stands.
    pub fn state(&self) -> (r: ConversationState)
        ensures
            r == state_of(self@),
    {
        if self.answer.is_some() {
            ConversationState::Answered
        } else if self.context.is_some() {
            ConversationState::ContextReady
        } else {
            ConversationState::Created
        }
    }
}

/// Where a conversation stands; derived from which fields are present.
#[derive(Debug, Clone, Copy, PartialEq, Eq, Structural)]
pub enum ConversationState {
    Created,
    ContextReady,
    Answered,
}

/// The state of a conversation: answered once it has an answer, ready once
/// it has a context, created before that.
pub open spec fn state_of(c: ConversationView) -> ConversationState {
    if c.answer is Some {
        ConversationState::Answered
    } else if c.context is Some {
        ConversationState::ContextReady
    } else {
        ConversationState::Created
    }
}

/// Why a conversation operation was refused.
#[derive(Debug, Clone, Copy, PartialEq, Eq, Structural)]
pub enum ConversationError {
    /// No conversation was started under the slug.
    NotFound,
    /// The conversation already has a context.
    ContextAlreadySet,
    /// The conversation has no context yet, so it cannot take an answer.
    ContextMissing,
    /// The conversation already has an answer.
    AnswerAlreadySet,
}

/// A request to start a conversation.
#[derive(Debug, Clone)]
pub struct ChatRequest {
    pub conversation_slug: String,
    pub question: String,
}

/// What starting a conversation gives back: its current snapshot, and
/// whether this call created it (and so should launch its resolution).
#[derive(Debug, Clone)]
pub struct ChatStarted {
    pub conversation: ConversationResponse,
    pub created: bool,
}

/// A conversation that has just been created.
pub open spec fn fresh(slug: Seq<char>, question: Seq<char>) -> ConversationView {
    ConversationView { slug, question, context: None, answer: None }
}

/// The conversations after a start under `slug`: a new record if there was
/// none, else no change.
pub open spec fn started(
    m: Map<Seq<char>, ConversationView>,
    slug: Seq<char>,
    question: Seq<char>,
) -> Map<Seq<char>, ConversationView> {
    if m.contains_key(slug) {
        m
    } else {
        m.insert(slug, fresh(slug, question))
    }
}

/// `after` keeps every conversation of `before`, with its slug and question,
/// and every context and answer that was already there.
pub open spec fn progressed(
    before: Map<Seq<char>, ConversationView>,
    after: Map<Seq<char>, ConversationView>,
) -> bool {
    forall|k: Seq<char>|
        #![trigger before.contains_key(k)]
        #![trigger after.contains_key(k)]
        before.contains_key(k) ==> {
            &&& after.contains_key(k)
            &&& after[k].slug == before[k].slug
            &&& after[k].question == before[k].question
            &&& (before[k].context is Some ==> after[k].context == before[k].context)
            &&& (before[k].answer is Some ==> after[k].answer == before[k].answer)
        }
}

/// No conversation has an answer without a context.
pub open spec fn answers_follow_context(m: Map<Seq<char>, ConversationView>) -> bool {
    forall|k: Seq<char>| #[trigger]
        m.contains_key(k) && m[k].answer is Some ==> m[k].context is Some
}

/// The conversation `c` with its context set.
pub open spec fn with_context(c: ConversationView, context: Seq<char>) -> ConversationView {
    ConversationView { context: Some(context), ..c }
}

/// The conversation `c` with its answer set.
pub open spec fn with_answer(c: ConversationView, answer: Seq<char>) -> ConversationView {
    ConversationView { answer: Some(answer), ..c }
}

/// The conversations after recording `context` under `slug`, and the
/// outcome: refused when there is no such conversation or it already has a
/// context.
pub open spec fn context_recorded(
    m: Map<Seq<char>, ConversationView>,
    slug: Seq<char>,
    context: Seq<char>,
) -> (Map<Seq<char>, ConversationView>, Result<(), ConversationError>) {
    if !m.contains_key(slug) {
        (m, Err(ConversationError::NotFound))
    } else if m[slug].context is Some {
        (m, Err(ConversationError::ContextAlreadySet))
    } else {
        (m.insert(slug, with_context(m[slug], context)), Ok(()))
    }
}

/// The conversations after recording `answer` under `slug`, and the
/// outcome: refused when there is no such conversation, it already has an
/// answer, or it has no context yet.
pub open spec fn answer_recorded(
    m: Map<Seq<char>, ConversationView>,
    slug: Seq<char>,
    answer: Seq<char>,
) -> (Map<Seq<char>, ConversationView>, Result<(), ConversationError>) {
    if !m.contains_key(slug) {
        (m, Err(ConversationError::NotFound))
    } else if m[slug].answer is Some {
        (m, Err(ConversationError::AnswerAlreadySet))
    } else if m[slug].context is None {
        (m, Err(ConversationError::ContextMissing))
    } else {
        (m.insert(slug, with_answer(m[slug], answer)), Ok(()))
    }
}

/// A copy of an optional string.
fn copy_opt(o: &Option<String>) -> (r: Option<String>)
    ensures
        opt_view(r) == opt_view(*o),
{
    match o {
        Some(s) => Some(s.clone()),
        None => None,
    }
}

/// A copy of a snapshot.
pub fn copy_conversation(c: &ConversationResponse) -> (r: ConversationResponse)
    ensures
        r@ == c@,
{
    ConversationResponse {
        slug: c.slug.clone(),
        question: c.question.clone(),
        context: copy_opt(&c.context),
        answer: copy_opt(&c.answer),
    }
}

/// The snapshot under `slug`, if a conversation was started under it.
pub fn convo_resp_from_slug(store: &ConversationStore, slug: &str) -> (r: Option<
    ConversationResponse,
>)
    requires
        store.wf(),
    ensures
        match r {
            Some(c) => store@.contains_key(slug@) && c@ == store@[slug@] && c@.slug == slug@,
            None => !store@.contains_key(slug@),
        },
{
    let key = slug.to_string();
    match store.position_of(&key) {
        Some(i) => {
            let c = copy_conversation(&store.records[i]);
            assert(key@ == slug@);
            assert(c@.slug == key@);
            assert(store@.contains_key(slug@));
            assert(c@ == store@[slug@]);
            Some(c)
        },
        None => None,
    }
}

/// Starting a conversation twice under one slug records the first question
/// and nothing else: the second start changes nothing, whatever question it
/// carries.
pub proof fn lemma_start_idempotent(
    m: Map<Seq<char>, ConversationView>,
    slug: Seq<char>,
    q1: Seq<char>,
    q2: Seq<char>,
)
    ensures
        started(started(m, slug, q1), slug, q2) == started(m, slug, q1),
        started(started(m, slug, q1), slug, q2)[slug].question == started(m, slug, q1)[slug].question,
        !m.contains_key(slug) ==> started(started(m, slug, q1), slug, q2)[slug].question == q1,
{
}

/// Progress is transitive: what one step keeps, and then the next keeps, is
/// kept by both together.
pub proof fn lemma_progress_transitive(
    a: Map<Seq<char>, ConversationView>,
    b: Map<Seq<char>, ConversationView>,
    c: Map<Seq<char>, ConversationView>,
)
    requires
        progressed(a, b),
        progressed(b, c),
    ensures
        progressed(a, c),
{
}

/// Along any run of store states in which each step progresses, every later
/// state keeps each conversation's context and answer once present: no field
/// that was set is ever observed absent again.
pub proof fn lemma_progress_run(states: Seq<Map<Seq<char>, ConversationView>>)
    requires
        forall|i: int| 0 <= i < states.len() - 1 ==> progressed(#[trigger] states[i], states[i + 1]),
    ensures
        forall|i: int, j: int| 0 <= i <= j < states.len() ==> progressed(states[i], states[j]),
    decreases states.len(),
{
    if states.len() > 1 {
        let front = states.drop_last();
        assert forall|i: int| 0 <= i < front.len() - 1 implies progressed(
            #[trigger] front[i],
            front[i + 1],
        ) by {
            assert(front[i] == states[i] && front[i + 1] == states[i + 1]);
        }
        lemma_progress_run(front);
        let last = states.len() - 1;
        assert forall|i: int, j: int| 0 <= i <= j < states.len() implies progressed(
            states[i],
            states[j],
        ) by {
            if j < last {
                assert(front[i] == states[i] && front[j] == states[j]);
            } else if i < j {
                assert(front[i] == states[i] && front[last - 1] == states[last - 1]);
                assert(progressed(states[last - 1], states[last]));
                lemma_progress_transitive(states[i], states[last - 1], states[last]);
            }
        }
    }
}

/// The conversations, keyed by slug.
pub struct ConversationStore {
    records: Vec<ConversationResponse>,
    index: Ghost<Map<Seq<char>, ConversationView>>,
}

impl View for ConversationStore {
    type V = Map<Seq<char>, ConversationView>;

    closed spec fn view(&self) -> Map<Seq<char>, ConversationView> {
        self.index@
    }
}

impl ConversationStore {
    /// Slugs are unique, the map holds exactly the records, and no answer
    /// stands without a context.
    pub closed spec fn wf(&self) -> bool {
        &&& forall|i: int, j: int|
            0 <= i < self.records@.len() && 0 <= j < self.records@.len() && i != j
                ==> self.records@[i].slug@ != self.records@[j].slug@
        &&& forall|i: int|
            0 <= i < self.records@.len() ==> {
                &&& #[trigger] self.index@.contains_key(self.records@[i].slug@)
                &&& self.index@[self.records@[i].slug@] == self.records@[i]@
            }
        &&& forall|k: Seq<char>| #[trigger]
            self.index@.contains_key(k) ==> exists|i: int|
                0 <= i < self.records@.len() && self.records@[i].slug@ == k
        &&& answers_follow_context(self.index@)
    }

    /// An empty store.
    pub fn new() -> (r: ConversationStore)
        ensures
            r.wf(),
            r@ == Map::<Seq<char>, ConversationView>::empty(),
    {
        ConversationStore { records: Vec::new(), index: Ghost(Map::empty()) }
    }

    /// No conversation of a well-formed store has an answer without a
    /// context.
    pub proof fn lemma_answers_follow_context(&self)
        requires
            self.wf(),
        ensures
            answers_follow_context(self@),
    {
    }

    /// Starts a conversation under the request's slug with its question,
    /// unless one exists already, which is then left as it is. Gives the
    /// current snapshot either way.
    pub fn start_chat(&mut self, request: ChatRequest) -> (r: ChatStarted)
        requires
            old(self).wf(),
        ensures
            final(self).wf(),
            final(self)@ == started(old(self)@, request.conversation_slug@, request.question@),
            r.created == !old(self)@.contains_key(request.conversation_slug@),
            r.conversation@ == final(self)@[request.conversation_slug@],
            r.conversation@.slug == request.conversation_slug@,
            progressed(old(self)@, final(self)@),
    {
        match self.position_of(&request.conversation_slug) {
            Some(i) => {
                let conversation = copy_conversation(&self.records[i]);
                ChatStarted { conversation, created: false }
            },
            None => {
                let ghost slug = request.conversation_slug@;
                let ghost v = fresh(slug, request.question@);
                let record = ConversationResponse {
                    slug: request.conversation_slug,
                    question: request.question,
                    context: None,
                    answer: None,
                };
                let conversation = copy_conversation(&record);
                let ghost before = self.records@;
                self.records.push(record);
                self.index = Ghost(self.index@.insert(slug, v));
                proof {
                    assert forall|k: Seq<char>| #[trigger]
                        self.index@.contains_key(k) implies exists|i: int|
                            0 <= i < self.records@.len() && self.records@[i].slug@ == k by {
                        if k != slug {
                            let j = choose|j: int|
                                0 <= j < before.len() && before[j].slug@ == k;
                            assert(self.records@[j] == before[j]);
                        } else {
                            assert(self.records@[before.len() as int].slug@ == k);
                        }
                    }
                }
                ChatStarted { conversation, created: true }
            },
        }
    }

    /// The snapshot under `slug`; not found if no conversation was started
    /// under it.
    pub fn get_conversation(&self, slug: &str) -> (r: Result<ConversationResponse, ConversationError>)
        requires
            self.wf(),
        ensures
            r is Ok <==> self@.contains_key(slug@),
            match r {
                Ok(c) => c@ == self@[slug@] && c@.slug == slug@,
                Err(e) => e == ConversationError::NotFound,
            },
    {
        match convo_resp_from_slug(self, slug) {
            Some(c) => Ok(c),
            None => Err(ConversationError::NotFound),
        }
    }

    /// Records the context of the conversation under `slug`, once.
    pub fn record_context(&mut self, slug: &str, context: String) -> (r: Result<
        (),
        ConversationError,
    >)
        requires
            old(self).wf(),
        ensures
            final(self).wf(),
            (final(self)@, r) == context_recorded(old(self)@, slug@, context@),
            progressed(old(self)@, final(self)@),
    {
        let key = slug.to_string();
        match self.position_of(&key) {
            None => Err(ConversationError::NotFound),
            Some(i) => {
                if self.records[i].context.is_some() {
                    return Err(ConversationError::ContextAlreadySet);
                }
                let ghost before = self.records@;
                let ghost v = with_context(before[i as int]@, context@);
                self.records[i].context = Some(context);
                assert(self.records@[i as int]@ == v);
                self.index = Ghost(self.index@.insert(key@, v));
                proof {
                    assert forall|k: Seq<char>| #[trigger]
                        self.index@.contains_key(k) implies exists|j: int|
                            0 <= j < self.records@.len() && self.records@[j].slug@ == k by {
                        let j = choose|j: int|
                            0 <= j < before.len() && before[j].slug@ == k;
                        assert(self.records@[j].slug@ == before[j].slug@);
                    }
                    assert forall|j: int| 0 <= j < self.records@.len() implies {
                        &&& #[trigger] self.index@.contains_key(self.records@[j].slug@)
                        &&& self.index@[self.records@[j].slug@] == self.records@[j]@
                    } by {
                        if j != i {
                            assert(self.records@[j] == before[j]);
                        } else {
                            assert(self.records@[j].slug@ == key@);
                            assert(self.index@[key@] == v);
                        }
                    }
                }
                Ok(())
            },
        }
    }

    /// Records the answer of the conversation under `slug`, once, and only
    /// after its context.
    pub fn record_answer(&mut self, slug: &str, answer: String) -> (r: Result<
        (),
        ConversationError,
    >)
        requires
            old(self).wf(),
        ensures
            final(self).wf(),
            (final(self)@, r) == answer_recorded(old(self)@, slug@, answer@),
            progressed(old(self)@, final(self)@),
    {
        let key = slug.to_string();
        match self.position_of(&key) {
            None => Err(ConversationError::NotFound),
            Some(i) => {
                if self.records[i].answer.is_some() {
                    return Err(ConversationError::AnswerAlreadySet);
                }
                if self.records[i].context.is_none() {
                    return Err(ConversationError::ContextMissing);
                }
                let ghost before = self.records@;
                let ghost v = with_answer(before[i as int]@, answer@);
                self.records[i].answer = Some(answer);
                assert(self.records@[i as int]@ == v);
                self.index = Ghost(self.index@.insert(key@, v));
                proof {
                    assert forall|k: Seq<char>| #[trigger]
                        self.index@.contains_key(k) implies exists|j: int|
                            0 <= j < self.records@.len() && self.records@[j].slug@ == k by {
                        let j = choose|j: int|
                            0 <= j < before.len() && before[j].slug@ == k;
                        assert(self.records@[j].slug@ == before[j].slug@);
                    }
                    assert forall|j: int| 0 <= j < self.records@.len() implies {
                        &&& #[trigger] self.index@.contains_key(self.records@[j].slug@)
                        &&& self.index@[self.records@[j].slug@] == self.records@[j]@
                    } by {
                        if j != i {
                            assert(self.records@[j] == before[j]);
                        } else {
                            assert(self.records@[j].slug@ == key@);
                            assert(self.index@[key@] == v);
                        }
                    }
                }
                Ok(())
            },
        }
    }

    /// Each conversation of a well-formed store is filed under its own slug.
    pub proof fn lemma_keys_are_slugs(&self)
        requires
            self.wf(),
        ensures
            forall|k: Seq<char>| #[trigger] self@.contains_key(k) ==> self@[k].slug == k,
    {
        assert forall|k: Seq<char>| #[trigger] self@.contains_key(k) implies self@[k].slug == k by {
            let i = choose|i: int| 0 <= i < self.records@.len() && self.records@[i].slug@ == k;
            assert(self.index@.contains_key(self.records@[i].slug@));
        }
    }

    /// The index of the record under `slug`.
    fn position_of(&self, slug: &String) -> (r: Option<usize>)
        requires
            self.wf(),
        ensures
            match r {
                Some(i) => i < self.records@.len() && self.records@[i as int].slug@ == slug@,
                None => !self@.contains_key(slug@),
            },
    {
        let mut i: usize = 0;
        while i < self.records.len()
            invariant
                i <= self.records@.len(),
                forall|j: int| 0 <= j < i ==> self.records@[j].slug@ != slug@,
            decreases self.records@.len() - i,
        {
            if self.records[i].slug == *slug {
                return Some(i);
            }
            i = i + 1;
        }
        None
    }
}

} // verus!
