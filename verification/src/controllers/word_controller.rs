//! The entry points of the service. Each request is a small state machine:
//! it names the call that it needs next, takes the answer, and ends in a
//! result. Whoever drives it makes the calls: against the store in memory
//! with `run`, or against a database and a generation backend elsewhere.

use crate::controllers::page::{assemble_page, page_entries, page_word_ids};
use crate::extra::{normalize_input, normalized};
use crate::services::calls::{
    answer_of, perform, StoreAnswer, StoreAnswerView, StoreCall, StoreCallView,
};
use crate::services::db::{
    FoundWord, FoundWordView, SentenceRow, SentenceRowView, Store, StoreError, WordRow,
    WordRowView,
};
use crate::services::reconcile::Policy;
use crate::services::tables::Tables;
use crate::services::word::{ExampleView, Sentence, Word, WordView};
use vstd::prelude::*;

verus! {

/// The page size used when a request names none.
pub const DEFAULT_LIMIT: i64 = 20;

/// The page start used when a request names none.
pub const DEFAULT_OFFSET: i64 = 0;

/// The window of a listing request; each bound may be absent.
#[derive(Debug, Clone, Copy, PartialEq, Eq)]
pub struct PaginationParams {
    pub limit: Option<i64>,
    pub offset: Option<i64>,
}

/// A request to create an entry from a raw term.
#[derive(Debug, Clone, PartialEq, Eq)]
pub struct CreateWordRequest {
    pub term: String,
}

/// One example sentence of an entry.
#[derive(Debug, Clone, PartialEq, Eq)]
pub struct SentenceResponse {
    pub id: i32,
    pub example: String,
    pub meaning: Option<String>,
}

/// An entry: a word with its language and its example sentences.
#[derive(Debug, Clone, PartialEq, Eq)]
pub struct WordResponse {
    pub id: i32,
    pub language: String,
    pub term: String,
    pub definition: String,
    pub sentences: Vec<SentenceResponse>,
}

/// What a `SentenceResponse` holds.
pub struct SentenceView {
    pub id: i32,
    pub example: Seq<char>,
    pub meaning: Option<Seq<char>>,
}

/// What a `WordResponse` holds.
pub struct EntryView {
    pub id: i32,
    pub language: Seq<char>,
    pub term: Seq<char>,
    pub definition: Seq<char>,
    pub sentences: Seq<SentenceView>,
}

impl View for SentenceResponse {
    type V = SentenceView;

    open spec fn view(&self) -> SentenceView {
        SentenceView { id: self.id, example: self.example@, meaning: self.meaning.deep_view() }
    }
}

impl DeepView for SentenceResponse {
    type V = SentenceView;

    open spec fn deep_view(&self) -> SentenceView {
        self@
    }
}

impl View for WordResponse {
    type V = EntryView;

    open spec fn view(&self) -> EntryView {
        EntryView {
            id: self.id,
            language: self.language@,
            term: self.term@,
            definition: self.definition@,
            sentences: self.sentences.deep_view(),
        }
    }
}

impl DeepView for WordResponse {
    type V = EntryView;

    open spec fn deep_view(&self) -> EntryView {
        self@
    }
}

/// The limit and offset of a request, with the defaults where it names none.
pub fn page_window(params: &PaginationParams) -> (window: (i64, i64))
    ensures
        window.0 == (match params.limit {
            Some(limit) => limit,
            None => DEFAULT_LIMIT,
        }),
        window.1 == (match params.offset {
            Some(offset) => offset,
            None => DEFAULT_OFFSET,
        }),
{
    let limit = match params.limit {
        Some(limit) => limit,
        None => DEFAULT_LIMIT,
    };
    let offset = match params.offset {
        Some(offset) => offset,
        None => DEFAULT_OFFSET,
    };
    (limit, offset)
}

/// Why a request ended without a result.
#[derive(Debug, Clone, Copy, PartialEq, Eq, Structural)]
pub enum EntryError {
    /// The term holds no letter or digit.
    InvalidInput,
    /// The store holds no such entry.
    NotFound,
    /// The store failed.
    StoreFailure(StoreError),
    /// The generation backend failed, or its reply was no entry.
    GenerationFailure,
}

/// An entry that the caller states in full: no sentence comes with it.
#[derive(Debug)]
pub struct ManualEntry {
    pub language: String,
    pub term: String,
    pub definition: String,
}

/// What is about to be stored: the fields of a word, and the example
/// sentence where one came with them.
#[derive(Debug)]
pub struct Draft {
    pub language: String,
    pub term: String,
    pub definition: String,
    pub sentence: Option<Sentence>,
}

/// What a `Draft` holds.
pub struct DraftView {
    pub language: Seq<char>,
    pub term: Seq<char>,
    pub definition: Seq<char>,
    pub sentence: Option<ExampleView>,
}

impl View for Draft {
    type V = DraftView;

    open spec fn view(&self) -> DraftView {
        DraftView {
            language: self.language@,
            term: self.term@,
            definition: self.definition@,
            sentence: match self.sentence {
                Some(sentence) => Some(sentence@),
                None => None,
            },
        }
    }
}

/// What a request needs next from outside.
#[derive(Debug)]
pub enum Call {
    /// An operation of the entry store.
    Store(StoreCall),
    /// An entry for `term` from the generation backend.
    Enrich { term: String },
}

/// What came back for a `Call`.
#[derive(Debug)]
pub enum Answer {
    /// The store's answer.
    Store(StoreAnswer),
    /// The entry that the generation backend gave.
    Enriched(Word),
    /// The generation backend failed, or its reply was no entry.
    NotEnriched,
}

/// The result of a request.
#[derive(Debug)]
pub enum Success {
    /// The entry was in the store.
    Found(WordResponse),
    /// The entry was stored.
    Created(WordResponse),
    /// A page of entries.
    Listed(Vec<WordResponse>),
    /// The word is gone.
    Deleted,
}

/// A request on its way.
#[derive(Debug)]
pub enum Request {
    /// The word is to be looked up.
    Finding { language: String, term: String },
    /// The word was found; its sentences are to be read.
    Reading { language: String, found: FoundWord },
    /// The page of words is to be read.
    Listing { limit: i64, offset: i64 },
    /// The page holds words; their sentences are to be read in one batch.
    Batching { words: Vec<WordRow> },
    /// The entry for the term is to be generated.
    Enriching { term: String },
    /// The entry was generated; the store is to be asked whether it holds it.
    Checking { entry: Word },
    /// The language is to be resolved.
    Language { draft: Draft },
    /// The word is to be resolved.
    Word { draft: Draft, language_id: i32 },
    /// The word is stored; its sentence is to be recorded.
    Sentence { stored: WordResponse, example: String, meaning: String },
    /// The word is to be deleted.
    Deleting { id: i32 },
    /// The request is over: with its result, or rejected for its input,
    /// or without the entry that it looked for, or failed.
    Done(Result<Success, EntryError>),
}

/// What a `Call` holds.
pub enum CallView {
    Store(StoreCallView),
    Enrich { term: Seq<char> },
}

/// What an `Answer` holds.
pub enum AnswerView {
    Store(StoreAnswerView),
    Enriched(WordView),
    NotEnriched,
}

/// What a `Success` holds.
pub enum SuccessView {
    Found(EntryView),
    Created(EntryView),
    Listed(Seq<EntryView>),
    Deleted,
}

/// What a `Request` holds.
pub enum RequestView {
    Finding { language: Seq<char>, term: Seq<char> },
    Reading { language: Seq<char>, found: FoundWordView },
    Listing { limit: i64, offset: i64 },
    Batching { words: Seq<WordRowView> },
    Enriching { term: Seq<char> },
    Checking { entry: WordView },
    Language { draft: DraftView },
    Word { draft: DraftView, language_id: i32 },
    Sentence { stored: EntryView, example: Seq<char>, meaning: Seq<char> },
    Deleting { id: i32 },
    Done(Result<SuccessView, EntryError>),
}

impl View for Call {
    type V = CallView;

    open spec fn view(&self) -> CallView {
        match *self {
            Call::Store(call) => CallView::Store(call@),
            Call::Enrich { term } => CallView::Enrich { term: term@ },
        }
    }
}

impl View for Answer {
    type V = AnswerView;

    open spec fn view(&self) -> AnswerView {
        match *self {
            Answer::Store(answer) => AnswerView::Store(answer@),
            Answer::Enriched(entry) => AnswerView::Enriched(entry@),
            Answer::NotEnriched => AnswerView::NotEnriched,
        }
    }
}

impl View for Success {
    type V = SuccessView;

    open spec fn view(&self) -> SuccessView {
        match *self {
            Success::Found(entry) => SuccessView::Found(entry@),
            Success::Created(entry) => SuccessView::Created(entry@),
            Success::Listed(entries) => SuccessView::Listed(entries.deep_view()),
            Success::Deleted => SuccessView::Deleted,
        }
    }
}

impl View for Request {
    type V = RequestView;

    open spec fn view(&self) -> RequestView {
        match *self {
            Request::Finding { language, term } => RequestView::Finding {
                language: language@,
                term: term@,
            },
            Request::Reading { language, found } => RequestView::Reading {
                language: language@,
                found: found.deep_view(),
            },
            Request::Listing { limit, offset } => RequestView::Listing { limit, offset },
            Request::Batching { words } => RequestView::Batching { words: words.deep_view() },
            Request::Enriching { term } => RequestView::Enriching { term: term@ },
            Request::Checking { entry } => RequestView::Checking { entry: entry@ },
            Request::Language { draft } => RequestView::Language { draft: draft@ },
            Request::Word { draft, language_id } => RequestView::Word {
                draft: draft@,
                language_id,
            },
            Request::Sentence { stored, example, meaning } => RequestView::Sentence {
                stored: stored@,
                example: example@,
                meaning: meaning@,
            },
            Request::Deleting { id } => RequestView::Deleting { id },
            Request::Done(result) => RequestView::Done(
                match result {
                    Ok(success) => Ok(success@),
                    Err(e) => Err(e),
                },
            ),
        }
    }
}

/// The entry for a word that was found, with the sentences that were read
/// for it.
pub open spec fn found_entry(
    language: Seq<char>,
    found: FoundWordView,
    sentences: Seq<SentenceRowView>,
) -> EntryView {
    EntryView {
        id: found.0,
        language,
        term: found.1,
        definition: found.2,
        sentences: sentences.map_values(
            |row: SentenceRowView| SentenceView { id: row.0, example: row.1, meaning: row.2 },
        ),
    }
}

/// The entry for a draft whose word was stored under `id`, before any
/// sentence is attached.
pub open spec fn stored_entry(draft: DraftView, id: i32) -> EntryView {
    EntryView {
        id,
        language: draft.language,
        term: draft.term,
        definition: draft.definition,
        sentences: Seq::empty(),
    }
}

/// What a generated entry asks to store: the dictionary form is the term, and
/// the example sentence comes along.
pub open spec fn draft_of(entry: WordView) -> DraftView {
    DraftView {
        language: entry.language,
        term: entry.dictionary_form,
        definition: entry.definition,
        sentence: Some(entry.sentence),
    }
}

impl RequestView {
    /// The call that the request needs next; `None` when it is over.
    pub open spec fn pending(self) -> Option<CallView> {
        match self {
            RequestView::Finding { language, term } => Some(
                CallView::Store(StoreCallView::LookupByTerm { language, term }),
            ),
            RequestView::Reading { language, found } => Some(
                CallView::Store(StoreCallView::ListSentences { word_id: found.0 }),
            ),
            RequestView::Listing { limit, offset } => Some(
                CallView::Store(StoreCallView::ListWords { limit, offset }),
            ),
            RequestView::Batching { words } => Some(
                CallView::Store(
                    StoreCallView::ListSentencesBatched {
                        word_ids: words.map_values(|w: WordRowView| w.0),
                    },
                ),
            ),
            RequestView::Enriching { term } => Some(CallView::Enrich { term }),
            RequestView::Checking { entry } => Some(
                CallView::Store(
                    StoreCallView::LookupByTerm {
                        language: entry.language,
                        term: entry.dictionary_form,
                    },
                ),
            ),
            RequestView::Language { draft } => Some(
                CallView::Store(StoreCallView::ResolveLanguage { name: draft.language }),
            ),
            RequestView::Word { draft, language_id } => Some(
                CallView::Store(
                    StoreCallView::ResolveWord {
                        language_id,
                        term: draft.term,
                        definition: draft.definition,
                    },
                ),
            ),
            RequestView::Sentence { stored, example, meaning } => Some(
                CallView::Store(
                    StoreCallView::RecordSentence {
                        word_id: stored.id,
                        example,
                        meaning: Some(meaning),
                    },
                ),
            ),
            RequestView::Deleting { id } => Some(CallView::Store(StoreCallView::DeleteWord { id })),
            RequestView::Done(_) => None,
        }
    }

    /// The failure that ends a request whose call was not answered as it
    /// should: the store's refusal where there is one; a generation failure
    /// where an entry was asked for; a store failure otherwise.
    pub open spec fn failure(self, answer: AnswerView) -> EntryError {
        match (self, answer) {
            (RequestView::Enriching { .. }, _) => EntryError::GenerationFailure,
            (_, AnswerView::Store(StoreAnswerView::Refused(e))) => EntryError::StoreFailure(e),
            _ => EntryError::StoreFailure(StoreError::Other),
        }
    }

    /// The request after `answer` came back for its pending call.
    ///
    /// A lookup that finds the word leads to the reading of its sentences,
    /// and these to the entry; a lookup that finds none ends in `NotFound`. A
    /// page without words ends the listing at once; a page with words leads
    /// to one batch of sentences, and this to the page of entries. A
    /// generated entry is first looked up: where the store holds it, the
    /// request goes on as a lookup; where not, language, word and sentence are
    /// resolved in turn, and the entry comes back with the one sentence. A
    /// draft without a sentence ends when its word is resolved. Any other
    /// answer ends the request in `failure`. A request that is over stays as
    /// it is.
    pub open spec fn next(self, answer: AnswerView) -> RequestView {
        match (self, answer) {
            (RequestView::Done(_), _) => self,
            (
                RequestView::Finding { language, term },
                AnswerView::Store(StoreAnswerView::Found(Some(found))),
            ) => RequestView::Reading { language, found },
            (
                RequestView::Finding { language, term },
                AnswerView::Store(StoreAnswerView::Found(None)),
            ) => RequestView::Done(Err(EntryError::NotFound)),
            (
                RequestView::Reading { language, found },
                AnswerView::Store(StoreAnswerView::Sentences(rows)),
            ) => RequestView::Done(Ok(SuccessView::Found(found_entry(language, found, rows)))),
            (
                RequestView::Listing { limit, offset },
                AnswerView::Store(StoreAnswerView::Words(words)),
            ) => if words.len() == 0 {
                RequestView::Done(Ok(SuccessView::Listed(Seq::empty())))
            } else {
                RequestView::Batching { words }
            },
            (
                RequestView::Batching { words },
                AnswerView::Store(StoreAnswerView::Batch(batch)),
            ) => RequestView::Done(Ok(SuccessView::Listed(page_entries(words, batch)))),
            (
                RequestView::Enriching { term },
                AnswerView::Enriched(entry),
            ) => RequestView::Checking { entry },
            (
                RequestView::Checking { entry },
                AnswerView::Store(StoreAnswerView::Found(Some(found))),
            ) => RequestView::Reading { language: entry.language, found },
            (
                RequestView::Checking { entry },
                AnswerView::Store(StoreAnswerView::Found(None)),
            ) => RequestView::Language { draft: draft_of(entry) },
            (
                RequestView::Language { draft },
                AnswerView::Store(StoreAnswerView::Id(id)),
            ) => RequestView::Word { draft, language_id: id },
            (
                RequestView::Word { draft, language_id },
                AnswerView::Store(StoreAnswerView::Id(id)),
            ) => match draft.sentence {
                Some(sentence) => RequestView::Sentence {
                    stored: stored_entry(draft, id),
                    example: sentence.example,
                    meaning: sentence.meaning,
                },
                None => RequestView::Done(Ok(SuccessView::Created(stored_entry(draft, id)))),
            },
            (
                RequestView::Sentence { stored, example, meaning },
                AnswerView::Store(StoreAnswerView::Id(id)),
            ) => RequestView::Done(
                Ok(
                    SuccessView::Created(
                        EntryView {
                            sentences: stored.sentences.push(
                                SentenceView { id, example, meaning: Some(meaning) },
                            ),
                            ..stored
                        },
                    ),
                ),
            ),
            (
                RequestView::Deleting { id },
                AnswerView::Store(StoreAnswerView::Deleted),
            ) => RequestView::Done(Ok(SuccessView::Deleted)),
            _ => RequestView::Done(Err(self.failure(answer))),
        }
    }

    /// How many calls the request may still make.
    pub open spec fn calls_left(self) -> nat {
        match self {
            RequestView::Finding { .. } => 2,
            RequestView::Reading { .. } => 1,
            RequestView::Listing { .. } => 2,
            RequestView::Batching { .. } => 1,
            RequestView::Enriching { .. } => 5,
            RequestView::Checking { .. } => 4,
            RequestView::Language { .. } => 3,
            RequestView::Word { .. } => 2,
            RequestView::Sentence { .. } => 1,
            RequestView::Deleting { .. } => 1,
            RequestView::Done(_) => 0,
        }
    }
}

/// What becomes of the tables and of a request when every call that it makes
/// to the store is run at once against tables that no one else touches: the
/// request stops when it is over, or when it needs an entry generated.
pub open spec fn run_model(t: Tables, policy: Policy, request: RequestView) -> (Tables, RequestView)
    decreases request.calls_left(),
{
    match request.pending() {
        Some(CallView::Store(call)) => {
            let answered = answer_of(t, policy, call);
            run_model(answered.0, policy, request.next(AnswerView::Store(answered.1)))
        },
        _ => (t, request),
    }
}

/// The failure that a wrong answer to a call of the store ends in.
fn store_failure(answer: &Answer) -> (e: EntryError)
    ensures
        e == match answer@ {
            AnswerView::Store(StoreAnswerView::Refused(e)) => EntryError::StoreFailure(e),
            _ => EntryError::StoreFailure(StoreError::Other),
        },
{
    match answer {
        Answer::Store(StoreAnswer::Refused(e)) => EntryError::StoreFailure(*e),
        _ => EntryError::StoreFailure(StoreError::Other),
    }
}

/// The entry for a word that was found, with the sentences that were read
/// for it.
fn entry_of(language: String, found: FoundWord, rows: Vec<SentenceRow>) -> (entry: WordResponse)
    ensures
        entry@ == found_entry(language@, found.deep_view(), rows.deep_view()),
{
    let ghost all = rows.deep_view();
    let mut sentences: Vec<SentenceResponse> = Vec::new();
    for row in it: rows
        invariant
            it.seq().len() == all.len(),
            forall|k: int| 0 <= k < all.len() ==> #[trigger] it.seq()[k].deep_view() == all[k],
            sentences.len() == it.index(),
            forall|k: int|
                0 <= k < it.index() ==> #[trigger] sentences[k]@ == (SentenceView {
                    id: all[k].0,
                    example: all[k].1,
                    meaning: all[k].2,
                }),
    {
        proof {
            assert(it.seq()[it.index() as int].deep_view() == all[it.index() as int]);
        }
        let (id, example, meaning) = row;
        sentences.push(SentenceResponse { id, example, meaning });
    }
    let (id, term, definition) = found;
    let entry = WordResponse { id, language, term, definition, sentences };
    proof {
        assert(entry@.sentences =~= found_entry(
            language@,
            found.deep_view(),
            all,
        ).sentences);
    }
    entry
}

impl Request {
    /// The call that the request needs next; `None` when it is over.
    pub fn call(&self) -> (call: Option<Call>)
        ensures
            call.is_some() == self@.pending().is_some(),
            call matches Some(c) ==> self@.pending() == Some(c@),
    {
        match self {
            Request::Finding { language, term } => Some(
                Call::Store(
                    StoreCall::LookupByTerm { language: language.clone(), term: term.clone() },
                ),
            ),
            Request::Reading { language, found } => Some(
                Call::Store(StoreCall::ListSentences { word_id: found.0 }),
            ),
            Request::Listing { limit, offset } => Some(
                Call::Store(StoreCall::ListWords { limit: *limit, offset: *offset }),
            ),
            Request::Batching { words } => Some(
                Call::Store(StoreCall::ListSentencesBatched { word_ids: page_word_ids(words) }),
            ),
            Request::Enriching { term } => Some(Call::Enrich { term: term.clone() }),
            Request::Checking { entry } => Some(
                Call::Store(
                    StoreCall::LookupByTerm {
                        language: entry.language.clone(),
                        term: entry.dictionary_form.clone(),
                    },
                ),
            ),
            Request::Language { draft } => Some(
                Call::Store(StoreCall::ResolveLanguage { name: draft.language.clone() }),
            ),
            Request::Word { draft, language_id } => Some(
                Call::Store(
                    StoreCall::ResolveWord {
                        language_id: *language_id,
                        term: draft.term.clone(),
                        definition: draft.definition.clone(),
                    },
                ),
            ),
            Request::Sentence { stored, example, meaning } => Some(
                Call::Store(
                    StoreCall::RecordSentence {
                        word_id: stored.id,
                        example: example.clone(),
                        meaning: Some(meaning.clone()),
                    },
                ),
            ),
            Request::Deleting { id } => Some(Call::Store(StoreCall::DeleteWord { id: *id })),
            Request::Done(_) => None,
        }
    }

    /// Takes the answer to the pending call.
    pub fn advance(self, answer: Answer) -> (after: Request)
        ensures
            after@ == self@.next(answer@),
    {
        match self {
            Request::Done(result) => Request::Done(result),
            Request::Finding { language, term } => match answer {
                Answer::Store(StoreAnswer::Found(Some(found))) => Request::Reading {
                    language,
                    found,
                },
                Answer::Store(StoreAnswer::Found(None)) => Request::Done(
                    Err(EntryError::NotFound),
                ),
                other => Request::Done(Err(store_failure(&other))),
            },
            Request::Reading { language, found } => match answer {
                Answer::Store(StoreAnswer::Sentences(rows)) => Request::Done(
                    Ok(Success::Found(entry_of(language, found, rows))),
                ),
                other => Request::Done(Err(store_failure(&other))),
            },
            Request::Listing { limit, offset } => match answer {
                Answer::Store(StoreAnswer::Words(words)) => if words.len() == 0 {
                    let entries: Vec<WordResponse> = Vec::new();
                    assert(entries.deep_view() =~= Seq::<EntryView>::empty());
                    Request::Done(Ok(Success::Listed(entries)))
                } else {
                    Request::Batching { words }
                },
                other => Request::Done(Err(store_failure(&other))),
            },
            Request::Batching { words } => match answer {
                Answer::Store(StoreAnswer::Batch(batch)) => Request::Done(
                    Ok(Success::Listed(assemble_page(words, batch))),
                ),
                other => Request::Done(Err(store_failure(&other))),
            },
            Request::Enriching { term } => match answer {
                Answer::Enriched(entry) => Request::Checking { entry },
                _ => Request::Done(Err(EntryError::GenerationFailure)),
            },
            Request::Checking { entry } => match answer {
                Answer::Store(StoreAnswer::Found(Some(found))) => Request::Reading {
                    language: entry.language,
                    found,
                },
                Answer::Store(StoreAnswer::Found(None)) => Request::Language {
                    draft: Draft {
                        language: entry.language,
                        term: entry.dictionary_form,
                        definition: entry.definition,
                        sentence: Some(entry.sentence),
                    },
                },
                other => Request::Done(Err(store_failure(&other))),
            },
            Request::Language { draft } => match answer {
                Answer::Store(StoreAnswer::Id(id)) => Request::Word { draft, language_id: id },
                other => Request::Done(Err(store_failure(&other))),
            },
            Request::Word { draft, language_id } => match answer {
                Answer::Store(StoreAnswer::Id(id)) => {
                    let stored = WordResponse {
                        id,
                        language: draft.language,
                        term: draft.term,
                        definition: draft.definition,
                        sentences: Vec::new(),
                    };
                    assert(stored@.sentences =~= Seq::<SentenceView>::empty());
                    match draft.sentence {
                        Some(sentence) => Request::Sentence {
                            stored,
                            example: sentence.example,
                            meaning: sentence.meaning,
                        },
                        None => Request::Done(Ok(Success::Created(stored))),
                    }
                },
                other => Request::Done(Err(store_failure(&other))),
            },
            Request::Sentence { stored, example, meaning } => match answer {
                Answer::Store(StoreAnswer::Id(id)) => {
                    let ghost before = stored@;
                    let mut entry = stored;
                    entry.sentences.push(SentenceResponse { id, example, meaning: Some(meaning) });
                    assert(entry@.sentences =~= before.sentences.push(
                        SentenceView { id, example: example@, meaning: Some(meaning@) },
                    ));
                    Request::Done(Ok(Success::Created(entry)))
                },
                other => Request::Done(Err(store_failure(&other))),
            },
            Request::Deleting { id } => match answer {
                Answer::Store(StoreAnswer::Deleted) => Request::Done(Ok(Success::Deleted)),
                other => Request::Done(Err(store_failure(&other))),
            },
        }
    }
}

/// The HTTP status by which the end of a request is reported: 204 for a
/// deletion, 200 for any other result; 400 for a rejected term, 404 for an
/// entry that is not there, 500 for a failure of the store and 502 for a
/// failure of the generation backend.
pub open spec fn status_of(result: Result<SuccessView, EntryError>) -> u16 {
    match result {
        Ok(SuccessView::Deleted) => 204,
        Ok(_) => 200,
        Err(EntryError::InvalidInput) => 400,
        Err(EntryError::NotFound) => 404,
        Err(EntryError::StoreFailure(_)) => 500,
        Err(EntryError::GenerationFailure) => 502,
    }
}

/// The HTTP status by which `result` is reported.
pub fn status_code(result: &Result<Success, EntryError>) -> (code: u16)
    ensures
        code == status_of(
            match *result {
                Ok(success) => Ok(success@),
                Err(e) => Err(e),
            },
        ),
{
    match result {
        Ok(Success::Deleted) => 204,
        Ok(_) => 200,
        Err(EntryError::InvalidInput) => 400,
        Err(EntryError::NotFound) => 404,
        Err(EntryError::StoreFailure(_)) => 500,
        Err(EntryError::GenerationFailure) => 502,
    }
}

/// A request for the entry of the language `language` that has the term
/// `term`.
pub fn get_word(language: String, term: String) -> (request: Request)
    ensures
        request@ == (RequestView::Finding { language: language@, term: term@ }),
{
    Request::Finding { language, term }
}

/// A request for a page of entries; a bound that the window does not name
/// takes its default.
pub fn get_all_words(params: PaginationParams) -> (request: Request)
    ensures
        request@ == (RequestView::Listing {
            limit: match params.limit {
                Some(limit) => limit,
                None => DEFAULT_LIMIT,
            },
            offset: match params.offset {
                Some(offset) => offset,
                None => DEFAULT_OFFSET,
            },
        }),
{
    let (limit, offset) = page_window(&params);
    Request::Listing { limit, offset }
}

/// Where a request to generate and store the entry for the raw term `raw`
/// begins: a term whose key is empty is rejected at once; for any other, an
/// entry is to be generated for its key.
pub open spec fn creating(raw: Seq<char>) -> RequestView {
    if normalized(raw).len() == 0 {
        RequestView::Done(Err(EntryError::InvalidInput))
    } else {
        RequestView::Enriching { term: normalized(raw) }
    }
}

/// A request to generate and store the entry for a raw term. The term is
/// reduced to its key first; a term whose key is empty is rejected before
/// anything is asked of the generation backend or of the store.
pub fn create_word(payload: CreateWordRequest) -> (request: Request)
    ensures
        request@ == creating(payload.term@),
{
    let term = normalize_input(payload.term.as_str());
    if term.as_str().is_empty() {
        Request::Done(Err(EntryError::InvalidInput))
    } else {
        Request::Enriching { term }
    }
}

/// A request to store an entry that the caller states in full: language and
/// word are resolved, and no sentence is recorded.
pub fn create_entry(entry: ManualEntry) -> (request: Request)
    ensures
        request@ == (RequestView::Language {
            draft: DraftView {
                language: entry.language@,
                term: entry.term@,
                definition: entry.definition@,
                sentence: None,
            },
        }),
{
    Request::Language {
        draft: Draft {
            language: entry.language,
            term: entry.term,
            definition: entry.definition,
            sentence: None,
        },
    }
}

/// A request to delete the word `id` with its sentences.
pub fn delete_word(id: i32) -> (request: Request)
    ensures
        request@ == (RequestView::Deleting { id }),
{
    Request::Deleting { id }
}

/// Drives a request against the store in memory: every call that it makes to
/// the store is run at once. What comes back is over, or needs an entry
/// generated before it can go on.
pub fn run(store: &mut Store, request: Request) -> (after: Request)
    requires
        old(store)@.wf(),
    ensures
        final(store)@.wf(),
        final(store).policy() == old(store).policy(),
        (final(store)@, after@) == run_model(old(store)@, old(store).policy(), request@),
        !(after@.pending() matches Some(CallView::Store(_))),
{
    let ghost policy = store.policy();
    let mut state = request;
    loop
        invariant
            store@.wf(),
            store.policy() == policy,
            policy == old(store).policy(),
            run_model(store@, policy, state@) == run_model(old(store)@, policy, request@),
        ensures
            !(state@.pending() matches Some(CallView::Store(_))),
        decreases state@.calls_left(),
    {
        let call = match state.call() {
            Some(Call::Store(call)) => call,
            _ => break,
        };
        let answer = perform(store, &call);
        state = state.advance(Answer::Store(answer));
    }
    state
}

} // verus!
