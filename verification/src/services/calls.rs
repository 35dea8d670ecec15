//! The operations of the entry store as values: what a request asks of the
//! store, and what the store answers.

use crate::services::db::{
    batch_row, create_language, create_sentence, create_word, delete_word, found_row,
    get_all_words, get_sentences_by_word, get_sentences_by_word_ids, get_word, sentence_row,
    wide, word_row, BatchRow, BatchRowView, FoundWord, FoundWordView, SentenceRow,
    SentenceRowView, Store, StoreError, WordRow, WordRowView,
};
use crate::services::reconcile::Policy;
use crate::services::tables::{ListedRec, SentenceRec, Tables};
use vstd::prelude::*;

verus! {

/// An operation of the entry store, as a value: what a request asks the
/// store to do next.
#[derive(Debug)]
pub enum StoreCall {
    /// Look up the word of a language by its term.
    LookupByTerm { language: String, term: String },
    /// Read the sentences of one word.
    ListSentences { word_id: i32 },
    /// Read a page of words.
    ListWords { limit: i64, offset: i64 },
    /// Read the sentences of many words at once.
    ListSentencesBatched { word_ids: Vec<i32> },
    /// Resolve a language by its name.
    ResolveLanguage { name: String },
    /// Resolve a word by its language and term.
    ResolveWord { language_id: i32, term: String, definition: String },
    /// Resolve a sentence by its word and example.
    RecordSentence { word_id: i32, example: String, meaning: Option<String> },
    /// Delete a word and its sentences.
    DeleteWord { id: i32 },
}

/// What the store answers to a `StoreCall`.
#[derive(Debug)]
pub enum StoreAnswer {
    /// To a lookup: the word, if there is one.
    Found(Option<FoundWord>),
    /// To a reading of one word's sentences.
    Sentences(Vec<SentenceRow>),
    /// To a reading of a page.
    Words(Vec<WordRow>),
    /// To a reading of many words' sentences.
    Batch(Vec<BatchRow>),
    /// To a resolution: the id of the row.
    Id(i32),
    /// To a deletion.
    Deleted,
    /// The store refused the call.
    Refused(StoreError),
}

/// What a `StoreCall` holds.
pub enum StoreCallView {
    LookupByTerm { language: Seq<char>, term: Seq<char> },
    ListSentences { word_id: i32 },
    ListWords { limit: i64, offset: i64 },
    ListSentencesBatched { word_ids: Seq<i32> },
    ResolveLanguage { name: Seq<char> },
    ResolveWord { language_id: i32, term: Seq<char>, definition: Seq<char> },
    RecordSentence { word_id: i32, example: Seq<char>, meaning: Option<Seq<char>> },
    DeleteWord { id: i32 },
}

/// What a `StoreAnswer` holds.
pub enum StoreAnswerView {
    Found(Option<FoundWordView>),
    Sentences(Seq<SentenceRowView>),
    Words(Seq<WordRowView>),
    Batch(Seq<BatchRowView>),
    Id(i32),
    Deleted,
    Refused(StoreError),
}

impl View for StoreCall {
    type V = StoreCallView;

    open spec fn view(&self) -> StoreCallView {
        match *self {
            StoreCall::LookupByTerm { language, term } => StoreCallView::LookupByTerm {
                language: language@,
                term: term@,
            },
            StoreCall::ListSentences { word_id } => StoreCallView::ListSentences { word_id },
            StoreCall::ListWords { limit, offset } => StoreCallView::ListWords { limit, offset },
            StoreCall::ListSentencesBatched { word_ids } => StoreCallView::ListSentencesBatched {
                word_ids: word_ids@,
            },
            StoreCall::ResolveLanguage { name } => StoreCallView::ResolveLanguage { name: name@ },
            StoreCall::ResolveWord { language_id, term, definition } => StoreCallView::ResolveWord {
                language_id,
                term: term@,
                definition: definition@,
            },
            StoreCall::RecordSentence {
                word_id,
                example,
                meaning,
            } => StoreCallView::RecordSentence {
                word_id,
                example: example@,
                meaning: meaning.deep_view(),
            },
            StoreCall::DeleteWord { id } => StoreCallView::DeleteWord { id },
        }
    }
}

impl View for StoreAnswer {
    type V = StoreAnswerView;

    open spec fn view(&self) -> StoreAnswerView {
        match *self {
            StoreAnswer::Found(found) => StoreAnswerView::Found(found.deep_view()),
            StoreAnswer::Sentences(rows) => StoreAnswerView::Sentences(rows.deep_view()),
            StoreAnswer::Words(rows) => StoreAnswerView::Words(rows.deep_view()),
            StoreAnswer::Batch(rows) => StoreAnswerView::Batch(rows.deep_view()),
            StoreAnswer::Id(id) => StoreAnswerView::Id(id),
            StoreAnswer::Deleted => StoreAnswerView::Deleted,
            StoreAnswer::Refused(e) => StoreAnswerView::Refused(e),
        }
    }
}

/// What this store does on a call: the tables afterwards and the answer.
///
/// The readings leave the tables as they are. A page whose limit or offset
/// is below zero is refused. The resolutions follow `policy`; they are
/// refused where a row would have to be inserted and the row that it refers
/// to is missing, or no id is left. A deletion always goes through.
pub open spec fn answer_of(t: Tables, policy: Policy, call: StoreCallView) -> (
    Tables,
    StoreAnswerView,
) {
    match call {
        StoreCallView::LookupByTerm { language, term } => (
            t,
            StoreAnswerView::Found(
                match t.entry(language, term) {
                    Some(word) => Some(found_row(word)),
                    None => None,
                },
            ),
        ),
        StoreCallView::ListSentences { word_id } => (
            t,
            StoreAnswerView::Sentences(
                t.sentences_of(word_id as int).map_values(
                    |sentence: SentenceRec| sentence_row(sentence),
                ),
            ),
        ),
        StoreCallView::ListWords { limit, offset } => (
            t,
            if 0 <= limit && 0 <= offset {
                StoreAnswerView::Words(
                    t.page(limit as int, offset as int).map_values(
                        |word: ListedRec| word_row(word),
                    ),
                )
            } else {
                StoreAnswerView::Refused(StoreError::Other)
            },
        ),
        StoreCallView::ListSentencesBatched { word_ids } => (
            t,
            StoreAnswerView::Batch(
                t.sentences_among(wide(word_ids)).map_values(
                    |sentence: SentenceRec| batch_row(sentence),
                ),
            ),
        ),
        StoreCallView::ResolveLanguage { name } => if t.has_language(name) || t.language_seq
            < i32::MAX {
            (t.resolve_language(name).0, StoreAnswerView::Id(t.resolve_language(name).1 as i32))
        } else {
            (t, StoreAnswerView::Refused(StoreError::Other))
        },
        StoreCallView::ResolveWord { language_id, term, definition } => {
            let resolved = t.resolve_word(
                policy == Policy::AtomicUpsert,
                language_id as int,
                term,
                definition,
            );
            if t.has_word(language_id as int, term) || (t.has_language_id(language_id as int)
                && t.word_seq < i32::MAX) {
                (resolved.0, StoreAnswerView::Id(resolved.1 as i32))
            } else if !t.has_language_id(language_id as int) {
                (t, StoreAnswerView::Refused(StoreError::ForeignKeyViolation))
            } else {
                (t, StoreAnswerView::Refused(StoreError::Other))
            }
        },
        StoreCallView::RecordSentence { word_id, example, meaning } => {
            let resolved = t.resolve_sentence(
                policy == Policy::AtomicUpsert,
                word_id as int,
                example,
                meaning,
            );
            if t.has_sentence(word_id as int, example) || (t.has_word_id(word_id as int)
                && t.sentence_seq < i32::MAX) {
                (resolved.0, StoreAnswerView::Id(resolved.1 as i32))
            } else if !t.has_word_id(word_id as int) {
                (t, StoreAnswerView::Refused(StoreError::ForeignKeyViolation))
            } else {
                (t, StoreAnswerView::Refused(StoreError::Other))
            }
        },
        StoreCallView::DeleteWord { id } => (t.remove_word(id as int), StoreAnswerView::Deleted),
    }
}

/// Runs one call against the store.
pub fn perform(store: &mut Store, call: &StoreCall) -> (answer: StoreAnswer)
    requires
        old(store)@.wf(),
    ensures
        final(store)@.wf(),
        final(store).policy() == old(store).policy(),
        (final(store)@, answer@) == answer_of(old(store)@, old(store).policy(), call@),
{
    match call {
        StoreCall::LookupByTerm { language, term } => match get_word(
            store,
            language.as_str(),
            term.as_str(),
        ) {
            Ok(found) => StoreAnswer::Found(found),
            Err(e) => StoreAnswer::Refused(e),
        },
        StoreCall::ListSentences { word_id } => match get_sentences_by_word(store, *word_id) {
            Ok(rows) => StoreAnswer::Sentences(rows),
            Err(e) => StoreAnswer::Refused(e),
        },
        StoreCall::ListWords { limit, offset } => match get_all_words(store, *limit, *offset) {
            Ok(rows) => StoreAnswer::Words(rows),
            Err(e) => StoreAnswer::Refused(e),
        },
        StoreCall::ListSentencesBatched { word_ids } => match get_sentences_by_word_ids(
            store,
            word_ids.as_slice(),
        ) {
            Ok(rows) => StoreAnswer::Batch(rows),
            Err(e) => StoreAnswer::Refused(e),
        },
        StoreCall::ResolveLanguage { name } => match create_language(store, name.as_str()) {
            Ok(id) => StoreAnswer::Id(id),
            Err(e) => StoreAnswer::Refused(e),
        },
        StoreCall::ResolveWord { language_id, term, definition } => match create_word(
            store,
            *language_id,
            term.as_str(),
            definition.as_str(),
        ) {
            Ok(id) => StoreAnswer::Id(id),
            Err(e) => StoreAnswer::Refused(e),
        },
        StoreCall::RecordSentence { word_id, example, meaning } => {
            let meaning = match meaning {
                Some(text) => Some(text.as_str()),
                None => None,
            };
            match create_sentence(store, *word_id, example.as_str(), meaning) {
                Ok(id) => StoreAnswer::Id(id),
                Err(e) => StoreAnswer::Refused(e),
            }
        },
        StoreCall::DeleteWord { id } => match delete_word(store, *id) {
            Ok(()) => StoreAnswer::Deleted,
            Err(e) => StoreAnswer::Refused(e),
        },
    }
}

} // verus!
