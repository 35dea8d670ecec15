//! What the requests do to a store that no one else touches, from the first
//! call to the result.

use crate::controllers::page::{entry_at, of_word, own_sentences, page_entries};
use crate::controllers::word_controller::{
    creating, found_entry, run_model, stored_entry, AnswerView, DraftView, EntryError,
    EntryView, RequestView, SentenceView, SuccessView,
};
use crate::extra::{is_alphanumeric_char, lemma_key_of_nothing};
use crate::services::calls::StoreAnswerView;
use crate::services::db::{
    batch_row, found_row, sentence_row, wide, word_row, StoreError, WordRowView,
};
use crate::services::filters::{
    lemma_filter_agree, lemma_filter_mapped, lemma_filter_none, lemma_filter_twice,
};
use crate::services::reconcile::Policy;
use crate::services::tables::{
    belongs_to, belongs_to_any, lemma_add_language, lemma_add_sentence, lemma_add_word,
    lemma_language_unique, lemma_page, lemma_remove_word, lemma_set_definition, lemma_word_unique,
    ListedRec, SentenceRec, Tables, WordRec,
};
use crate::services::word::WordView;
use vstd::prelude::*;

verus! {

/// How many calls a request makes while the answers of `answers` come back
/// for them, one by one.
pub open spec fn calls_made(request: RequestView, answers: Seq<AnswerView>) -> nat
    decreases answers.len(),
{
    if request.pending() is None {
        0
    } else if answers.len() == 0 {
        1
    } else {
        1 + calls_made(request.next(answers.first()), answers.drop_first())
    }
}

/// Whatever comes back, a request makes no more calls than `calls_left`
/// allows it.
pub proof fn lemma_calls_bounded(request: RequestView, answers: Seq<AnswerView>)
    ensures
        calls_made(request, answers) <= request.calls_left(),
    decreases answers.len(),
{
    if request.pending() is Some && answers.len() > 0 {
        lemma_calls_bounded(request.next(answers.first()), answers.drop_first());
    }
}

/// A listing reads from the store twice at most, whatever the size of the
/// page and whatever the store answers. Where the page comes back without
/// words, the listing has read once: it ends there with no entries, and no
/// batch of sentences is asked for.
pub proof fn lemma_listing_reads(limit: i64, offset: i64, answers: Seq<AnswerView>)
    ensures
        calls_made(RequestView::Listing { limit, offset }, answers) <= 2,
        answers.len() > 0 && answers.first() == AnswerView::Store(
            StoreAnswerView::Words(Seq::empty()),
        ) ==> calls_made(RequestView::Listing { limit, offset }, answers) == 1 && (
        RequestView::Listing { limit, offset }).next(answers.first()) == RequestView::Done(
            Ok(SuccessView::Listed(Seq::empty())),
        ),
{
    let listing = RequestView::Listing { limit, offset };
    lemma_calls_bounded(listing, answers);
    if answers.len() > 0 {
        assert(calls_made(listing, answers) == 1 + calls_made(
            listing.next(answers.first()),
            answers.drop_first(),
        ));
    }
}

/// A term without alphanumeric characters is rejected before any call: the
/// request is over as it begins, and nothing is asked of the generation
/// backend or of the store.
pub proof fn lemma_rejected_before_any_call(raw: Seq<char>)
    requires
        forall|i: int| 0 <= i < raw.len() ==> !is_alphanumeric_char(#[trigger] raw[i]),
    ensures
        creating(raw) == RequestView::Done(Err(EntryError::InvalidInput)),
        creating(raw).pending() is None,
        forall|answers: Seq<AnswerView>| #[trigger] calls_made(creating(raw), answers) == 0,
{
    lemma_key_of_nothing(raw);
}

/// A generation that fails ends the request: the backend was asked once and
/// is not asked again, and nothing is asked of the store.
pub proof fn lemma_generation_failed(term: Seq<char>, later: Seq<AnswerView>)
    ensures
        (RequestView::Enriching { term }).next(AnswerView::NotEnriched) == RequestView::Done(
            Err(EntryError::GenerationFailure),
        ),
        calls_made(RequestView::Enriching { term }, seq![AnswerView::NotEnriched] + later) == 1,
{
    let enriching = RequestView::Enriching { term };
    let answers = seq![AnswerView::NotEnriched] + later;
    assert(answers.first() == AnswerView::NotEnriched);
    assert(calls_made(enriching, answers) == 1 + calls_made(
        enriching.next(answers.first()),
        answers.drop_first(),
    ));
}

/// The sentence of an entry that a stored sentence stands for.
pub open spec fn sentence_view(sentence: SentenceRec) -> SentenceView {
    SentenceView { id: sentence.id as i32, example: sentence.example, meaning: sentence.meaning }
}

/// The entry that the tables hold for a word of the language named
/// `language`: the word's fields and all of its sentences, in insertion
/// order.
pub open spec fn entry_in(t: Tables, language: Seq<char>, word: WordRec) -> EntryView {
    EntryView {
        id: word.id as i32,
        language,
        term: word.term,
        definition: word.definition,
        sentences: t.sentences_of(word.id).map_values(|s: SentenceRec| sentence_view(s)),
    }
}

/// A lookup against tables that no one else touches changes nothing and
/// returns the entry that the tables hold for the language and term, with
/// all of its sentences; it ends in `NotFound` exactly where they hold
/// none.
pub proof fn lemma_lookup(t: Tables, policy: Policy, language: Seq<char>, term: Seq<char>)
    requires
        t.wf(),
    ensures
        run_model(t, policy, RequestView::Finding { language, term }) == (
            t,
            RequestView::Done(
                match t.entry(language, term) {
                    Some(word) => Ok(SuccessView::Found(entry_in(t, language, word))),
                    None => Err(EntryError::NotFound),
                },
            ),
        ),
{
    reveal_with_fuel(run_model, 3);
    match t.entry(language, term) {
        Some(word) => {
            let language_id = t.language_id(language)->0;
            assert(word == t.words[t.word_at(language_id, term)]);
            let rows = t.sentences_of(word.id).map_values(|s: SentenceRec| sentence_row(s));
            assert(found_entry(language, found_row(word), rows).sentences =~= entry_in(
                t,
                language,
                word,
            ).sentences);
        },
        None => {},
    }
}

/// Deleting a word never fails. Against tables that no one else touches it
/// removes the word with all of its sentences and leaves the invariant in
/// place; deleting an id that no word has changes nothing.
pub proof fn lemma_delete(t: Tables, policy: Policy, id: i32)
    requires
        t.wf(),
    ensures
        run_model(t, policy, RequestView::Deleting { id }) == (
            t.remove_word(id as int),
            RequestView::Done(Ok(SuccessView::Deleted)),
        ),
        t.remove_word(id as int).wf(),
        !t.remove_word(id as int).has_word_id(id as int),
        t.remove_word(id as int).sentences_of(id as int) == Seq::<SentenceRec>::empty(),
        !t.has_word_id(id as int) ==> t.remove_word(id as int) == t,
{
    reveal_with_fuel(run_model, 3);
    lemma_remove_word(t, id as int);
}

/// After the word of an entry was deleted, a lookup of the entry's language
/// and term ends in `NotFound`.
pub proof fn lemma_lookup_after_delete(
    t: Tables,
    policy: Policy,
    language: Seq<char>,
    term: Seq<char>,
)
    requires
        t.wf(),
        t.entry(language, term) is Some,
    ensures
        ({
            let id = t.entry(language, term)->0.id as i32;
            let after = run_model(t, policy, RequestView::Deleting { id }).0;
            run_model(after, policy, RequestView::Finding { language, term }) == (
                after,
                RequestView::Done(Err(EntryError::NotFound)),
            )
        }),
{
    let word = t.entry(language, term)->0;
    let language_id = t.language_id(language)->0;
    assert(word == t.words[t.word_at(language_id, term)]);
    let id = word.id as i32;
    lemma_delete(t, policy, id);
    lemma_remove_word(t, id as int);
    let after = t.remove_word(id as int);
    lemma_lookup(after, policy, language, term);
}

/// The draft of an entry that the caller states in full.
pub open spec fn manual_draft(
    language: Seq<char>,
    term: Seq<char>,
    definition: Seq<char>,
) -> DraftView {
    DraftView { language, term, definition, sentence: None }
}

/// Storing an entry that the caller states in full, against tables that no
/// one else touches: the language is resolved, then the word, by the policy;
/// the entry comes back under the word's id and without sentences. The
/// request fails only where a row would have to be inserted and no id is
/// left.
pub proof fn lemma_create_entry(
    t: Tables,
    policy: Policy,
    language: Seq<char>,
    term: Seq<char>,
    definition: Seq<char>,
)
    requires
        t.wf(),
    ensures
        ({
            let draft = manual_draft(language, term, definition);
            let ran = run_model(t, policy, RequestView::Language { draft });
            let with_language = t.resolve_language(language);
            let with_word = with_language.0.resolve_word(
                policy == Policy::AtomicUpsert,
                with_language.1,
                term,
                definition,
            );
            if !(t.has_language(language) || t.language_seq < i32::MAX) {
                ran == (t, RequestView::Done(Err(EntryError::StoreFailure(StoreError::Other))))
            } else if !(with_language.0.has_word(with_language.1, term) || with_language.0.word_seq
                < i32::MAX) {
                ran == (
                    with_language.0,
                    RequestView::Done(Err(EntryError::StoreFailure(StoreError::Other))),
                )
            } else {
                &&& ran == (
                    with_word.0,
                    RequestView::Done(
                        Ok(SuccessView::Created(stored_entry(draft, with_word.1 as i32))),
                    ),
                )
                &&& with_word.0.wf()
                &&& with_word.0.language_id(language) == Some(with_language.1)
                &&& with_word.0.word(with_language.1, term) is Some
                &&& with_word.0.word(with_language.1, term)->0.id == with_word.1
                &&& 0 < with_word.1 <= i32::MAX
            }
        }),
{
    reveal_with_fuel(run_model, 4);
    let with_language = t.resolve_language(language);
    if t.has_language(language) {
        lemma_language_unique(t, t.language_at(language));
    } else if t.language_seq < i32::MAX {
        lemma_add_language(t, language);
    }
    if t.has_language(language) || t.language_seq < i32::MAX {
        let l = with_language.0;
        let id = with_language.1;
        if l.has_word(id, term) {
            let at = l.word_at(id, term);
            lemma_word_unique(l, at);
            lemma_set_definition(l, at, definition);
        } else if l.word_seq < i32::MAX {
            lemma_add_word(l, id, term, definition);
        }
    }
}

/// Storing the same language and term twice, each time in full, against
/// tables that no one else touches. Where the first request went through,
/// the second goes through too, finds the word of the first and adds no row.
/// Under `CheckThenInsert` the second changes nothing: the word keeps the
/// definition that it had. Under `AtomicUpsert` the word takes the second
/// definition. A word that the first request had to insert carries the first
/// definition after it.
pub proof fn lemma_create_entry_twice(
    t: Tables,
    policy: Policy,
    language: Seq<char>,
    term: Seq<char>,
    first: Seq<char>,
    second: Seq<char>,
)
    requires
        t.wf(),
    ensures
        ({
            let one = run_model(
                t,
                policy,
                RequestView::Language { draft: manual_draft(language, term, first) },
            );
            let two = run_model(
                one.0,
                policy,
                RequestView::Language { draft: manual_draft(language, term, second) },
            );
            one.1 matches RequestView::Done(Ok(SuccessView::Created(stored))) ==> {
                &&& one.0.entry(language, term) matches Some(kept) && kept.id == stored.id
                &&& t.entry(language, term) is None ==> one.0.entry(language, term)->0.definition
                    == first
                &&& two.1 == RequestView::Done(
                    Ok(
                        SuccessView::Created(
                            stored_entry(manual_draft(language, term, second), stored.id),
                        ),
                    ),
                )
                &&& two.0.words.len() == one.0.words.len()
                &&& two.0.entry(language, term) == Some(
                    WordRec {
                        definition: if policy == Policy::AtomicUpsert {
                            second
                        } else {
                            one.0.entry(language, term)->0.definition
                        },
                        ..one.0.entry(language, term)->0
                    },
                )
                &&& policy == Policy::CheckThenInsert ==> two.0 == one.0
            }
        }),
{
    lemma_create_entry(t, policy, language, term, first);
    let one = run_model(
        t,
        policy,
        RequestView::Language { draft: manual_draft(language, term, first) },
    );
    if one.1 is Done && one.1->Done_0 is Ok {
        let with_language = t.resolve_language(language);
        let id = with_language.1;
        let middle = one.0;
        if t.has_language(language) {
            lemma_language_unique(t, t.language_at(language));
        } else {
            lemma_add_language(t, language);
        }
        if !with_language.0.has_word(id, term) {
            lemma_add_word(with_language.0, id, term, first);
        }
        lemma_create_entry(middle, policy, language, term, second);
        let at = middle.word_at(id, term);
        lemma_word_unique(middle, at);
        lemma_set_definition(middle, at, second);
    }
}

/// The entry that the tables hold for a listed word: the word's fields and
/// all of its sentences, in insertion order.
pub open spec fn listed_entry(t: Tables, word: ListedRec) -> EntryView {
    EntryView {
        id: word.id as i32,
        language: word.language,
        term: word.term,
        definition: word.definition,
        sentences: t.sentences_of(word.id).map_values(|s: SentenceRec| sentence_view(s)),
    }
}

/// The page of entries that the tables hold for a window: the words of the
/// window by ascending id, each with its own sentences.
pub open spec fn entries_page(t: Tables, limit: int, offset: int) -> Seq<EntryView> {
    t.page(limit, offset).map_values(|word: ListedRec| listed_entry(t, word))
}

/// Of one batch that was read for the ids `ids`, the sentences that the
/// assembly attaches to a word whose id is among them are that word's own
/// sentences, all of them and no others.
pub proof fn lemma_own_sentences(t: Tables, ids: Seq<i32>, id: i32)
    requires
        t.wf(),
        ids.contains(id),
    ensures
        own_sentences(
            t.sentences_among(wide(ids)).map_values(|s: SentenceRec| batch_row(s)),
            id,
        ) == t.sentences_of(id as int).map_values(|s: SentenceRec| sentence_view(s)),
{
    let among = t.sentences_among(wide(ids));
    let row = |s: SentenceRec| batch_row(s);
    let through = |s: SentenceRec| of_word(id)(row(s));
    lemma_filter_mapped(among, row, of_word(id));
    lemma_filter_agree(among, through, belongs_to(id as int));
    assert forall|s: SentenceRec| #[trigger]
        belongs_to(id as int)(s) implies belongs_to_any(wide(ids))(s) by {
        let k = choose|k: int| 0 <= k < ids.len() && ids[k] == id;
        assert(wide(ids)[k] == id as int);
    }
    lemma_filter_twice(t.sentences, belongs_to_any(wide(ids)), belongs_to(id as int));
}

/// A listing against tables that no one else touches changes nothing and
/// returns the page of entries that the tables hold for the window: each
/// word of the window once, in order of ascending id, with its own
/// sentences and with none of another word. A window whose limit or offset
/// is below zero ends in a store failure.
pub proof fn lemma_listing(t: Tables, policy: Policy, limit: i64, offset: i64)
    requires
        t.wf(),
    ensures
        run_model(t, policy, RequestView::Listing { limit, offset }) == (
            t,
            RequestView::Done(
                if 0 <= limit && 0 <= offset {
                    Ok(SuccessView::Listed(entries_page(t, limit as int, offset as int)))
                } else {
                    Err(EntryError::StoreFailure(StoreError::Other))
                },
            ),
        ),
{
    reveal_with_fuel(run_model, 3);
    if 0 <= limit && 0 <= offset {
        let page = t.page(limit as int, offset as int);
        let words = page.map_values(|word: ListedRec| word_row(word));
        let expected = entries_page(t, limit as int, offset as int);
        lemma_page(t, limit as int, offset as int);
        if words.len() == 0 {
            assert(expected =~= Seq::<EntryView>::empty());
        } else {
            let ids = words.map_values(|w: WordRowView| w.0);
            let batch = t.sentences_among(wide(ids)).map_values(|s: SentenceRec| batch_row(s));
            assert forall|i: int| 0 <= i < words.len() implies #[trigger] entry_at(words, batch, i)
                == expected[i] by {
                assert(ids[i] == words[i].0);
                lemma_own_sentences(t, ids, words[i].0);
            }
            assert(page_entries(words, batch) =~= expected);
        }
    }
}

/// A generated entry that the store holds already is not stored again:
/// against tables that no one else touches the request changes nothing and
/// returns the entry that the tables hold, as a lookup would.
pub proof fn lemma_ingest_found(t: Tables, policy: Policy, entry: WordView)
    requires
        t.wf(),
        t.entry(entry.language, entry.dictionary_form) is Some,
    ensures
        run_model(t, policy, RequestView::Checking { entry }) == (
            t,
            RequestView::Done(
                Ok(
                    SuccessView::Found(
                        entry_in(
                            t,
                            entry.language,
                            t.entry(entry.language, entry.dictionary_form)->0,
                        ),
                    ),
                ),
            ),
        ),
{
    lemma_lookup(t, policy, entry.language, entry.dictionary_form);
}

/// A generated entry that the store does not hold yet is stored, against
/// tables that no one else touches and while ids are left: the language is
/// resolved, the word is inserted under the dictionary form of the term, and
/// the one example sentence is recorded for it. The entry comes back with
/// that one sentence, and a lookup of the language and the dictionary form
/// then returns the same entry.
pub proof fn lemma_ingest_created(t: Tables, policy: Policy, entry: WordView)
    requires
        t.wf(),
        t.entry(entry.language, entry.dictionary_form) is None,
        t.has_language(entry.language) || t.language_seq < i32::MAX,
        t.word_seq < i32::MAX,
        t.sentence_seq < i32::MAX,
    ensures
        ({
            let created = EntryView {
                id: (t.word_seq + 1) as i32,
                language: entry.language,
                term: entry.dictionary_form,
                definition: entry.definition,
                sentences: seq![
                    SentenceView {
                        id: (t.sentence_seq + 1) as i32,
                        example: entry.sentence.example,
                        meaning: Some(entry.sentence.meaning),
                    },
                ],
            };
            let with_language = t.resolve_language(entry.language);
            let after = with_language.0.add_word(
                with_language.1,
                entry.dictionary_form,
                entry.definition,
            ).add_sentence(
                t.word_seq + 1,
                entry.sentence.example,
                Some(entry.sentence.meaning),
            );
            &&& after.wf()
            &&& run_model(t, policy, RequestView::Checking { entry }) == (
                after,
                RequestView::Done(Ok(SuccessView::Created(created))),
            )
            &&& run_model(
                after,
                policy,
                RequestView::Finding { language: entry.language, term: entry.dictionary_form },
            ) == (after, RequestView::Done(Ok(SuccessView::Found(created))))
        }),
{
    reveal_with_fuel(run_model, 5);
    let language = entry.language;
    let term = entry.dictionary_form;
    let with_language = t.resolve_language(language);
    let l = with_language.0;
    let id = with_language.1;
    if t.has_language(language) {
        lemma_language_unique(t, t.language_at(language));
    } else {
        lemma_add_language(t, language);
    }
    lemma_add_word(l, id, term, entry.definition);
    let w = l.add_word(id, term, entry.definition);
    let word_id = t.word_seq + 1;
    lemma_add_sentence(w, word_id, entry.sentence.example, Some(entry.sentence.meaning));
    let after = w.add_sentence(word_id, entry.sentence.example, Some(entry.sentence.meaning));
    let stored = SentenceRec {
        id: t.sentence_seq + 1,
        word_id,
        example: entry.sentence.example,
        meaning: Some(entry.sentence.meaning),
    };
    lemma_filter_none(w.sentences, belongs_to(word_id));
    w.sentences.lemma_filter_push(stored, belongs_to(word_id));
    lemma_lookup(after, policy, language, term);
    assert(entry_in(after, language, w.word(id, term)->0).sentences =~= seq![
        SentenceView {
            id: (t.sentence_seq + 1) as i32,
            example: entry.sentence.example,
            meaning: Some(entry.sentence.meaning),
        },
    ]);
}

} // verus!
