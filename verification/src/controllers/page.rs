//! The assembly of a page of entries from one page of words and one batch
//! of sentences.

use crate::controllers::word_controller::{EntryView, SentenceResponse, SentenceView, WordResponse};
use crate::services::db::{BatchRow, BatchRowView, WordRow, WordRowView};
use std::collections::HashMap;
use vstd::prelude::*;

verus! {

broadcast use vstd::std_specs::hash::group_hash_axioms;

/// The ids of the words of a page, in page order.
pub fn page_word_ids(words: &Vec<WordRow>) -> (ids: Vec<i32>)
    ensures
        ids@ == words.deep_view().map_values(|w: WordRowView| w.0),
{
    let mut ids: Vec<i32> = Vec::new();
    let mut i: usize = 0;
    while i < words.len()
        invariant
            i <= words.len(),
            ids@ == words.deep_view().take(i as int).map_values(|w: WordRowView| w.0),
        decreases words.len() - i,
    {
        ids.push(words[i].0);
        i += 1;
    }
    ids
}

/// The sentence that a batch row stands for.
pub open spec fn as_sentence(row: BatchRowView) -> SentenceView {
    SentenceView { id: row.0, example: row.2, meaning: row.3 }
}

/// The test that picks the batch rows of the word `word_id`.
pub open spec fn of_word(word_id: i32) -> spec_fn(BatchRowView) -> bool {
    |row: BatchRowView| row.1 == word_id
}

/// The sentences of a batch that belong to the word `word_id`, in batch order.
pub open spec fn own_sentences(batch: Seq<BatchRowView>, word_id: i32) -> Seq<SentenceView> {
    batch.filter(of_word(word_id)).map_values(|row: BatchRowView| as_sentence(row))
}

/// Whether the id of the word at `i` already occurs earlier in the page.
pub open spec fn listed_before(words: Seq<WordRowView>, i: int) -> bool {
    exists|j: int| 0 <= j < i && words[j].0 == words[i].0
}

/// The entry for the word at `i` of a page: the word's own fields, and the
/// sentences of the batch that belong to it. A word whose id was already
/// listed earlier in the page finds its group taken and gets no sentences.
pub open spec fn entry_at(words: Seq<WordRowView>, batch: Seq<BatchRowView>, i: int) -> EntryView {
    EntryView {
        id: words[i].0,
        language: words[i].1,
        term: words[i].2,
        definition: words[i].3,
        sentences: if listed_before(words, i) {
            Seq::empty()
        } else {
            own_sentences(batch, words[i].0)
        },
    }
}

/// The entries of a page, in page order.
pub open spec fn page_entries(words: Seq<WordRowView>, batch: Seq<BatchRowView>) -> Seq<
    EntryView,
> {
    Seq::new(words.len(), |i: int| entry_at(words, batch, i))
}

/// The sentences of a word after one more batch row.
pub proof fn lemma_own_sentences_push(batch: Seq<BatchRowView>, row: BatchRowView, word_id: i32)
    ensures
        own_sentences(batch.push(row), word_id) == if row.1 == word_id {
            own_sentences(batch, word_id).push(as_sentence(row))
        } else {
            own_sentences(batch, word_id)
        },
{
    batch.lemma_filter_push(row, of_word(word_id));
    let kept = batch.filter(of_word(word_id));
    assert(kept.push(row).map_values(|row: BatchRowView| as_sentence(row)) == kept.map_values(
        |row: BatchRowView| as_sentence(row),
    ).push(as_sentence(row)));
}

/// Groups the sentences of a batch by the id of their word. A word has a
/// group exactly when the batch holds a sentence of it, and the group holds
/// its sentences in batch order.
pub fn group_sentences(batch: Vec<BatchRow>) -> (groups: HashMap<i32, Vec<SentenceResponse>>)
    ensures
        forall|w: i32| #[trigger]
            groups@.contains_key(w) <==> own_sentences(batch.deep_view(), w).len() > 0,
        forall|w: i32| #[trigger]
            groups@.contains_key(w) ==> groups@[w].deep_view() == own_sentences(
                batch.deep_view(),
                w,
            ),
{
    let ghost all = batch.deep_view();
    let mut groups: HashMap<i32, Vec<SentenceResponse>> = HashMap::new();
    for row in it: batch
        invariant
            it.seq().len() == all.len(),
            forall|k: int| 0 <= k < all.len() ==> #[trigger] it.seq()[k].deep_view() == all[k],
            forall|w: i32| #[trigger]
                groups@.contains_key(w) <==> own_sentences(all.take(it.index() as int), w).len()
                    > 0,
            forall|w: i32| #[trigger]
                groups@.contains_key(w) ==> groups@[w].deep_view() == own_sentences(
                    all.take(it.index() as int),
                    w,
                ),
    {
        let ghost seen = all.take(it.index() as int);
        let ghost shown = row.deep_view();
        let (id, word_id, example, meaning) = row;
        let sentence = SentenceResponse { id, example, meaning };
        proof {
            assert(all.take(it.index() + 1) == seen.push(shown));
            assert forall|w: i32|
                own_sentences(seen.push(shown), w) == if shown.1 == w {
                    own_sentences(seen, w).push(as_sentence(shown))
                } else {
                    own_sentences(seen, w)
                } by {
                lemma_own_sentences_push(seen, shown, w);
            }
        }
        let mut group = match groups.remove(&word_id) {
            Some(group) => group,
            None => Vec::new(),
        };
        group.push(sentence);
        groups.insert(word_id, group);
    }
    proof {
        assert(all.take(all.len() as int) == all);
    }
    groups
}

/// Attaches to each word of a page its sentences from one batch, in page
/// order: the words are listed as they came, and each carries the sentences
/// of the batch whose word id is its own, and no others.
pub fn assemble_page(words: Vec<WordRow>, batch: Vec<BatchRow>) -> (entries: Vec<WordResponse>)
    ensures
        entries.deep_view() == page_entries(words.deep_view(), batch.deep_view()),
{
    let ghost page = words.deep_view();
    let ghost all = batch.deep_view();
    let mut groups = group_sentences(batch);
    let ghost grouped = groups@;
    let mut entries: Vec<WordResponse> = Vec::new();
    for word in it: words
        invariant
            it.seq().len() == page.len(),
            forall|k: int| 0 <= k < page.len() ==> #[trigger] it.seq()[k].deep_view() == page[k],
            forall|w: i32| #[trigger]
                grouped.contains_key(w) <==> own_sentences(all, w).len() > 0,
            forall|w: i32| #[trigger]
                grouped.contains_key(w) ==> grouped[w].deep_view() == own_sentences(all, w),
            forall|w: i32| #[trigger]
                groups@.contains_key(w) <==> grouped.contains_key(w) && !(exists|j: int|
                    0 <= j < it.index() && page[j].0 == w),
            forall|w: i32| #[trigger] groups@.contains_key(w) ==> groups@[w] == grouped[w],
            entries.len() == it.index(),
            forall|k: int|
                0 <= k < it.index() ==> #[trigger] entries[k]@ == entry_at(page, all, k),
    {
        let ghost at = it.index() as int;
        proof {
            assert(it.seq()[at].deep_view() == page[at]);
        }
        let (id, language, term, definition) = word;
        let sentences = match groups.remove(&id) {
            Some(group) => group,
            None => Vec::new(),
        };
        proof {
            if listed_before(page, at) {
                assert(sentences.deep_view() == Seq::<SentenceView>::empty());
            } else {
                assert(sentences.deep_view() == own_sentences(all, id));
            }
        }
        entries.push(WordResponse { id, language, term, definition, sentences });
    }
    entries
}

} // verus!
