//! The relational model of the entry store: the three tables, their keys and
//! the sequences that hand out ids.

use crate::services::filters::{
    lemma_filter_all, lemma_filter_keeps_order, lemma_filter_none, lemma_filter_twice,
};
use vstd::prelude::*;

verus! {

/// A row of the language table.
pub struct LanguageRec {
    pub id: int,
    pub name: Seq<char>,
}

/// A row of the word table.
pub struct WordRec {
    pub id: int,
    pub language_id: int,
    pub term: Seq<char>,
    pub definition: Seq<char>,
}

/// A row of the sentence table.
pub struct SentenceRec {
    pub id: int,
    pub word_id: int,
    pub example: Seq<char>,
    pub meaning: Option<Seq<char>>,
}

/// A word as a listing shows it: with the name of its language.
pub struct ListedRec {
    pub id: int,
    pub language: Seq<char>,
    pub term: Seq<char>,
    pub definition: Seq<char>,
}

/// Whether a row of `rows` has the id `id`.
pub open spec fn language_id_listed(rows: Seq<LanguageRec>, id: int) -> bool {
    exists|i: int| 0 <= i < rows.len() && (#[trigger] rows[i]).id == id
}

/// The position of a row of `rows` that has the id `id`.
pub open spec fn language_id_position(rows: Seq<LanguageRec>, id: int) -> int {
    choose|i: int| 0 <= i < rows.len() && (#[trigger] rows[i]).id == id
}

/// Whether a row of `rows` has the id `id`.
pub open spec fn word_id_listed(rows: Seq<WordRec>, id: int) -> bool {
    exists|i: int| 0 <= i < rows.len() && (#[trigger] rows[i]).id == id
}

/// Whether a row of `rows` has the name `name`.
pub open spec fn language_listed(rows: Seq<LanguageRec>, name: Seq<char>) -> bool {
    exists|i: int| 0 <= i < rows.len() && (#[trigger] rows[i]).name == name
}

/// The position of a row of `rows` that has the name `name`.
pub open spec fn language_position(rows: Seq<LanguageRec>, name: Seq<char>) -> int {
    choose|i: int| 0 <= i < rows.len() && (#[trigger] rows[i]).name == name
}

/// Whether a row of `rows` has the key `(language_id, term)`.
pub open spec fn word_listed(rows: Seq<WordRec>, language_id: int, term: Seq<char>) -> bool {
    exists|i: int|
        0 <= i < rows.len() && (#[trigger] rows[i]).language_id == language_id && rows[i].term
            == term
}

/// The position of a row of `rows` that has the key `(language_id, term)`.
pub open spec fn word_position(rows: Seq<WordRec>, language_id: int, term: Seq<char>) -> int {
    choose|i: int|
        0 <= i < rows.len() && (#[trigger] rows[i]).language_id == language_id && rows[i].term
            == term
}

/// Whether a row of `rows` has the key `(word_id, example)`.
pub open spec fn sentence_listed(rows: Seq<SentenceRec>, word_id: int, example: Seq<char>) -> bool {
    exists|i: int|
        0 <= i < rows.len() && (#[trigger] rows[i]).word_id == word_id && rows[i].example
            == example
}

/// The position of a row of `rows` that has the key `(word_id, example)`.
pub open spec fn sentence_position(
    rows: Seq<SentenceRec>,
    word_id: int,
    example: Seq<char>,
) -> int {
    choose|i: int|
        0 <= i < rows.len() && (#[trigger] rows[i]).word_id == word_id && rows[i].example
            == example
}

/// The test that the language rows named `name` pass.
pub open spec fn is_named(name: Seq<char>) -> spec_fn(LanguageRec) -> bool {
    |row: LanguageRec| row.name == name
}

/// The test that a word row passes unless its id is `id`.
pub open spec fn is_not(id: int) -> spec_fn(WordRec) -> bool {
    |w: WordRec| w.id != id
}

/// The test that the sentences of the word `word_id` pass.
pub open spec fn belongs_to(word_id: int) -> spec_fn(SentenceRec) -> bool {
    |s: SentenceRec| s.word_id == word_id
}

/// The test that the sentences of every word but `word_id` pass.
pub open spec fn belongs_elsewhere(word_id: int) -> spec_fn(SentenceRec) -> bool {
    |s: SentenceRec| s.word_id != word_id
}

/// The test that the sentences of the words in `word_ids` pass.
pub open spec fn belongs_to_any(word_ids: Seq<int>) -> spec_fn(SentenceRec) -> bool {
    |s: SentenceRec| word_ids.contains(s.word_id)
}

/// The three tables, each in insertion order, and for each the last id that
/// its sequence handed out.
pub struct Tables {
    pub languages: Seq<LanguageRec>,
    pub words: Seq<WordRec>,
    pub sentences: Seq<SentenceRec>,
    pub language_seq: int,
    pub word_seq: int,
    pub sentence_seq: int,
}

impl Tables {
    /// No rows, and no id handed out yet.
    pub open spec fn empty() -> Tables {
        Tables {
            languages: Seq::empty(),
            words: Seq::empty(),
            sentences: Seq::empty(),
            language_seq: 0,
            word_seq: 0,
            sentence_seq: 0,
        }
    }

    /// Whether a language row has the id `id`.
    pub open spec fn has_language_id(self, id: int) -> bool {
        language_id_listed(self.languages, id)
    }

    /// Whether a word row has the id `id`.
    pub open spec fn has_word_id(self, id: int) -> bool {
        word_id_listed(self.words, id)
    }

    /// Whether a language row has the name `name`.
    pub open spec fn has_language(self, name: Seq<char>) -> bool {
        language_listed(self.languages, name)
    }

    /// Whether a word row has the key `(language_id, term)`.
    pub open spec fn has_word(self, language_id: int, term: Seq<char>) -> bool {
        word_listed(self.words, language_id, term)
    }

    /// Whether a sentence row has the key `(word_id, example)`.
    pub open spec fn has_sentence(self, word_id: int, example: Seq<char>) -> bool {
        sentence_listed(self.sentences, word_id, example)
    }

    /// The position of a language row with the name `name`.
    pub open spec fn language_at(self, name: Seq<char>) -> int {
        language_position(self.languages, name)
    }

    /// The position of a word row with the key `(language_id, term)`.
    pub open spec fn word_at(self, language_id: int, term: Seq<char>) -> int {
        word_position(self.words, language_id, term)
    }

    /// The position of a sentence row with the key `(word_id, example)`.
    pub open spec fn sentence_at(self, word_id: int, example: Seq<char>) -> int {
        sentence_position(self.sentences, word_id, example)
    }

    /// The language rows named `name`.
    pub open spec fn languages_named(self, name: Seq<char>) -> Seq<LanguageRec> {
        self.languages.filter(is_named(name))
    }

    /// The id of the language named `name`, if there is one.
    pub open spec fn language_id(self, name: Seq<char>) -> Option<int> {
        if self.has_language(name) {
            Some(self.languages[self.language_at(name)].id)
        } else {
            None
        }
    }

    /// The word with the key `(language_id, term)`, if there is one.
    pub open spec fn word(self, language_id: int, term: Seq<char>) -> Option<WordRec> {
        if self.has_word(language_id, term) {
            Some(self.words[self.word_at(language_id, term)])
        } else {
            None
        }
    }

    /// The id of the word with the key `(language_id, term)`, if there is one.
    pub open spec fn word_id(self, language_id: int, term: Seq<char>) -> Option<int> {
        match self.word(language_id, term) {
            Some(word) => Some(word.id),
            None => None,
        }
    }

    /// The id of the sentence with the key `(word_id, example)`, if there is
    /// one.
    pub open spec fn sentence_id(self, word_id: int, example: Seq<char>) -> Option<int> {
        if self.has_sentence(word_id, example) {
            Some(self.sentences[self.sentence_at(word_id, example)].id)
        } else {
            None
        }
    }

    /// The name of the language with the id `id`.
    pub open spec fn language_name(self, id: int) -> Seq<char> {
        self.languages[language_id_position(self.languages, id)].name
    }

    /// The word of the language named `language` that has the term `term`:
    /// the join of the two tables on the language's id.
    pub open spec fn entry(self, language: Seq<char>, term: Seq<char>) -> Option<WordRec> {
        match self.language_id(language) {
            Some(language_id) => self.word(language_id, term),
            None => None,
        }
    }

    /// The sentences of the word `word_id`, in insertion order.
    pub open spec fn sentences_of(self, word_id: int) -> Seq<SentenceRec> {
        self.sentences.filter(belongs_to(word_id))
    }

    /// The sentences of the words whose ids are among `word_ids`, in
    /// insertion order.
    pub open spec fn sentences_among(self, word_ids: Seq<int>) -> Seq<SentenceRec> {
        self.sentences.filter(belongs_to_any(word_ids))
    }

    /// The word at position `i`, with the name of its language.
    pub open spec fn listed(self, i: int) -> ListedRec {
        ListedRec {
            id: self.words[i].id,
            language: self.language_name(self.words[i].language_id),
            term: self.words[i].term,
            definition: self.words[i].definition,
        }
    }

    /// At most `limit` words by ascending id, after skipping the first
    /// `offset` of them.
    pub open spec fn page(self, limit: int, offset: int) -> Seq<ListedRec>
        recommends
            0 <= limit,
            0 <= offset,
    {
        let from = if offset < self.words.len() {
            offset
        } else {
            self.words.len() as int
        };
        let to = if offset + limit < self.words.len() {
            offset + limit
        } else {
            self.words.len() as int
        };
        Seq::new((to - from) as nat, |k: int| self.listed(from + k))
    }

    /// The tables after a language named `name` was inserted: the row is
    /// last, under the next id of the sequence.
    pub open spec fn add_language(self, name: Seq<char>) -> Tables {
        Tables {
            languages: self.languages.push(LanguageRec { id: self.language_seq + 1, name }),
            language_seq: self.language_seq + 1,
            ..self
        }
    }

    /// The tables after a word was inserted: the row is last, under the next
    /// id of the sequence.
    pub open spec fn add_word(
        self,
        language_id: int,
        term: Seq<char>,
        definition: Seq<char>,
    ) -> Tables {
        Tables {
            words: self.words.push(
                WordRec { id: self.word_seq + 1, language_id, term, definition },
            ),
            word_seq: self.word_seq + 1,
            ..self
        }
    }

    /// The tables after a sentence was inserted: the row is last, under the
    /// next id of the sequence.
    pub open spec fn add_sentence(
        self,
        word_id: int,
        example: Seq<char>,
        meaning: Option<Seq<char>>,
    ) -> Tables {
        Tables {
            sentences: self.sentences.push(
                SentenceRec { id: self.sentence_seq + 1, word_id, example, meaning },
            ),
            sentence_seq: self.sentence_seq + 1,
            ..self
        }
    }

    /// The tables after the word at position `at` took the definition
    /// `definition`.
    pub open spec fn set_definition(self, at: int, definition: Seq<char>) -> Tables {
        Tables {
            words: self.words.update(at, WordRec { definition, ..self.words[at] }),
            ..self
        }
    }

    /// The tables after the sentence at position `at` took the meaning
    /// `meaning`.
    pub open spec fn set_meaning(self, at: int, meaning: Option<Seq<char>>) -> Tables {
        Tables {
            sentences: self.sentences.update(at, SentenceRec { meaning, ..self.sentences[at] }),
            ..self
        }
    }

    /// Resolving the language named `name`: the tables afterwards and the
    /// language's id. A language that exists is reused; one that is missing
    /// is inserted.
    pub open spec fn resolve_language(self, name: Seq<char>) -> (Tables, int) {
        match self.language_id(name) {
            Some(id) => (self, id),
            None => (self.add_language(name), self.language_seq + 1),
        }
    }

    /// Resolving the word with the key `(language_id, term)`: the tables
    /// afterwards and the word's id. A word that is missing is inserted with
    /// the definition `definition`. A word that exists is reused: it keeps its
    /// definition, unless `overwrite` holds, when it takes `definition`.
    pub open spec fn resolve_word(
        self,
        overwrite: bool,
        language_id: int,
        term: Seq<char>,
        definition: Seq<char>,
    ) -> (Tables, int) {
        match self.word(language_id, term) {
            Some(word) => (
                if overwrite {
                    self.set_definition(self.word_at(language_id, term), definition)
                } else {
                    self
                },
                word.id,
            ),
            None => (self.add_word(language_id, term, definition), self.word_seq + 1),
        }
    }

    /// Resolving the sentence with the key `(word_id, example)`: the tables
    /// afterwards and the sentence's id. A sentence that is missing is
    /// inserted with the meaning `meaning`. A sentence that exists is reused:
    /// it keeps its meaning, unless `overwrite` holds, when it takes
    /// `meaning`.
    pub open spec fn resolve_sentence(
        self,
        overwrite: bool,
        word_id: int,
        example: Seq<char>,
        meaning: Option<Seq<char>>,
    ) -> (Tables, int) {
        match self.sentence_id(word_id, example) {
            Some(id) => (
                if overwrite {
                    self.set_meaning(self.sentence_at(word_id, example), meaning)
                } else {
                    self
                },
                id,
            ),
            None => (self.add_sentence(word_id, example, meaning), self.sentence_seq + 1),
        }
    }

    /// The tables after the word `id` was deleted: its row is gone, and with
    /// it every sentence that belonged to it. The other rows keep their
    /// order, and no sequence moves.
    pub open spec fn remove_word(self, id: int) -> Tables {
        Tables {
            words: self.words.filter(is_not(id)),
            sentences: self.sentences.filter(belongs_elsewhere(id)),
            ..self
        }
    }

    /// The language table: the ids come from the sequence, which counts in
    /// 32 bits, and ascend with the position; no two rows share a name.
    pub open spec fn languages_wf(self) -> bool {
        &&& 0 <= self.language_seq <= i32::MAX
        &&& forall|i: int|
            0 <= i < self.languages.len() ==> 0 < (#[trigger] self.languages[i]).id
                <= self.language_seq
        &&& forall|i: int, j: int|
            0 <= i < j < self.languages.len() ==> (#[trigger] self.languages[i]).id < (
            #[trigger] self.languages[j]).id
        &&& forall|i: int, j: int|
            0 <= i < j < self.languages.len() ==> (#[trigger] self.languages[i]).name != (
            #[trigger] self.languages[j]).name
    }

    /// The word table: ids as in the language table; no two rows share the key
    /// `(language_id, term)`; each row refers to a language that exists.
    pub open spec fn words_wf(self) -> bool {
        &&& 0 <= self.word_seq <= i32::MAX
        &&& forall|i: int|
            0 <= i < self.words.len() ==> 0 < (#[trigger] self.words[i]).id <= self.word_seq
        &&& forall|i: int, j: int|
            0 <= i < j < self.words.len() ==> (#[trigger] self.words[i]).id < (
            #[trigger] self.words[j]).id
        &&& forall|i: int, j: int|
            0 <= i < j < self.words.len() ==> !((#[trigger] self.words[i]).language_id == (
            #[trigger] self.words[j]).language_id && self.words[i].term == self.words[j].term)
        &&& forall|i: int|
            0 <= i < self.words.len() ==> self.has_language_id(
                (#[trigger] self.words[i]).language_id,
            )
    }

    /// The sentence table: ids as in the language table; no two rows share the
    /// key `(word_id, example)`; each row refers to a word that exists.
    pub open spec fn sentences_wf(self) -> bool {
        &&& 0 <= self.sentence_seq <= i32::MAX
        &&& forall|i: int|
            0 <= i < self.sentences.len() ==> 0 < (#[trigger] self.sentences[i]).id
                <= self.sentence_seq
        &&& forall|i: int, j: int|
            0 <= i < j < self.sentences.len() ==> (#[trigger] self.sentences[i]).id < (
            #[trigger] self.sentences[j]).id
        &&& forall|i: int, j: int|
            0 <= i < j < self.sentences.len() ==> !((#[trigger] self.sentences[i]).word_id == (
            #[trigger] self.sentences[j]).word_id && self.sentences[i].example
                == self.sentences[j].example)
        &&& forall|i: int|
            0 <= i < self.sentences.len() ==> self.has_word_id(
                (#[trigger] self.sentences[i]).word_id,
            )
    }

    /// The invariant of the store: unique keys, 32-bit ids from the
    /// sequences in ascending order, and no reference to a row that does not
    /// exist.
    pub open spec fn wf(self) -> bool {
        &&& self.languages_wf()
        &&& self.words_wf()
        &&& self.sentences_wf()
    }
}

/// Under the invariant a name stands for one row: the language found by name
/// is the row at any position that holds the name.
pub proof fn lemma_language_unique(t: Tables, i: int)
    requires
        t.languages_wf(),
        0 <= i < t.languages.len(),
    ensures
        t.has_language(t.languages[i].name),
        t.language_at(t.languages[i].name) == i,
        t.language_id(t.languages[i].name) == Some(t.languages[i].id),
{
}

/// Under the invariant no name has more than one row: a name that the table
/// holds has exactly one, with the id that the name stands for.
pub proof fn lemma_one_row_per_name(t: Tables, name: Seq<char>)
    requires
        t.languages_wf(),
    ensures
        match t.language_id(name) {
            Some(id) => t.languages_named(name) == seq![LanguageRec { id, name }],
            None => t.languages_named(name) == Seq::<LanguageRec>::empty(),
        },
{
    let named = t.languages_named(name);
    lemma_filter_keeps_order(t.languages, is_named(name), |row: LanguageRec| row.id);
    if t.has_language(name) {
        let at = t.language_at(name);
        lemma_language_unique(t, at);
        if named.len() > 1 {
            assert(named[0].id < named[1].id);
        }
    } else {
        if named.len() > 0 {
            assert(t.languages.contains(named[0]));
        }
    }
}

/// Under the invariant a key stands for one word row.
pub proof fn lemma_word_unique(t: Tables, i: int)
    requires
        t.words_wf(),
        0 <= i < t.words.len(),
    ensures
        t.has_word(t.words[i].language_id, t.words[i].term),
        t.word_at(t.words[i].language_id, t.words[i].term) == i,
        t.word(t.words[i].language_id, t.words[i].term) == Some(t.words[i]),
{
}

/// Under the invariant a key stands for one sentence row.
pub proof fn lemma_sentence_unique(t: Tables, i: int)
    requires
        t.sentences_wf(),
        0 <= i < t.sentences.len(),
    ensures
        t.has_sentence(t.sentences[i].word_id, t.sentences[i].example),
        t.sentence_at(t.sentences[i].word_id, t.sentences[i].example) == i,
        t.sentence_id(t.sentences[i].word_id, t.sentences[i].example) == Some(t.sentences[i].id),
{
}

/// Inserting a language whose name is new, while an id is left, keeps the
/// invariant; the name then stands for the new id, and every other name for
/// what it stood for.
pub proof fn lemma_add_language(t: Tables, name: Seq<char>)
    requires
        t.wf(),
        !t.has_language(name),
        t.language_seq < i32::MAX,
    ensures
        t.add_language(name).wf(),
        t.add_language(name).language_id(name) == Some(t.language_seq + 1),
        forall|other: Seq<char>|
            other != name ==> #[trigger] t.add_language(name).language_id(other) == t.language_id(
                other,
            ),
        forall|id: int|
            t.has_language_id(id) ==> #[trigger] t.add_language(name).has_language_id(id),
{
    let after = t.add_language(name);
    let last = t.languages.len() as int;
    assert forall|id: int| t.has_language_id(id) implies #[trigger] after.has_language_id(id) by {
        let k = choose|k: int| 0 <= k < t.languages.len() && (#[trigger] t.languages[k]).id == id;
        assert(after.languages[k].id == id);
    }
    lemma_language_unique(after, last);
    assert forall|other: Seq<char>| other != name implies #[trigger] after.language_id(other)
        == t.language_id(other) by {
        if t.has_language(other) {
            let k = t.language_at(other);
            assert(after.languages[k] == t.languages[k]);
        }
    }
}

/// Inserting a word whose key is new, for a language that exists and while
/// an id is left, keeps the invariant; the key then stands for the new row,
/// and every other key for what it stood for.
pub proof fn lemma_add_word(t: Tables, language_id: int, term: Seq<char>, definition: Seq<char>)
    requires
        t.wf(),
        t.has_language_id(language_id),
        !t.has_word(language_id, term),
        t.word_seq < i32::MAX,
    ensures
        t.add_word(language_id, term, definition).wf(),
        t.add_word(language_id, term, definition).word(language_id, term) == Some(
            WordRec { id: t.word_seq + 1, language_id, term, definition },
        ),
        forall|l: int, other: Seq<char>|
            !(l == language_id && other == term) ==> #[trigger] t.add_word(
                language_id,
                term,
                definition,
            ).word(l, other) == t.word(l, other),
        forall|id: int|
            t.has_word_id(id) ==> #[trigger] t.add_word(language_id, term, definition).has_word_id(
                id,
            ),
{
    let after = t.add_word(language_id, term, definition);
    let last = t.words.len() as int;
    assert forall|id: int| t.has_word_id(id) implies #[trigger] after.has_word_id(id) by {
        let k = choose|k: int| 0 <= k < t.words.len() && (#[trigger] t.words[k]).id == id;
        assert(after.words[k].id == id);
    }
    lemma_word_unique(after, last);
    assert forall|l: int, other: Seq<char>| !(l == language_id && other == term) implies (
    #[trigger] after.word(l, other)) == t.word(l, other) by {
        if t.has_word(l, other) {
            let k = t.word_at(l, other);
            assert(after.words[k] == t.words[k]);
        }
    }
}

/// Inserting a sentence whose key is new, for a word that exists and while
/// an id is left, keeps the invariant; the key then stands for the new id,
/// and every other key for what it stood for.
pub proof fn lemma_add_sentence(
    t: Tables,
    word_id: int,
    example: Seq<char>,
    meaning: Option<Seq<char>>,
)
    requires
        t.wf(),
        t.has_word_id(word_id),
        !t.has_sentence(word_id, example),
        t.sentence_seq < i32::MAX,
    ensures
        t.add_sentence(word_id, example, meaning).wf(),
        t.add_sentence(word_id, example, meaning).sentence_id(word_id, example) == Some(
            t.sentence_seq + 1,
        ),
        forall|w: int, other: Seq<char>|
            !(w == word_id && other == example) ==> #[trigger] t.add_sentence(
                word_id,
                example,
                meaning,
            ).sentence_id(w, other) == t.sentence_id(w, other),
{
    let after = t.add_sentence(word_id, example, meaning);
    let last = t.sentences.len() as int;
    lemma_sentence_unique(after, last);
    assert forall|w: int, other: Seq<char>| !(w == word_id && other == example) implies (
    #[trigger] after.sentence_id(w, other)) == t.sentence_id(w, other) by {
        if t.has_sentence(w, other) {
            let k = t.sentence_at(w, other);
            assert(after.sentences[k] == t.sentences[k]);
        }
    }
}

/// Deleting a word keeps the invariant. Its row and every sentence of it are
/// gone; every other word, and the sentences of every other word, stay as
/// they were. Deleting an id that no word has changes nothing.
pub proof fn lemma_remove_word(t: Tables, id: int)
    requires
        t.wf(),
    ensures
        t.remove_word(id).wf(),
        !t.remove_word(id).has_word_id(id),
        t.remove_word(id).sentences_of(id) == Seq::<SentenceRec>::empty(),
        forall|l: int, term: Seq<char>| #[trigger]
            t.remove_word(id).word(l, term) == (match t.word(l, term) {
                Some(w) => if w.id == id {
                    None
                } else {
                    Some(w)
                },
                None => None,
            }),
        forall|w: int|
            w != id ==> #[trigger] t.remove_word(id).sentences_of(w) == t.sentences_of(w),
        !t.has_word_id(id) ==> t.remove_word(id) == t,
{
    let after = t.remove_word(id);
    lemma_filter_keeps_order(t.words, is_not(id), |w: WordRec| w.id);
    lemma_filter_keeps_order(t.sentences, belongs_elsewhere(id), |s: SentenceRec| s.id);
    assert(after.sentences_of(id) == Seq::<SentenceRec>::empty()) by {
        lemma_filter_none(after.sentences, belongs_to(id));
    }
    assert forall|w: int| w != id implies #[trigger] after.sentences_of(w) == t.sentences_of(w) by {
        lemma_filter_twice(t.sentences, belongs_elsewhere(id), belongs_to(w));
    }
    if !t.has_word_id(id) {
        lemma_filter_all(t.words, is_not(id));
        lemma_filter_all(t.sentences, belongs_elsewhere(id));
    }
}

/// Overwriting the definition of a word keeps the invariant and every key:
/// each lookup finds the row it found, and the overwritten row carries the
/// new definition.
pub proof fn lemma_set_definition(t: Tables, at: int, definition: Seq<char>)
    requires
        t.wf(),
        0 <= at < t.words.len(),
    ensures
        t.set_definition(at, definition).wf(),
        forall|id: int| #[trigger]
            t.set_definition(at, definition).has_word_id(id) == t.has_word_id(id),
        forall|l: int, term: Seq<char>| #[trigger]
            t.set_definition(at, definition).word(l, term) == (match t.word(l, term) {
                Some(w) => Some(
                    if w.id == t.words[at].id {
                        WordRec { definition, ..w }
                    } else {
                        w
                    },
                ),
                None => None,
            }),
{
    let after = t.set_definition(at, definition);
    assert forall|id: int| #[trigger] after.has_word_id(id) == t.has_word_id(id) by {
        if t.has_word_id(id) {
            let k = choose|k: int| 0 <= k < t.words.len() && (#[trigger] t.words[k]).id == id;
            assert(after.words[k].id == id);
        }
    }
    assert forall|l: int, term: Seq<char>| #[trigger]
        after.word(l, term) == (match t.word(l, term) {
            Some(w) => Some(
                if w.id == t.words[at].id {
                    WordRec { definition, ..w }
                } else {
                    w
                },
            ),
            None => None,
        }) by {
        if t.has_word(l, term) {
            let k = t.word_at(l, term);
            assert(after.words[k].language_id == l && after.words[k].term == term);
        }
    }
}

/// Overwriting the meaning of a sentence keeps the invariant and every key.
pub proof fn lemma_set_meaning(t: Tables, at: int, meaning: Option<Seq<char>>)
    requires
        t.wf(),
        0 <= at < t.sentences.len(),
    ensures
        t.set_meaning(at, meaning).wf(),
        forall|w: int, example: Seq<char>| #[trigger]
            t.set_meaning(at, meaning).sentence_id(w, example) == t.sentence_id(w, example),
{
    let after = t.set_meaning(at, meaning);
    assert forall|w: int, example: Seq<char>| #[trigger]
        after.sentence_id(w, example) == t.sentence_id(w, example) by {
        if t.has_sentence(w, example) {
            let k = t.sentence_at(w, example);
            assert(after.sentences[k].word_id == w && after.sentences[k].example == example);
        }
    }
}

/// Under the invariant a page holds at most `limit` words; they ascend by
/// id, and each id is that of a word of the table and fits in 32 bits.
pub proof fn lemma_page(t: Tables, limit: int, offset: int)
    requires
        t.wf(),
        0 <= limit,
        0 <= offset,
    ensures
        t.page(limit, offset).len() <= limit,
        forall|i: int|
            0 <= i < t.page(limit, offset).len() ==> 0 < (#[trigger] t.page(limit, offset)[i]).id
                <= i32::MAX && t.has_word_id(t.page(limit, offset)[i].id),
        forall|i: int, j: int|
            0 <= i < j < t.page(limit, offset).len() ==> (#[trigger] t.page(limit, offset)[i]).id
                < (#[trigger] t.page(limit, offset)[j]).id,
{
}

} // verus!
