//! The entry store, kept in memory: the relational model of `tables` made
//! executable. Each statement-level operation does in one indivisible step
//! what one statement does against a database, and the operations of the
//! service (resolve, look up, list, delete) are built on them. A service
//! that keeps its entries in a database issues the same statements there;
//! this store is what the requests are proved and tried against.

use crate::services::reconcile::{
    serve_language, serve_sentence, serve_word, Policy, Reply, Resolution, Statement,
};
use crate::services::tables::{
    belongs_elsewhere, belongs_to, belongs_to_any, is_not, lemma_add_language,
    lemma_add_sentence, lemma_add_word, lemma_remove_word, lemma_set_definition,
    lemma_set_meaning, LanguageRec, ListedRec, SentenceRec, Tables, WordRec,
};
use vstd::prelude::*;

verus! {

/// Why the store refused a statement.
#[derive(Debug, Clone, Copy, PartialEq, Eq, Structural)]
pub enum StoreError {
    /// A row with the same unique key exists already.
    UniqueViolation,
    /// The row refers to a row that does not exist.
    ForeignKeyViolation,
    /// Anything else: a sequence without an id left, a window that starts or
    /// ends below zero, a backend that cannot be reached.
    Other,
}

/// The SQLSTATE code by which a relational backend reports a uniqueness
/// conflict.
pub const UNIQUE_VIOLATION: &'static str = "23505";

/// The SQLSTATE code by which a relational backend reports a reference to a
/// row that does not exist.
pub const FOREIGN_KEY_VIOLATION: &'static str = "23503";

/// Whether two texts are the same.
fn same_text(one: &str, other: &str) -> (same: bool)
    ensures
        same == (one@ == other@),
{
    one.to_owned() == other.to_owned()
}

impl StoreError {
    /// The refusal that a backend's error stands for, given its SQLSTATE
    /// code, if it has one: the two codes that the service tells apart, and
    /// `Other` for every other code and for an error without a code.
    pub fn from_sqlstate(code: Option<&str>) -> (e: StoreError)
        ensures
            e == match code {
                Some(code) => if code@ == UNIQUE_VIOLATION@ {
                    StoreError::UniqueViolation
                } else if code@ == FOREIGN_KEY_VIOLATION@ {
                    StoreError::ForeignKeyViolation
                } else {
                    StoreError::Other
                },
                None => StoreError::Other,
            },
    {
        match code {
            Some(code) => if same_text(code, UNIQUE_VIOLATION) {
                StoreError::UniqueViolation
            } else if same_text(code, FOREIGN_KEY_VIOLATION) {
                StoreError::ForeignKeyViolation
            } else {
                StoreError::Other
            },
            None => StoreError::Other,
        }
    }
}

/// A word as a lookup hands it out: id, term, definition.
pub type FoundWord = (i32, String, String);

/// A word as a listing hands it out: id, language, term, definition.
pub type WordRow = (i32, String, String, String);

/// A sentence of one word as the store hands it out: id, example, meaning.
pub type SentenceRow = (i32, String, Option<String>);

/// A sentence of a batch as the store hands it out: id, word id, example,
/// meaning.
pub type BatchRow = (i32, i32, String, Option<String>);

/// What a `FoundWord` holds.
pub type FoundWordView = (i32, Seq<char>, Seq<char>);

/// What a `WordRow` holds.
pub type WordRowView = (i32, Seq<char>, Seq<char>, Seq<char>);

/// What a `SentenceRow` holds.
pub type SentenceRowView = (i32, Seq<char>, Option<Seq<char>>);

/// What a `BatchRow` holds.
pub type BatchRowView = (i32, i32, Seq<char>, Option<Seq<char>>);

/// The row that a lookup hands out for a word.
pub open spec fn found_row(word: WordRec) -> FoundWordView {
    (word.id as i32, word.term, word.definition)
}

/// The row that a listing hands out for a word.
pub open spec fn word_row(word: ListedRec) -> WordRowView {
    (word.id as i32, word.language, word.term, word.definition)
}

/// The row that the store hands out for a sentence of one word.
pub open spec fn sentence_row(sentence: SentenceRec) -> SentenceRowView {
    (sentence.id as i32, sentence.example, sentence.meaning)
}

/// The row that the store hands out for a sentence of a batch.
pub open spec fn batch_row(sentence: SentenceRec) -> BatchRowView {
    (sentence.id as i32, sentence.word_id as i32, sentence.example, sentence.meaning)
}

/// The ids of `ids` as the tables hold them.
pub open spec fn wide(ids: Seq<i32>) -> Seq<int> {
    ids.map_values(|id: i32| id as int)
}

/// A stored language.
struct StoredLanguage {
    id: i32,
    name: String,
}

/// A stored word.
struct StoredWord {
    id: i32,
    language_id: i32,
    term: String,
    definition: String,
}

/// A stored sentence.
struct StoredSentence {
    id: i32,
    word_id: i32,
    example: String,
    meaning: Option<String>,
}

impl DeepView for StoredLanguage {
    type V = LanguageRec;

    closed spec fn deep_view(&self) -> LanguageRec {
        LanguageRec { id: self.id as int, name: self.name@ }
    }
}

impl DeepView for StoredWord {
    type V = WordRec;

    closed spec fn deep_view(&self) -> WordRec {
        WordRec {
            id: self.id as int,
            language_id: self.language_id as int,
            term: self.term@,
            definition: self.definition@,
        }
    }
}

impl DeepView for StoredSentence {
    type V = SentenceRec;

    closed spec fn deep_view(&self) -> SentenceRec {
        SentenceRec {
            id: self.id as int,
            word_id: self.word_id as int,
            example: self.example@,
            meaning: self.meaning.deep_view(),
        }
    }
}

/// The entry store, held in memory: the three tables in insertion order.
/// `new` makes a well-formed store and every operation keeps it so.
pub struct Store {
    languages: Vec<StoredLanguage>,
    words: Vec<StoredWord>,
    sentences: Vec<StoredSentence>,
    language_seq: i32,
    word_seq: i32,
    sentence_seq: i32,
    policy: Policy,
}

impl View for Store {
    type V = Tables;

    closed spec fn view(&self) -> Tables {
        Tables {
            languages: self.languages.deep_view(),
            words: self.words.deep_view(),
            sentences: self.sentences.deep_view(),
            language_seq: self.language_seq as int,
            word_seq: self.word_seq as int,
            sentence_seq: self.sentence_seq as int,
        }
    }
}

impl Store {
    /// The policy by which rows are resolved against this store.
    pub closed spec fn policy(&self) -> Policy {
        self.policy
    }

    /// A store without rows, whose rows are resolved by `CheckThenInsert`.
    pub fn new() -> (store: Store)
        ensures
            store@ == Tables::empty(),
            store@.wf(),
            store.policy() == Policy::CheckThenInsert,
    {
        Store::with_policy(Policy::CheckThenInsert)
    }

    /// A store without rows, whose rows are resolved by `policy`.
    pub fn with_policy(policy: Policy) -> (store: Store)
        ensures
            store@ == Tables::empty(),
            store@.wf(),
            store.policy() == policy,
    {
        let store = Store {
            languages: Vec::new(),
            words: Vec::new(),
            sentences: Vec::new(),
            language_seq: 0,
            word_seq: 0,
            sentence_seq: 0,
            policy,
        };
        assert(store@.languages == Seq::<LanguageRec>::empty());
        assert(store@.words == Seq::<WordRec>::empty());
        assert(store@.sentences == Seq::<SentenceRec>::empty());
        store
    }

    /// The policy by which rows are resolved against this store.
    pub fn reconciliation(&self) -> (policy: Policy)
        ensures
            policy == self.policy(),
    {
        self.policy
    }

    /// The position of the language named `name`.
    fn language_position(&self, name: &String) -> (at: Option<usize>)
        ensures
            match at {
                Some(i) => i < self.languages.len() && self@.languages[i as int].name == name@,
                None => !self@.has_language(name@),
            },
    {
        let mut i: usize = 0;
        while i < self.languages.len()
            invariant
                i <= self.languages.len(),
                forall|k: int| 0 <= k < i ==> self.languages[k].name@ != name@,
            decreases self.languages.len() - i,
        {
            if self.languages[i].name == *name {
                return Some(i);
            }
            i += 1;
        }
        None
    }

    /// The id of the language named `name`, if the store holds one.
    pub fn find_language(&self, name: &str) -> (found: Option<i32>)
        requires
            self@.wf(),
        ensures
            found.is_some() == self@.language_id(name@).is_some(),
            found matches Some(id) ==> self@.language_id(name@) == Some(id as int),
    {
        let name = name.to_owned();
        match self.language_position(&name) {
            Some(i) => {
                Some(self.languages[i].id)
            },
            None => None,
        }
    }

    /// Inserts a language named `name` under the next id. The store refuses
    /// a name that it holds already, and an insert when no id is left.
    pub fn insert_language(&mut self, name: &str) -> (inserted: Result<i32, StoreError>)
        requires
            old(self)@.wf(),
        ensures
            final(self)@.wf(),
            final(self).policy() == old(self).policy(),
            inserted is Ok <==> !old(self)@.has_language(name@) && old(self)@.language_seq
                < i32::MAX,
            match inserted {
                Ok(id) => id == old(self)@.language_seq + 1 && final(self)@ == old(
                    self,
                )@.add_language(name@),
                Err(e) => final(self)@ == old(self)@ && e == if old(self)@.has_language(name@) {
                    StoreError::UniqueViolation
                } else {
                    StoreError::Other
                },
            },
    {
        let name = name.to_owned();
        if self.language_position(&name).is_some() {
            return Err(StoreError::UniqueViolation);
        }
        if self.language_seq == i32::MAX {
            return Err(StoreError::Other);
        }
        let id = self.language_seq + 1;
        proof {
            lemma_add_language(self@, name@);
        }
        let ghost before = self@;
        self.language_seq = id;
        self.languages.push(StoredLanguage { id, name });
        proof {
            assert(self@.languages == before.add_language(name@).languages);
        }
        Ok(id)
    }

    /// The position of the language with the id `id`.
    fn language_id_position(&self, id: i32) -> (at: Option<usize>)
        ensures
            match at {
                Some(i) => i < self.languages.len() && self@.languages[i as int].id == id,
                None => !self@.has_language_id(id as int),
            },
    {
        let mut i: usize = 0;
        while i < self.languages.len()
            invariant
                i <= self.languages.len(),
                forall|k: int| 0 <= k < i ==> self.languages[k].id != id,
            decreases self.languages.len() - i,
        {
            if self.languages[i].id == id {
                return Some(i);
            }
            i += 1;
        }
        None
    }

    /// The position of the language with the id `id`, which the store
    /// holds.
    fn language_index(&self, id: i32) -> (at: usize)
        requires
            self@.has_language_id(id as int),
        ensures
            at < self.languages.len(),
            self@.languages[at as int].id == id,
    {
        let ghost held = choose|k: int|
            0 <= k < self@.languages.len() && (#[trigger] self@.languages[k]).id == id;
        let mut at: usize = 0;
        while self.languages[at].id != id
            invariant
                at <= held < self.languages.len(),
                self@.languages[held].id == id,
            decreases self.languages.len() - at,
        {
            at += 1;
        }
        at
    }

    /// The position of the word with the id `id`.
    fn word_id_position(&self, id: i32) -> (at: Option<usize>)
        ensures
            match at {
                Some(i) => i < self.words.len() && self@.words[i as int].id == id,
                None => !self@.has_word_id(id as int),
            },
    {
        let mut i: usize = 0;
        while i < self.words.len()
            invariant
                i <= self.words.len(),
                forall|k: int| 0 <= k < i ==> self.words[k].id != id,
            decreases self.words.len() - i,
        {
            if self.words[i].id == id {
                return Some(i);
            }
            i += 1;
        }
        None
    }

    /// The position of the word with the key `(language_id, term)`.
    fn word_position(&self, language_id: i32, term: &String) -> (at: Option<usize>)
        ensures
            match at {
                Some(i) => i < self.words.len() && self@.words[i as int].language_id
                    == language_id && self@.words[i as int].term == term@,
                None => !self@.has_word(language_id as int, term@),
            },
    {
        let mut i: usize = 0;
        while i < self.words.len()
            invariant
                i <= self.words.len(),
                forall|k: int|
                    0 <= k < i ==> !(self.words[k].language_id == language_id
                        && self.words[k].term@ == term@),
            decreases self.words.len() - i,
        {
            if self.words[i].language_id == language_id && self.words[i].term == *term {
                return Some(i);
            }
            i += 1;
        }
        None
    }

    /// The position of the sentence with the key `(word_id, example)`.
    fn sentence_position(&self, word_id: i32, example: &String) -> (at: Option<usize>)
        ensures
            match at {
                Some(i) => i < self.sentences.len() && self@.sentences[i as int].word_id
                    == word_id && self@.sentences[i as int].example == example@,
                None => !self@.has_sentence(word_id as int, example@),
            },
    {
        let mut i: usize = 0;
        while i < self.sentences.len()
            invariant
                i <= self.sentences.len(),
                forall|k: int|
                    0 <= k < i ==> !(self.sentences[k].word_id == word_id
                        && self.sentences[k].example@ == example@),
            decreases self.sentences.len() - i,
        {
            if self.sentences[i].word_id == word_id && self.sentences[i].example == *example {
                return Some(i);
            }
            i += 1;
        }
        None
    }

    /// The id of the word with the key `(language_id, term)`, if the store
    /// holds one.
    pub fn find_word(&self, language_id: i32, term: &str) -> (found: Option<i32>)
        requires
            self@.wf(),
        ensures
            found.is_some() == self@.word_id(language_id as int, term@).is_some(),
            found matches Some(id) ==> self@.word_id(language_id as int, term@) == Some(id as int),
    {
        let term = term.to_owned();
        match self.word_position(language_id, &term) {
            Some(i) => {
                Some(self.words[i].id)
            },
            None => None,
        }
    }

    /// Inserts a word under the next id. The store refuses a key that it
    /// holds already, a language that it does not hold, and an insert when
    /// no id is left.
    pub fn insert_word(&mut self, language_id: i32, term: &str, definition: &str) -> (inserted:
        Result<i32, StoreError>)
        requires
            old(self)@.wf(),
        ensures
            final(self)@.wf(),
            final(self).policy() == old(self).policy(),
            inserted is Ok <==> !old(self)@.has_word(language_id as int, term@) && old(
                self,
            )@.has_language_id(language_id as int) && old(self)@.word_seq < i32::MAX,
            match inserted {
                Ok(id) => id == old(self)@.word_seq + 1 && final(self)@ == old(self)@.add_word(
                    language_id as int,
                    term@,
                    definition@,
                ),
                Err(e) => final(self)@ == old(self)@ && e == if old(self)@.has_word(
                    language_id as int,
                    term@,
                ) {
                    StoreError::UniqueViolation
                } else if !old(self)@.has_language_id(language_id as int) {
                    StoreError::ForeignKeyViolation
                } else {
                    StoreError::Other
                },
            },
    {
        let term = term.to_owned();
        if self.word_position(language_id, &term).is_some() {
            return Err(StoreError::UniqueViolation);
        }
        if self.language_id_position(language_id).is_none() {
            return Err(StoreError::ForeignKeyViolation);
        }
        if self.word_seq == i32::MAX {
            return Err(StoreError::Other);
        }
        let id = self.word_seq + 1;
        let definition = definition.to_owned();
        proof {
            lemma_add_word(self@, language_id as int, term@, definition@);
        }
        let ghost before = self@;
        self.word_seq = id;
        self.words.push(StoredWord { id, language_id, term, definition });
        proof {
            assert(self@.words == before.add_word(language_id as int, term@, definition@).words);
        }
        Ok(id)
    }

    /// The id of the sentence with the key `(word_id, example)`, if the
    /// store holds one.
    pub fn find_sentence(&self, word_id: i32, example: &str) -> (found: Option<i32>)
        requires
            self@.wf(),
        ensures
            found.is_some() == self@.sentence_id(word_id as int, example@).is_some(),
            found matches Some(id) ==> self@.sentence_id(word_id as int, example@) == Some(
                id as int,
            ),
    {
        let example = example.to_owned();
        match self.sentence_position(word_id, &example) {
            Some(i) => {
                Some(self.sentences[i].id)
            },
            None => None,
        }
    }

    /// Inserts a sentence under the next id. The store refuses a key that it
    /// holds already, a word that it does not hold, and an insert when no id
    /// is left.
    pub fn insert_sentence(&mut self, word_id: i32, example: &str, meaning: Option<&str>) -> (
        inserted: Result<i32, StoreError>)
        requires
            old(self)@.wf(),
        ensures
            final(self)@.wf(),
            final(self).policy() == old(self).policy(),
            inserted is Ok <==> !old(self)@.has_sentence(word_id as int, example@) && old(
                self,
            )@.has_word_id(word_id as int) && old(self)@.sentence_seq < i32::MAX,
            match inserted {
                Ok(id) => id == old(self)@.sentence_seq + 1 && final(self)@ == old(
                    self,
                )@.add_sentence(word_id as int, example@, meaning.deep_view()),
                Err(e) => final(self)@ == old(self)@ && e == if old(self)@.has_sentence(
                    word_id as int,
                    example@,
                ) {
                    StoreError::UniqueViolation
                } else if !old(self)@.has_word_id(word_id as int) {
                    StoreError::ForeignKeyViolation
                } else {
                    StoreError::Other
                },
            },
    {
        let example = example.to_owned();
        if self.sentence_position(word_id, &example).is_some() {
            return Err(StoreError::UniqueViolation);
        }
        if self.word_id_position(word_id).is_none() {
            return Err(StoreError::ForeignKeyViolation);
        }
        if self.sentence_seq == i32::MAX {
            return Err(StoreError::Other);
        }
        let id = self.sentence_seq + 1;
        let meaning = match meaning {
            Some(text) => Some(text.to_owned()),
            None => None,
        };
        proof {
            lemma_add_sentence(self@, word_id as int, example@, meaning.deep_view());
        }
        let ghost before = self@;
        self.sentence_seq = id;
        self.sentences.push(StoredSentence { id, word_id, example, meaning });
        proof {
            assert(self@.sentences == before.add_sentence(
                word_id as int,
                example@,
                meaning.deep_view(),
            ).sentences);
        }
        Ok(id)
    }

    /// Inserts a language named `name`, or reuses the one that the store
    /// holds, in one step; the id comes back either way. The store refuses
    /// only an insert when no id is left.
    pub fn upsert_language(&mut self, name: &str) -> (stored: Result<i32, StoreError>)
        requires
            old(self)@.wf(),
        ensures
            final(self)@.wf(),
            final(self).policy() == old(self).policy(),
            stored is Ok <==> old(self)@.has_language(name@) || old(self)@.language_seq
                < i32::MAX,
            match stored {
                Ok(id) => (final(self)@, id as int) == old(self)@.resolve_language(name@),
                Err(e) => final(self)@ == old(self)@ && e == StoreError::Other,
            },
    {
        match self.find_language(name) {
            Some(id) => Ok(id),
            None => self.insert_language(name),
        }
    }

    /// Inserts a word, or overwrites the definition of the one that the
    /// store holds under the key, in one step; the id comes back either way.
    /// The store refuses a new word for a language that it does not hold,
    /// and an insert when no id is left.
    pub fn upsert_word(&mut self, language_id: i32, term: &str, definition: &str) -> (stored:
        Result<i32, StoreError>)
        requires
            old(self)@.wf(),
        ensures
            final(self)@.wf(),
            final(self).policy() == old(self).policy(),
            stored is Ok <==> old(self)@.has_word(language_id as int, term@) || (old(
                self,
            )@.has_language_id(language_id as int) && old(self)@.word_seq < i32::MAX),
            match stored {
                Ok(id) => (final(self)@, id as int) == old(self)@.resolve_word(
                    true,
                    language_id as int,
                    term@,
                    definition@,
                ),
                Err(e) => final(self)@ == old(self)@ && e == if !old(self)@.has_language_id(
                    language_id as int,
                ) {
                    StoreError::ForeignKeyViolation
                } else {
                    StoreError::Other
                },
            },
    {
        let key = term.to_owned();
        match self.word_position(language_id, &key) {
            Some(i) => {
                let ghost before = self@;
                proof {
                    lemma_set_definition(before, i as int, definition@);
                }
                let id = self.words[i].id;
                self.words[i].definition = definition.to_owned();
                proof {
                    assert(self@.words == before.set_definition(i as int, definition@).words);
                }
                Ok(id)
            },
            None => self.insert_word(language_id, term, definition),
        }
    }

    /// Inserts a sentence, or overwrites the meaning of the one that the
    /// store holds under the key, in one step; the id comes back either way.
    /// The store refuses a new sentence for a word that it does not hold,
    /// and an insert when no id is left.
    pub fn upsert_sentence(&mut self, word_id: i32, example: &str, meaning: Option<&str>) -> (
        stored: Result<i32, StoreError>)
        requires
            old(self)@.wf(),
        ensures
            final(self)@.wf(),
            final(self).policy() == old(self).policy(),
            stored is Ok <==> old(self)@.has_sentence(word_id as int, example@) || (old(
                self,
            )@.has_word_id(word_id as int) && old(self)@.sentence_seq < i32::MAX),
            match stored {
                Ok(id) => (final(self)@, id as int) == old(self)@.resolve_sentence(
                    true,
                    word_id as int,
                    example@,
                    meaning.deep_view(),
                ),
                Err(e) => final(self)@ == old(self)@ && e == if !old(self)@.has_word_id(
                    word_id as int,
                ) {
                    StoreError::ForeignKeyViolation
                } else {
                    StoreError::Other
                },
            },
    {
        let key = example.to_owned();
        match self.sentence_position(word_id, &key) {
            Some(i) => {
                let ghost before = self@;
                proof {
                    lemma_set_meaning(before, i as int, meaning.deep_view());
                }
                let id = self.sentences[i].id;
                self.sentences[i].meaning = match meaning {
                    Some(text) => Some(text.to_owned()),
                    None => None,
                };
                proof {
                    assert(self@.sentences == before.set_meaning(
                        i as int,
                        meaning.deep_view(),
                    ).sentences);
                }
                Ok(id)
            },
            None => self.insert_sentence(word_id, example, meaning),
        }
    }

    /// Runs one statement about the language named `name`.
    pub fn serve_language(&mut self, statement: Statement, name: &str) -> (reply: Reply)
        requires
            old(self)@.wf(),
        ensures
            final(self)@.wf(),
            final(self).policy() == old(self).policy(),
            (final(self)@, reply) == serve_language(old(self)@, statement, name@),
    {
        match statement {
            Statement::Select => Reply::Row(self.find_language(name)),
            Statement::Insert => match self.insert_language(name) {
                Ok(id) => Reply::Stored(id),
                Err(e) => Reply::Refused(e),
            },
            Statement::Upsert => match self.upsert_language(name) {
                Ok(id) => Reply::Stored(id),
                Err(e) => Reply::Refused(e),
            },
        }
    }

    /// Runs one statement about the word with the key `(language_id, term)`.
    pub fn serve_word(
        &mut self,
        statement: Statement,
        language_id: i32,
        term: &str,
        definition: &str,
    ) -> (reply: Reply)
        requires
            old(self)@.wf(),
        ensures
            final(self)@.wf(),
            final(self).policy() == old(self).policy(),
            (final(self)@, reply) == serve_word(
                old(self)@,
                statement,
                language_id as int,
                term@,
                definition@,
            ),
    {
        match statement {
            Statement::Select => Reply::Row(self.find_word(language_id, term)),
            Statement::Insert => match self.insert_word(language_id, term, definition) {
                Ok(id) => Reply::Stored(id),
                Err(e) => Reply::Refused(e),
            },
            Statement::Upsert => match self.upsert_word(language_id, term, definition) {
                Ok(id) => Reply::Stored(id),
                Err(e) => Reply::Refused(e),
            },
        }
    }

    /// Runs one statement about the sentence with the key
    /// `(word_id, example)`.
    pub fn serve_sentence(
        &mut self,
        statement: Statement,
        word_id: i32,
        example: &str,
        meaning: Option<&str>,
    ) -> (reply: Reply)
        requires
            old(self)@.wf(),
        ensures
            final(self)@.wf(),
            final(self).policy() == old(self).policy(),
            (final(self)@, reply) == serve_sentence(
                old(self)@,
                statement,
                word_id as int,
                example@,
                meaning.deep_view(),
            ),
    {
        match statement {
            Statement::Select => Reply::Row(self.find_sentence(word_id, example)),
            Statement::Insert => match self.insert_sentence(word_id, example, meaning) {
                Ok(id) => Reply::Stored(id),
                Err(e) => Reply::Refused(e),
            },
            Statement::Upsert => match self.upsert_sentence(word_id, example, meaning) {
                Ok(id) => Reply::Stored(id),
                Err(e) => Reply::Refused(e),
            },
        }
    }
}

/// Resolves the language named `name` by the store's policy and returns its
/// id: the language that exists is reused, the one that is missing is
/// inserted. Fails only when the language is missing and no id is left.
pub fn create_language(store: &mut Store, name: &str) -> (resolved: Result<i32, StoreError>)
    requires
        old(store)@.wf(),
    ensures
        final(store)@.wf(),
        final(store).policy() == old(store).policy(),
        resolved is Ok <==> old(store)@.has_language(name@) || old(store)@.language_seq
            < i32::MAX,
        match resolved {
            Ok(id) => (final(store)@, id as int) == old(store)@.resolve_language(name@),
            Err(e) => final(store)@ == old(store)@ && e == StoreError::Other,
        },
{
    let policy = store.reconciliation();
    let mut state = Resolution::Start;
    loop
        invariant
            store@.wf(),
            store.policy() == old(store).policy(),
            policy == store.policy(),
            match state {
                Resolution::Start => store@ == old(store)@,
                Resolution::Missing => store@ == old(store)@ && !store@.has_language(name@),
                Resolution::Conflict => false,
                Resolution::Resolved(id) => (store@, id as int) == old(store)@.resolve_language(
                    name@,
                ),
                Resolution::Failed(e) => store@ == old(store)@ && e == StoreError::Other
                    && !store@.has_language(name@) && store@.language_seq == i32::MAX,
            },
        ensures
            state.pending(policy) is None,
        decreases state.steps_left(policy),
    {
        let reply = match state.statement(policy) {
            Some(statement) => store.serve_language(statement, name),
            None => break,
        };
        state = state.advance(policy, reply);
    }
    match state.outcome() {
        Some(outcome) => outcome,
        None => Err(StoreError::Other),
    }
}

/// Resolves the word with the key `(language_id, term)` by the store's
/// policy and returns its id. A word that is missing is inserted with
/// `definition`. A word that exists is reused: under `CheckThenInsert` it
/// keeps its definition and `definition` is dropped; under `AtomicUpsert` it
/// takes `definition`. Fails when the word is missing and the language does
/// not exist or no id is left.
pub fn create_word(store: &mut Store, language_id: i32, term: &str, definition: &str) -> (resolved:
    Result<i32, StoreError>)
    requires
        old(store)@.wf(),
    ensures
        final(store)@.wf(),
        final(store).policy() == old(store).policy(),
        resolved is Ok <==> old(store)@.has_word(language_id as int, term@) || (old(
            store,
        )@.has_language_id(language_id as int) && old(store)@.word_seq < i32::MAX),
        match resolved {
            Ok(id) => (final(store)@, id as int) == old(store)@.resolve_word(
                old(store).policy() == Policy::AtomicUpsert,
                language_id as int,
                term@,
                definition@,
            ),
            Err(e) => final(store)@ == old(store)@ && e == if !old(store)@.has_language_id(
                language_id as int,
            ) {
                StoreError::ForeignKeyViolation
            } else {
                StoreError::Other
            },
        },
{
    let policy = store.reconciliation();
    let mut state = Resolution::Start;
    loop
        invariant
            store@.wf(),
            store.policy() == old(store).policy(),
            policy == store.policy(),
            match state {
                Resolution::Start => store@ == old(store)@,
                Resolution::Missing => store@ == old(store)@ && !store@.has_word(
                    language_id as int,
                    term@,
                ),
                Resolution::Conflict => false,
                Resolution::Resolved(id) => (store@, id as int) == old(store)@.resolve_word(
                    policy == Policy::AtomicUpsert,
                    language_id as int,
                    term@,
                    definition@,
                ) && (old(store)@.has_word(language_id as int, term@) || old(
                    store,
                )@.has_language_id(language_id as int)),
                Resolution::Failed(e) => store@ == old(store)@ && !store@.has_word(
                    language_id as int,
                    term@,
                ) && !(store@.has_language_id(language_id as int) && store@.word_seq < i32::MAX)
                    && e == if !store@.has_language_id(language_id as int) {
                    StoreError::ForeignKeyViolation
                } else {
                    StoreError::Other
                },
            },
        ensures
            state.pending(policy) is None,
        decreases state.steps_left(policy),
    {
        let reply = match state.statement(policy) {
            Some(statement) => store.serve_word(statement, language_id, term, definition),
            None => break,
        };
        state = state.advance(policy, reply);
    }
    match state.outcome() {
        Some(outcome) => outcome,
        None => Err(StoreError::Other),
    }
}

/// Resolves the sentence with the key `(word_id, example)` by the store's
/// policy and returns its id: sentences are deduplicated by this key. A
/// sentence that is missing is inserted with `meaning`. A sentence that
/// exists is reused: under `CheckThenInsert` it keeps its meaning and
/// `meaning` is dropped; under `AtomicUpsert` it takes `meaning`. Fails when
/// the sentence is missing and the word does not exist or no id is left.
pub fn create_sentence(store: &mut Store, word_id: i32, example: &str, meaning: Option<&str>) -> (
    resolved: Result<i32, StoreError>)
    requires
        old(store)@.wf(),
    ensures
        final(store)@.wf(),
        final(store).policy() == old(store).policy(),
        resolved is Ok <==> old(store)@.has_sentence(word_id as int, example@) || (old(
            store,
        )@.has_word_id(word_id as int) && old(store)@.sentence_seq < i32::MAX),
        match resolved {
            Ok(id) => (final(store)@, id as int) == old(store)@.resolve_sentence(
                old(store).policy() == Policy::AtomicUpsert,
                word_id as int,
                example@,
                meaning.deep_view(),
            ),
            Err(e) => final(store)@ == old(store)@ && e == if !old(store)@.has_word_id(
                word_id as int,
            ) {
                StoreError::ForeignKeyViolation
            } else {
                StoreError::Other
            },
        },
{
    let policy = store.reconciliation();
    let mut state = Resolution::Start;
    loop
        invariant
            store@.wf(),
            store.policy() == old(store).policy(),
            policy == store.policy(),
            match state {
                Resolution::Start => store@ == old(store)@,
                Resolution::Missing => store@ == old(store)@ && !store@.has_sentence(
                    word_id as int,
                    example@,
                ),
                Resolution::Conflict => false,
                Resolution::Resolved(id) => (store@, id as int) == old(store)@.resolve_sentence(
                    policy == Policy::AtomicUpsert,
                    word_id as int,
                    example@,
                    meaning.deep_view(),
                ) && (old(store)@.has_sentence(word_id as int, example@) || old(
                    store,
                )@.has_word_id(word_id as int)),
                Resolution::Failed(e) => store@ == old(store)@ && !store@.has_sentence(
                    word_id as int,
                    example@,
                ) && !(store@.has_word_id(word_id as int) && store@.sentence_seq < i32::MAX) && e
                    == if !store@.has_word_id(word_id as int) {
                    StoreError::ForeignKeyViolation
                } else {
                    StoreError::Other
                },
            },
        ensures
            state.pending(policy) is None,
        decreases state.steps_left(policy),
    {
        let reply = match state.statement(policy) {
            Some(statement) => store.serve_sentence(statement, word_id, example, meaning),
            None => break,
        };
        state = state.advance(policy, reply);
    }
    match state.outcome() {
        Some(outcome) => outcome,
        None => Err(StoreError::Other),
    }
}

/// A copy of an optional text.
fn copy_of(text: &Option<String>) -> (copy: Option<String>)
    ensures
        copy.deep_view() == text.deep_view(),
{
    match text {
        Some(text) => Some(text.clone()),
        None => None,
    }
}

/// Looks up the word of the language named `language` that has the term
/// `term`: its id, term and definition, or `None` where the store holds no
/// such word. The lookup itself never fails.
pub fn get_word(store: &Store, language: &str, term: &str) -> (found: Result<
    Option<FoundWord>,
    StoreError,
>)
    requires
        store@.wf(),
    ensures
        found is Ok,
        found->Ok_0.deep_view() == match store@.entry(language@, term@) {
            Some(word) => Some(found_row(word)),
            None => None,
        },
{
    let language_id = match store.find_language(language) {
        Some(id) => id,
        None => {
            return Ok(None);
        },
    };
    let term = term.to_owned();
    match store.word_position(language_id, &term) {
        Some(i) => {
            let word = &store.words[i];
            Ok(Some((word.id, word.term.clone(), word.definition.clone())))
        },
        None => Ok(None),
    }
}

/// Lists at most `limit` words by ascending id, after skipping the first
/// `offset` of them; each comes with the name of its language. The store
/// refuses a window whose limit or offset is below zero.
pub fn get_all_words(store: &Store, limit: i64, offset: i64) -> (listed: Result<
    Vec<WordRow>,
    StoreError,
>)
    requires
        store@.wf(),
    ensures
        listed is Ok <==> 0 <= limit && 0 <= offset,
        match listed {
            Ok(rows) => rows.deep_view() == store@.page(limit as int, offset as int).map_values(
                |word: ListedRec| word_row(word),
            ),
            Err(e) => e == StoreError::Other,
        },
{
    if limit < 0 || offset < 0 {
        return Err(StoreError::Other);
    }
    let count = store.words.len();
    let from: usize = if (offset as u64) < (count as u64) {
        offset as usize
    } else {
        count
    };
    let end: u64 = offset as u64 + limit as u64;
    let to: usize = if end < (count as u64) {
        end as usize
    } else {
        count
    };
    let ghost page = store@.page(limit as int, offset as int);
    let mut rows: Vec<WordRow> = Vec::new();
    let mut i: usize = from;
    while i < to
        invariant
            store@.wf(),
            from <= i <= to <= store.words.len(),
            page.len() == to - from,
            forall|k: int| 0 <= k < page.len() ==> #[trigger] page[k] == store@.listed(from + k),
            rows.len() == i - from,
            forall|k: int|
                0 <= k < rows.len() ==> #[trigger] rows.deep_view()[k] == word_row(page[k]),
        decreases to - i,
    {
        let word = &store.words[i];
        assert(store@.has_language_id(store@.words[i as int].language_id));
        let at = store.language_index(word.language_id);
        let ghost shown = rows.deep_view();
        rows.push(
            (word.id, store.languages[at].name.clone(), word.term.clone(), word.definition.clone()),
        );
        proof {
            assert(rows.deep_view() == shown.push(rows.deep_view().last()));
        }
        i += 1;
    }
    Ok(rows)
}

/// Deletes the word `id` and, with it, every sentence that belongs to it.
/// Deleting an id that no word has changes nothing and is no failure.
pub fn delete_word(store: &mut Store, id: i32) -> (deleted: Result<(), StoreError>)
    requires
        old(store)@.wf(),
    ensures
        deleted is Ok,
        final(store)@.wf(),
        final(store).policy() == old(store).policy(),
        final(store)@ == old(store)@.remove_word(id as int),
{
    let ghost before = store@;
    let mut sentences: Vec<StoredSentence> = Vec::new();
    std::mem::swap(&mut store.sentences, &mut sentences);
    let ghost all = sentences.deep_view();
    for sentence in it: sentences
        invariant
            it.seq().len() == all.len(),
            forall|k: int| 0 <= k < all.len() ==> #[trigger] it.seq()[k].deep_view() == all[k],
            store.sentences.deep_view() == all.take(it.index() as int).filter(
                belongs_elsewhere(id as int),
            ),
            store.words == old(store).words,
            store.languages == old(store).languages,
            store.language_seq == old(store).language_seq,
            store.word_seq == old(store).word_seq,
            store.sentence_seq == old(store).sentence_seq,
            store.policy == old(store).policy,
    {
        proof {
            let seen = all.take(it.index() as int);
            assert(all.take(it.index() + 1) == seen.push(sentence.deep_view()));
            seen.lemma_filter_push(sentence.deep_view(), belongs_elsewhere(id as int));
        }
        if sentence.word_id != id {
            store.sentences.push(sentence);
        }
    }
    assert(all.take(all.len() as int) == all);
    let mut words: Vec<StoredWord> = Vec::new();
    std::mem::swap(&mut store.words, &mut words);
    let ghost all = words.deep_view();
    for word in it: words
        invariant
            it.seq().len() == all.len(),
            forall|k: int| 0 <= k < all.len() ==> #[trigger] it.seq()[k].deep_view() == all[k],
            store.words.deep_view() == all.take(it.index() as int).filter(is_not(id as int)),
            store.sentences.deep_view() == before.sentences.filter(
                belongs_elsewhere(id as int),
            ),
            store.languages == old(store).languages,
            store.language_seq == old(store).language_seq,
            store.word_seq == old(store).word_seq,
            store.sentence_seq == old(store).sentence_seq,
            store.policy == old(store).policy,
    {
        proof {
            let seen = all.take(it.index() as int);
            assert(all.take(it.index() + 1) == seen.push(word.deep_view()));
            seen.lemma_filter_push(word.deep_view(), is_not(id as int));
        }
        if word.id != id {
            store.words.push(word);
        }
    }
    proof {
        assert(all.take(all.len() as int) == all);
        lemma_remove_word(before, id as int);
    }
    Ok(())
}

/// The sentences of the word `word_id`, in insertion order. The reading
/// itself never fails.
pub fn get_sentences_by_word(store: &Store, word_id: i32) -> (found: Result<
    Vec<SentenceRow>,
    StoreError,
>)
    requires
        store@.wf(),
    ensures
        found is Ok,
        found->Ok_0.deep_view() == store@.sentences_of(word_id as int).map_values(
            |sentence: SentenceRec| sentence_row(sentence),
        ),
{
    let ghost all = store@.sentences;
    let ghost row = |sentence: SentenceRec| sentence_row(sentence);
    let mut rows: Vec<SentenceRow> = Vec::new();
    let mut i: usize = 0;
    while i < store.sentences.len()
        invariant
            i <= store.sentences.len(),
            all == store@.sentences,
            row == |sentence: SentenceRec| sentence_row(sentence),
            rows.deep_view() == all.take(i as int).filter(belongs_to(word_id as int)).map_values(
                row,
            ),
        decreases store.sentences.len() - i,
    {
        let sentence = &store.sentences[i];
        proof {
            assert(all.take(i + 1) == all.take(i as int).push(all[i as int]));
            all.take(i as int).lemma_filter_push(all[i as int], belongs_to(word_id as int));
        }
        if sentence.word_id == word_id {
            let ghost shown = rows.deep_view();
            rows.push((sentence.id, sentence.example.clone(), copy_of(&sentence.meaning)));
            proof {
                assert(rows.deep_view() == shown.push(rows.deep_view().last()));
            }
        }
        i += 1;
    }
    proof {
        assert(all.take(i as int) == all);
    }
    Ok(rows)
}

/// Whether `id` is one of `ids`.
fn is_listed(ids: &[i32], id: i32) -> (listed: bool)
    ensures
        listed == wide(ids@).contains(id as int),
{
    let mut i: usize = 0;
    while i < ids.len()
        invariant
            i <= ids.len(),
            forall|k: int| 0 <= k < i ==> wide(ids@)[k] != id as int,
        decreases ids.len() - i,
    {
        if ids[i] == id {
            assert(wide(ids@)[i as int] == id as int);
            return true;
        }
        i += 1;
    }
    false
}

/// The sentences of all the words whose ids are among `word_ids`, in one
/// reading and in insertion order; each comes with the id of its word. The
/// reading itself never fails.
pub fn get_sentences_by_word_ids(store: &Store, word_ids: &[i32]) -> (found: Result<
    Vec<BatchRow>,
    StoreError,
>)
    requires
        store@.wf(),
    ensures
        found is Ok,
        found->Ok_0.deep_view() == store@.sentences_among(wide(word_ids@)).map_values(
            |sentence: SentenceRec| batch_row(sentence),
        ),
{
    let ghost all = store@.sentences;
    let ghost wanted = wide(word_ids@);
    let ghost row = |sentence: SentenceRec| batch_row(sentence);
    let mut rows: Vec<BatchRow> = Vec::new();
    let mut i: usize = 0;
    while i < store.sentences.len()
        invariant
            i <= store.sentences.len(),
            all == store@.sentences,
            wanted == wide(word_ids@),
            row == |sentence: SentenceRec| batch_row(sentence),
            rows.deep_view() == all.take(i as int).filter(belongs_to_any(wanted)).map_values(row),
        decreases store.sentences.len() - i,
    {
        let sentence = &store.sentences[i];
        proof {
            assert(all.take(i + 1) == all.take(i as int).push(all[i as int]));
            all.take(i as int).lemma_filter_push(all[i as int], belongs_to_any(wanted));
        }
        if is_listed(word_ids, sentence.word_id) {
            let ghost shown = rows.deep_view();
            rows.push(
                (
                    sentence.id,
                    sentence.word_id,
                    sentence.example.clone(),
                    copy_of(&sentence.meaning),
                ),
            );
            proof {
                assert(rows.deep_view() == shown.push(rows.deep_view().last()));
            }
        }
        i += 1;
    }
    proof {
        assert(all.take(i as int) == all);
    }
    Ok(rows)
}

} // verus!
