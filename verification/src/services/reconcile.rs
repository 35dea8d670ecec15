//! How one uniquely keyed row is resolved against a store that other writers
//! use at the same time: which statement runs next, and what follows from
//! the store's answer.

use crate::services::db::StoreError;
use crate::services::tables::Tables;
use vstd::prelude::*;

verus! {

/// How a writer reconciles with the others.
#[derive(Debug, Clone, Copy, PartialEq, Eq, Structural)]
pub enum Policy {
    /// Look the row up; insert it where it is missing; where the insert
    /// meets a uniqueness conflict, another writer won: look the row up
    /// again. A row that exists is left as it is.
    CheckThenInsert,
    /// One statement that inserts the row or, where it exists, overwrites
    /// what it carries, and returns the id either way.
    AtomicUpsert,
}

/// A statement about the one row that is being resolved.
#[derive(Debug, Clone, Copy, PartialEq, Eq, Structural)]
pub enum Statement {
    /// Look the row up by its key.
    Select,
    /// Insert the row.
    Insert,
    /// Insert the row, or overwrite it where it exists.
    Upsert,
}

/// What the store answered to a statement.
#[derive(Debug, Clone, Copy, PartialEq, Eq, Structural)]
pub enum Reply {
    /// The answer to a lookup: the id of the row, if there is one.
    Row(Option<i32>),
    /// The answer to an insert or an upsert that went through: the row's id.
    Stored(i32),
    /// The store refused the statement.
    Refused(StoreError),
}

/// Where the resolution of one row stands.
#[derive(Debug, Clone, Copy, PartialEq, Eq, Structural)]
pub enum Resolution {
    /// No statement has run yet.
    Start,
    /// The lookup found no row.
    Missing,
    /// The insert met a uniqueness conflict.
    Conflict,
    /// The row has this id.
    Resolved(i32),
    /// The store failed, and not by the conflict that the protocol expects.
    Failed(StoreError),
}

impl Resolution {
    /// The statement that runs next, if the resolution is not over.
    pub open spec fn pending(self, policy: Policy) -> Option<Statement> {
        match self {
            Resolution::Start => match policy {
                Policy::CheckThenInsert => Some(Statement::Select),
                Policy::AtomicUpsert => Some(Statement::Upsert),
            },
            Resolution::Missing => Some(Statement::Insert),
            Resolution::Conflict => Some(Statement::Select),
            Resolution::Resolved(_) => None,
            Resolution::Failed(_) => None,
        }
    }

    /// Where the resolution stands after the store answered `reply` to the
    /// pending statement.
    ///
    /// A lookup that finds the row ends the resolution. The first lookup
    /// that finds none leads to the insert; the lookup after a conflict must
    /// find the row. An insert or upsert that goes through ends the
    /// resolution; an insert refused for a uniqueness conflict leads to the
    /// second lookup. Every other refusal is final, and so is an answer of
    /// the wrong kind. A resolution that is over stays as it is.
    pub open spec fn next(self, policy: Policy, reply: Reply) -> Resolution {
        match (self.pending(policy), reply) {
            (None, _) => self,
            (Some(_), Reply::Refused(e)) => if self == Resolution::Missing && e
                == StoreError::UniqueViolation {
                Resolution::Conflict
            } else {
                Resolution::Failed(e)
            },
            (Some(Statement::Select), Reply::Row(Some(id))) => Resolution::Resolved(id),
            (Some(Statement::Select), Reply::Row(None)) => if self == Resolution::Start {
                Resolution::Missing
            } else {
                Resolution::Failed(StoreError::Other)
            },
            (Some(Statement::Insert), Reply::Stored(id)) => Resolution::Resolved(id),
            (Some(Statement::Upsert), Reply::Stored(id)) => Resolution::Resolved(id),
            (Some(_), _) => Resolution::Failed(StoreError::Other),
        }
    }

    /// How many statements the resolution may still run.
    pub open spec fn steps_left(self, policy: Policy) -> nat {
        match self {
            Resolution::Start => match policy {
                Policy::CheckThenInsert => 3,
                Policy::AtomicUpsert => 1,
            },
            Resolution::Missing => 2,
            Resolution::Conflict => 1,
            Resolution::Resolved(_) => 0,
            Resolution::Failed(_) => 0,
        }
    }

    /// The statement to run next, or `None` when the resolution is over.
    pub fn statement(&self, policy: Policy) -> (statement: Option<Statement>)
        ensures
            statement == self.pending(policy),
    {
        match self {
            Resolution::Start => match policy {
                Policy::CheckThenInsert => Some(Statement::Select),
                Policy::AtomicUpsert => Some(Statement::Upsert),
            },
            Resolution::Missing => Some(Statement::Insert),
            Resolution::Conflict => Some(Statement::Select),
            Resolution::Resolved(_) => None,
            Resolution::Failed(_) => None,
        }
    }

    /// Takes the store's answer to the pending statement.
    pub fn advance(self, policy: Policy, reply: Reply) -> (after: Resolution)
        ensures
            after == self.next(policy, reply),
    {
        let pending = self.statement(policy);
        match pending {
            None => self,
            Some(statement) => match reply {
                Reply::Refused(e) => match (self, e) {
                    (Resolution::Missing, StoreError::UniqueViolation) => Resolution::Conflict,
                    _ => Resolution::Failed(e),
                },
                Reply::Row(found) => match (statement, found) {
                    (Statement::Select, Some(id)) => Resolution::Resolved(id),
                    (Statement::Select, None) => match self {
                        Resolution::Start => Resolution::Missing,
                        _ => Resolution::Failed(StoreError::Other),
                    },
                    _ => Resolution::Failed(StoreError::Other),
                },
                Reply::Stored(id) => match statement {
                    Statement::Select => Resolution::Failed(StoreError::Other),
                    _ => Resolution::Resolved(id),
                },
            },
        }
    }

    /// The outcome of a resolution that is over: the row's id, or the
    /// store's failure. `None` while a statement is pending.
    pub fn outcome(&self) -> (outcome: Option<Result<i32, StoreError>>)
        ensures
            outcome == match *self {
                Resolution::Resolved(id) => Some(Ok::<i32, StoreError>(id)),
                Resolution::Failed(e) => Some(Err::<i32, StoreError>(e)),
                _ => None,
            },
    {
        match self {
            Resolution::Resolved(id) => Some(Ok(*id)),
            Resolution::Failed(e) => Some(Err(*e)),
            _ => None,
        }
    }
}

/// Every answer to a pending statement brings the resolution nearer to its
/// end: three statements at most under `CheckThenInsert`, one under
/// `AtomicUpsert`.
pub proof fn lemma_resolution_ends(state: Resolution, policy: Policy, reply: Reply)
    ensures
        state.pending(policy) is Some ==> state.next(policy, reply).steps_left(policy)
            < state.steps_left(policy),
        state.pending(policy) is None <==> state.steps_left(policy) == 0,
{
}

/// What the store does, in one indivisible step, on a statement about the
/// language named `name`: the tables afterwards and the answer. A lookup
/// changes nothing. An insert is refused for a uniqueness conflict where the
/// name has a row, and where no id is left. An upsert reuses the row where
/// the name has one.
pub open spec fn serve_language(t: Tables, statement: Statement, name: Seq<char>) -> (
    Tables,
    Reply,
) {
    match statement {
        Statement::Select => (
            t,
            Reply::Row(
                match t.language_id(name) {
                    Some(id) => Some(id as i32),
                    None => None,
                },
            ),
        ),
        Statement::Insert => if t.has_language(name) {
            (t, Reply::Refused(StoreError::UniqueViolation))
        } else if t.language_seq < i32::MAX {
            (t.add_language(name), Reply::Stored((t.language_seq + 1) as i32))
        } else {
            (t, Reply::Refused(StoreError::Other))
        },
        Statement::Upsert => match t.language_id(name) {
            Some(id) => (t, Reply::Stored(id as i32)),
            None => if t.language_seq < i32::MAX {
                (t.add_language(name), Reply::Stored((t.language_seq + 1) as i32))
            } else {
                (t, Reply::Refused(StoreError::Other))
            },
        },
    }
}

/// What the store does, in one indivisible step, on a statement about the
/// word with the key `(language_id, term)`: as `serve_language`, but an
/// insert is also refused where the language does not exist, and an upsert
/// overwrites the definition of the row that it reuses.
pub open spec fn serve_word(
    t: Tables,
    statement: Statement,
    language_id: int,
    term: Seq<char>,
    definition: Seq<char>,
) -> (Tables, Reply) {
    match statement {
        Statement::Select => (
            t,
            Reply::Row(
                match t.word_id(language_id, term) {
                    Some(id) => Some(id as i32),
                    None => None,
                },
            ),
        ),
        Statement::Insert => if t.has_word(language_id, term) {
            (t, Reply::Refused(StoreError::UniqueViolation))
        } else if !t.has_language_id(language_id) {
            (t, Reply::Refused(StoreError::ForeignKeyViolation))
        } else if t.word_seq < i32::MAX {
            (t.add_word(language_id, term, definition), Reply::Stored((t.word_seq + 1) as i32))
        } else {
            (t, Reply::Refused(StoreError::Other))
        },
        Statement::Upsert => if t.has_word(language_id, term) || (t.has_language_id(language_id)
            && t.word_seq < i32::MAX) {
            (
                t.resolve_word(true, language_id, term, definition).0,
                Reply::Stored(t.resolve_word(true, language_id, term, definition).1 as i32),
            )
        } else if !t.has_language_id(language_id) {
            (t, Reply::Refused(StoreError::ForeignKeyViolation))
        } else {
            (t, Reply::Refused(StoreError::Other))
        },
    }
}

/// What the store does, in one indivisible step, on a statement about the
/// sentence with the key `(word_id, example)`: as `serve_word`, with the
/// word in place of the language and the meaning in place of the definition.
pub open spec fn serve_sentence(
    t: Tables,
    statement: Statement,
    word_id: int,
    example: Seq<char>,
    meaning: Option<Seq<char>>,
) -> (Tables, Reply) {
    match statement {
        Statement::Select => (
            t,
            Reply::Row(
                match t.sentence_id(word_id, example) {
                    Some(id) => Some(id as i32),
                    None => None,
                },
            ),
        ),
        Statement::Insert => if t.has_sentence(word_id, example) {
            (t, Reply::Refused(StoreError::UniqueViolation))
        } else if !t.has_word_id(word_id) {
            (t, Reply::Refused(StoreError::ForeignKeyViolation))
        } else if t.sentence_seq < i32::MAX {
            (
                t.add_sentence(word_id, example, meaning),
                Reply::Stored((t.sentence_seq + 1) as i32),
            )
        } else {
            (t, Reply::Refused(StoreError::Other))
        },
        Statement::Upsert => if t.has_sentence(word_id, example) || (t.has_word_id(word_id)
            && t.sentence_seq < i32::MAX) {
            (
                t.resolve_sentence(true, word_id, example, meaning).0,
                Reply::Stored(t.resolve_sentence(true, word_id, example, meaning).1 as i32),
            )
        } else if !t.has_word_id(word_id) {
            (t, Reply::Refused(StoreError::ForeignKeyViolation))
        } else {
            (t, Reply::Refused(StoreError::Other))
        },
    }
}

} // verus!
