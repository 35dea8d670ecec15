//! Races: several writers resolve the row of one key at the same time.

use crate::services::db::StoreError;
use crate::services::reconcile::{
    serve_language, serve_sentence, serve_word, Policy, Reply, Resolution, Statement,
};
use crate::services::tables::{
    lemma_add_language, lemma_add_sentence, lemma_add_word, lemma_one_row_per_name,
    lemma_set_definition, lemma_set_meaning, LanguageRec, Tables,
};
use vstd::prelude::*;

verus! {

/// A race: several writers resolve the row of one key at the same time, each
/// with what it would store. The key, and what each writer brings, are the
/// contest's own.
pub trait Contest: Sized {
    /// The tables on which a race may begin: well formed, holding the row
    /// that the key's row refers to, and with an id left where the key has
    /// no row yet.
    spec fn admits(self, start: Tables) -> bool;

    /// Whether the key has a row.
    spec fn present(self, t: Tables) -> bool;

    /// The id of the key's row.
    spec fn winner(self, t: Tables) -> int;

    /// What the store does, in one indivisible step, on a statement of the
    /// writer `who`.
    spec fn serve(self, t: Tables, statement: Statement, who: int) -> (Tables, Reply);

    /// What a race under `policy` keeps of the tables `start` on which it
    /// began.
    spec fn kept(self, policy: Policy, start: Tables, t: Tables) -> bool;

    /// A race keeps what it began on.
    proof fn lemma_begin(self, policy: Policy, start: Tables)
        requires
            self.admits(start),
        ensures
            self.kept(policy, start, start),
    ;

    /// Each statement that the policy issues keeps what the race keeps; a
    /// row that the key has stays, under its id; and the store answers by
    /// that row: a lookup finds it, an insert meets it as a uniqueness
    /// conflict or else makes it, an upsert reuses or makes it.
    proof fn lemma_served(
        self,
        policy: Policy,
        start: Tables,
        t: Tables,
        statement: Statement,
        who: int,
    )
        requires
            self.kept(policy, start, t),
            policy == Policy::AtomicUpsert <==> statement == Statement::Upsert,
        ensures
            ({
                let (after, reply) = self.serve(t, statement, who);
                &&& self.kept(policy, start, after)
                &&& self.present(t) ==> self.present(after) && self.winner(after) == self.winner(t)
                &&& self.present(after) ==> 0 < self.winner(after) <= i32::MAX
                &&& match statement {
                    Statement::Select => reply == Reply::Row(
                        if self.present(t) {
                            Some(self.winner(t) as i32)
                        } else {
                            None
                        },
                    ),
                    Statement::Insert => if self.present(t) {
                        reply == Reply::Refused(StoreError::UniqueViolation)
                    } else {
                        self.present(after) && reply == Reply::Stored(self.winner(after) as i32)
                    },
                    Statement::Upsert => self.present(after) && reply == Reply::Stored(
                        self.winner(after) as i32,
                    ),
                }
            }),
    ;
}

/// One step of a race: the writer `who` runs its pending statement against
/// the tables and takes the answer. A writer that is done, and a number that
/// names no writer, change nothing.
pub open spec fn race_step<C: Contest>(
    contest: C,
    t: Tables,
    writers: Seq<Resolution>,
    policy: Policy,
    who: int,
) -> (Tables, Seq<Resolution>) {
    if 0 <= who < writers.len() && writers[who].pending(policy) is Some {
        let served = contest.serve(t, writers[who].pending(policy)->0, who);
        (served.0, writers.update(who, writers[who].next(policy, served.1)))
    } else {
        (t, writers)
    }
}

/// A race: the writers take their steps in the order that `schedule` gives,
/// each step indivisible, in any interleaving.
pub open spec fn race<C: Contest>(
    contest: C,
    t: Tables,
    writers: Seq<Resolution>,
    policy: Policy,
    schedule: Seq<int>,
) -> (Tables, Seq<Resolution>)
    decreases schedule.len(),
{
    if schedule.len() == 0 {
        (t, writers)
    } else {
        let before = race(contest, t, writers, policy, schedule.drop_last());
        race_step(contest, before.0, before.1, policy, schedule.last())
    }
}

/// How often the writer `who` is scheduled in `schedule`.
pub open spec fn turns(schedule: Seq<int>, who: int) -> nat
    decreases schedule.len(),
{
    if schedule.len() == 0 {
        0
    } else {
        turns(schedule.drop_last(), who) + if schedule.last() == who {
            1nat
        } else {
            0nat
        }
    }
}

/// The writers of a race at its beginning.
pub open spec fn at_start(writers: nat) -> Seq<Resolution> {
    Seq::new(writers, |i: int| Resolution::Start)
}

/// What holds of the writers at every moment of a race.
spec fn writers_hold<C: Contest>(
    contest: C,
    t: Tables,
    writers: Seq<Resolution>,
    policy: Policy,
    schedule: Seq<int>,
) -> bool {
    &&& forall|i: int|
        0 <= i < writers.len() ==> match #[trigger] writers[i] {
            Resolution::Start => true,
            Resolution::Missing => policy == Policy::CheckThenInsert,
            Resolution::Conflict => policy == Policy::CheckThenInsert && contest.present(t),
            Resolution::Resolved(id) => contest.present(t) && contest.winner(t) == id as int,
            Resolution::Failed(_) => false,
        }
    &&& forall|i: int|
        0 <= i < writers.len() ==> (#[trigger] writers[i]).steps_left(policy) + turns(schedule, i)
            <= 3 || writers[i].steps_left(policy) == 0
}

/// Any number of writers may resolve one key at the same time, in any
/// interleaving of their statements, under either policy: no writer fails,
/// every writer that is done holds the id of the row that the key has, a
/// writer is done after three turns at the latest, and the race keeps of the
/// tables what the contest says it keeps.
pub proof fn lemma_race<C: Contest>(
    contest: C,
    t: Tables,
    writers: nat,
    policy: Policy,
    schedule: Seq<int>,
)
    requires
        contest.admits(t),
    ensures
        ({
            let (after, ended) = race(contest, t, at_start(writers), policy, schedule);
            &&& contest.kept(policy, t, after)
            &&& ended.len() == writers
            &&& forall|i: int| 0 <= i < writers ==> !(#[trigger] ended[i] is Failed)
            &&& forall|i: int|
                0 <= i < writers ==> (#[trigger] ended[i] matches Resolution::Resolved(id)
                    ==> contest.present(after) && contest.winner(after) == id as int)
            &&& forall|i: int|
                0 <= i < writers && turns(schedule, i) >= 3 ==> #[trigger] ended[i] is Resolved
        }),
{
    lemma_race_holds(contest, t, writers, policy, schedule);
    assert(race(contest, t, at_start(writers), policy, schedule).1.len() == writers);
}

/// The race keeps what it keeps, and `writers_hold`, from its first moment
/// on.
proof fn lemma_race_holds<C: Contest>(
    contest: C,
    t: Tables,
    writers: nat,
    policy: Policy,
    schedule: Seq<int>,
)
    requires
        contest.admits(t),
    ensures
        race(contest, t, at_start(writers), policy, schedule).1.len() == writers,
        contest.kept(policy, t, race(contest, t, at_start(writers), policy, schedule).0),
        writers_hold(
            contest,
            race(contest, t, at_start(writers), policy, schedule).0,
            race(contest, t, at_start(writers), policy, schedule).1,
            policy,
            schedule,
        ),
    decreases schedule.len(),
{
    if schedule.len() == 0 {
        contest.lemma_begin(policy, t);
    } else {
        let earlier = schedule.drop_last();
        let who = schedule.last();
        lemma_race_holds(contest, t, writers, policy, earlier);
        let (before, states) = race(contest, t, at_start(writers), policy, earlier);
        if 0 <= who < states.len() && states[who].pending(policy) is Some {
            let statement = states[who].pending(policy)->0;
            contest.lemma_served(policy, t, before, statement, who);
        }
    }
}

/// The race of writers for the language named `name`.
pub struct LanguageContest {
    pub name: Seq<char>,
}

impl Contest for LanguageContest {
    open spec fn admits(self, start: Tables) -> bool {
        start.wf() && (start.has_language(self.name) || start.language_seq < i32::MAX)
    }

    open spec fn present(self, t: Tables) -> bool {
        t.has_language(self.name)
    }

    open spec fn winner(self, t: Tables) -> int {
        t.language_id(self.name)->0
    }

    open spec fn serve(self, t: Tables, statement: Statement, who: int) -> (Tables, Reply) {
        serve_language(t, statement, self.name)
    }

    /// The race adds at most the one row of the name, and changes nothing
    /// else.
    open spec fn kept(self, policy: Policy, start: Tables, t: Tables) -> bool {
        &&& start.wf()
        &&& t.wf()
        &&& t.has_language(self.name) || t.language_seq < i32::MAX
        &&& t == start || (!start.has_language(self.name) && t == start.add_language(self.name))
    }

    proof fn lemma_begin(self, policy: Policy, start: Tables) {
    }

    proof fn lemma_served(
        self,
        policy: Policy,
        start: Tables,
        t: Tables,
        statement: Statement,
        who: int,
    ) {
        if t != start {
            lemma_add_language(start, self.name);
        }
        if t.has_language(self.name) {
        } else if statement != Statement::Select {
            lemma_add_language(t, self.name);
        }
    }
}

/// Any number of writers may resolve one language name at the same time, in
/// any interleaving of their statements, under either policy: as long as an
/// id is left for a name that is new, no writer fails, every writer that is
/// done holds the id of the one row that the name has, a writer is done
/// after three turns at the latest, and the race adds at most that one row,
/// leaving every other name as it was.
pub proof fn lemma_language_race(
    t: Tables,
    writers: nat,
    policy: Policy,
    name: Seq<char>,
    schedule: Seq<int>,
)
    requires
        t.wf(),
        t.has_language(name) || t.language_seq < i32::MAX,
    ensures
        ({
            let (after, ended) = race(
                LanguageContest { name },
                t,
                at_start(writers),
                policy,
                schedule,
            );
            &&& after.wf()
            &&& ended.len() == writers
            &&& after == t || (!t.has_language(name) && after == t.add_language(name))
            &&& forall|other: Seq<char>|
                other != name ==> #[trigger] after.language_id(other) == t.language_id(other)
            &&& forall|i: int| 0 <= i < writers ==> !(#[trigger] ended[i] is Failed)
            &&& forall|i: int|
                0 <= i < writers ==> (#[trigger] ended[i] matches Resolution::Resolved(id)
                    ==> after.languages_named(name) == seq![LanguageRec { id: id as int, name }])
            &&& forall|i: int|
                0 <= i < writers && turns(schedule, i) >= 3 ==> #[trigger] ended[i] is Resolved
        }),
{
    let contest = LanguageContest { name };
    lemma_race(contest, t, writers, policy, schedule);
    let (after, ended) = race(contest, t, at_start(writers), policy, schedule);
    if after != t {
        lemma_add_language(t, name);
    }
    lemma_one_row_per_name(after, name);
}

/// The race of writers for the word with the key `(language_id, term)`; the
/// writer `who` brings the definition `definitions[who]`.
pub struct WordContest {
    pub language_id: int,
    pub term: Seq<char>,
    pub definitions: Seq<Seq<char>>,
}

impl Contest for WordContest {
    open spec fn admits(self, start: Tables) -> bool {
        &&& start.wf()
        &&& start.has_language_id(self.language_id)
        &&& start.has_word(self.language_id, self.term) || start.word_seq < i32::MAX
    }

    open spec fn present(self, t: Tables) -> bool {
        t.has_word(self.language_id, self.term)
    }

    open spec fn winner(self, t: Tables) -> int {
        t.word_id(self.language_id, self.term)->0
    }

    open spec fn serve(self, t: Tables, statement: Statement, who: int) -> (Tables, Reply) {
        serve_word(t, statement, self.language_id, self.term, self.definitions[who])
    }

    /// The race touches no table but the word table, adds at most the one
    /// row of the key, and leaves the word of every other key as it was.
    /// Under `CheckThenInsert` a row that the key had at the beginning is
    /// left untouched.
    open spec fn kept(self, policy: Policy, start: Tables, t: Tables) -> bool {
        &&& start.wf()
        &&& t.wf()
        &&& t.has_language_id(self.language_id)
        &&& t.has_word(self.language_id, self.term) || (t == start && t.word_seq < i32::MAX)
        &&& t.languages == start.languages
        &&& t.sentences == start.sentences
        &&& forall|l: int, x: Seq<char>|
            !(l == self.language_id && x == self.term) ==> #[trigger] t.word(l, x) == start.word(
                l,
                x,
            )
        &&& t.words.len() <= start.words.len() + 1
        &&& start.has_word(self.language_id, self.term) ==> t.words.len() == start.words.len()
            && t.word_id(self.language_id, self.term) == start.word_id(self.language_id, self.term)
        &&& start.has_word(self.language_id, self.term) && policy == Policy::CheckThenInsert ==> t
            == start
    }

    proof fn lemma_begin(self, policy: Policy, start: Tables) {
    }

    proof fn lemma_served(
        self,
        policy: Policy,
        start: Tables,
        t: Tables,
        statement: Statement,
        who: int,
    ) {
        let definition = self.definitions[who];
        if t.has_word(self.language_id, self.term) {
            let at = t.word_at(self.language_id, self.term);
            if statement == Statement::Upsert {
                lemma_set_definition(t, at, definition);
            }
        } else if statement != Statement::Select {
            lemma_add_word(t, self.language_id, self.term, definition);
        }
    }
}

/// Any number of writers may resolve one word at the same time, each with a
/// definition of its own, in any interleaving of their statements and under
/// either policy, as long as the language exists, no word is deleted
/// meanwhile, and an id is left for a key that is new. No writer fails;
/// every writer that is done holds the id of the one row that the key has;
/// a writer is done after three turns at the latest. The race adds at most
/// that one row and leaves the word of every other key as it was; under
/// `CheckThenInsert` a word that existed before the race is left untouched.
pub proof fn lemma_word_race(
    t: Tables,
    policy: Policy,
    language_id: int,
    term: Seq<char>,
    definitions: Seq<Seq<char>>,
    schedule: Seq<int>,
)
    requires
        t.wf(),
        t.has_language_id(language_id),
        t.has_word(language_id, term) || t.word_seq < i32::MAX,
    ensures
        ({
            let (after, ended) = race(
                WordContest { language_id, term, definitions },
                t,
                at_start(definitions.len()),
                policy,
                schedule,
            );
            &&& after.wf()
            &&& ended.len() == definitions.len()
            &&& after.words.len() <= t.words.len() + 1
            &&& t.has_word(language_id, term) ==> after.words.len() == t.words.len()
            &&& t.has_word(language_id, term) && policy == Policy::CheckThenInsert ==> after == t
            &&& forall|l: int, x: Seq<char>|
                !(l == language_id && x == term) ==> #[trigger] after.word(l, x) == t.word(l, x)
            &&& forall|i: int| 0 <= i < ended.len() ==> !(#[trigger] ended[i] is Failed)
            &&& forall|i: int|
                0 <= i < ended.len() ==> (#[trigger] ended[i] matches Resolution::Resolved(id)
                    ==> after.word_id(language_id, term) == Some(id as int))
            &&& forall|i: int|
                0 <= i < ended.len() && turns(schedule, i) >= 3 ==> #[trigger] ended[i] is Resolved
        }),
{
    let contest = WordContest { language_id, term, definitions };
    lemma_race(contest, t, definitions.len(), policy, schedule);
}

/// The race of writers for the sentence with the key `(word_id, example)`;
/// the writer `who` brings the meaning `meanings[who]`.
pub struct SentenceContest {
    pub word_id: int,
    pub example: Seq<char>,
    pub meanings: Seq<Option<Seq<char>>>,
}

impl Contest for SentenceContest {
    open spec fn admits(self, start: Tables) -> bool {
        &&& start.wf()
        &&& start.has_word_id(self.word_id)
        &&& start.has_sentence(self.word_id, self.example) || start.sentence_seq < i32::MAX
    }

    open spec fn present(self, t: Tables) -> bool {
        t.has_sentence(self.word_id, self.example)
    }

    open spec fn winner(self, t: Tables) -> int {
        t.sentence_id(self.word_id, self.example)->0
    }

    open spec fn serve(self, t: Tables, statement: Statement, who: int) -> (Tables, Reply) {
        serve_sentence(t, statement, self.word_id, self.example, self.meanings[who])
    }

    /// The race touches no table but the sentence table, adds at most the
    /// one row of the key, and leaves the sentence of every other key under
    /// its id. Under `CheckThenInsert` a row that the key had at the
    /// beginning is left untouched.
    open spec fn kept(self, policy: Policy, start: Tables, t: Tables) -> bool {
        &&& start.wf()
        &&& t.wf()
        &&& t.has_word_id(self.word_id)
        &&& t.has_sentence(self.word_id, self.example) || (t == start && t.sentence_seq
            < i32::MAX)
        &&& t.languages == start.languages
        &&& t.words == start.words
        &&& forall|w: int, x: Seq<char>|
            !(w == self.word_id && x == self.example) ==> #[trigger] t.sentence_id(w, x)
                == start.sentence_id(w, x)
        &&& t.sentences.len() <= start.sentences.len() + 1
        &&& start.has_sentence(self.word_id, self.example) ==> t.sentences.len()
            == start.sentences.len() && t.sentence_id(self.word_id, self.example)
            == start.sentence_id(self.word_id, self.example)
        &&& start.has_sentence(self.word_id, self.example) && policy == Policy::CheckThenInsert
            ==> t == start
    }

    proof fn lemma_begin(self, policy: Policy, start: Tables) {
    }

    proof fn lemma_served(
        self,
        policy: Policy,
        start: Tables,
        t: Tables,
        statement: Statement,
        who: int,
    ) {
        let meaning = self.meanings[who];
        if t.has_sentence(self.word_id, self.example) {
            let at = t.sentence_at(self.word_id, self.example);
            if statement == Statement::Upsert {
                lemma_set_meaning(t, at, meaning);
            }
        } else if statement != Statement::Select {
            lemma_add_sentence(t, self.word_id, self.example, meaning);
        }
    }
}

/// Any number of writers may record one sentence at the same time, each
/// with a meaning of its own, in any interleaving of their statements and
/// under either policy, as long as the word exists, no word is deleted
/// meanwhile, and an id is left for a key that is new. No writer fails;
/// every writer that is done holds the id of the one row that the key has;
/// a writer is done after three turns at the latest. The race adds at most
/// that one row and leaves the sentence of every other key under its id;
/// under `CheckThenInsert` a sentence that existed before the race is left
/// untouched.
pub proof fn lemma_sentence_race(
    t: Tables,
    policy: Policy,
    word_id: int,
    example: Seq<char>,
    meanings: Seq<Option<Seq<char>>>,
    schedule: Seq<int>,
)
    requires
        t.wf(),
        t.has_word_id(word_id),
        t.has_sentence(word_id, example) || t.sentence_seq < i32::MAX,
    ensures
        ({
            let (after, ended) = race(
                SentenceContest { word_id, example, meanings },
                t,
                at_start(meanings.len()),
                policy,
                schedule,
            );
            &&& after.wf()
            &&& ended.len() == meanings.len()
            &&& after.sentences.len() <= t.sentences.len() + 1
            &&& t.has_sentence(word_id, example) ==> after.sentences.len() == t.sentences.len()
            &&& t.has_sentence(word_id, example) && policy == Policy::CheckThenInsert ==> after
                == t
            &&& forall|w: int, x: Seq<char>|
                !(w == word_id && x == example) ==> #[trigger] after.sentence_id(w, x)
                    == t.sentence_id(w, x)
            &&& forall|i: int| 0 <= i < ended.len() ==> !(#[trigger] ended[i] is Failed)
            &&& forall|i: int|
                0 <= i < ended.len() ==> (#[trigger] ended[i] matches Resolution::Resolved(id)
                    ==> after.sentence_id(word_id, example) == Some(id as int))
            &&& forall|i: int|
                0 <= i < ended.len() && turns(schedule, i) >= 3 ==> #[trigger] ended[i] is Resolved
        }),
{
    let contest = SentenceContest { word_id, example, meanings };
    lemma_race(contest, t, meanings.len(), policy, schedule);
}

} // verus!
