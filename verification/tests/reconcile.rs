use lexicon::services::db::{get_sentences_by_word, get_word, Store, StoreError};
use lexicon::services::reconcile::{Policy, Reply, Resolution, Statement};

#[test]
fn check_then_insert_starts_with_a_lookup() {
    let start = Resolution::Start;
    assert_eq!(start.statement(Policy::CheckThenInsert), Some(Statement::Select));
    assert_eq!(Resolution::Missing.statement(Policy::CheckThenInsert), Some(Statement::Insert));
    assert_eq!(Resolution::Conflict.statement(Policy::CheckThenInsert), Some(Statement::Select));
    assert_eq!(Resolution::Resolved(4).statement(Policy::CheckThenInsert), None);
    assert_eq!(Resolution::Failed(StoreError::Other).statement(Policy::CheckThenInsert), None);
}

#[test]
fn atomic_upsert_is_one_statement() {
    let policy = Policy::AtomicUpsert;
    assert_eq!(Resolution::Start.statement(policy), Some(Statement::Upsert));
    assert_eq!(Resolution::Start.advance(policy, Reply::Stored(9)), Resolution::Resolved(9));
    assert_eq!(
        Resolution::Start.advance(policy, Reply::Refused(StoreError::UniqueViolation)),
        Resolution::Failed(StoreError::UniqueViolation)
    );
    assert_eq!(
        Resolution::Start.advance(policy, Reply::Row(Some(9))),
        Resolution::Failed(StoreError::Other)
    );
}

#[test]
fn lookup_that_finds_the_row_ends_the_resolution() {
    let policy = Policy::CheckThenInsert;
    assert_eq!(Resolution::Start.advance(policy, Reply::Row(Some(7))), Resolution::Resolved(7));
    assert_eq!(Resolution::Start.advance(policy, Reply::Row(None)), Resolution::Missing);
    assert_eq!(Resolution::Conflict.advance(policy, Reply::Row(Some(7))), Resolution::Resolved(7));
}

#[test]
fn conflict_on_insert_leads_to_a_second_lookup() {
    let policy = Policy::CheckThenInsert;
    assert_eq!(Resolution::Missing.advance(policy, Reply::Stored(3)), Resolution::Resolved(3));
    assert_eq!(
        Resolution::Missing.advance(policy, Reply::Refused(StoreError::UniqueViolation)),
        Resolution::Conflict
    );
}

#[test]
fn other_refusals_are_final() {
    let policy = Policy::CheckThenInsert;
    assert_eq!(
        Resolution::Start.advance(policy, Reply::Refused(StoreError::Other)),
        Resolution::Failed(StoreError::Other)
    );
    assert_eq!(
        Resolution::Start.advance(policy, Reply::Refused(StoreError::UniqueViolation)),
        Resolution::Failed(StoreError::UniqueViolation)
    );
    assert_eq!(
        Resolution::Missing.advance(policy, Reply::Refused(StoreError::ForeignKeyViolation)),
        Resolution::Failed(StoreError::ForeignKeyViolation)
    );
    assert_eq!(
        Resolution::Conflict.advance(policy, Reply::Refused(StoreError::UniqueViolation)),
        Resolution::Failed(StoreError::UniqueViolation)
    );
    assert_eq!(
        Resolution::Conflict.advance(policy, Reply::Row(None)),
        Resolution::Failed(StoreError::Other)
    );
}

#[test]
fn answers_of_the_wrong_kind_fail_the_resolution() {
    let policy = Policy::CheckThenInsert;
    assert_eq!(
        Resolution::Start.advance(policy, Reply::Stored(1)),
        Resolution::Failed(StoreError::Other)
    );
    assert_eq!(
        Resolution::Missing.advance(policy, Reply::Row(Some(1))),
        Resolution::Failed(StoreError::Other)
    );
}

#[test]
fn a_resolution_that_is_over_stays_as_it_is() {
    for policy in [Policy::CheckThenInsert, Policy::AtomicUpsert] {
        assert_eq!(
            Resolution::Resolved(2).advance(policy, Reply::Stored(5)),
            Resolution::Resolved(2)
        );
        assert_eq!(
            Resolution::Failed(StoreError::Other).advance(policy, Reply::Row(Some(5))),
            Resolution::Failed(StoreError::Other)
        );
    }
    assert_eq!(Resolution::Resolved(2).outcome(), Some(Ok(2)));
    assert_eq!(
        Resolution::Failed(StoreError::ForeignKeyViolation).outcome(),
        Some(Err(StoreError::ForeignKeyViolation))
    );
    assert_eq!(Resolution::Start.outcome(), None);
    assert_eq!(Resolution::Missing.outcome(), None);
    assert_eq!(Resolution::Conflict.outcome(), None);
}

fn race(policy: Policy, writers: usize, schedule: &[usize]) -> (Store, Vec<Resolution>) {
    let mut store = Store::with_policy(policy);
    store.insert_language("german").unwrap();
    let mut states = vec![Resolution::Start; writers];
    for &who in schedule {
        if let Some(statement) = states[who].statement(policy) {
            let reply = store.serve_language(statement, "english");
            states[who] = states[who].advance(policy, reply);
        }
    }
    (store, states)
}

#[test]
fn writers_that_race_for_a_language_get_the_same_id() {
    let schedules: [&[usize]; 5] = [
        &[0, 1, 2, 0, 1, 2, 0, 1, 2],
        &[0, 0, 0, 1, 1, 1, 2, 2, 2],
        &[2, 1, 0, 0, 1, 2, 2, 1, 0],
        &[0, 1, 1, 2, 0, 2, 1, 0, 2],
        &[1, 2, 2, 2, 0, 0, 1, 1, 0],
    ];
    for policy in [Policy::CheckThenInsert, Policy::AtomicUpsert] {
        for schedule in schedules {
            let (mut store, states) = race(policy, 3, schedule);
            assert_eq!(states, vec![Resolution::Resolved(2); 3]);
            assert_eq!(store.find_language("english"), Some(2));
            assert_eq!(store.find_language("german"), Some(1));
            assert_eq!(store.insert_language("english"), Err(StoreError::UniqueViolation));
            assert_eq!(store.insert_language("french"), Ok(3));
        }
    }
}

#[test]
fn the_loser_of_a_race_meets_the_conflict_and_recovers() {
    let (_, states) = race(Policy::CheckThenInsert, 2, &[0, 1, 0, 1]);
    assert_eq!(states, vec![Resolution::Resolved(2), Resolution::Conflict]);
    let (_, states) = race(Policy::CheckThenInsert, 2, &[0, 1, 0, 1, 1]);
    assert_eq!(states, vec![Resolution::Resolved(2), Resolution::Resolved(2)]);
}

fn word_race(policy: Policy, definitions: &[&str], schedule: &[usize]) -> (Store, Vec<Resolution>) {
    let mut store = Store::with_policy(policy);
    store.insert_language("english").unwrap();
    store.insert_word(1, "walk", "to move slowly").unwrap();
    let mut states = vec![Resolution::Start; definitions.len()];
    for &who in schedule {
        if let Some(statement) = states[who].statement(policy) {
            let reply = store.serve_word(statement, 1, "run", definitions[who]);
            states[who] = states[who].advance(policy, reply);
        }
    }
    (store, states)
}

#[test]
fn writers_that_race_for_a_word_get_the_same_id() {
    let definitions = ["first", "second", "third"];
    let schedules: [&[usize]; 4] = [
        &[0, 1, 2, 0, 1, 2, 0, 1, 2],
        &[2, 2, 2, 1, 1, 1, 0, 0, 0],
        &[1, 0, 1, 2, 0, 2, 1, 0, 2],
        &[2, 0, 1, 1, 0, 2, 2, 1, 0],
    ];
    for policy in [Policy::CheckThenInsert, Policy::AtomicUpsert] {
        for schedule in schedules {
            let (mut store, states) = word_race(policy, &definitions, schedule);
            assert_eq!(states, vec![Resolution::Resolved(2); 3]);
            assert_eq!(store.find_word(1, "run"), Some(2));
            assert_eq!(store.find_word(1, "walk"), Some(1));
            assert_eq!(store.insert_word(1, "swim", "x"), Ok(3));
        }
    }
}

#[test]
fn the_first_insert_wins_the_definition_under_check_then_insert() {
    let definitions = ["first", "second"];
    let (store, _) = word_race(Policy::CheckThenInsert, &definitions, &[0, 1, 1, 0, 0, 1]);
    assert_eq!(
        get_word(&store, "english", "run"),
        Ok(Some((2, "run".to_string(), "second".to_string())))
    );
    let (store, _) = word_race(Policy::CheckThenInsert, &definitions, &[1, 0, 0, 1, 1]);
    assert_eq!(
        get_word(&store, "english", "run"),
        Ok(Some((2, "run".to_string(), "first".to_string())))
    );
}

#[test]
fn the_last_upsert_wins_the_definition_under_atomic_upsert() {
    let definitions = ["first", "second"];
    let (store, _) = word_race(Policy::AtomicUpsert, &definitions, &[0, 1]);
    assert_eq!(
        get_word(&store, "english", "run"),
        Ok(Some((2, "run".to_string(), "second".to_string())))
    );
    let (store, _) = word_race(Policy::AtomicUpsert, &definitions, &[1, 0]);
    assert_eq!(
        get_word(&store, "english", "run"),
        Ok(Some((2, "run".to_string(), "first".to_string())))
    );
}

#[test]
fn writers_that_race_for_a_sentence_get_the_same_id() {
    let meanings = [Some("first"), None, Some("third")];
    for policy in [Policy::CheckThenInsert, Policy::AtomicUpsert] {
        let mut store = Store::with_policy(policy);
        store.insert_language("english").unwrap();
        store.insert_word(1, "run", "to move fast").unwrap();
        let mut states = vec![Resolution::Start; 3];
        for who in [2usize, 0, 1, 1, 0, 2, 0, 1, 2] {
            if let Some(statement) = states[who].statement(policy) {
                let reply = store.serve_sentence(statement, 1, "He runs.", meanings[who]);
                states[who] = states[who].advance(policy, reply);
            }
        }
        assert_eq!(states, vec![Resolution::Resolved(1); 3]);
        assert_eq!(get_sentences_by_word(&store, 1).unwrap().len(), 1);
    }
}

#[test]
fn serve_answers_each_statement() {
    let mut store = Store::new();
    assert_eq!(store.serve_language(Statement::Select, "english"), Reply::Row(None));
    assert_eq!(store.serve_language(Statement::Insert, "english"), Reply::Stored(1));
    assert_eq!(
        store.serve_language(Statement::Insert, "english"),
        Reply::Refused(StoreError::UniqueViolation)
    );
    assert_eq!(store.serve_language(Statement::Upsert, "english"), Reply::Stored(1));
    assert_eq!(store.serve_language(Statement::Upsert, "german"), Reply::Stored(2));
    assert_eq!(store.serve_language(Statement::Select, "german"), Reply::Row(Some(2)));
    assert_eq!(store.serve_word(Statement::Select, 1, "run", "x"), Reply::Row(None));
    assert_eq!(
        store.serve_word(Statement::Insert, 3, "run", "x"),
        Reply::Refused(StoreError::ForeignKeyViolation)
    );
    assert_eq!(store.serve_word(Statement::Insert, 1, "run", "x"), Reply::Stored(1));
    assert_eq!(store.serve_word(Statement::Upsert, 1, "run", "y"), Reply::Stored(1));
    assert_eq!(store.serve_word(Statement::Select, 1, "run", "z"), Reply::Row(Some(1)));
    assert_eq!(store.serve_sentence(Statement::Select, 1, "He runs.", None), Reply::Row(None));
    assert_eq!(store.serve_sentence(Statement::Insert, 1, "He runs.", None), Reply::Stored(1));
    assert_eq!(
        store.serve_sentence(Statement::Insert, 1, "He runs.", Some("m")),
        Reply::Refused(StoreError::UniqueViolation)
    );
    assert_eq!(store.serve_sentence(Statement::Upsert, 1, "He runs.", Some("m")), Reply::Stored(1));
    assert_eq!(
        store.serve_sentence(Statement::Upsert, 2, "He runs.", None),
        Reply::Refused(StoreError::ForeignKeyViolation)
    );
}
