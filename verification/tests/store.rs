use lexicon::services::calls::{perform, StoreAnswer, StoreCall};
use lexicon::services::db::{
    create_language, create_sentence, create_word, delete_word, get_all_words,
    get_sentences_by_word, get_sentences_by_word_ids, get_word, Store, StoreError,
};
use lexicon::services::reconcile::Policy;

fn seeded(policy: Policy) -> Store {
    let mut store = Store::with_policy(policy);
    let english = create_language(&mut store, "english").unwrap();
    let german = create_language(&mut store, "german").unwrap();
    create_word(&mut store, english, "run", "to move fast").unwrap();
    create_word(&mut store, german, "laufen", "to run").unwrap();
    create_word(&mut store, english, "walk", "to move slowly").unwrap();
    store
}

#[test]
fn sqlstate_codes_are_told_apart() {
    assert_eq!(StoreError::from_sqlstate(Some("23505")), StoreError::UniqueViolation);
    assert_eq!(StoreError::from_sqlstate(Some("23503")), StoreError::ForeignKeyViolation);
    assert_eq!(StoreError::from_sqlstate(Some("42P01")), StoreError::Other);
    assert_eq!(StoreError::from_sqlstate(Some("")), StoreError::Other);
    assert_eq!(StoreError::from_sqlstate(None), StoreError::Other);
}

#[test]
fn new_store_uses_check_then_insert() {
    assert_eq!(Store::new().reconciliation(), Policy::CheckThenInsert);
    assert_eq!(
        Store::with_policy(Policy::AtomicUpsert).reconciliation(),
        Policy::AtomicUpsert
    );
}

#[test]
fn ids_start_at_one_and_ascend() {
    let mut store = Store::new();
    assert_eq!(store.insert_language("english"), Ok(1));
    assert_eq!(store.insert_language("german"), Ok(2));
    assert_eq!(store.insert_word(2, "laufen", "to run"), Ok(1));
    assert_eq!(store.insert_word(1, "run", "to move fast"), Ok(2));
    assert_eq!(store.insert_sentence(2, "He runs.", None), Ok(1));
    assert_eq!(store.insert_sentence(2, "She runs.", Some("...")), Ok(2));
}

#[test]
fn insert_refuses_a_key_twice() {
    let mut store = Store::new();
    assert_eq!(store.insert_language("english"), Ok(1));
    assert_eq!(store.insert_language("english"), Err(StoreError::UniqueViolation));
    assert_eq!(store.insert_language("English"), Ok(2));
    assert_eq!(store.insert_word(1, "run", "to move fast"), Ok(1));
    assert_eq!(store.insert_word(1, "run", "other"), Err(StoreError::UniqueViolation));
    assert_eq!(store.insert_word(2, "run", "other"), Ok(2));
    assert_eq!(store.insert_sentence(1, "He runs.", None), Ok(1));
    assert_eq!(
        store.insert_sentence(1, "He runs.", Some("again")),
        Err(StoreError::UniqueViolation)
    );
    assert_eq!(store.insert_sentence(2, "He runs.", None), Ok(2));
}

#[test]
fn insert_refuses_a_missing_parent() {
    let mut store = Store::new();
    assert_eq!(store.insert_word(1, "run", "to move fast"), Err(StoreError::ForeignKeyViolation));
    assert_eq!(store.insert_sentence(1, "He runs.", None), Err(StoreError::ForeignKeyViolation));
    assert_eq!(store.insert_language("english"), Ok(1));
    assert_eq!(store.insert_word(1, "run", "to move fast"), Ok(1));
    assert_eq!(store.insert_sentence(1, "He runs.", None), Ok(1));
    assert_eq!(store.upsert_word(7, "run", "x"), Err(StoreError::ForeignKeyViolation));
    assert_eq!(store.upsert_sentence(7, "He runs.", None), Err(StoreError::ForeignKeyViolation));
}

#[test]
fn find_returns_the_id_of_the_key() {
    let mut store = Store::new();
    assert_eq!(store.find_language("english"), None);
    store.insert_language("english").unwrap();
    store.insert_language("german").unwrap();
    assert_eq!(store.find_language("german"), Some(2));
    assert_eq!(store.find_language("GERMAN"), None);
    store.insert_word(2, "laufen", "to run").unwrap();
    assert_eq!(store.find_word(2, "laufen"), Some(1));
    assert_eq!(store.find_word(1, "laufen"), None);
    store.insert_sentence(1, "Er läuft.", None).unwrap();
    assert_eq!(store.find_sentence(1, "Er läuft."), Some(1));
    assert_eq!(store.find_sentence(1, "Er lief."), None);
}

#[test]
fn resolving_a_language_twice_gives_one_row() {
    for policy in [Policy::CheckThenInsert, Policy::AtomicUpsert] {
        let mut store = Store::with_policy(policy);
        assert_eq!(create_language(&mut store, "english"), Ok(1));
        assert_eq!(create_language(&mut store, "english"), Ok(1));
        assert_eq!(create_language(&mut store, "german"), Ok(2));
        assert_eq!(create_language(&mut store, "english"), Ok(1));
        assert_eq!(store.insert_language("french"), Ok(3));
    }
}

#[test]
fn check_then_insert_keeps_the_first_definition() {
    let mut store = Store::with_policy(Policy::CheckThenInsert);
    let english = create_language(&mut store, "english").unwrap();
    assert_eq!(create_word(&mut store, english, "run", "to move fast"), Ok(1));
    assert_eq!(create_word(&mut store, english, "run", "to flee"), Ok(1));
    assert_eq!(
        get_word(&store, "english", "run"),
        Ok(Some((1, "run".to_string(), "to move fast".to_string())))
    );
}

#[test]
fn atomic_upsert_takes_the_second_definition() {
    let mut store = Store::with_policy(Policy::AtomicUpsert);
    let english = create_language(&mut store, "english").unwrap();
    assert_eq!(create_word(&mut store, english, "run", "to move fast"), Ok(1));
    assert_eq!(create_word(&mut store, english, "run", "to flee"), Ok(1));
    assert_eq!(
        get_word(&store, "english", "run"),
        Ok(Some((1, "run".to_string(), "to flee".to_string())))
    );
}

#[test]
fn resolving_a_word_needs_its_language() {
    let mut store = Store::new();
    assert_eq!(
        create_word(&mut store, 1, "run", "to move fast"),
        Err(StoreError::ForeignKeyViolation)
    );
    assert_eq!(get_all_words(&store, 20, 0), Ok(vec![]));
}

#[test]
fn sentences_are_deduplicated_by_word_and_example() {
    let mut store = seeded(Policy::CheckThenInsert);
    assert_eq!(create_sentence(&mut store, 1, "He runs daily.", Some("first")), Ok(1));
    assert_eq!(create_sentence(&mut store, 1, "He runs daily.", Some("second")), Ok(1));
    assert_eq!(create_sentence(&mut store, 1, "She runs.", None), Ok(2));
    assert_eq!(create_sentence(&mut store, 3, "He runs daily.", None), Ok(3));
    assert_eq!(
        get_sentences_by_word(&store, 1),
        Ok(vec![
            (1, "He runs daily.".to_string(), Some("first".to_string())),
            (2, "She runs.".to_string(), None),
        ])
    );
    assert_eq!(create_sentence(&mut store, 9, "x", None), Err(StoreError::ForeignKeyViolation));
}

#[test]
fn atomic_upsert_takes_the_second_meaning() {
    let mut store = seeded(Policy::AtomicUpsert);
    assert_eq!(create_sentence(&mut store, 1, "He runs daily.", Some("first")), Ok(1));
    assert_eq!(create_sentence(&mut store, 1, "He runs daily.", None), Ok(1));
    assert_eq!(get_sentences_by_word(&store, 1), Ok(vec![(1, "He runs daily.".to_string(), None)]));
    assert_eq!(create_sentence(&mut store, 1, "He runs daily.", Some("third")), Ok(1));
    assert_eq!(
        get_sentences_by_word(&store, 1),
        Ok(vec![(1, "He runs daily.".to_string(), Some("third".to_string()))])
    );
}

#[test]
fn lookup_joins_language_and_word() {
    let store = seeded(Policy::CheckThenInsert);
    assert_eq!(
        get_word(&store, "german", "laufen"),
        Ok(Some((2, "laufen".to_string(), "to run".to_string())))
    );
    assert_eq!(get_word(&store, "english", "laufen"), Ok(None));
    assert_eq!(get_word(&store, "french", "run"), Ok(None));
    assert_eq!(get_word(&store, "english", "Run"), Ok(None));
}

#[test]
fn listing_orders_by_id_and_windows() {
    let store = seeded(Policy::CheckThenInsert);
    let run = (1, "english".to_string(), "run".to_string(), "to move fast".to_string());
    let laufen = (2, "german".to_string(), "laufen".to_string(), "to run".to_string());
    let walk = (3, "english".to_string(), "walk".to_string(), "to move slowly".to_string());
    assert_eq!(
        get_all_words(&store, 20, 0),
        Ok(vec![run.clone(), laufen.clone(), walk.clone()])
    );
    assert_eq!(get_all_words(&store, 1, 0), Ok(vec![run.clone()]));
    assert_eq!(get_all_words(&store, 2, 1), Ok(vec![laufen.clone(), walk.clone()]));
    assert_eq!(get_all_words(&store, 5, 2), Ok(vec![walk.clone()]));
    assert_eq!(get_all_words(&store, 5, 3), Ok(vec![]));
    assert_eq!(get_all_words(&store, 0, 0), Ok(vec![]));
    assert_eq!(
        get_all_words(&store, i64::MAX, 0),
        Ok(vec![run.clone(), laufen.clone(), walk.clone()])
    );
    assert_eq!(get_all_words(&store, i64::MAX, i64::MAX), Ok(vec![]));
}

#[test]
fn listing_refuses_a_window_below_zero() {
    let store = seeded(Policy::CheckThenInsert);
    assert_eq!(get_all_words(&store, -1, 0), Err(StoreError::Other));
    assert_eq!(get_all_words(&store, 1, -1), Err(StoreError::Other));
}

#[test]
fn batch_holds_the_sentences_of_the_listed_words_only() {
    let mut store = seeded(Policy::CheckThenInsert);
    create_sentence(&mut store, 1, "He runs daily.", Some("a")).unwrap();
    create_sentence(&mut store, 2, "Er läuft.", None).unwrap();
    create_sentence(&mut store, 3, "She walks.", Some("b")).unwrap();
    create_sentence(&mut store, 1, "Run!", None).unwrap();
    assert_eq!(
        get_sentences_by_word_ids(&store, &[3, 1]),
        Ok(vec![
            (1, 1, "He runs daily.".to_string(), Some("a".to_string())),
            (3, 3, "She walks.".to_string(), Some("b".to_string())),
            (4, 1, "Run!".to_string(), None),
        ])
    );
    assert_eq!(get_sentences_by_word_ids(&store, &[]), Ok(vec![]));
    assert_eq!(get_sentences_by_word_ids(&store, &[7]), Ok(vec![]));
    assert_eq!(get_sentences_by_word(&store, 2), Ok(vec![(2, "Er läuft.".to_string(), None)]));
    assert_eq!(get_sentences_by_word(&store, 7), Ok(vec![]));
}

#[test]
fn deleting_a_word_removes_its_sentences() {
    let mut store = seeded(Policy::CheckThenInsert);
    create_sentence(&mut store, 1, "He runs daily.", None).unwrap();
    create_sentence(&mut store, 2, "Er läuft.", None).unwrap();
    create_sentence(&mut store, 1, "Run!", None).unwrap();
    assert_eq!(delete_word(&mut store, 1), Ok(()));
    assert_eq!(get_word(&store, "english", "run"), Ok(None));
    assert_eq!(get_sentences_by_word(&store, 1), Ok(vec![]));
    assert_eq!(get_sentences_by_word(&store, 2), Ok(vec![(2, "Er läuft.".to_string(), None)]));
    assert_eq!(
        get_all_words(&store, 20, 0),
        Ok(vec![
            (2, "german".to_string(), "laufen".to_string(), "to run".to_string()),
            (3, "english".to_string(), "walk".to_string(), "to move slowly".to_string()),
        ])
    );
    assert_eq!(store.find_language("english"), Some(1));
}

#[test]
fn deleting_a_missing_word_is_no_failure() {
    let mut store = seeded(Policy::CheckThenInsert);
    assert_eq!(delete_word(&mut store, 42), Ok(()));
    assert_eq!(delete_word(&mut store, -1), Ok(()));
    assert_eq!(get_all_words(&store, 20, 0).unwrap().len(), 3);
    assert_eq!(delete_word(&mut store, 2), Ok(()));
    assert_eq!(delete_word(&mut store, 2), Ok(()));
    assert_eq!(get_all_words(&store, 20, 0).unwrap().len(), 2);
}

#[test]
fn a_deleted_id_is_not_handed_out_again() {
    let mut store = seeded(Policy::CheckThenInsert);
    delete_word(&mut store, 3).unwrap();
    assert_eq!(create_word(&mut store, 1, "walk", "again"), Ok(4));
}

#[test]
fn perform_runs_the_call_that_it_is_given() {
    let mut store = Store::new();
    let answer = perform(&mut store, &StoreCall::ResolveLanguage { name: "english".to_string() });
    assert!(matches!(answer, StoreAnswer::Id(1)));
    let answer = perform(
        &mut store,
        &StoreCall::ResolveWord {
            language_id: 1,
            term: "run".to_string(),
            definition: "to move fast".to_string(),
        },
    );
    assert!(matches!(answer, StoreAnswer::Id(1)));
    let answer = perform(
        &mut store,
        &StoreCall::RecordSentence {
            word_id: 1,
            example: "He runs.".to_string(),
            meaning: Some("...".to_string()),
        },
    );
    assert!(matches!(answer, StoreAnswer::Id(1)));
    match perform(
        &mut store,
        &StoreCall::LookupByTerm { language: "english".to_string(), term: "run".to_string() },
    ) {
        StoreAnswer::Found(found) => {
            assert_eq!(found, Some((1, "run".to_string(), "to move fast".to_string())))
        }
        other => panic!("{:?}", other),
    }
    match perform(&mut store, &StoreCall::ListSentences { word_id: 1 }) {
        StoreAnswer::Sentences(rows) => {
            assert_eq!(rows, vec![(1, "He runs.".to_string(), Some("...".to_string()))])
        }
        other => panic!("{:?}", other),
    }
    match perform(&mut store, &StoreCall::ListSentencesBatched { word_ids: vec![1] }) {
        StoreAnswer::Batch(rows) => {
            assert_eq!(rows, vec![(1, 1, "He runs.".to_string(), Some("...".to_string()))])
        }
        other => panic!("{:?}", other),
    }
    match perform(&mut store, &StoreCall::ListWords { limit: 20, offset: 0 }) {
        StoreAnswer::Words(rows) => assert_eq!(rows.len(), 1),
        other => panic!("{:?}", other),
    }
    assert!(matches!(
        perform(&mut store, &StoreCall::ListWords { limit: -1, offset: 0 }),
        StoreAnswer::Refused(StoreError::Other)
    ));
    assert!(matches!(
        perform(
            &mut store,
            &StoreCall::ResolveWord {
                language_id: 9,
                term: "x".to_string(),
                definition: "y".to_string()
            }
        ),
        StoreAnswer::Refused(StoreError::ForeignKeyViolation)
    ));
    assert!(matches!(perform(&mut store, &StoreCall::DeleteWord { id: 1 }), StoreAnswer::Deleted));
    match perform(&mut store, &StoreCall::ListSentences { word_id: 1 }) {
        StoreAnswer::Sentences(rows) => assert!(rows.is_empty()),
        other => panic!("{:?}", other),
    }
}
