use lexicon::controllers::page::{assemble_page, group_sentences, page_word_ids};
use lexicon::controllers::word_controller::{
    create_entry, create_word, delete_word, get_all_words, get_word, page_window, run,
    status_code, Answer, Call, CreateWordRequest, EntryError, ManualEntry, PaginationParams,
    Request, SentenceResponse, Success, WordResponse, DEFAULT_LIMIT, DEFAULT_OFFSET,
};
use lexicon::services::calls::{perform, StoreAnswer, StoreCall};
use lexicon::services::db::{Store, StoreError};
use lexicon::services::reconcile::Policy;
use lexicon::services::word::{Sentence, Word};

fn manual(language: &str, term: &str, definition: &str) -> ManualEntry {
    ManualEntry {
        language: language.to_string(),
        term: term.to_string(),
        definition: definition.to_string(),
    }
}

fn generated(form: &str, language: &str, definition: &str, example: &str, meaning: &str) -> Word {
    Word {
        dictionary_form: form.to_string(),
        language: language.to_string(),
        definition: definition.to_string(),
        sentence: Sentence { example: example.to_string(), meaning: meaning.to_string() },
    }
}

fn entry(id: i32, language: &str, term: &str, definition: &str) -> WordResponse {
    WordResponse {
        id,
        language: language.to_string(),
        term: term.to_string(),
        definition: definition.to_string(),
        sentences: vec![],
    }
}

fn sentence(id: i32, example: &str, meaning: Option<&str>) -> SentenceResponse {
    SentenceResponse { id, example: example.to_string(), meaning: meaning.map(str::to_string) }
}

fn finished(request: Request) -> Result<Success, EntryError> {
    match request {
        Request::Done(result) => result,
        other => panic!("the request is not over: {:?}", other),
    }
}

fn found(store: &mut Store, language: &str, term: &str) -> Result<WordResponse, EntryError> {
    match finished(run(store, get_word(language.to_string(), term.to_string()))) {
        Ok(Success::Found(entry)) => Ok(entry),
        Ok(other) => panic!("{:?}", other),
        Err(e) => Err(e),
    }
}

fn listed(store: &mut Store, limit: Option<i64>, offset: Option<i64>) -> Vec<WordResponse> {
    match finished(run(store, get_all_words(PaginationParams { limit, offset }))) {
        Ok(Success::Listed(entries)) => entries,
        other => panic!("{:?}", other),
    }
}

fn created(store: &mut Store, entry: ManualEntry) -> WordResponse {
    match finished(run(store, create_entry(entry))) {
        Ok(Success::Created(entry)) => entry,
        other => panic!("{:?}", other),
    }
}

fn ingested(store: &mut Store, raw: &str, reply: Option<Word>) -> Result<Success, EntryError> {
    let request = run(store, create_word(CreateWordRequest { term: raw.to_string() }));
    let answer = match reply {
        Some(entry) => Answer::Enriched(entry),
        None => Answer::NotEnriched,
    };
    let request = match request.call() {
        Some(Call::Enrich { .. }) => request.advance(answer),
        _ => request,
    };
    finished(run(store, request))
}

fn calls_until_done(store: &mut Store, request: Request) -> (usize, Request) {
    let mut request = request;
    let mut calls = 0;
    while let Some(Call::Store(call)) = request.call() {
        calls += 1;
        let answer = perform(store, &call);
        request = request.advance(Answer::Store(answer));
    }
    (calls, request)
}

#[test]
fn window_takes_the_defaults_where_it_names_none() {
    assert_eq!(DEFAULT_LIMIT, 20);
    assert_eq!(DEFAULT_OFFSET, 0);
    assert_eq!(page_window(&PaginationParams { limit: None, offset: None }), (20, 0));
    assert_eq!(page_window(&PaginationParams { limit: Some(5), offset: None }), (5, 0));
    assert_eq!(page_window(&PaginationParams { limit: None, offset: Some(7) }), (20, 7));
    assert_eq!(page_window(&PaginationParams { limit: Some(-3), offset: Some(9) }), (-3, 9));
    assert_eq!(
        page_window(&PaginationParams { limit: Some(1_000_000), offset: Some(0) }),
        (1_000_000, 0)
    );
}

#[test]
fn word_ids_follow_the_page() {
    let words = vec![
        (3, "english".to_string(), "c".to_string(), "C".to_string()),
        (1, "english".to_string(), "a".to_string(), "A".to_string()),
        (3, "german".to_string(), "c".to_string(), "C".to_string()),
    ];
    assert_eq!(page_word_ids(&words), vec![3, 1, 3]);
    assert_eq!(page_word_ids(&vec![]), Vec::<i32>::new());
}

#[test]
fn sentences_are_grouped_by_word() {
    let groups = group_sentences(vec![
        (1, 10, "a".to_string(), None),
        (2, 20, "b".to_string(), Some("B".to_string())),
        (3, 10, "c".to_string(), Some("C".to_string())),
    ]);
    assert_eq!(groups.len(), 2);
    assert_eq!(groups[&10], vec![sentence(1, "a", None), sentence(3, "c", Some("C"))]);
    assert_eq!(groups[&20], vec![sentence(2, "b", Some("B"))]);
    assert!(group_sentences(vec![]).is_empty());
}

#[test]
fn page_attaches_to_each_word_its_own_sentences() {
    let words = vec![
        (2, "english".to_string(), "walk".to_string(), "W".to_string()),
        (1, "english".to_string(), "run".to_string(), "R".to_string()),
        (3, "german".to_string(), "laufen".to_string(), "L".to_string()),
    ];
    let batch = vec![
        (1, 1, "He runs.".to_string(), None),
        (2, 2, "She walks.".to_string(), Some("m".to_string())),
        (3, 1, "Run!".to_string(), None),
        (4, 9, "stray".to_string(), None),
    ];
    let entries = assemble_page(words, batch);
    assert_eq!(
        entries,
        vec![
            WordResponse {
                sentences: vec![sentence(2, "She walks.", Some("m"))],
                ..entry(2, "english", "walk", "W")
            },
            WordResponse {
                sentences: vec![sentence(1, "He runs.", None), sentence(3, "Run!", None)],
                ..entry(1, "english", "run", "R")
            },
            entry(3, "german", "laufen", "L"),
        ]
    );
}

#[test]
fn a_word_listed_twice_gets_its_sentences_once() {
    let words = vec![
        (1, "english".to_string(), "run".to_string(), "R".to_string()),
        (1, "english".to_string(), "run".to_string(), "R".to_string()),
    ];
    let batch = vec![(5, 1, "He runs.".to_string(), None)];
    let entries = assemble_page(words, batch);
    assert_eq!(entries[0].sentences, vec![sentence(5, "He runs.", None)]);
    assert_eq!(entries[1].sentences, vec![]);
}

#[test]
fn entry_created_in_full_is_found_without_sentences() {
    let mut store = Store::new();
    let stored = created(&mut store, manual("english", "run", "to move fast"));
    assert_eq!(stored, entry(1, "english", "run", "to move fast"));
    assert_eq!(found(&mut store, "english", "run"), Ok(entry(1, "english", "run", "to move fast")));
    let got = found(&mut store, "english", "run").unwrap();
    assert_eq!(got.term, "run");
    assert_eq!(got.definition, "to move fast");
    assert!(got.sentences.is_empty());
}

#[test]
fn lookup_of_a_missing_entry_is_not_found() {
    let mut store = Store::new();
    assert_eq!(found(&mut store, "english", "run"), Err(EntryError::NotFound));
    created(&mut store, manual("english", "run", "to move fast"));
    assert_eq!(found(&mut store, "english", "walk"), Err(EntryError::NotFound));
    assert_eq!(found(&mut store, "german", "run"), Err(EntryError::NotFound));
}

#[test]
fn term_without_letters_is_rejected_before_any_call() {
    for raw in ["", "!!!", " - ", "?!."] {
        let request = create_word(CreateWordRequest { term: raw.to_string() });
        assert!(request.call().is_none());
        assert!(matches!(request, Request::Done(Err(EntryError::InvalidInput))));
    }
    let mut store = Store::new();
    assert!(matches!(ingested(&mut store, "!!!", None), Err(EntryError::InvalidInput)));
    assert!(listed(&mut store, None, None).is_empty());
}

#[test]
fn generation_is_asked_for_the_key_of_the_term() {
    let request = create_word(CreateWordRequest { term: "Running!!".to_string() });
    match request.call() {
        Some(Call::Enrich { term }) => assert_eq!(term, "running"),
        other => panic!("{:?}", other),
    }
}

#[test]
fn generated_entry_is_stored_under_its_dictionary_form() {
    let mut store = Store::new();
    let reply = generated("run", "english", "to move fast on foot", "He runs daily.", "habit");
    let stored = match ingested(&mut store, "Running!!", Some(reply)) {
        Ok(Success::Created(entry)) => entry,
        other => panic!("{:?}", other),
    };
    let expected = WordResponse {
        sentences: vec![sentence(1, "He runs daily.", Some("habit"))],
        ..entry(1, "english", "run", "to move fast on foot")
    };
    assert_eq!(stored, expected);
    assert_eq!(found(&mut store, "english", "run"), Ok(expected));
    assert_eq!(found(&mut store, "english", "running"), Err(EntryError::NotFound));
    assert_eq!(found(&mut store, "english", "run").unwrap().sentences.len(), 1);
}

#[test]
fn generated_entry_that_the_store_holds_is_found() {
    let mut store = Store::new();
    let first = generated("run", "english", "to move fast", "He runs daily.", "habit");
    assert!(matches!(ingested(&mut store, "Running!!", Some(first)), Ok(Success::Created(_))));
    let second = generated("run", "english", "to flee", "They ran away.", "past");
    let again = match ingested(&mut store, "runs", Some(second)) {
        Ok(Success::Found(entry)) => entry,
        other => panic!("{:?}", other),
    };
    assert_eq!(
        again,
        WordResponse {
            sentences: vec![sentence(1, "He runs daily.", Some("habit"))],
            ..entry(1, "english", "run", "to move fast")
        }
    );
    assert_eq!(listed(&mut store, None, None).len(), 1);
}

#[test]
fn failed_generation_fails_the_request_and_stores_nothing() {
    let mut store = Store::new();
    assert!(matches!(ingested(&mut store, "run", None), Err(EntryError::GenerationFailure)));
    assert!(listed(&mut store, None, None).is_empty());
    assert_eq!(store.find_language("english"), None);
    let reply = generated("run", "english", "to move fast", "He runs daily.", "habit");
    assert!(matches!(ingested(&mut store, "run", Some(reply)), Ok(Success::Created(_))));
}

#[test]
fn second_entry_in_full_keeps_or_takes_the_definition_by_policy() {
    let mut store = Store::with_policy(Policy::CheckThenInsert);
    created(&mut store, manual("english", "run", "to move fast"));
    let second = created(&mut store, manual("english", "run", "to flee"));
    assert_eq!(second.id, 1);
    assert_eq!(found(&mut store, "english", "run").unwrap().definition, "to move fast");
    assert_eq!(listed(&mut store, None, None).len(), 1);

    let mut store = Store::with_policy(Policy::AtomicUpsert);
    created(&mut store, manual("english", "run", "to move fast"));
    let second = created(&mut store, manual("english", "run", "to flee"));
    assert_eq!(second.id, 1);
    assert_eq!(found(&mut store, "english", "run").unwrap().definition, "to flee");
    assert_eq!(listed(&mut store, None, None).len(), 1);
}

#[test]
fn listing_returns_only_the_window_with_own_sentences() {
    let mut store = Store::new();
    for (form, example) in [("run", "He runs."), ("walk", "She walks."), ("swim", "They swim.")] {
        let reply = generated(form, "english", "to move", example, "m");
        assert!(matches!(ingested(&mut store, form, Some(reply)), Ok(Success::Created(_))));
    }
    let page = listed(&mut store, Some(1), Some(0));
    assert_eq!(
        page,
        vec![WordResponse {
            sentences: vec![sentence(1, "He runs.", Some("m"))],
            ..entry(1, "english", "run", "to move")
        }]
    );
    let page = listed(&mut store, Some(2), Some(1));
    assert_eq!(
        page,
        vec![
            WordResponse {
                sentences: vec![sentence(2, "She walks.", Some("m"))],
                ..entry(2, "english", "walk", "to move")
            },
            WordResponse {
                sentences: vec![sentence(3, "They swim.", Some("m"))],
                ..entry(3, "english", "swim", "to move")
            },
        ]
    );
    let all = listed(&mut store, None, None);
    assert_eq!(all.iter().map(|e| e.id).collect::<Vec<i32>>(), vec![1, 2, 3]);
    assert!(listed(&mut store, Some(20), Some(3)).is_empty());
}

#[test]
fn listing_below_zero_is_a_store_failure() {
    let mut store = Store::new();
    let request = get_all_words(PaginationParams { limit: Some(-1), offset: None });
    assert!(matches!(
        finished(run(&mut store, request)),
        Err(EntryError::StoreFailure(StoreError::Other))
    ));
}

#[test]
fn listing_reads_once_when_the_page_is_empty() {
    let mut store = Store::new();
    let request = get_all_words(PaginationParams { limit: None, offset: None });
    let (calls, done) = calls_until_done(&mut store, request);
    assert_eq!(calls, 1);
    assert!(matches!(finished(done), Ok(Success::Listed(entries)) if entries.is_empty()));
}

#[test]
fn listing_reads_twice_whatever_the_page_size() {
    let mut store = Store::new();
    for i in 0..30 {
        created(&mut store, manual("english", &format!("w{}", i), "d"));
    }
    for limit in [1, 2, 20, 30, 1000] {
        let request = get_all_words(PaginationParams { limit: Some(limit), offset: None });
        let (calls, done) = calls_until_done(&mut store, request);
        assert_eq!(calls, 2);
        assert!(matches!(finished(done), Ok(Success::Listed(entries))
            if entries.len() as i64 == limit.min(30)));
    }
    let request = get_all_words(PaginationParams { limit: Some(5), offset: Some(30) });
    assert_eq!(calls_until_done(&mut store, request).0, 1);
}

#[test]
fn listing_asks_for_one_batch_of_the_page_ids() {
    let words = vec![
        (4, "english".to_string(), "run".to_string(), "R".to_string()),
        (9, "english".to_string(), "walk".to_string(), "W".to_string()),
    ];
    let request = get_all_words(PaginationParams { limit: None, offset: None });
    match request.call() {
        Some(Call::Store(StoreCall::ListWords { limit: 20, offset: 0 })) => {}
        other => panic!("{:?}", other),
    }
    let request = request.advance(Answer::Store(StoreAnswer::Words(words)));
    match request.call() {
        Some(Call::Store(StoreCall::ListSentencesBatched { word_ids })) => {
            assert_eq!(word_ids, vec![4, 9])
        }
        other => panic!("{:?}", other),
    }
    let batch = vec![(1, 9, "She walks.".to_string(), None)];
    match finished(request.advance(Answer::Store(StoreAnswer::Batch(batch)))) {
        Ok(Success::Listed(entries)) => {
            assert_eq!(entries[0].sentences, vec![]);
            assert_eq!(entries[1].sentences, vec![sentence(1, "She walks.", None)]);
        }
        other => panic!("{:?}", other),
    }
}

#[test]
fn deleting_a_word_makes_its_entry_not_found() {
    let mut store = Store::new();
    let reply = generated("run", "english", "to move fast", "He runs daily.", "habit");
    assert!(matches!(ingested(&mut store, "run", Some(reply)), Ok(Success::Created(_))));
    created(&mut store, manual("english", "walk", "to move slowly"));
    assert!(matches!(finished(run(&mut store, delete_word(1))), Ok(Success::Deleted)));
    assert_eq!(found(&mut store, "english", "run"), Err(EntryError::NotFound));
    assert_eq!(
        found(&mut store, "english", "walk"),
        Ok(entry(2, "english", "walk", "to move slowly"))
    );
    match perform(&mut store, &StoreCall::ListSentences { word_id: 1 }) {
        StoreAnswer::Sentences(rows) => assert!(rows.is_empty()),
        other => panic!("{:?}", other),
    }
}

#[test]
fn deleting_a_missing_word_succeeds() {
    let mut store = Store::new();
    assert!(matches!(finished(run(&mut store, delete_word(42))), Ok(Success::Deleted)));
    created(&mut store, manual("english", "run", "to move fast"));
    assert!(matches!(finished(run(&mut store, delete_word(2))), Ok(Success::Deleted)));
    assert_eq!(listed(&mut store, None, None).len(), 1);
}

#[test]
fn refusal_of_the_store_ends_the_request() {
    let request = get_word("english".to_string(), "run".to_string());
    let refused = Answer::Store(StoreAnswer::Refused(StoreError::Other));
    assert!(matches!(
        finished(request.advance(refused)),
        Err(EntryError::StoreFailure(StoreError::Other))
    ));
    let request = create_entry(manual("english", "run", "to move fast"));
    let refused = Answer::Store(StoreAnswer::Refused(StoreError::ForeignKeyViolation));
    assert!(matches!(
        finished(request.advance(refused)),
        Err(EntryError::StoreFailure(StoreError::ForeignKeyViolation))
    ));
    let request = delete_word(3).advance(Answer::Store(StoreAnswer::Id(3)));
    assert!(matches!(finished(request), Err(EntryError::StoreFailure(StoreError::Other))));
    let request = create_word(CreateWordRequest { term: "run".to_string() });
    let request = request.advance(Answer::Store(StoreAnswer::Deleted));
    assert!(matches!(finished(request), Err(EntryError::GenerationFailure)));
}

#[test]
fn a_request_that_is_over_takes_no_answer() {
    let request = delete_word(3).advance(Answer::Store(StoreAnswer::Deleted));
    let request = request.advance(Answer::Store(StoreAnswer::Refused(StoreError::Other)));
    assert!(matches!(finished(request), Ok(Success::Deleted)));
}

#[test]
fn run_stops_where_an_entry_must_be_generated() {
    let mut store = Store::new();
    let request = run(&mut store, create_word(CreateWordRequest { term: "Run".to_string() }));
    assert!(matches!(request, Request::Enriching { .. }));
    assert!(matches!(request.call(), Some(Call::Enrich { .. })));
}

#[test]
fn each_end_of_a_request_has_its_status() {
    assert_eq!(status_code(&Ok(Success::Found(entry(1, "english", "run", "d")))), 200);
    assert_eq!(status_code(&Ok(Success::Created(entry(1, "english", "run", "d")))), 200);
    assert_eq!(status_code(&Ok(Success::Listed(vec![]))), 200);
    assert_eq!(status_code(&Ok(Success::Deleted)), 204);
    assert_eq!(status_code(&Err(EntryError::InvalidInput)), 400);
    assert_eq!(status_code(&Err(EntryError::NotFound)), 404);
    assert_eq!(status_code(&Err(EntryError::StoreFailure(StoreError::Other))), 500);
    assert_eq!(status_code(&Err(EntryError::StoreFailure(StoreError::UniqueViolation))), 500);
    assert_eq!(status_code(&Err(EntryError::GenerationFailure)), 502);
}
