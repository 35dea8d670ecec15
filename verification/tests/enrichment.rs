use lexicon::services::ai::reply_text;
use lexicon::services::word::WordService;

#[test]
fn prompt_puts_the_word_in_place_of_the_placeholder() {
    let service = WordService::new("Describe the word {WORD} as JSON.".to_string());
    assert_eq!(service.prompt("running"), "Describe the word running as JSON.");
}

#[test]
fn prompt_fills_every_placeholder() {
    let service = WordService::new("{WORD}: what does {WORD} mean? {WORD}".to_string());
    assert_eq!(service.prompt("run"), "run: what does run mean? run");
}

#[test]
fn prompt_without_placeholder_is_the_template() {
    let service = WordService::new("No slot here, only {WORD and WORD}.".to_string());
    assert_eq!(service.prompt("run"), "No slot here, only {WORD and WORD}.");
    assert_eq!(WordService::new(String::new()).prompt("run"), "");
}

#[test]
fn prompt_reads_placeholders_from_the_left() {
    let service = WordService::new("{{WORD}}{WORD{WORD}".to_string());
    assert_eq!(service.prompt("x"), "{x}{WORDx");
    assert_eq!(service.prompt(""), "{}{WORD");
    assert_eq!(service.prompt("{WORD}"), "{{WORD}}{WORD{WORD}");
}

#[test]
fn prompt_agrees_with_replace() {
    for template in ["{WORD}", "a{WORD}b{WORD}", "é{WORD}ü", "{WORD", "WORD}", "{word}", ""] {
        for word in ["run", "", "größe", "{WORD}"] {
            let service = WordService::new(template.to_string());
            assert_eq!(service.prompt(word), template.replace("{WORD}", word));
        }
    }
}

#[test]
fn reply_text_is_the_first_choice() {
    assert_eq!(
        reply_text(vec![Some("first".to_string()), Some("second".to_string())]),
        Some("first".to_string())
    );
    assert_eq!(reply_text(vec![Some("only".to_string())]), Some("only".to_string()));
}

#[test]
fn reply_without_text_is_none() {
    assert_eq!(reply_text(vec![]), None);
    assert_eq!(reply_text(vec![None, Some("second".to_string())]), None);
}
