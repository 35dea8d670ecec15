//! The enrichment client's side of an entry: the record that the generation
//! backend is asked for, and the prompt that asks for it.

use vstd::prelude::*;
use vstd::string::StringExecFns;

verus! {

/// The example sentence of a generated entry.
#[derive(Debug, Clone, PartialEq, Eq)]
pub struct Sentence {
    pub example: String,
    pub meaning: String,
}

/// A generated entry: the dictionary form of a term, its language, its
/// definition and one example sentence.
#[derive(Debug, Clone, PartialEq, Eq)]
pub struct Word {
    pub dictionary_form: String,
    pub language: String,
    pub definition: String,
    pub sentence: Sentence,
}

/// What a `Sentence` holds.
pub struct ExampleView {
    pub example: Seq<char>,
    pub meaning: Seq<char>,
}

/// What a `Word` holds.
pub struct WordView {
    pub dictionary_form: Seq<char>,
    pub language: Seq<char>,
    pub definition: Seq<char>,
    pub sentence: ExampleView,
}

impl View for Sentence {
    type V = ExampleView;

    open spec fn view(&self) -> ExampleView {
        ExampleView { example: self.example@, meaning: self.meaning@ }
    }
}

impl View for Word {
    type V = WordView;

    open spec fn view(&self) -> WordView {
        WordView {
            dictionary_form: self.dictionary_form@,
            language: self.language@,
            definition: self.definition@,
            sentence: self.sentence@,
        }
    }
}

/// The placeholder that a prompt template holds in place of the term.
pub open spec fn placeholder() -> Seq<char> {
    seq!['{', 'W', 'O', 'R', 'D', '}']
}

/// Whether the placeholder stands at position `i` of `template`.
pub open spec fn placeholder_at(template: Seq<char>, i: int) -> bool {
    0 <= i && i + 6 <= template.len() && template.subrange(i, i + 6) == placeholder()
}

/// The part of `template` from position `i` on, with `word` in place of each
/// placeholder, read from left to right.
pub open spec fn filled_from(template: Seq<char>, word: Seq<char>, i: int) -> Seq<char>
    decreases template.len() - i,
{
    if i < 0 || i >= template.len() {
        Seq::empty()
    } else if placeholder_at(template, i) {
        word + filled_from(template, word, i + 6)
    } else {
        seq![template[i]] + filled_from(template, word, i + 1)
    }
}

/// `template` with `word` in place of each placeholder.
pub open spec fn filled(template: Seq<char>, word: Seq<char>) -> Seq<char> {
    filled_from(template, word, 0)
}

/// The characters of a text.
fn chars_of(text: &str) -> (chars: Vec<char>)
    ensures
        chars@ == text@,
{
    let mut chars: Vec<char> = Vec::new();
    for c in it: text.chars()
        invariant
            it.seq() == text@,
            chars@ == text@.take(it.index() as int),
    {
        chars.push(c);
    }
    chars
}

/// Whether the placeholder stands at position `i` of `template`.
fn placeholder_starts(template: &Vec<char>, i: usize) -> (starts: bool)
    requires
        i < template.len(),
    ensures
        starts == placeholder_at(template@, i as int),
{
    if template.len() - i < 6 {
        return false;
    }
    let starts = template[i] == '{' && template[i + 1] == 'W' && template[i + 2] == 'O'
        && template[i + 3] == 'R' && template[i + 4] == 'D' && template[i + 5] == '}';
    assert(starts == (template@.subrange(i as int, i + 6) =~= placeholder()));
    starts
}

/// The enrichment client's prompt: a template that holds the placeholder
/// where the term belongs.
pub struct WordService {
    prompt_template: String,
}

impl WordService {
    /// The template of this service.
    pub closed spec fn template(&self) -> Seq<char> {
        self.prompt_template@
    }

    /// A service that asks with `template`.
    pub fn new(template: String) -> (service: WordService)
        ensures
            service.template() == template@,
    {
        WordService { prompt_template: template }
    }

    /// The prompt for `word`: the template with `word` in place of each
    /// placeholder.
    pub fn prompt(&self, word: &str) -> (prompt: String)
        ensures
            prompt@ == filled(self.template(), word@),
    {
        let template = chars_of(self.prompt_template.as_str());
        let mut prompt = String::new();
        let mut i: usize = 0;
        while i < template.len()
            invariant
                template@ == self.template(),
                i <= template.len(),
                prompt@ + filled_from(template@, word@, i as int) == filled(template@, word@),
            decreases template.len() - i,
        {
            if placeholder_starts(&template, i) {
                prompt.append(word);
                i += 6;
            } else {
                let c = template[i];
                prompt.push(c);
                i += 1;
            }
        }
        prompt
    }
}

} // verus!
