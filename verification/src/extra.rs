//! Canonical lookup keys.

use crate::services::filters::lemma_filter_none;
use vstd::prelude::*;

verus! {

/// Whether `char::is_alphanumeric` holds of `c`.
pub uninterp spec fn is_alphanumeric_char(c: char) -> bool;

/// The text that `str::to_lowercase` returns for `s`.
pub uninterp spec fn lowercase_text(s: Seq<char>) -> Seq<char>;

/// `char::is_alphanumeric`: the answer depends on the character alone; it is
/// given the name `is_alphanumeric_char` and nothing more is claimed of it.
pub assume_specification[ char::is_alphanumeric ](c: char) -> (keep: bool)
    ensures
        keep == is_alphanumeric_char(c),
;

/// `str::to_lowercase`: the lowercase form depends on the text alone; it is
/// given the name `lowercase_text` and nothing more is claimed of it.
pub assume_specification[ str::to_lowercase ](s: &str) -> (lowered: String)
    ensures
        lowered@ == lowercase_text(s@),
;

/// `String::push` appends one character at the end of the string.
pub assume_specification[ String::push ](s: &mut String, c: char)
    ensures
        final(s)@ == old(s)@.push(c),
;

/// The characters of `s` that are alphanumeric, in their order.
pub open spec fn alphanumeric_only(s: Seq<char>) -> Seq<char> {
    s.filter(|c: char| is_alphanumeric_char(c))
}

/// The canonical key of a raw term: its alphanumeric characters, lowercased.
/// A term without alphanumeric characters has the empty key.
pub open spec fn normalized(raw: Seq<char>) -> Seq<char> {
    let kept = alphanumeric_only(raw);
    if kept.len() == 0 {
        kept
    } else {
        lowercase_text(kept)
    }
}

/// Reduces a raw term to its canonical lookup key.
pub fn normalize_input(term: &str) -> (key: String)
    ensures
        key@ == normalized(term@),
{
    let mut kept = String::new();
    for c in it: term.chars()
        invariant
            it.seq() == term@,
            kept@ == alphanumeric_only(term@.take(it.index() as int)),
    {
        proof {
            lemma_alphanumeric_only_push(term@.take(it.index() as int), c);
            assert(term@.take(it.index() + 1) == term@.take(it.index() as int).push(c));
        }
        if c.is_alphanumeric() {
            kept.push(c);
        }
    }
    assert(term@.take(term@.len() as int) == term@);
    if kept.as_str().is_empty() {
        kept
    } else {
        kept.as_str().to_lowercase()
    }
}

/// Filtering a text extended by one character: the character is appended to
/// the filtered text exactly when it is alphanumeric.
pub proof fn lemma_alphanumeric_only_push(s: Seq<char>, c: char)
    ensures
        alphanumeric_only(s.push(c)) == if is_alphanumeric_char(c) {
            alphanumeric_only(s).push(c)
        } else {
            alphanumeric_only(s)
        },
{
    reveal(Seq::filter);
    assert(s.push(c).drop_last() == s);
}

/// Filtering a second time removes nothing more.
pub proof fn lemma_alphanumeric_only_idempotent(s: Seq<char>)
    ensures
        alphanumeric_only(alphanumeric_only(s)) == alphanumeric_only(s),
    decreases s.len(),
{
    reveal(Seq::filter);
    if s.len() > 0 {
        lemma_alphanumeric_only_idempotent(s.drop_last());
        if is_alphanumeric_char(s.last()) {
            lemma_alphanumeric_only_push(alphanumeric_only(s.drop_last()), s.last());
        }
    }
}

/// What the filter removes never matters to a key: a term and its
/// alphanumeric part have the same key.
pub proof fn lemma_key_of_alphanumeric_part(raw: Seq<char>)
    ensures
        normalized(alphanumeric_only(raw)) == normalized(raw),
{
    lemma_alphanumeric_only_idempotent(raw);
}

/// The empty term, and every term without alphanumeric characters, has the
/// empty key.
pub proof fn lemma_key_of_nothing(raw: Seq<char>)
    requires
        forall|i: int| 0 <= i < raw.len() ==> !is_alphanumeric_char(#[trigger] raw[i]),
    ensures
        normalized(raw) == Seq::<char>::empty(),
{
    lemma_filter_none(raw, |c: char| is_alphanumeric_char(c));
}

/// Normalizing is idempotent: the key of a key is the key itself. This holds
/// of the empty key, and of every term whose key is settled, that is, whose
/// key lowercasing has left alphanumeric throughout and would not change
/// again. Lowercasing may produce a character that is not alphanumeric: the
/// key of "\u{130}", a capital I with a dot above, ends in a combining dot,
/// which the filter then removes. Such terms are left out.
pub proof fn lemma_normalize_idempotent(raw: Seq<char>)
    requires
        alphanumeric_only(normalized(raw)) == normalized(raw),
        normalized(raw).len() > 0 ==> lowercase_text(normalized(raw)) == normalized(raw),
    ensures
        normalized(normalized(raw)) == normalized(raw),
{
}

} // verus!
