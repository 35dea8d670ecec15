//! The reply of the text-generation backend.

use vstd::prelude::*;

verus! {

/// The text of a reply, given the content of each choice's message in the
/// order of the choices (`None` for a choice without a message): the content
/// of the first choice. A reply without choices, or whose first choice
/// carries no message, has no text.
pub fn reply_text(choices: Vec<Option<String>>) -> (text: Option<String>)
    ensures
        text == if choices.len() > 0 {
            choices[0]
        } else {
            None::<String>
        },
{
    let mut choices = choices;
    if choices.len() == 0 {
        None
    } else {
        choices.swap_remove(0)
    }
}

} // verus!
