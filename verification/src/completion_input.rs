//! The shapes a caller may hand over for one completion, and their
//! deterministic coercion to text. The host binding layer classifies each
//! incoming value into one of these variants; the rest of the pipeline
//! consumes only the coerced string.

use vstd::prelude::*;

verus! {

/// One completion as the caller provided it: a bare string, a mapping with
/// an optional `content` entry, a one-element sequence whose head is such a
/// mapping or some other stringifiable value, an empty sequence, or any
/// other value through its string form.
pub enum CompletionInput {
    /// A bare string.
    RawText(String),
    /// A mapping; the payload is its `content` entry when that holds a
    /// string.
    KeyedMap(Option<String>),
    /// A sequence whose first element is a mapping; the payload is that
    /// mapping's `content` entry when it holds a string.
    ListOfMap(Option<String>),
    /// A sequence whose first element is no mapping; the payload is that
    /// element's string form.
    ListOfOther(String),
    /// An empty sequence.
    EmptyList,
    /// Anything else, through its string form.
    Other(String),
}

/// The text a given input shape coerces to: the string itself, a present
/// `content` entry, the string form of a sequence head, and the empty
/// string where nothing is available.
pub open spec fn spec_coerce_completion(c: CompletionInput) -> Seq<char> {
    match c {
        CompletionInput::RawText(s) => s@,
        CompletionInput::KeyedMap(content) => match content {
            Some(s) => s@,
            None => Seq::empty(),
        },
        CompletionInput::ListOfMap(content) => match content {
            Some(s) => s@,
            None => Seq::empty(),
        },
        CompletionInput::ListOfOther(s) => s@,
        CompletionInput::EmptyList => Seq::empty(),
        CompletionInput::Other(s) => s@,
    }
}

/// Coerce one completion input to the text the pipeline scores.
pub fn coerce_completion(c: CompletionInput) -> (r: String)
    ensures
        r@ == spec_coerce_completion(c),
{
    match c {
        CompletionInput::RawText(s) => s,
        CompletionInput::KeyedMap(content) => match content {
            Some(s) => s,
            None => String::new(),
        },
        CompletionInput::ListOfMap(content) => match content {
            Some(s) => s,
            None => String::new(),
        },
        CompletionInput::ListOfOther(s) => s,
        CompletionInput::EmptyList => String::new(),
        CompletionInput::Other(s) => s,
    }
}

} // verus!
