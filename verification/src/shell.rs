//! Splitting and joining command lines the way a Unix shell does.

use vstd::prelude::*;
use crate::text;

verus! {

#[verifier::external_type_specification]
#[verifier::external_body]
pub struct ExShellParseError(shell_words::ParseError);

/// The words that `shell_words::split` finds in `line`, where its quotes match.
pub uninterp spec fn shell_split(line: Seq<char>) -> Option<Seq<Seq<char>>>;

/// What `shell_words::join` makes of `words`.
pub uninterp spec fn shell_join(words: Seq<Seq<char>>) -> Seq<char>;

/// `shell_words::split` splits a command line by the quoting rules of a Unix
/// shell. The contract gives the outcome a name: which words there are, or
/// that a quote is not closed, depends on the line alone. An empty line has no
/// words.
pub assume_specification[ shell_words::split ](s: &str) -> (r: Result<
    Vec<String>,
    shell_words::ParseError,
>)
    ensures
        match r {
            Ok(words) => shell_split(s@) == Some(text::strings(words@)) && (s@.len() == 0
                ==> words@.len() == 0),
            Err(_) => shell_split(s@) is None && s@.len() > 0,
        },
;

/// `shell_words::join` quotes each word where it needs to be and puts them
/// together. The contract gives the line a name, and says that splitting it
/// gives back the words.
#[verifier::external_body]
pub(crate) fn join_words(words: &Vec<String>) -> (r: String)
    ensures
        r@ == shell_join(text::strings(words@)),
        shell_split(r@) == Some(text::strings(words@)),
{
    shell_words::join(words)
}

} // verus!
