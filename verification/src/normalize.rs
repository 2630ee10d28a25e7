use regex::Regex;
use vstd::prelude::*;

verus! {

/// `regex::Regex`, a compiled regular expression. Nothing is known of what
/// is inside a value.
#[verifier::external_type_specification]
#[verifier::external_body]
pub struct ExRegex(regex::Regex);

/// The text that `Regex::replace_all` produces from `text` when every
/// non-overlapping match of `re` is replaced by the expansion of
/// `replacement` (where `$n` and `$name` stand for capture groups).
pub uninterp spec fn replaced(re: Regex, replacement: Seq<char>, text: Seq<char>) -> Seq<char>;

/// Calls `Regex::replace_all` with a replacement string and takes the result
/// as an owned string.
///
/// Believed without proof: the call returns, and what it returns depends on
/// the compiled expression, the replacement and the text alone.
#[verifier::external_body]
pub(crate) fn replace_all(re: &Regex, text: &str, replacement: &str) -> (out: String)
    ensures
        out@ == replaced(*re, replacement@, text@),
{
    re.replace_all(text, replacement).into_owned()
}

} // verus!
