//! Regular expressions, through the `regex` crate.
use vstd::prelude::*;
use crate::model::strs_view;

verus! {

/// View of an optional vector of strings.
pub open spec fn opt_strs_view(o: Option<Vec<String>>) -> Option<Seq<Seq<char>>> {
    match o {
        Some(v) => Some(strs_view(v@)),
        None => None,
    }
}

/// The texts of the successive non-overlapping matches of a regular
/// expression in a text (`regex::Regex::find_iter`), or `None` when the
/// pattern does not compile.
pub uninterp spec fn spec_regex_find_all(pattern: Seq<char>, text: Seq<char>) -> Option<
    Seq<Seq<char>>,
>;

/// The text of capture group 1 of the first match of a regular expression
/// in a text (`regex::Regex::captures`), or `None` when the pattern does not
/// compile, nothing matches, or group 1 did not participate.
pub uninterp spec fn spec_regex_capture1(pattern: Seq<char>, text: Seq<char>) -> Option<Seq<char>>;

/// `regex::Regex::new` then `find_iter`: the result is named
/// `spec_regex_find_all` of the pattern and the text.
#[verifier::external_body]
pub(crate) fn regex_find_all(pattern: &str, text: &str) -> (r: Option<Vec<String>>)
    ensures
        opt_strs_view(r) == spec_regex_find_all(pattern@, text@),
{
    regex::Regex::new(pattern).ok().map(|re| re.find_iter(text).map(|m| m.as_str().to_string()).collect())
}

/// `regex::Regex::new` then `captures` and group 1: the result is named
/// `spec_regex_capture1` of the pattern and the text.
#[verifier::external_body]
pub(crate) fn regex_capture1(pattern: &str, text: &str) -> (r: Option<String>)
    ensures
        crate::model::opt_view(r) == spec_regex_capture1(pattern@, text@),
{
    regex::Regex::new(pattern).ok()?.captures(text)?.get(1).map(|m| m.as_str().to_string())
}


/// Text with every match of a regular expression replaced by a fixed
/// text (`regex::Regex::replace_all`), or `None` when the pattern does not
/// compile.
pub uninterp spec fn spec_regex_replace_all(pattern: Seq<char>, text: Seq<char>, with: Seq<char>) -> Option<Seq<char>>;

/// `regex::Regex::new` then `replace_all` with a literal replacement: the
/// result is named `spec_regex_replace_all` of the three texts.
#[verifier::external_body]
pub(crate) fn regex_replace_all(pattern: &str, text: &str, with: &str) -> (r: Option<String>)
    ensures
        crate::model::opt_view(r) == spec_regex_replace_all(pattern@, text@, with@),
{
    regex::Regex::new(pattern).ok().map(|re| re.replace_all(text, regex::NoExpand(with)).into_owned())
}

} // verus!
