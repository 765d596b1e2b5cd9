//! Regular expressions, as the crate `regex` matches them.
//!
//! Nothing in this module is proved. Each function builds the expression
//! and makes one call on it, and its contract gives the call's result a
//! name.

use vstd::prelude::*;

verus! {

/// `text` with every match of the regular expression `pattern` replaced by
/// `replacement`, in which `$1` stands for what the first group matched.
/// `None` where `pattern` is not a regular expression.
pub uninterp spec fn replace_all_of(
    pattern: Seq<char>,
    text: Seq<char>,
    replacement: Seq<char>,
) -> Option<Seq<char>>;

/// What each group of the regular expression `pattern` holds in its first
/// match in `text`: the whole match first, then the groups in the order in
/// which they open, `None` for a group that took no part. `None` where
/// nothing matches, or `pattern` is not a regular expression.
pub uninterp spec fn captures_of(
    pattern: Seq<char>,
    text: Seq<char>,
) -> Option<Seq<Option<Seq<char>>>>;

/// What optional strings hold.
pub open spec fn texts_of(groups: Seq<Option<String>>) -> Seq<Option<Seq<char>>> {
    groups.map_values(
        |group: Option<String>|
            match group {
                Some(text) => Some(text@),
                None => None,
            },
    )
}

/// `Regex::new` and, on the expression that it builds, `Regex::replace_all`.
/// The contract names the text that comes back, and tells a pattern that
/// was refused from one that was not.
#[verifier::external_body]
pub(crate) fn replace_all(
    pattern: &str,
    text: &str,
    replacement: &str,
) -> (replaced: Option<String>)
    ensures
        match replaced {
            Some(replaced) => replace_all_of(pattern@, text@, replacement@) == Some(replaced@),
            None => replace_all_of(pattern@, text@, replacement@) is None,
        },
{
    match regex::Regex::new(pattern) {
        Ok(expression) => Some(expression.replace_all(text, replacement).into_owned()),
        Err(_) => None,
    }
}

/// `Regex::new` and, on the expression that it builds, `Regex::captures`,
/// with each group of the match copied out as text. The contract names
/// what comes back.
#[verifier::external_body]
pub(crate) fn captures(pattern: &str, text: &str) -> (found: Option<Vec<Option<String>>>)
    ensures
        match found {
            Some(groups) => captures_of(pattern@, text@) == Some(texts_of(groups@)),
            None => captures_of(pattern@, text@) is None,
        },
{
    let expression = regex::Regex::new(pattern).ok()?;
    let groups = expression.captures(text)?;
    Some(groups.iter().map(|group| group.map(|found| found.as_str().to_owned())).collect())
}

} // verus!
