use vstd::prelude::*;

verus! {

/// What the regular expression `pattern` makes of `text` when every match is replaced by
/// `replacement` (with `$1` and the like standing for groups); `text` itself where the
/// pattern does not compile.
pub uninterp spec fn regex_replaced(pattern: Seq<char>, text: Seq<char>, replacement: Seq<char>) -> Seq<char>;

/// The text of group 1 of the leftmost match of the regular expression `pattern` in `text`;
/// none where the pattern does not compile or does not match, or group 1 took no part.
pub uninterp spec fn regex_group(pattern: Seq<char>, text: Seq<char>) -> Option<Seq<char>>;

/// Relies on `regex::Regex::new` and `Regex::replace_all`: every non-overlapping match,
/// leftmost first, replaced by the expanded replacement.
#[verifier::external_body]
pub(crate) fn replace_all(pattern: &str, text: &str, replacement: &str) -> (r: String)
    ensures
        r@ == regex_replaced(pattern@, text@, replacement@),
{
    match regex::Regex::new(pattern) {
        Ok(re) => re.replace_all(text, replacement).into_owned(),
        Err(_) => text.to_string(),
    }
}

/// Relies on `regex::Regex::new`, `Regex::captures` and `Captures::get(1)`: the text of
/// group 1 of the leftmost match.
#[verifier::external_body]
pub(crate) fn first_group(pattern: &str, text: &str) -> (r: Option<String>)
    ensures
        match r {
            Some(g) => regex_group(pattern@, text@) == Some(g@),
            None => regex_group(pattern@, text@) is None,
        },
{
    let re = match regex::Regex::new(pattern) {
        Ok(re) => re,
        Err(_) => return None,
    };
    match re.captures(text) {
        Some(c) => match c.get(1) {
            Some(m) => Some(m.as_str().to_string()),
            None => None,
        },
        None => None,
    }
}

} // verus!
