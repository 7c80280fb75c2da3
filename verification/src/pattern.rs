//! Searching and rewriting text by regular expressions.

use vstd::prelude::*;

verus! {

/// What `regex` makes of `text` when every match of `pattern`, found from the
/// left and not overlapping, is replaced by `with`, in which `$1` stands for
/// the first group of the match. `None` where `pattern` does not compile.
pub uninterp spec fn regex_replaced(
    pattern: Seq<char>,
    text: Seq<char>,
    with: Seq<char>,
) -> Option<Seq<char>>;

/// How many matches of `pattern` `regex` finds in `text`, from the left and
/// not overlapping. `None` where `pattern` does not compile.
pub uninterp spec fn regex_match_count(pattern: Seq<char>, text: Seq<char>) -> Option<nat>;

/// What `fancy_regex` makes of `text` when every match of `pattern` is
/// replaced by `with`. `None` where `pattern` does not compile or the search
/// gives up.
pub uninterp spec fn backtracking_replaced(
    pattern: Seq<char>,
    text: Seq<char>,
    with: Seq<char>,
) -> Option<Seq<char>>;

/// `regex::Regex::new`, then `Regex::replace_all`: the rewritten text, or
/// `None` where the pattern is refused. The rewritten text is put together
/// from pieces of `text` and of `with`, so it holds no character that
/// neither of them holds.
#[verifier::external_body]
pub(crate) fn regex_replace_all(pattern: &str, text: &str, with: &str) -> (out: Option<String>)
    ensures
        out is Some <==> regex_replaced(pattern@, text@, with@) is Some,
        out matches Some(s) ==> regex_replaced(pattern@, text@, with@) == Some(s@),
        out matches Some(s) ==> forall|c: char| #[trigger]
            s@.contains(c) ==> text@.contains(c) || with@.contains(c),
{
    regex::Regex::new(pattern).ok().map(|re| re.replace_all(text, with).into_owned())
}

/// `regex::Regex::new`, then `Regex::find_iter`: the number of matches, or
/// `None` where the pattern is refused.
#[verifier::external_body]
pub(crate) fn regex_count_matches(pattern: &str, text: &str) -> (out: Option<usize>)
    ensures
        out is Some <==> regex_match_count(pattern@, text@) is Some,
        out matches Some(n) ==> regex_match_count(pattern@, text@) == Some(n as nat),
{
    regex::Regex::new(pattern).ok().map(|re| re.find_iter(text).count())
}

/// `fancy_regex::Regex::new`, then `Regex::try_replacen` without a limit,
/// which is what `Regex::replace_all` does short of its panic: the rewritten
/// text, or `None` where the pattern is refused or the search gives up.
#[verifier::external_body]
pub(crate) fn backtracking_replace_all(pattern: &str, text: &str, with: &str) -> (out: Option<
    String,
>)
    ensures
        out is Some <==> backtracking_replaced(pattern@, text@, with@) is Some,
        out matches Some(s) ==> backtracking_replaced(pattern@, text@, with@) == Some(s@),
{
    fancy_regex::Regex::new(pattern).ok().and_then(
        |re| re.try_replacen(text, 0, with).ok().map(|s| s.into_owned()),
    )
}

} // verus!
