//! What the library asks of texts that people type in: trimming, lower
//! case, identifiers written out, and how well a name fits a search term.

use vstd::prelude::*;

verus! {

/// `text` without the white space at its two ends, as `str::trim` of std
/// gives it.
pub uninterp spec fn trimmed_text(text: Seq<char>) -> Seq<char>;

/// `text` in lower case, as `str::to_lowercase` of std gives it.
pub uninterp spec fn lowercase_text(text: Seq<char>) -> Seq<char>;

/// The identifier that `text` writes out, as `uuid::Uuid::parse_str` reads
/// it; `None` where `text` writes out none.
pub uninterp spec fn written_id(text: Seq<char>) -> Option<u128>;

/// How well `choice` fits `pattern`, as `fuzzy_match` of
/// `fuzzy_matcher::skim::SkimMatcherV2` in its default setting scores it;
/// `None` where it does not fit.
pub uninterp spec fn skim_score(choice: Seq<char>, pattern: Seq<char>) -> Option<i64>;

/// The longest text, in characters, that is handed to the matcher: it adds
/// up its scores in 32 bits.
pub const MAX_SEARCH_TEXT: usize = 65536;

/// Trims `text`.
///
/// Calls `str::trim` of std, which depends on the text alone.
#[verifier::external_body]
pub(crate) fn trimmed(text: &str) -> (result: &str)
    ensures
        result@ == trimmed_text(text@),
{
    text.trim()
}

/// Puts `text` in lower case.
///
/// Calls `str::to_lowercase` of std, which depends on the text alone.
#[verifier::external_body]
pub(crate) fn lowercase(text: &str) -> (result: String)
    ensures
        result@ == lowercase_text(text@),
{
    text.to_lowercase()
}

/// Reads an identifier that is written out.
///
/// Calls `uuid::Uuid::parse_str`, which depends on the text alone, and
/// hands back the value of what it read as an integer (`Uuid::as_u128`),
/// or `None` where it read an error.
#[verifier::external_body]
pub(crate) fn parse_id(text: &str) -> (id: Option<u128>)
    ensures
        id == written_id(text@),
{
    match uuid::Uuid::parse_str(text) {
        Ok(id) => Some(id.as_u128()),
        Err(_) => None,
    }
}

/// Scores how well `choice` fits `pattern`.
///
/// Calls `fuzzy_match` of `fuzzy_matcher::skim::SkimMatcherV2::default()`.
/// The matcher keeps nothing between calls but scratch space, so the score
/// depends on the two texts alone.
#[verifier::external_body]
pub(crate) fn fuzzy_score(choice: &str, pattern: &str) -> (score: Option<i64>)
    requires
        choice@.len() <= MAX_SEARCH_TEXT,
        pattern@.len() <= MAX_SEARCH_TEXT,
    ensures
        score == skim_score(choice@, pattern@),
{
    fuzzy_matcher::FuzzyMatcher::fuzzy_match(
        &fuzzy_matcher::skim::SkimMatcherV2::default(),
        choice,
        pattern,
    )
}

} // verus!
