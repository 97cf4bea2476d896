//! Pattern search in text: regular expressions (`regex`) and fuzzy matching
//! (`nucleo-matcher`).

use crate::text::chars_of;
use nucleo_matcher::pattern::{CaseMatching, Normalization, Pattern};
use nucleo_matcher::{Config, Matcher, Utf32Str};
use regex::Regex;
use vstd::prelude::*;
use vstd::utf8::encode_utf8;

verus! {

/// The non-overlapping matches of a pattern in a text, from left to right; of each
/// the text of every capture group, the whole match first.
pub uninterp spec fn regex_captures(pattern: Seq<char>, text: Seq<char>) -> Seq<Seq<Seq<char>>>;

/// The text with every match of a pattern replaced.
pub uninterp spec fn regex_replaced(pattern: Seq<char>, text: Seq<char>, with: Seq<char>) -> Seq<char>;

/// Whether a pattern is one, and then whether it matches somewhere in the text.
pub uninterp spec fn regex_matches(pattern: Seq<char>, text: Seq<char>) -> Option<bool>;

/// The score of a fuzzy match that ignores case; none where there is no match.
pub uninterp spec fn fuzzy_ignore_case(needle: Seq<char>, hay: Seq<char>) -> Option<u32>;

/// The score of a fuzzy match that minds case only where the needle has an
/// upper-case letter; none where there is no match.
pub uninterp spec fn fuzzy_smart_case(needle: Seq<char>, hay: Seq<char>) -> Option<u32>;

/// Capture groups by their contents.
pub open spec fn captures_view(v: Seq<Vec<String>>) -> Seq<Seq<Seq<char>>> {
    Seq::new(v.len(), |i: int| crate::text::strings(v[i]@))
}

/// `regex::Regex::captures_iter`: every match with the text of its groups. A group
/// that took no part in a match is empty; a pattern that is no regular expression
/// has no match.
#[verifier::external_body]
pub(crate) fn captures(pattern: &str, text: &str) -> (r: Vec<Vec<String>>)
    ensures
        captures_view(r@) == regex_captures(pattern@, text@),
{
    let found = Regex::new(pattern).map(|re| {
        re.captures_iter(text)
            .map(|c| c.iter().map(|g| g.map_or("", |m| m.as_str()).to_string()).collect())
            .collect()
    });
    found.unwrap_or_default()
}

/// `regex::Regex::replace_all`: the text after it. A pattern that is no regular
/// expression leaves the text as it is.
#[verifier::external_body]
pub(crate) fn replace_all(pattern: &str, text: &str, with: &str) -> (r: String)
    ensures
        r@ == regex_replaced(pattern@, text@, with@),
{
    Regex::new(pattern).map_or(text.to_string(), |re| re.replace_all(text, with).to_string())
}

/// `regex::Regex::is_match`; none where `Regex::new` refuses the pattern.
#[verifier::external_body]
pub(crate) fn is_match(pattern: &str, text: &str) -> (r: Option<bool>)
    ensures
        r == regex_matches(pattern@, text@),
{
    Regex::new(pattern).ok().map(|re| re.is_match(text))
}

/// The most characters of one word of which the score is in the matcher's range, whatever
/// they are: at most 36 points for the first and 26 for each other.
pub const MAX_MATCHED: usize = 2520;

/// The longest needle, in characters, of which the scores of all words together are in the
/// matcher's range.
pub const MAX_NEEDLE: usize = 100_000_000;

/// The length of the word, or the part of one, that ends at a place. A space ends a word but
/// behind a backslash.
pub open spec fn word_before(s: Seq<char>, n: nat) -> nat
    decreases n,
{
    if n == 0 || n > s.len() || (s[n - 1] == ' ' && (n < 2 || s[n - 2] != '\\')) {
        0
    } else {
        word_before(s, (n - 1) as nat) + 1
    }
}

/// The words of a text have at most `max` characters.
pub open spec fn words_within(s: Seq<char>, max: nat) -> bool {
    forall|n: nat| n <= s.len() ==> #[trigger] word_before(s, n) <= max
}

/// What the matcher takes without leaving its range: words of at most `MAX_MATCHED`
/// characters, or a text of at most as many, as a word that is longer than the text is not
/// matched; a needle of at most `MAX_NEEDLE` characters; and a text of fewer than 2^32 bytes.
pub open spec fn fuzzy_fits(needle: Seq<char>, hay: Seq<char>) -> bool {
    &&& words_within(needle, MAX_MATCHED as nat) || hay.len() <= MAX_MATCHED
    &&& needle.len() <= MAX_NEEDLE
    &&& encode_utf8(hay).len() <= u32::MAX
}

fn has_short_words(needle: &str) -> (r: bool)
    ensures
        r == words_within(needle@, MAX_MATCHED as nat),
{
    let s = chars_of(needle);
    let mut n: usize = 0;
    let mut run: usize = 0;
    while n < s.len()
        invariant
            n <= s.len(),
            s@ == needle@,
            run == word_before(s@, n as nat),
            run <= MAX_MATCHED,
            forall|k: nat| k <= n ==> #[trigger] word_before(s@, k) <= MAX_MATCHED,
        decreases s.len() - n,
    {
        let ends = s[n] == ' ' && (n < 1 || s[n - 1] != '\\');
        n += 1;
        run = if ends {
            0
        } else {
            run + 1
        };
        assert(run == word_before(s@, n as nat));
        if run > MAX_MATCHED {
            return false;
        }
    }
    true
}

/// Whether two texts can be compared.
pub fn can_score(needle: &str, hay: &str) -> (r: bool)
    ensures
        r == fuzzy_fits(needle@, hay@),
{
    (hay.unicode_len() <= MAX_MATCHED || has_short_words(needle)) && needle.unicode_len() <= MAX_NEEDLE
        && hay.as_bytes().len() <= u32::MAX as usize
}

/// `nucleo_matcher::pattern::Pattern::score` with `CaseMatching::Ignore`.
#[verifier::external_body]
pub(crate) fn score_ignore_case(needle: &str, hay: &str) -> (r: Option<u32>)
    requires
        fuzzy_fits(needle@, hay@),
    ensures
        r == fuzzy_ignore_case(needle@, hay@),
{
    let pattern = Pattern::parse(needle, CaseMatching::Ignore, Normalization::Smart);
    pattern.score(Utf32Str::new(hay, &mut Vec::new()), &mut Matcher::new(Config::DEFAULT))
}

/// `nucleo_matcher::pattern::Pattern::score` with `CaseMatching::Smart`.
#[verifier::external_body]
pub(crate) fn score_smart_case(needle: &str, hay: &str) -> (r: Option<u32>)
    requires
        fuzzy_fits(needle@, hay@),
    ensures
        r == fuzzy_smart_case(needle@, hay@),
{
    let pattern = Pattern::parse(needle, CaseMatching::Smart, Normalization::Smart);
    pattern.score(Utf32Str::new(hay, &mut Vec::new()), &mut Matcher::new(Config::DEFAULT))
}

} // verus!
