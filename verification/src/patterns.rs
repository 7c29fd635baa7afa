//! Regular expressions.

use vstd::prelude::*;

use crate::text;

verus! {

/// The characters that have a meaning of their own in a pattern.
pub open spec fn is_meta(c: char) -> bool {
    c == '\\' || c == '.' || c == '+' || c == '*' || c == '?' || c == '(' || c == ')' || c == '|'
        || c == '[' || c == ']' || c == '{' || c == '}' || c == '^' || c == '$' || c == '#' || c
        == '&' || c == '-' || c == '~'
}

/// The pattern that matches exactly the text: a backslash before each
/// character that has a meaning of its own.
pub open spec fn escaped(s: Seq<char>) -> Seq<char>
    decreases s.len(),
{
    if s.len() == 0 {
        Seq::empty()
    } else {
        let before = escaped(s.drop_last());
        if is_meta(s.last()) {
            before.push('\\').push(s.last())
        } else {
            before.push(s.last())
        }
    }
}

/// `regex::escape`: puts a backslash before each character that has a meaning
/// of its own in a pattern, and leaves the others as they are.
#[verifier::external_body]
pub(crate) fn escape(s: &str) -> (r: String)
    ensures
        r@ == escaped(s@),
{
    regex::escape(s)
}

/// Whether a text is a word of ASCII letters, digits and underscores.
pub open spec fn is_word(s: Seq<char>) -> bool {
    s.len() > 0 && forall|i: int| 0 <= i < s.len() ==> is_word_char(#[trigger] s[i])
}

/// Whether a character is an ASCII letter or digit, or an underscore.
pub open spec fn is_word_char(c: char) -> bool {
    ('a' <= c && c <= 'z') || ('A' <= c && c <= 'Z') || ('0' <= c && c <= '9') || c == '_'
}

/// The pattern that finds one of the keywords with the word behind it: white
/// space between them, and a word boundary at each end.
pub open spec fn keyword_pattern(keywords: Seq<Seq<char>>, word: Seq<char>) -> Seq<char> {
    "\\b("@ + text::join_spec(keywords, "|"@) + ")\\s+"@ + word + "\\b"@
}

/// Whether a pattern is that of the keywords and the word, and of a size that
/// compiles.
pub open spec fn is_keyword_pattern(
    pattern: Seq<char>,
    keywords: Seq<Seq<char>>,
    word: Seq<char>,
) -> bool {
    &&& pattern == keyword_pattern(keywords, word)
    &&& pattern.len() <= 10_000
    &&& is_word(word)
    &&& keywords.len() > 0
    &&& forall|i: int| 0 <= i < keywords.len() ==> is_word(#[trigger] keywords[i])
}

/// Whether the keyword and the word stand in a text between spaces, with a
/// space before, between and behind them.
pub open spec fn stands_spaced(content: Seq<char>, keyword: Seq<char>, word: Seq<char>) -> bool {
    exists|at: int| #[trigger]
        text::stands_at(content, " "@ + keyword + " "@ + word + " "@, at)
}

/// Whether a beginning of a text is empty, ends with a line feed, or is followed
/// by one.
pub open spec fn line_ends_at(content: Seq<char>, n: int) -> bool {
    0 <= n < content.len() && (n == 0 || content[n] == '\n' || content[n - 1] == '\n')
}

/// Whether a pattern compiles and is then found in a text, as
/// `regex::Regex::new` and `is_match` tell it; `None` where it does not compile.
pub uninterp spec fn search_result(pattern: Seq<char>, content: Seq<char>) -> Option<bool>;

/// Whether a pattern of keywords and a word is bound to be found: one of the
/// keywords and the word stand in the text between spaces, or the pattern is
/// found already in a beginning of the text that a line feed closes.
pub open spec fn is_bound_to_be_found(pattern: Seq<char>, content: Seq<char>) -> bool {
    exists|keywords: Seq<Seq<char>>, word: Seq<char>| #[trigger]
        is_keyword_pattern(pattern, keywords, word) && ((exists|k: int|
            0 <= k < keywords.len() && stands_spaced(content, #[trigger] keywords[k], word)) || (
        exists|n: int| #[trigger]
            line_ends_at(content, n) && search_result(pattern, content.take(n)) == Some(true)))
}

/// Whether a pattern is found in a text; `None` where the pattern does not
/// compile.
pub open spec fn pattern_found(pattern: Seq<char>, content: Seq<char>) -> Option<bool> {
    if is_bound_to_be_found(pattern, content) {
        Some(true)
    } else {
        search_result(pattern, content)
    }
}

/// The first group of each match of a pattern in a text, in order; `None`
/// where the pattern does not compile.
pub uninterp spec fn pattern_groups(pattern: Seq<char>, content: Seq<char>) -> Option<
    Seq<Option<Seq<char>>>,
>;

/// `regex::Regex::new` and `is_match`: whether the pattern compiles, and then
/// whether it matches anywhere in the text, named [`search_result`]. Two facts
/// are claimed of a pattern `\b(keyword|keyword)\s+word\b`, all of ASCII word
/// characters and far below the size limit of a compiled pattern. It is found
/// where a keyword and the word stand between single spaces, since a space is
/// white space and makes a word boundary with a word character. And it stays
/// found when a text goes on behind a line feed, since a line feed makes such a
/// boundary too and nothing else behind a match is looked at.
#[verifier::external_body]
pub(crate) fn is_match(pattern: &str, content: &str) -> (r: Option<bool>)
    ensures
        r == (if is_bound_to_be_found(pattern@, content@) {
            Some(true)
        } else {
            search_result(pattern@, content@)
        }),
{
    match regex::Regex::new(pattern) {
        Ok(re) => Some(re.is_match(content)),
        Err(_) => None,
    }
}

/// `regex::Regex::new` and `captures_iter`: whether the pattern compiles, and
/// then the text of the first group of each match, named [`pattern_groups`].
#[verifier::external_body]
pub(crate) fn first_groups(pattern: &str, content: &str) -> (r: Option<Vec<Option<String>>>)
    ensures
        r.deep_view() == pattern_groups(pattern@, content@),
{
    match regex::Regex::new(pattern) {
        Ok(re) => Some(
            re.captures_iter(content).map(|c| c.get(1).map(|m| m.as_str().to_string())).collect(),
        ),
        Err(_) => None,
    }
}

/// A word means itself in a pattern.
pub proof fn lemma_word_escaped(s: Seq<char>)
    requires
        forall|i: int| 0 <= i < s.len() ==> is_word_char(#[trigger] s[i]),
    ensures
        escaped(s) == s,
    decreases s.len(),
{
    if s.len() > 0 {
        let front = s.drop_last();
        assert forall|i: int| 0 <= i < front.len() implies is_word_char(#[trigger] front[i]) by {
            assert(s[i] == front[i]);
        }
        lemma_word_escaped(front);
        assert(is_word_char(s[s.len() - 1]));
        assert(front.push(s.last()) =~= s);
    } else {
        assert(escaped(s) =~= s);
    }
}

/// A pattern of keywords and a word stays found when the text goes on behind a
/// line feed.
pub proof fn lemma_stays_found(
    pattern: Seq<char>,
    keywords: Seq<Seq<char>>,
    word: Seq<char>,
    content: Seq<char>,
    longer: Seq<char>,
)
    requires
        is_keyword_pattern(pattern, keywords, word),
        content.is_prefix_of(longer),
        line_ends_at(longer, content.len() as int),
    ensures
        pattern_found(pattern, content) == Some(true) ==> pattern_found(pattern, longer) == Some(
            true,
        ),
{
    let n = content.len() as int;
    assert(longer.take(n) =~= content);
    if is_bound_to_be_found(pattern, content) {
        let (kws, w) = choose|kws: Seq<Seq<char>>, w: Seq<char>| #[trigger]
            is_keyword_pattern(pattern, kws, w) && ((exists|k: int|
                0 <= k < kws.len() && stands_spaced(content, #[trigger] kws[k], w)) || (
            exists|m: int| #[trigger]
                line_ends_at(content, m) && search_result(pattern, content.take(m)) == Some(true)));
        if exists|k: int| 0 <= k < kws.len() && stands_spaced(content, #[trigger] kws[k], w) {
            let k = choose|k: int|
                0 <= k < kws.len() && stands_spaced(content, #[trigger] kws[k], w);
            let p = " "@ + kws[k] + " "@ + w + " "@;
            let at = choose|at: int| #[trigger] text::stands_at(content, p, at);
            assert(longer.subrange(at, at + p.len()) =~= content.subrange(at, at + p.len()));
            assert(text::stands_at(longer, p, at));
            assert(stands_spaced(longer, kws[k], w));
        } else {
            let m = choose|m: int| #[trigger]
                line_ends_at(content, m) && search_result(pattern, content.take(m)) == Some(true);
            assert(longer.take(m) =~= content.take(m));
            assert(m > 0 ==> longer[m - 1] == longer.take(n)[m - 1]);
            assert(longer[m] == longer.take(n)[m]);
            assert(line_ends_at(longer, m));
        }
        assert(is_bound_to_be_found(pattern, longer));
    } else if search_result(pattern, content) == Some(true) {
        assert(search_result(pattern, longer.take(n)) == Some(true));
        assert(is_bound_to_be_found(pattern, longer));
    }
}

} // verus!
