//! Compiled regular expressions of the `regex` crate, behind trusted items.
//!
//! What `regex` computes on a pattern and a haystack takes its whole syntax
//! and matching semantics to state, so its results are named here and the
//! library's contracts speak of those names.

use vstd::prelude::*;

use crate::sentences::sentences;
use crate::steps::{hyphens_joined, is_ascii_text, is_number_line, numbers_dropped};
use crate::text::{lines_joined, spaces_collapsed};

verus! {

#[verifier::external_type_specification]
#[verifier::external_body]
pub struct ExRegex(regex::Regex);

#[verifier::external_type_specification]
#[verifier::external_body]
pub struct ExRegexError(regex::Error);

/// Whether `regex::Regex::new` accepts `pattern` (it is valid and within the
/// default size limit).
pub uninterp spec fn regex_accepts(pattern: Seq<char>) -> bool;

/// What `regex::Regex::replace_all` returns for a regex compiled from
/// `pattern`, the haystack and the replacement string (with `$` expansion).
pub uninterp spec fn regex_replace_all(
    pattern: Seq<char>,
    haystack: Seq<char>,
    replacement: Seq<char>,
) -> Seq<char>;

/// The texts of the successive non-overlapping matches that
/// `regex::Regex::find_iter` yields for a regex compiled from `pattern`.
pub uninterp spec fn regex_find_all(pattern: Seq<char>, haystack: Seq<char>) -> Seq<Seq<char>>;

/// The characters that the pattern `[^\x09\x0A\x0D\x20-\x7E]` does not
/// match: tab, line feed, carriage return and printable ASCII.
pub open spec fn is_plain_char(c: char) -> bool {
    let n = c as u32;
    n == 0x09 || n == 0x0A || n == 0x0D || (0x20 <= n <= 0x7E)
}

/// The characters kept in speakable text by code point: tab, line feed,
/// carriage return and U+0020 through U+007E.
pub proof fn lemma_plain_char_table(c: char)
    ensures
        is_plain_char(c) <==> (c == '\t' || c == '\n' || c == '\r' || (' ' <= c && c <= '~')),
{
}

/// The characters of `s` that `is_plain_char` accepts, in order.
pub open spec fn plain_only(s: Seq<char>) -> Seq<char>
    decreases s.len(),
{
    if s.len() == 0 {
        Seq::empty()
    } else if is_plain_char(s[0]) {
        seq![s[0]] + plain_only(s.drop_first())
    } else {
        plain_only(s.drop_first())
    }
}

/// Whether `c` is an ASCII character other than a digit: no `\d` of the
/// Unicode-aware `regex` matches it.
pub open spec fn is_ascii_non_digit(c: char) -> bool {
    (c as u32) < 0x80 && !('0' <= c && c <= '9')
}

/// A regular expression together with the pattern it was compiled from.
/// Only `compile` builds one, so `re` is always `source` compiled.
pub struct Pattern {
    re: regex::Regex,
    source: String,
}

impl View for Pattern {
    type V = Seq<char>;

    closed spec fn view(&self) -> Seq<char> {
        self.source@
    }
}

/// Calls `regex::Regex::new(pattern)`. Claimed: it succeeds exactly when
/// `regex_accepts(pattern)`, and the pattern it returns is `pattern`.
#[verifier::external_body]
pub(crate) fn compile(pattern: &str) -> (r: Result<Pattern, regex::Error>)
    ensures
        (r is Ok) == regex_accepts(pattern@),
        r matches Ok(p) ==> p@ == pattern@,
{
    match regex::Regex::new(pattern) {
        Ok(re) => Ok(Pattern { re, source: pattern.to_string() }),
        Err(e) => Err(e),
    }
}

/// Calls `regex::Regex::replace_all(haystack, replacement)` and owns the
/// result. Claimed: the result is the named `regex_replace_all`. Where the
/// replacement holds no `$` (so no group is expanded), the result is pieces
/// of the haystack with copies of the replacement between them, so each of
/// its characters occurs in one or the other. Where no match exists the
/// haystack comes back unchanged (as the documentation of `replace_all`
/// says), and for the patterns used here that is so when:
/// `(\w)-\s*\n\s*(\w)` meets a haystack without a line feed or without a
/// hyphen (every match holds both); `\b\d{1,4}\b` or `(?m)^\s*\d+\s*$`
/// meets a haystack of ASCII characters other than digits (every match holds
/// a digit). For the other patterns the whole result is stated, from the
/// meaning of the pattern under leftmost-first, greedy matching: `\n+` with
/// " " makes each maximal run of line feeds one space; `\s{2,}` with " "
/// makes each maximal run of two or more `White_Space` characters (what
/// `\s` matches) one space; `[^\x09\x0A\x0D\x20-\x7E]` with "" deletes
/// each character outside that class, one match per character. On ASCII
/// haystacks, where `\w` is `[0-9A-Za-z_]`, `\d` is `[0-9]` and `\s` is
/// tab, line feed, vertical tab, form feed, carriage return and space:
/// `(\w)-\s*\n\s*(\w)` with "$1$2" is `hyphens_joined`; `\b\d{1,4}\b`
/// with "" deletes each whole word of one to four digits
/// (`numbers_dropped`); `(?m)^\s*\d+\s*$` with "", on a haystack without
/// line feeds, where `^` and `$` can only match at the ends, empties a
/// haystack that is only a number between white space and leaves any other
/// unchanged.
#[verifier::external_body]
pub(crate) fn replace_all(p: &Pattern, haystack: &str, replacement: &str) -> (r: String)
    ensures
        r@ == regex_replace_all(p@, haystack@, replacement@),
        !replacement@.contains('$') ==> forall|i: int|
            0 <= i < r@.len() ==> haystack@.contains(#[trigger] r@[i]) || replacement@.contains(
                r@[i],
            ),
        p@ == "\\n+"@ && !replacement@.contains('$') && !replacement@.contains('\n')
            ==> !r@.contains('\n'),
        p@ == "(\\w)-\\s*\\n\\s*(\\w)"@ && (!haystack@.contains('\n')
            || !haystack@.contains('-')) ==> r@ == haystack@,
        (p@ == "\\b\\d{1,4}\\b"@ || p@ == "(?m)^\\s*\\d+\\s*$"@) && (forall|i: int|
            0 <= i < haystack@.len() ==> is_ascii_non_digit(#[trigger] haystack@[i])) ==> r@
            == haystack@,
        p@ == "\\n+"@ && replacement@ == " "@ ==> r@ == lines_joined(haystack@),
        p@ == "(\\w)-\\s*\\n\\s*(\\w)"@ && replacement@ == "$1$2"@ && is_ascii_text(haystack@)
            ==> r@ == hyphens_joined(haystack@),
        p@ == "\\b\\d{1,4}\\b"@ && replacement@.len() == 0 && is_ascii_text(haystack@) ==> r@
            == numbers_dropped(haystack@, false),
        p@ == "(?m)^\\s*\\d+\\s*$"@ && replacement@.len() == 0 && is_ascii_text(haystack@)
            && !haystack@.contains('\n') ==> r@ == (if is_number_line(haystack@) {
            Seq::<char>::empty()
        } else {
            haystack@
        }),
        p@ == "\\s{2,}"@ && replacement@ == " "@ ==> r@ == spaces_collapsed(haystack@),
        p@ == "[^\\x09\\x0A\\x0D\\x20-\\x7E]"@ && replacement@.len() == 0 ==> r@
            == plain_only(haystack@),
        p@ == "[^\\x09\\x0A\\x0D\\x20-\\x7E]"@ && replacement@.len() == 0 ==> forall|i: int|
            0 <= i < r@.len() ==> is_plain_char(#[trigger] r@[i]),
{
    p.re.replace_all(haystack, replacement).into_owned()
}

/// Calls `regex::Regex::find_iter(haystack)` and collects the text of each
/// match. Claimed: the texts are the named `regex_find_all`, and, each
/// match being a piece of the haystack, each of their characters occurs in
/// the haystack. For the sentence pattern `[^.!?]+(?:[.!?]+["')\]]*)+` the
/// texts are stated: under leftmost-first, greedy matching each match starts
/// at the first character that is not `.`, `!` or `?`, takes everything up
/// to the next terminator, then every run of terminators with the closing
/// quotes and brackets after it while another terminator follows; text with
/// no terminator after it yields no match. That is `sentences`.
#[verifier::external_body]
pub(crate) fn find_all(p: &Pattern, haystack: &str) -> (r: Vec<String>)
    ensures
        r@.map_values(|m: String| m@) == regex_find_all(p@, haystack@),
        forall|k: int, i: int|
            0 <= k < r@.len() && 0 <= i < r@[k]@.len() ==> haystack@.contains(
                #[trigger] r@[k]@[i],
            ),
        p@ == "[^.!?]+(?:[.!?]+[\"')\\]]*)+"@ ==> r@.map_values(|m: String| m@) == sentences(
            haystack@,
        ),
{
    p.re.find_iter(haystack).map(|m| m.as_str().to_string()).collect()
}

} // verus!
