//! Turning the raw text of a PDF page into speakable text and splitting it
//! into sentence-sized chunks.

use vstd::prelude::*;

use crate::pattern::{
    compile, find_all, is_ascii_non_digit, is_plain_char, plain_only, regex_accepts,
    regex_find_all, regex_replace_all, replace_all,
};
use crate::sentences::sentences;
use crate::steps::{
    hyphens_joined, is_ascii_char, is_ascii_text, is_number_line, lemma_hyphens_joined_chars,
    numbers_dropped,
};
use crate::text::{
    lemma_lines_joined_chars, lemma_replaced_absent, lemma_spaces_collapsed_chars, lines_joined,
    spaces_collapsed, lemma_replaced_chars, lemma_trimmed_chars, lemma_trimmed_edges, replace_char, replaced,
    trim_text, trimmed, has_trimmed_edges,
};

verus! {

/// A word character, a hyphen and a line break between it and the next word
/// character: a word hyphenated across two lines.
pub open spec fn hyphen_break_pattern() -> Seq<char> {
    "(\\w)-\\s*\\n\\s*(\\w)"@
}

/// A run of line feeds.
pub open spec fn line_break_pattern() -> Seq<char> {
    "\\n+"@
}

/// Two or more white-space characters.
pub open spec fn space_run_pattern() -> Seq<char> {
    "\\s{2,}"@
}

/// A free-standing number of one to four digits (page and footnote numbers).
pub open spec fn short_number_pattern() -> Seq<char> {
    "\\b\\d{1,4}\\b"@
}

/// A line holding nothing but a number.
pub open spec fn number_line_pattern() -> Seq<char> {
    "(?m)^\\s*\\d+\\s*$"@
}

/// One character that is neither tab, line feed, carriage return nor
/// printable ASCII.
pub open spec fn unprintable_pattern() -> Seq<char> {
    "[^\\x09\\x0A\\x0D\\x20-\\x7E]"@
}

/// A sentence: text up to a run of `.`, `!` or `?`, with closing quotes and
/// brackets after it.
pub open spec fn sentence_pattern() -> Seq<char> {
    "[^.!?]+(?:[.!?]+[\"')\\]]*)+"@
}

/// Whether `regex` accepts every pattern that cleaning uses.
pub open spec fn cleaning_patterns_accepted() -> bool {
    &&& regex_accepts(hyphen_break_pattern())
    &&& regex_accepts(line_break_pattern())
    &&& regex_accepts(space_run_pattern())
    &&& regex_accepts(short_number_pattern())
    &&& regex_accepts(number_line_pattern())
    &&& regex_accepts(unprintable_pattern())
}

/// `&`, `%` and `$` spelled out as words.
pub open spec fn spelled_out(s: Seq<char>) -> Seq<char> {
    replaced(replaced(replaced(s, '&', " and "@), '%', " percent "@), '$', " dollars "@)
}

/// The cleaned text, step by step: hyphenated line breaks joined, line breaks
/// turned into spaces, runs of white space collapsed, symbols spelled out,
/// short numbers and number-only lines removed, characters other than tab,
/// line breaks and printable ASCII removed, and the result trimmed.
pub open spec fn cleaned(text: Seq<char>) -> Seq<char> {
    let joined = regex_replace_all(hyphen_break_pattern(), text, "$1$2"@);
    let one_line = regex_replace_all(line_break_pattern(), joined, " "@);
    let spaced = regex_replace_all(space_run_pattern(), one_line, " "@);
    let worded = spelled_out(spaced);
    let unnumbered = regex_replace_all(short_number_pattern(), worded, ""@);
    let unpaged = regex_replace_all(number_line_pattern(), unnumbered, ""@);
    let plain = regex_replace_all(unprintable_pattern(), unpaged, ""@);
    trimmed(plain)
}

/// Whether `c` is one of the symbols that cleaning spells out.
pub open spec fn is_spelled_symbol(c: char) -> bool {
    c == '&' || c == '%' || c == '$'
}

/// Whether `c` is a space or a lower-case ASCII letter, the characters that
/// the spelled-out words are made of.
pub open spec fn is_word_char(c: char) -> bool {
    c == ' ' || ('a' <= c && c <= 'z')
}

/// Every character of `out` occurs in `inp` or in `rep`.
pub open spec fn drawn_from(out: Seq<char>, inp: Seq<char>, rep: Seq<char>) -> bool {
    forall|i: int| 0 <= i < out.len() ==> inp.contains(#[trigger] out[i]) || rep.contains(out[i])
}

proof fn lemma_drawn_from_lacks(out: Seq<char>, inp: Seq<char>, rep: Seq<char>, c: char)
    requires
        drawn_from(out, inp, rep),
        !inp.contains(c),
        !rep.contains(c),
    ensures
        !out.contains(c),
{
    if out.contains(c) {
        let i = choose|i: int| 0 <= i < out.len() && out[i] == c;
        assert(inp.contains(out[i]) || rep.contains(out[i]));
    }
}

proof fn lemma_replaced_words(s: Seq<char>, c: char, rep: Seq<char>)
    requires
        forall|i: int| 0 <= i < rep.len() ==> is_word_char(#[trigger] rep[i]),
        !is_word_char(c),
    ensures
        forall|i: int|
            0 <= i < replaced(s, c, rep).len() ==> {
                let x = #[trigger] replaced(s, c, rep)[i];
                x != c && (s.contains(x) || is_word_char(x))
            },
{
    lemma_replaced_chars(s, c, rep);
    assert forall|i: int| 0 <= i < replaced(s, c, rep).len() implies {
        let x = #[trigger] replaced(s, c, rep)[i];
        x != c && (s.contains(x) || is_word_char(x))
    } by {
        let x = replaced(s, c, rep)[i];
        if rep.contains(x) {
            let j = choose|j: int| 0 <= j < rep.len() && rep[j] == x;
            assert(is_word_char(rep[j]));
        }
    }
}

/// The words a symbol is spoken as, letter by letter; any other character
/// stands for itself.
pub open spec fn spoken_as(c: char) -> Seq<char> {
    if c == '&' {
        seq![' ', 'a', 'n', 'd', ' ']
    } else if c == '%' {
        seq![' ', 'p', 'e', 'r', 'c', 'e', 'n', 't', ' ']
    } else if c == '$' {
        seq![' ', 'd', 'o', 'l', 'l', 'a', 'r', 's', ' ']
    } else {
        seq![c]
    }
}

/// Each character of `s` spoken as its words, in order.
pub open spec fn spoken_each(s: Seq<char>) -> Seq<char>
    decreases s.len(),
{
    if s.len() == 0 {
        Seq::empty()
    } else {
        spoken_each(s.drop_last()) + spoken_as(s.last())
    }
}

/// Replacing in a concatenation is replacing in each part.
pub proof fn lemma_replaced_append(a: Seq<char>, b: Seq<char>, c: char, rep: Seq<char>)
    ensures
        replaced(a + b, c, rep) == replaced(a, c, rep) + replaced(b, c, rep),
    decreases b.len(),
{
    if b.len() == 0 {
        assert(a + b =~= a);
        assert(replaced(a, c, rep) + Seq::<char>::empty() =~= replaced(a, c, rep));
    } else {
        lemma_replaced_append(a, b.drop_last(), c, rep);
        assert((a + b).drop_last() =~= a + b.drop_last());
        assert((a + b).last() == b.last());
    }
}

/// A single character is replaced by the replacement if it is the one
/// replaced, and kept otherwise.
pub proof fn lemma_replaced_single(x: char, c: char, rep: Seq<char>)
    ensures
        replaced(seq![x], c, rep) == (if x == c {
            rep
        } else {
            seq![x]
        }),
{
    assert(seq![x].drop_last() =~= Seq::<char>::empty());
    assert(seq![x].last() == x);
    assert(replaced(Seq::<char>::empty(), c, rep) == Seq::<char>::empty());
    assert(replaced(seq![x].drop_last(), c, rep) == Seq::<char>::empty());
    assert(Seq::<char>::empty() + rep =~= rep);
    assert(Seq::<char>::empty() + seq![x] =~= seq![x]);
}

proof fn lemma_lacks(s: Seq<char>, c: char)
    requires
        forall|i: int| 0 <= i < s.len() ==> s[i] != c,
    ensures
        !s.contains(c),
{
}

/// Spelling out the symbols one after the other is the same as speaking
/// every character as its words in a single pass: `&` becomes " and ", `%`
/// " percent ", `$` " dollars ", and every other character stays.
pub proof fn lemma_spelled_out_each(s: Seq<char>)
    ensures
        spelled_out(s) == spoken_each(s),
    decreases s.len(),
{
    if s.len() > 0 {
        let x = s.last();
        let front = s.drop_last();
        lemma_spelled_out_each(front);
        assert(front + seq![x] =~= s);
        let and_w = " and "@;
        let percent_w = " percent "@;
        let dollars_w = " dollars "@;
        reveal_strlit(" and ");
        reveal_strlit(" percent ");
        reveal_strlit(" dollars ");
        assert(and_w =~= seq![' ', 'a', 'n', 'd', ' ']);
        assert(percent_w =~= seq![' ', 'p', 'e', 'r', 'c', 'e', 'n', 't', ' ']);
        assert(dollars_w =~= seq![' ', 'd', 'o', 'l', 'l', 'a', 'r', 's', ' ']);
        lemma_replaced_append(front, seq![x], '&', and_w);
        let r1a = replaced(front, '&', and_w);
        let r1b = replaced(seq![x], '&', and_w);
        lemma_replaced_append(r1a, r1b, '%', percent_w);
        let r2a = replaced(r1a, '%', percent_w);
        let r2b = replaced(r1b, '%', percent_w);
        lemma_replaced_append(r2a, r2b, '$', dollars_w);
        lemma_replaced_single(x, '&', and_w);
        if x == '&' {
            lemma_lacks(and_w, '%');
            lemma_replaced_absent(and_w, '%', percent_w);
            lemma_lacks(and_w, '$');
            lemma_replaced_absent(and_w, '$', dollars_w);
        } else {
            lemma_replaced_single(x, '%', percent_w);
            if x == '%' {
                lemma_lacks(percent_w, '$');
                lemma_replaced_absent(percent_w, '$', dollars_w);
            } else {
                lemma_replaced_single(x, '$', dollars_w);
            }
        }
    }
}

/// Spells out `&`, `%` and `$` as " and ", " percent " and " dollars ", one
/// symbol after the other (`str::replace` three times).
pub fn spell_out_symbols(text: &str) -> (r: String)
    ensures
        r@ == spelled_out(text@),
        r@ == spoken_each(text@),
        forall|i: int| 0 <= i < r@.len() ==> !is_spelled_symbol(#[trigger] r@[i]),
        forall|i: int|
            0 <= i < r@.len() ==> text@.contains(#[trigger] r@[i]) || is_word_char(r@[i]),
{
    let a = replace_char(text, '&', " and ");
    let b = replace_char(a.as_str(), '%', " percent ");
    let c = replace_char(b.as_str(), '$', " dollars ");
    proof {
        lemma_spelled_out_each(text@);
        reveal_strlit(" and ");
        reveal_strlit(" percent ");
        reveal_strlit(" dollars ");
        assert forall|i: int| 0 <= i < " and "@.len() implies is_word_char(#[trigger] " and "@[i]) by {}
        assert forall|i: int| 0 <= i < " percent "@.len() implies is_word_char(
            #[trigger] " percent "@[i],
        ) by {}
        assert forall|i: int| 0 <= i < " dollars "@.len() implies is_word_char(
            #[trigger] " dollars "@[i],
        ) by {}
        lemma_replaced_words(text@, '&', " and "@);
        lemma_replaced_words(a@, '%', " percent "@);
        lemma_replaced_words(b@, '$', " dollars "@);
        assert forall|i: int| 0 <= i < c@.len() implies !is_spelled_symbol(#[trigger] c@[i]) && (
        text@.contains(c@[i]) || is_word_char(c@[i])) by {
            let x = c@[i];
            if b@.contains(x) {
                let j = choose|j: int| 0 <= j < b@.len() && b@[j] == x;
                assert(b@[j] != '%');
                if a@.contains(b@[j]) {
                    let k = choose|k: int| 0 <= k < a@.len() && a@[k] == x;
                    assert(a@[k] != '&');
                }
            }
        }
    }
    c
}

/// A character that no cleaning step after the white-space steps touches:
/// printable ASCII, tab or carriage return, but no digit and none of `&`,
/// `%`, `$`.
pub open spec fn is_settled_char(c: char) -> bool {
    is_plain_char(c) && c != '\n' && is_ascii_non_digit(c) && !is_spelled_symbol(c)
}

/// Page text made of settled characters and line feeds, where no hyphen
/// stands before a line break (it has no line feed or no hyphen).
pub open spec fn is_plain_prose(t: Seq<char>) -> bool {
    &&& forall|i: int| 0 <= i < t.len() ==> (#[trigger] t[i] == '\n' || is_settled_char(t[i]))
    &&& !t.contains('\n') || !t.contains('-')
}

proof fn lemma_all_settled(out: Seq<char>, inp: Seq<char>)
    requires
        forall|i: int| 0 <= i < inp.len() ==> (#[trigger] inp[i] == '\n' || is_settled_char(inp[i])),
        forall|i: int| 0 <= i < out.len() ==> #[trigger] out[i] == ' ' || inp.contains(out[i]),
        !out.contains('\n'),
    ensures
        forall|i: int| 0 <= i < out.len() ==> is_settled_char(#[trigger] out[i]),
{
    assert forall|i: int| 0 <= i < out.len() implies is_settled_char(#[trigger] out[i]) by {
        assert(out[i] == ' ' || inp.contains(out[i]));
        if out[i] != ' ' {
            let j = choose|j: int| 0 <= j < inp.len() && inp[j] == out[i];
            assert(inp[j] == '\n' || is_settled_char(inp[j]));
            assert(out.contains(out[i]));
        }
    }
}

proof fn lemma_ascii_drawn(out: Seq<char>, inp: Seq<char>, rep: Seq<char>)
    requires
        is_ascii_text(inp),
        is_ascii_text(rep),
        forall|i: int| 0 <= i < out.len() ==> inp.contains(#[trigger] out[i]) || rep.contains(out[i]),
    ensures
        is_ascii_text(out),
{
    assert forall|i: int| 0 <= i < out.len() implies is_ascii_char(#[trigger] out[i]) by {
        if inp.contains(out[i]) {
            let j = choose|j: int| 0 <= j < inp.len() && inp[j] == out[i];
            assert(is_ascii_char(inp[j]));
        } else {
            let j = choose|j: int| 0 <= j < rep.len() && rep[j] == out[i];
            assert(is_ascii_char(rep[j]));
        }
    }
}

proof fn lemma_settled_lacks(s: Seq<char>, c: char)
    requires
        forall|i: int| 0 <= i < s.len() ==> is_settled_char(#[trigger] s[i]),
        !is_settled_char(c),
    ensures
        !s.contains(c),
{
    if s.contains(c) {
        let j = choose|j: int| 0 <= j < s.len() && s[j] == c;
        assert(is_settled_char(s[j]));
    }
}

proof fn lemma_plain_only_of_plain(s: Seq<char>)
    requires
        forall|i: int| 0 <= i < s.len() ==> is_plain_char(#[trigger] s[i]),
    ensures
        plain_only(s) == s,
    decreases s.len(),
{
    if s.len() > 0 {
        assert(is_plain_char(s[0]));
        assert forall|i: int| 0 <= i < s.drop_first().len() implies is_plain_char(
            #[trigger] s.drop_first()[i],
        ) by {
            assert(s.drop_first()[i] == s[i + 1]);
        }
        lemma_plain_only_of_plain(s.drop_first());
        assert(seq![s[0]] + s.drop_first() =~= s);
    }
}

/// Text as it goes into speech: hyphenated line breaks joined, line breaks
/// and runs of white space made single spaces, `&`, `%` and `$` spelled out,
/// page numbers and stray short numbers dropped, characters other than tab,
/// line breaks and printable ASCII dropped, and the ends trimmed.
/// `None` when `regex` refuses one of the patterns.
pub fn clean_pdf_text(text: &str) -> (r: Option<String>)
    ensures
        (r is Some) == cleaning_patterns_accepted(),
        r matches Some(s) ==> {
            &&& s@ == cleaned(text@)
            &&& forall|i: int| 0 <= i < s@.len() ==> is_plain_char(#[trigger] s@[i])
            &&& forall|i: int| 0 <= i < s@.len() ==> !is_spelled_symbol(#[trigger] s@[i])
            &&& !s@.contains('\n')
            &&& has_trimmed_edges(s@)
            &&& is_plain_prose(text@) ==> s@ == trimmed(spaces_collapsed(lines_joined(text@)))
            &&& is_ascii_text(text@) ==> s@ == trimmed(
                plain_only(
                    {
                        let numbers_gone = numbers_dropped(
                            spelled_out(spaces_collapsed(lines_joined(hyphens_joined(text@)))),
                            false,
                        );
                        if is_number_line(numbers_gone) {
                            Seq::empty()
                        } else {
                            numbers_gone
                        }
                    },
                ),
            )
        },
{
    let hyphen_break = match compile("(\\w)-\\s*\\n\\s*(\\w)") {
        Ok(p) => p,
        Err(_) => return None,
    };
    let line_break = match compile("\\n+") {
        Ok(p) => p,
        Err(_) => return None,
    };
    let space_run = match compile("\\s{2,}") {
        Ok(p) => p,
        Err(_) => return None,
    };
    let short_number = match compile("\\b\\d{1,4}\\b") {
        Ok(p) => p,
        Err(_) => return None,
    };
    let number_line = match compile("(?m)^\\s*\\d+\\s*$") {
        Ok(p) => p,
        Err(_) => return None,
    };
    let unprintable = match compile("[^\\x09\\x0A\\x0D\\x20-\\x7E]") {
        Ok(p) => p,
        Err(_) => return None,
    };
    let joined = replace_all(&hyphen_break, text, "$1$2");
    let one_line = replace_all(&line_break, joined.as_str(), " ");
    let spaced = replace_all(&space_run, one_line.as_str(), " ");
    let worded = spell_out_symbols(spaced.as_str());
    let unnumbered = replace_all(&short_number, worded.as_str(), "");
    let unpaged = replace_all(&number_line, unnumbered.as_str(), "");
    let plain = replace_all(&unprintable, unpaged.as_str(), "");
    let result = trim_text(plain.as_str());
    proof {
        reveal_strlit("");
        reveal_strlit(" ");
        let empty = ""@;
        assert(!empty.contains('$') && !empty.contains('\n'));
        assert(!" "@.contains('$') && !" "@.contains('\n')) by {
            if " "@.contains('$') || " "@.contains('\n') {
                let j = choose|j: int| 0 <= j < " "@.len() && (" "@[j] == '$' || " "@[j] == '\n');
            }
        }
        lemma_trimmed_chars(plain@);
        lemma_trimmed_edges(plain@);
        // No line feed survives the line-break step, and none comes back.
        assert(!one_line@.contains('\n'));
        lemma_drawn_from_lacks(spaced@, one_line@, " "@, '\n');
        assert(!worded@.contains('\n')) by {
            if worded@.contains('\n') {
                let j = choose|j: int| 0 <= j < worded@.len() && worded@[j] == '\n';
                assert(spaced@.contains(worded@[j]) || is_word_char(worded@[j]));
            }
        }
        lemma_drawn_from_lacks(unnumbered@, worded@, empty, '\n');
        lemma_drawn_from_lacks(unpaged@, unnumbered@, empty, '\n');
        lemma_drawn_from_lacks(plain@, unpaged@, empty, '\n');
        if is_ascii_text(text@) {
            // On ASCII text every step is written out.
            reveal_strlit("$1$2");
            let space = " "@;
            assert(is_ascii_text(space));
            assert(is_ascii_text(empty));
            assert(joined@ == hyphens_joined(text@));
            lemma_hyphens_joined_chars(text@);
            lemma_ascii_drawn(joined@, text@, empty);
            assert(one_line@ == lines_joined(joined@));
            lemma_ascii_drawn(one_line@, joined@, space);
            assert(spaced@ == spaces_collapsed(one_line@));
            lemma_ascii_drawn(spaced@, one_line@, space);
            assert forall|i: int| 0 <= i < worded@.len() implies is_ascii_char(#[trigger] worded@[i]) by {
                if spaced@.contains(worded@[i]) {
                    let j = choose|j: int| 0 <= j < spaced@.len() && spaced@[j] == worded@[i];
                    assert(is_ascii_char(spaced@[j]));
                } else {
                    assert(is_word_char(worded@[i]));
                }
            }
            assert(unnumbered@ == numbers_dropped(worded@, false));
            lemma_ascii_drawn(unnumbered@, worded@, empty);
        }
        if is_plain_prose(text@) {
            // On plain prose only the line and white-space steps change anything.
            assert(joined@ == text@);
            assert(one_line@ == lines_joined(text@));
            assert(spaced@ == spaces_collapsed(one_line@));
            lemma_lines_joined_chars(text@);
            lemma_spaces_collapsed_chars(one_line@);
            assert forall|i: int| 0 <= i < spaced@.len() implies #[trigger] spaced@[i] == ' '
                || text@.contains(spaced@[i]) by {
                if spaced@[i] != ' ' {
                    let j = choose|j: int| 0 <= j < one_line@.len() && one_line@[j] == spaced@[i];
                    assert(one_line@[j] == ' ' || text@.contains(one_line@[j]));
                }
            }
            lemma_all_settled(spaced@, text@);
            lemma_settled_lacks(spaced@, '&');
            lemma_replaced_absent(spaced@, '&', " and "@);
            lemma_settled_lacks(spaced@, '%');
            lemma_replaced_absent(spaced@, '%', " percent "@);
            lemma_settled_lacks(spaced@, '$');
            lemma_replaced_absent(spaced@, '$', " dollars "@);
            assert(worded@ == spaced@);
            assert(unnumbered@ == worded@);
            assert(unpaged@ == unnumbered@);
            lemma_plain_only_of_plain(unpaged@);
            assert(plain@ == unpaged@);
        }
        assert forall|i: int| 0 <= i < result@.len() implies {
            let x = #[trigger] result@[i];
            is_plain_char(x) && !is_spelled_symbol(x) && x != '\n'
        } by {
            let x = result@[i];
            let a = choose|j: int| 0 <= j < plain@.len() && plain@[j] == x;
            assert(is_plain_char(plain@[a]));
            assert(unpaged@.contains(plain@[a]) || empty.contains(plain@[a]));
            let b = choose|j: int| 0 <= j < unpaged@.len() && unpaged@[j] == x;
            assert(unnumbered@.contains(unpaged@[b]) || empty.contains(unpaged@[b]));
            let c = choose|j: int| 0 <= j < unnumbered@.len() && unnumbered@[j] == x;
            assert(worded@.contains(unnumbered@[c]) || empty.contains(unnumbered@[c]));
            let d = choose|j: int| 0 <= j < worded@.len() && worded@[j] == x;
            assert(!is_spelled_symbol(worded@[d]));
            assert(!plain@.contains('\n'));
        }
    }
    Some(result)
}

/// The views of a list of strings.
pub open spec fn string_views(v: Seq<String>) -> Seq<Seq<char>> {
    v.map_values(|s: String| s@)
}

/// The chunks of a paragraph: the sentence matches, each trimmed.
pub open spec fn chunked(text: Seq<char>) -> Seq<Seq<char>> {
    regex_find_all(sentence_pattern(), text).map_values(|m: Seq<char>| trimmed(m))
}

/// Trims each match.
pub fn trim_chunks(matches: &Vec<String>) -> (r: Vec<String>)
    ensures
        r@.len() == matches@.len(),
        string_views(r@) == string_views(matches@).map_values(|m: Seq<char>| trimmed(m)),
        forall|k: int| 0 <= k < r@.len() ==> has_trimmed_edges(#[trigger] r@[k]@),
        forall|k: int, i: int|
            0 <= k < r@.len() && 0 <= i < r@[k]@.len() ==> matches@[k]@.contains(
                #[trigger] r@[k]@[i],
            ),
{
    let mut r: Vec<String> = Vec::new();
    for i in 0..matches.len()
        invariant
            r@.len() == i,
            forall|k: int| 0 <= k < i ==> (#[trigger] r@[k])@ == trimmed(matches@[k]@),
    {
        let t = trim_text(matches[i].as_str());
        r.push(t);
    }
    proof {
        assert forall|k: int| 0 <= k < r@.len() implies has_trimmed_edges(#[trigger] r@[k]@) by {
            assert(r@[k]@ == trimmed(matches@[k]@));
            lemma_trimmed_edges(matches@[k]@);
        }
        assert forall|k: int, i: int| 0 <= k < r@.len() && 0 <= i < r@[k]@.len() implies matches@[
            k]@.contains(#[trigger] r@[k]@[i]) by {
            assert(r@[k]@ == trimmed(matches@[k]@));
            lemma_trimmed_chars(matches@[k]@);
        }
        assert(string_views(r@) =~= string_views(matches@).map_values(
            |m: Seq<char>| trimmed(m),
        ));
    }
    r
}

/// Splits a paragraph into sentences for speaking, each trimmed: a sentence
/// runs up to a run of `.`, `!` or `?` and the closing quotes or brackets
/// after it; text after the last such mark is not a sentence.
/// `None` when `regex` refuses the sentence pattern.
pub fn chunk_paragraph(text: &str) -> (r: Option<Vec<String>>)
    ensures
        (r is Some) == regex_accepts(sentence_pattern()),
        r matches Some(v) ==> {
            &&& string_views(v@) == chunked(text@)
            &&& string_views(v@) == sentences(text@).map_values(|m: Seq<char>| trimmed(m))
            &&& forall|k: int| 0 <= k < v@.len() ==> has_trimmed_edges(#[trigger] v@[k]@)
            &&& forall|k: int, i: int|
                0 <= k < v@.len() && 0 <= i < v@[k]@.len() ==> text@.contains(
                    #[trigger] v@[k]@[i],
                )
        },
{
    let sentence = match compile("[^.!?]+(?:[.!?]+[\"')\\]]*)+") {
        Ok(p) => p,
        Err(_) => return None,
    };
    let matches = find_all(&sentence, text);
    let chunks = trim_chunks(&matches);
    proof {
        assert forall|k: int, i: int| 0 <= k < chunks@.len() && 0 <= i < chunks@[k]@.len() implies text@.contains(
            #[trigger] chunks@[k]@[i],
        ) by {
            let x = chunks@[k]@[i];
            let j = choose|j: int| 0 <= j < matches@[k]@.len() && matches@[k]@[j] == x;
            assert(text@.contains(matches@[k]@[j]));
        }
    }
    Some(chunks)
}

} // verus!
