//! What the cleaning patterns do to ASCII text, written out: joining words
//! hyphenated across a line break, dropping free-standing short numbers and
//! dropping a text that is nothing but a number.

use vstd::prelude::*;

use crate::text::{is_white_space, lemma_run_len, run_len, white_space_class};

verus! {

/// Whether `c` is ASCII.
pub open spec fn is_ascii_char(c: char) -> bool {
    (c as u32) < 0x80
}

/// Whether every character of `s` is ASCII.
pub open spec fn is_ascii_text(s: Seq<char>) -> bool {
    forall|i: int| 0 <= i < s.len() ==> is_ascii_char(#[trigger] s[i])
}

/// An ASCII decimal digit.
pub open spec fn is_ascii_digit(c: char) -> bool {
    '0' <= c && c <= '9'
}

/// An ASCII word character: what `\w` matches among ASCII characters.
pub open spec fn is_ascii_word(c: char) -> bool {
    ||| is_ascii_digit(c)
    ||| 'a' <= c && c <= 'z'
    ||| 'A' <= c && c <= 'Z'
    ||| c == '_'
}

/// The ASCII word characters by code point: `0`-`9` (U+0030-U+0039),
/// `A`-`Z` (U+0041-U+005A), `_` (U+005F) and `a`-`z` (U+0061-U+007A).
pub proof fn lemma_ascii_word_table(c: char)
    ensures
        is_ascii_digit(c) <==> (0x30 <= c as u32 <= 0x39),
        is_ascii_word(c) <==> (0x30 <= c as u32 <= 0x39 || 0x41 <= c as u32 <= 0x5A || c as u32
            == 0x5F || 0x61 <= c as u32 <= 0x7A),
{
}

/// The digit test as a predicate.
pub open spec fn digit_class() -> spec_fn(char) -> bool {
    |c: char| is_ascii_digit(c)
}

/// Each word character followed by a hyphen, a run of white space holding a
/// line feed, and another word character, replaced by the two word
/// characters (the pattern `(\w)-\s*\n\s*(\w)` replaced by "$1$2", on ASCII
/// text).
pub open spec fn hyphens_joined(s: Seq<char>) -> Seq<char>
    decreases s.len(),
{
    if s.len() == 0 {
        Seq::empty()
    } else if s.len() >= 2 && is_ascii_word(s[0]) && s[1] == '-' {
        let r = s.skip(2);
        let w = run_len(r, white_space_class());
        proof {
            lemma_run_len(r, white_space_class());
        }
        if w < r.len() && is_ascii_word(r[w as int]) && r.take(w as int).contains('\n') {
            seq![s[0], r[w as int]] + hyphens_joined(r.skip(w as int + 1))
        } else {
            seq![s[0]] + hyphens_joined(s.drop_first())
        }
    } else {
        seq![s[0]] + hyphens_joined(s.drop_first())
    }
}

/// Each whole word of one to four digits deleted (the pattern
/// `\b\d{1,4}\b` replaced by "", on ASCII text); `after_word` tells whether
/// a word character stands right before `s`.
pub open spec fn numbers_dropped(s: Seq<char>, after_word: bool) -> Seq<char>
    decreases s.len(),
{
    if s.len() == 0 {
        Seq::empty()
    } else {
        let d = run_len(s, digit_class());
        proof {
            lemma_run_len(s, digit_class());
        }
        if !after_word && 1 <= d <= 4 && (d == s.len() || !is_ascii_word(s[d as int])) {
            numbers_dropped(s.skip(d as int), true)
        } else {
            seq![s[0]] + numbers_dropped(s.drop_first(), is_ascii_word(s[0]))
        }
    }
}

/// Whether `s` is white space, then one or more digits, then white space,
/// and nothing else (what `(?m)^\s*\d+\s*$` matches in a text without line
/// feeds).
pub open spec fn is_number_line(s: Seq<char>) -> bool {
    let a = run_len(s, white_space_class());
    let b = a + run_len(s.skip(a as int), digit_class());
    &&& b > a
    &&& b + run_len(s.skip(b as int), white_space_class()) == s.len()
}

/// A character of the joined text comes from the text.
pub proof fn lemma_hyphens_joined_chars(s: Seq<char>)
    ensures
        forall|i: int|
            0 <= i < hyphens_joined(s).len() ==> s.contains(#[trigger] hyphens_joined(s)[i]),
    decreases s.len(),
{
    if s.len() > 0 {
        let h = hyphens_joined(s);
        if s.len() >= 2 && is_ascii_word(s[0]) && s[1] == '-' {
            let r = s.skip(2);
            let w = run_len(r, white_space_class());
            lemma_run_len(r, white_space_class());
            if w < r.len() && is_ascii_word(r[w as int]) && r.take(w as int).contains('\n') {
                let rest = r.skip(w as int + 1);
                lemma_hyphens_joined_chars(rest);
                let t = hyphens_joined(rest);
                assert forall|i: int| 0 <= i < h.len() implies s.contains(#[trigger] h[i]) by {
                    if i == 0 {
                        assert(h[0] == s[0]);
                    } else if i == 1 {
                        assert(h[1] == s[w as int + 2]);
                    } else {
                        assert(h[i] == t[i - 2]);
                        let j = choose|j: int| 0 <= j < rest.len() && rest[j] == t[i - 2];
                        assert(s[j + w + 3] == rest[j]);
                    }
                }
                return;
            }
        }
        lemma_hyphens_joined_chars(s.drop_first());
        let t = hyphens_joined(s.drop_first());
        assert forall|i: int| 0 <= i < h.len() implies s.contains(#[trigger] h[i]) by {
            if i == 0 {
                assert(h[0] == s[0]);
            } else {
                assert(h[i] == t[i - 1]);
                let j = choose|j: int| 0 <= j < s.drop_first().len() && s.drop_first()[j] == t[i - 1];
                assert(s[j + 1] == s.drop_first()[j]);
            }
        }
    }
}

/// Hyphens stay where no line feed follows them: a text without line feeds
/// comes through hyphen joining unchanged.
pub proof fn lemma_hyphens_joined_without_line_feed(s: Seq<char>)
    requires
        !s.contains('\n'),
    ensures
        hyphens_joined(s) == s,
    decreases s.len(),
{
    if s.len() > 0 {
        assert(!s.drop_first().contains('\n')) by {
            if s.drop_first().contains('\n') {
                let j = choose|j: int| 0 <= j < s.drop_first().len() && s.drop_first()[j] == '\n';
                assert(s[j + 1] == '\n');
            }
        }
        if s.len() >= 2 && is_ascii_word(s[0]) && s[1] == '-' {
            let r = s.skip(2);
            let w = run_len(r, white_space_class());
            lemma_run_len(r, white_space_class());
            if r.take(w as int).contains('\n') {
                let j = choose|j: int| 0 <= j < r.take(w as int).len() && r.take(w as int)[j] == '\n';
                assert(s[j + 2] == '\n');
            }
        }
        lemma_hyphens_joined_without_line_feed(s.drop_first());
        assert(seq![s[0]] + s.drop_first() =~= s);
    }
}

/// Dropping numbers keeps every character that is not a digit, in order:
/// only digits are ever deleted.
pub proof fn lemma_numbers_dropped_only_digits(s: Seq<char>, after_word: bool)
    ensures
        forall|i: int|
            0 <= i < numbers_dropped(s, after_word).len() ==> s.contains(
                #[trigger] numbers_dropped(s, after_word)[i],
            ),
        numbers_dropped(s, after_word).len() <= s.len(),
    decreases s.len(),
{
    if s.len() > 0 {
        let d = run_len(s, digit_class());
        lemma_run_len(s, digit_class());
        let o = numbers_dropped(s, after_word);
        if !after_word && 1 <= d <= 4 && (d == s.len() || !is_ascii_word(s[d as int])) {
            let rest = s.skip(d as int);
            lemma_numbers_dropped_only_digits(rest, true);
            assert forall|i: int| 0 <= i < o.len() implies s.contains(#[trigger] o[i]) by {
                let j = choose|j: int| 0 <= j < rest.len() && rest[j] == o[i];
                assert(s[j + d] == rest[j]);
            }
        } else {
            let rest = s.drop_first();
            lemma_numbers_dropped_only_digits(rest, is_ascii_word(s[0]));
            let t = numbers_dropped(rest, is_ascii_word(s[0]));
            assert forall|i: int| 0 <= i < o.len() implies s.contains(#[trigger] o[i]) by {
                if i == 0 {
                    assert(o[0] == s[0]);
                } else {
                    assert(o[i] == t[i - 1]);
                    let j = choose|j: int| 0 <= j < rest.len() && rest[j] == t[i - 1];
                    assert(s[j + 1] == rest[j]);
                }
            }
        }
    }
}

/// The characters of `s` that are not ASCII digits, in order.
pub open spec fn without_digits(s: Seq<char>) -> Seq<char>
    decreases s.len(),
{
    if s.len() == 0 {
        Seq::empty()
    } else if is_ascii_digit(s[0]) {
        without_digits(s.drop_first())
    } else {
        seq![s[0]] + without_digits(s.drop_first())
    }
}

proof fn lemma_without_digits_skip(s: Seq<char>, k: int)
    requires
        0 <= k <= s.len(),
        forall|i: int| 0 <= i < k ==> is_ascii_digit(#[trigger] s[i]),
    ensures
        without_digits(s) == without_digits(s.skip(k)),
    decreases k,
{
    if k > 0 {
        assert(s.drop_first().skip(k - 1) =~= s.skip(k));
        assert forall|i: int| 0 <= i < k - 1 implies is_ascii_digit(#[trigger] s.drop_first()[i]) by {
            assert(s.drop_first()[i] == s[i + 1]);
        }
        lemma_without_digits_skip(s.drop_first(), k - 1);
    } else {
        assert(s.skip(0) =~= s);
    }
}

/// Dropping numbers deletes digits only: every other character is kept, in
/// order.
pub proof fn lemma_numbers_dropped_keeps_non_digits(s: Seq<char>, after_word: bool)
    ensures
        without_digits(numbers_dropped(s, after_word)) == without_digits(s),
    decreases s.len(),
{
    if s.len() > 0 {
        let d = run_len(s, digit_class());
        lemma_run_len(s, digit_class());
        if !after_word && 1 <= d <= 4 && (d == s.len() || !is_ascii_word(s[d as int])) {
            lemma_numbers_dropped_keeps_non_digits(s.skip(d as int), true);
            lemma_without_digits_skip(s, d as int);
        } else {
            let rest = s.drop_first();
            lemma_numbers_dropped_keeps_non_digits(rest, is_ascii_word(s[0]));
            let t = numbers_dropped(rest, is_ascii_word(s[0]));
            assert((seq![s[0]] + t).drop_first() =~= t);
        }
    }
}

} // verus!
