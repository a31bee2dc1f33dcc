//! What a sentence of a paragraph is: text up to a run of `.`, `!` or `?`,
//! together with the closing quotes and brackets right after it.

use vstd::prelude::*;

use crate::text::{lemma_run_len, run_len};

verus! {

/// `.`, `!` and `?` end a sentence.
pub open spec fn is_terminator(c: char) -> bool {
    c == '.' || c == '!' || c == '?'
}

/// Closing quotes and brackets that belong to the sentence they follow.
pub open spec fn is_closer(c: char) -> bool {
    c == '"' || c == '\'' || c == ')' || c == ']'
}

/// The sentence marks by code point: terminators are full stop (U+002E),
/// exclamation mark (U+0021) and question mark (U+003F); closers are the
/// double quote (U+0022), the apostrophe (U+0027), the closing parenthesis
/// (U+0029) and the closing square bracket (U+005D).
pub proof fn lemma_sentence_marks(c: char)
    ensures
        is_terminator(c) <==> (c as u32 == 0x2E || c as u32 == 0x21 || c as u32 == 0x3F),
        is_closer(c) <==> (c as u32 == 0x22 || c as u32 == 0x27 || c as u32 == 0x29 || c as u32
            == 0x5D),
{
}

/// The terminator test as a predicate.
pub open spec fn terminator_class() -> spec_fn(char) -> bool {
    |c: char| is_terminator(c)
}

/// Anything but a terminator.
pub open spec fn non_terminator_class() -> spec_fn(char) -> bool {
    |c: char| !is_terminator(c)
}

/// The closer test as a predicate.
pub open spec fn closer_class() -> spec_fn(char) -> bool {
    |c: char| is_closer(c)
}

/// The length of the sentence ending at the front of `s`: runs of
/// terminators, each with the closers after it, for as long as another
/// terminator follows the closers.
pub open spec fn ending_len(s: Seq<char>) -> nat
    decreases s.len(),
{
    if s.len() == 0 || !is_terminator(s[0]) {
        0
    } else {
        let t = run_len(s, terminator_class()) as int;
        let c = run_len(s.skip(t), closer_class()) as int;
        proof {
            lemma_run_len(s, terminator_class());
            lemma_run_len(s.skip(t), closer_class());
        }
        if t + c < s.len() && is_terminator(s[t + c]) {
            (t + c + ending_len(s.skip(t + c))) as nat
        } else {
            (t + c) as nat
        }
    }
}

/// The sentences of `s`, from the front: leading terminators are skipped,
/// then a sentence is the text up to the next terminator with its ending;
/// text after the last terminator is not a sentence.
pub open spec fn sentences(s: Seq<char>) -> Seq<Seq<char>>
    decreases s.len(),
{
    let lead = run_len(s, terminator_class());
    proof {
        lemma_run_len(s, terminator_class());
    }
    let rest = s.skip(lead as int);
    let body = run_len(rest, non_terminator_class());
    proof {
        lemma_run_len(rest, non_terminator_class());
    }
    if body >= rest.len() || body == 0 {
        Seq::empty()
    } else {
        let n = (body + ending_len(rest.skip(body as int))) as int;
        proof {
            lemma_ending_len(rest.skip(body as int));
        }
        seq![rest.take(n)] + sentences(rest.skip(n))
    }
}

/// An ending is a piece of the text that starts with a terminator, ends with
/// a terminator or a closer, and is followed by neither.
pub proof fn lemma_ending_len(s: Seq<char>)
    ensures
        ending_len(s) <= s.len(),
        s.len() > 0 && is_terminator(s[0]) ==> ending_len(s) >= 1,
        s.len() > 0 && is_terminator(s[0]) ==> is_terminator(s[ending_len(s) - 1]) || is_closer(
            s[ending_len(s) - 1],
        ),
        s.len() > 0 && is_terminator(s[0]) && ending_len(s) < s.len() ==> !is_terminator(
            s[ending_len(s) as int],
        ) && !is_closer(s[ending_len(s) as int]),
    decreases s.len(),
{
    if s.len() > 0 && is_terminator(s[0]) {
        let t = run_len(s, terminator_class()) as int;
        lemma_run_len(s, terminator_class());
        let r = s.skip(t);
        let c = run_len(r, closer_class()) as int;
        lemma_run_len(r, closer_class());
        if c > 0 {
            assert(r[c - 1] == s[t + c - 1]);
        }
        if t + c < s.len() {
            assert(r[c] == s[t + c]);
        }
        if t < s.len() {
            assert(r[0] == s[t]);
        }
        if t + c < s.len() && is_terminator(s[t + c]) {
            let r2 = s.skip(t + c);
            lemma_ending_len(r2);
            assert(r2[0] == s[t + c]);
            let e = ending_len(r2) as int;
            assert(r2[e - 1] == s[t + c + e - 1]);
            if e < r2.len() {
                assert(r2[e] == s[t + c + e]);
            }
        }
    }
}

/// Every sentence is a non-empty piece of text that does not start with a
/// terminator, holds a terminator, and ends with a terminator or a closing
/// quote or bracket; a comma or any other character neither ends nor cuts a
/// sentence. Every sentence after the first starts with neither a terminator
/// nor a closer, so the closers after a sentence end stay with it.
pub proof fn lemma_sentence_shape(s: Seq<char>)
    ensures
        forall|k: int|
            0 <= k < sentences(s).len() ==> {
                let m = #[trigger] sentences(s)[k];
                &&& m.len() > 0
                &&& !is_terminator(m[0])
                &&& m.contains('.') || m.contains('!') || m.contains('?')
                &&& is_terminator(m.last()) || is_closer(m.last())
                &&& k > 0 ==> !is_closer(m[0])
            },
    decreases s.len(),
{
    let lead = run_len(s, terminator_class());
    lemma_run_len(s, terminator_class());
    let rest = s.skip(lead as int);
    let body = run_len(rest, non_terminator_class());
    lemma_run_len(rest, non_terminator_class());
    if !(body >= rest.len() || body == 0) {
        let e = rest.skip(body as int);
        lemma_ending_len(e);
        assert(e[0] == rest[body as int]);
        let n = (body + ending_len(e)) as int;
        let m = rest.take(n);
        let tail = rest.skip(n);
        lemma_sentence_shape(tail);
        lemma_sentence_next_start(tail);
        if n < rest.len() {
            assert(tail[0] == rest[n]);
            assert(rest[n] == e[ending_len(e) as int]);
        }
        assert(m[body as int] == e[0]);
        assert(m.last() == e[ending_len(e) - 1]);
        assert(m[0] == rest[0]);
        assert forall|k: int| 0 <= k < sentences(s).len() implies {
            let m = #[trigger] sentences(s)[k];
            &&& m.len() > 0
            &&& !is_terminator(m[0])
            &&& m.contains('.') || m.contains('!') || m.contains('?')
            &&& is_terminator(m.last()) || is_closer(m.last())
            &&& k > 0 ==> !is_closer(m[0])
        } by {
            if k == 0 {
                assert(sentences(s)[0] == m);
                assert(m.contains(m[body as int]));
            } else {
                assert(sentences(s)[k] == sentences(tail)[k - 1]);
                if k == 1 {
                    assert(sentences(tail)[0][0] == tail[0]);
                }
            }
        }
    }
}

/// The first sentence of a text that does not start with a terminator
/// starts at its front.
proof fn lemma_sentence_next_start(s: Seq<char>)
    ensures
        sentences(s).len() > 0 && s.len() > 0 && !is_terminator(s[0]) ==> sentences(s)[0][0]
            == s[0],
{
    let lead = run_len(s, terminator_class());
    lemma_run_len(s, terminator_class());
    if s.len() > 0 && !is_terminator(s[0]) {
        assert(lead == 0);
        assert(s.skip(0) =~= s);
        let body = run_len(s, non_terminator_class());
        lemma_run_len(s, non_terminator_class());
        if !(body >= s.len() || body == 0) {
            let e = s.skip(body as int);
            lemma_ending_len(e);
            let n = (body + ending_len(e)) as int;
            assert(sentences(s)[0] == s.take(n));
        }
    }
}

/// Sentences lose no text: put together they are exactly the text from the
/// end of its leading terminators to the end of its last sentence, and what
/// is left after that holds no terminator. So no character between two
/// sentence ends is dropped, and a sentence ends only at a terminator.
pub proof fn lemma_sentences_cover(s: Seq<char>) -> (r: (int, int))
    ensures
        0 <= r.0 <= r.1 <= s.len(),
        forall|i: int| 0 <= i < r.0 ==> is_terminator(#[trigger] s[i]),
        forall|i: int| r.1 <= i < s.len() ==> !is_terminator(#[trigger] s[i]),
        sentences(s).flatten() == s.subrange(r.0, r.1),
    decreases s.len(),
{
    let lead = run_len(s, terminator_class());
    lemma_run_len(s, terminator_class());
    let rest = s.skip(lead as int);
    let body = run_len(rest, non_terminator_class());
    lemma_run_len(rest, non_terminator_class());
    if lead < s.len() {
        assert(rest[0] == s[lead as int]);
    }
    if body >= rest.len() || body == 0 {
        assert forall|i: int| lead <= i < s.len() implies !is_terminator(#[trigger] s[i]) by {
            assert(s[i] == rest[i - lead]);
        }
        assert(s.subrange(lead as int, lead as int) =~= Seq::<char>::empty());
        (lead as int, lead as int)
    } else {
        let e = rest.skip(body as int);
        lemma_ending_len(e);
        assert(e[0] == rest[body as int]);
        let n = (body + ending_len(e)) as int;
        let tail = rest.skip(n);
        let (a2, b2) = lemma_sentences_cover(tail);
        if n < rest.len() {
            assert(tail[0] == rest[n]);
            assert(rest[n] == e[ending_len(e) as int]);
            if a2 > 0 {
                assert(is_terminator(tail[0]));
            }
        }
        assert(a2 == 0);
        let m = rest.take(n);
        assert((seq![m] + sentences(tail)).drop_first() =~= sentences(tail));
        assert(sentences(s) == seq![m] + sentences(tail));
        assert(sentences(s).flatten() == m + sentences(tail).flatten());
        assert(m + tail.subrange(0, b2) =~= s.subrange(lead as int, lead + n + b2));
        assert forall|i: int| lead + n + b2 <= i < s.len() implies !is_terminator(#[trigger] s[i]) by {
            assert(s[i] == tail[i - lead - n]);
        }
        (lead as int, lead + n + b2)
    }
}

} // verus!
