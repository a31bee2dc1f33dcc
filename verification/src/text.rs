//! Character-level text operations with exact specifications: Unicode
//! white-space trimming and replacement of a single character by a string.

use vstd::prelude::*;

verus! {

/// The Unicode `White_Space` property, which `char::is_whitespace` and
/// `str::trim` go by.
pub open spec fn is_white_space(c: char) -> bool {
    let n = c as u32;
    ||| 0x09 <= n <= 0x0D
    ||| n == 0x20
    ||| n == 0x85
    ||| n == 0xA0
    ||| n == 0x1680
    ||| 0x2000 <= n <= 0x200A
    ||| n == 0x2028
    ||| n == 0x2029
    ||| n == 0x202F
    ||| n == 0x205F
    ||| n == 0x3000
}

/// `s` without its leading white space.
pub open spec fn trimmed_start(s: Seq<char>) -> Seq<char>
    decreases s.len(),
{
    if s.len() > 0 && is_white_space(s[0]) {
        trimmed_start(s.drop_first())
    } else {
        s
    }
}

/// `s` without its trailing white space.
pub open spec fn trimmed_end(s: Seq<char>) -> Seq<char>
    decreases s.len(),
{
    if s.len() > 0 && is_white_space(s.last()) {
        trimmed_end(s.drop_last())
    } else {
        s
    }
}

/// Whether `s` neither starts nor ends with white space.
pub open spec fn has_trimmed_edges(s: Seq<char>) -> bool {
    s.len() > 0 ==> !is_white_space(s[0]) && !is_white_space(s.last())
}

/// `s` without leading and trailing white space, as `str::trim` gives it.
pub open spec fn trimmed(s: Seq<char>) -> Seq<char> {
    trimmed_end(trimmed_start(s))
}

/// Every occurrence of `c` in `s` replaced by `rep`, as `str::replace` with a
/// one-character pattern gives it.
pub open spec fn replaced(s: Seq<char>, c: char, rep: Seq<char>) -> Seq<char>
    decreases s.len(),
{
    if s.len() == 0 {
        Seq::empty()
    } else {
        replaced(s.drop_last(), c, rep) + (if s.last() == c {
            rep
        } else {
            seq![s.last()]
        })
    }
}

/// Appends `c` to `s` (`String::push`).
#[verifier::external_body]
fn push_char(s: &mut String, c: char)
    ensures
        final(s)@ == old(s)@.push(c),
{
    s.push(c);
}

/// Whether `c` is Unicode white space.
pub fn is_white_space_char(c: char) -> (b: bool)
    ensures
        b == is_white_space(c),
{
    let n = c as u32;
    (0x09 <= n && n <= 0x0D) || n == 0x20 || n == 0x85 || n == 0xA0 || n == 0x1680
        || (0x2000 <= n && n <= 0x200A) || n == 0x2028 || n == 0x2029 || n == 0x202F
        || n == 0x205F || n == 0x3000
}

/// Collects the characters of `s` into a vector.
pub fn chars_of(s: &str) -> (v: Vec<char>)
    ensures
        v@ == s@,
{
    let mut v: Vec<char> = Vec::new();
    for c in it: s.chars()
        invariant
            v@ == it.seq().take(it.index()),
            it.seq() == s@,
    {
        v.push(c);
    }
    v
}

/// The string made of `v[from..to]`.
fn string_of_range(v: &Vec<char>, from: usize, to: usize) -> (r: String)
    requires
        from <= to <= v.len(),
    ensures
        r@ == v@.subrange(from as int, to as int),
{
    let mut r = String::new();
    let mut i = from;
    while i < to
        invariant
            from <= i <= to <= v.len(),
            r@ == v@.subrange(from as int, i as int),
        decreases to - i,
    {
        push_char(&mut r, v[i]);
        i += 1;
        assert(r@ =~= v@.subrange(from as int, i as int));
    }
    r
}

proof fn lemma_trimmed_start_skip(s: Seq<char>, i: int)
    requires
        0 <= i < s.len(),
        is_white_space(s[i]),
    ensures
        trimmed_start(s.skip(i)) == trimmed_start(s.skip(i + 1)),
{
    assert(s.skip(i).drop_first() =~= s.skip(i + 1));
}

proof fn lemma_trimmed_end_range(s: Seq<char>, i: int, j: int)
    requires
        0 <= i < j <= s.len(),
        is_white_space(s[j - 1]),
    ensures
        trimmed_end(s.subrange(i, j)) == trimmed_end(s.subrange(i, j - 1)),
{
    assert(s.subrange(i, j).drop_last() =~= s.subrange(i, j - 1));
}

/// `s` without leading and trailing white space (`str::trim`).
pub fn trim_text(s: &str) -> (r: String)
    ensures
        r@ == trimmed(s@),
{
    let v = chars_of(s);
    let n = v.len();
    let mut i: usize = 0;
    assert(v@.skip(0) =~= v@);
    while i < n && is_white_space_char(v[i])
        invariant
            i <= n == v@.len(),
            trimmed_start(v@) == trimmed_start(v@.skip(i as int)),
        decreases n - i,
    {
        proof {
            lemma_trimmed_start_skip(v@, i as int);
        }
        i += 1;
    }
    assert(trimmed_start(v@) == v@.subrange(i as int, n as int)) by {
        assert(v@.skip(i as int) =~= v@.subrange(i as int, n as int));
    }
    let mut j: usize = n;
    while j > i && is_white_space_char(v[j - 1])
        invariant
            i <= j <= n == v@.len(),
            trimmed(v@) == trimmed_end(v@.subrange(i as int, j as int)),
        decreases j - i,
    {
        proof {
            lemma_trimmed_end_range(v@, i as int, j as int);
        }
        j -= 1;
    }
    string_of_range(&v, i, j)
}

/// Every occurrence of `c` in `s` replaced by `rep` (`str::replace` with a
/// one-character pattern).
pub fn replace_char(s: &str, c: char, rep: &str) -> (r: String)
    ensures
        r@ == replaced(s@, c, rep@),
{
    let mut r = String::new();
    for d in it: s.chars()
        invariant
            it.seq() == s@,
            r@ == replaced(s@.take(it.index()), c, rep@),
    {
        proof {
            assert(s@.take(it.index() + 1).drop_last() =~= s@.take(it.index()));
        }
        if d == c {
            r.append(rep);
        } else {
            push_char(&mut r, d);
        }
    }
    proof {
        assert(s@.take(s@.len() as int) =~= s@);
    }
    r
}

/// Leading white space is dropped from the front only.
pub proof fn lemma_trimmed_start_is_suffix(s: Seq<char>) -> (k: int)
    ensures
        0 <= k <= s.len(),
        trimmed_start(s) == s.skip(k),
        trimmed_start(s).len() > 0 ==> !is_white_space(trimmed_start(s)[0]),
    decreases s.len(),
{
    if s.len() > 0 && is_white_space(s[0]) {
        let k = lemma_trimmed_start_is_suffix(s.drop_first());
        assert(s.drop_first().skip(k) =~= s.skip(k + 1));
        k + 1
    } else {
        assert(s.skip(0) =~= s);
        0
    }
}

/// Trailing white space is dropped from the back only.
pub proof fn lemma_trimmed_end_is_prefix(s: Seq<char>) -> (k: int)
    ensures
        0 <= k <= s.len(),
        trimmed_end(s) == s.take(k),
        trimmed_end(s).len() > 0 ==> !is_white_space(trimmed_end(s).last()),
    decreases s.len(),
{
    if s.len() > 0 && is_white_space(s.last()) {
        let k = lemma_trimmed_end_is_prefix(s.drop_last());
        assert(s.drop_last().take(k) =~= s.take(k));
        k
    } else {
        assert(s.take(s.len() as int) =~= s);
        s.len() as int
    }
}

/// Trimming keeps a contiguous piece of the text: it returns the bounds.
pub proof fn lemma_trimmed_is_range(s: Seq<char>) -> (r: (int, int))
    ensures
        0 <= r.0 <= r.1 <= s.len(),
        trimmed(s) == s.subrange(r.0, r.1),
{
    let a = lemma_trimmed_start_is_suffix(s);
    let b = lemma_trimmed_end_is_prefix(s.skip(a));
    assert(s.skip(a).take(b) =~= s.subrange(a, a + b));
    (a, a + b)
}

/// Every character of the trimmed text occurs in the text.
pub proof fn lemma_trimmed_chars(s: Seq<char>)
    ensures
        forall|i: int| 0 <= i < trimmed(s).len() ==> s.contains(#[trigger] trimmed(s)[i]),
{
    let (a, b) = lemma_trimmed_is_range(s);
    assert forall|i: int| 0 <= i < trimmed(s).len() implies s.contains(#[trigger] trimmed(s)[i]) by {
        assert(trimmed(s)[i] == s[a + i]);
    }
}

/// A trimmed text neither starts nor ends with white space.
pub proof fn lemma_trimmed_edges(s: Seq<char>)
    ensures
        has_trimmed_edges(trimmed(s)),
{
    let a = lemma_trimmed_start_is_suffix(s);
    let t = trimmed_start(s);
    let b = lemma_trimmed_end_is_prefix(t);
    if trimmed(s).len() > 0 {
        assert(trimmed(s)[0] == t[0]);
    }
}

/// Trimming twice gives what trimming once gives.
pub proof fn lemma_trimmed_idempotent(s: Seq<char>)
    ensures
        trimmed(trimmed(s)) == trimmed(s),
{
    let t = trimmed(s);
    lemma_trimmed_edges(s);
    if t.len() > 0 {
        assert(trimmed_start(t) == t);
        assert(trimmed_end(t) == t);
    } else {
        assert(trimmed_start(t) == t);
    }
}

/// A character of the replaced text is either a character of the text other
/// than `c`, or a character of the replacement.
pub proof fn lemma_replaced_chars(s: Seq<char>, c: char, rep: Seq<char>)
    ensures
        forall|i: int|
            0 <= i < replaced(s, c, rep).len() ==> {
                let x = #[trigger] replaced(s, c, rep)[i];
                (x != c && s.contains(x)) || rep.contains(x)
            },
    decreases s.len(),
{
    if s.len() > 0 {
        let front = replaced(s.drop_last(), c, rep);
        lemma_replaced_chars(s.drop_last(), c, rep);
        assert forall|i: int| 0 <= i < replaced(s, c, rep).len() implies {
            let x = #[trigger] replaced(s, c, rep)[i];
            (x != c && s.contains(x)) || rep.contains(x)
        } by {
            let x = replaced(s, c, rep)[i];
            if i < front.len() {
                assert(x == front[i]);
                if x != c && s.drop_last().contains(x) {
                    let j = choose|j: int| 0 <= j < s.drop_last().len() && s.drop_last()[j] == x;
                    assert(s[j] == x);
                }
            } else if s.last() == c {
                assert(x == rep[i - front.len()]);
            } else {
                assert(x == s[s.len() - 1]);
            }
        }
    }
}

/// The Unicode `White_Space` code points, written out one by one as
/// PropList.txt lists them: the classification above is exactly this table.
pub proof fn lemma_white_space_table(c: char)
    ensures
        is_white_space(c) <==> {
            let n = c as u32;
            ||| n == 0x09 || n == 0x0A || n == 0x0B || n == 0x0C || n == 0x0D
            ||| n == 0x20 || n == 0x85 || n == 0xA0 || n == 0x1680
            ||| n == 0x2000 || n == 0x2001 || n == 0x2002 || n == 0x2003 || n == 0x2004
            ||| n == 0x2005 || n == 0x2006 || n == 0x2007 || n == 0x2008 || n == 0x2009
            ||| n == 0x200A || n == 0x2028 || n == 0x2029 || n == 0x202F || n == 0x205F
            ||| n == 0x3000
        },
{
}

/// No printable ASCII character other than the space is white space, so
/// trimming never removes a letter, digit, quote or other visible character.
pub proof fn lemma_visible_ascii_is_not_white_space(c: char)
    requires
        0x21 <= c as u32 <= 0x7E,
    ensures
        !is_white_space(c),
{
}

/// Whether `c` is a line feed.
pub open spec fn is_line_feed(c: char) -> bool {
    c == '\n'
}

/// The white-space test as a predicate.
pub open spec fn white_space_class() -> spec_fn(char) -> bool {
    |c: char| is_white_space(c)
}

/// The line-feed test as a predicate.
pub open spec fn line_feed_class() -> spec_fn(char) -> bool {
    |c: char| is_line_feed(c)
}

/// The number of characters at the front of `s` that satisfy `p`.
pub open spec fn run_len(s: Seq<char>, p: spec_fn(char) -> bool) -> nat
    decreases s.len(),
{
    if s.len() > 0 && p(s[0]) {
        1 + run_len(s.drop_first(), p)
    } else {
        0
    }
}

/// A run is no longer than the text, is at least one character long where
/// the text starts with a character of the run, and is followed by a
/// character outside it or by the end of the text.
pub proof fn lemma_run_len(s: Seq<char>, p: spec_fn(char) -> bool)
    ensures
        run_len(s, p) <= s.len(),
        s.len() > 0 && p(s[0]) ==> run_len(s, p) >= 1,
        forall|i: int| 0 <= i < run_len(s, p) ==> p(#[trigger] s[i]),
        run_len(s, p) < s.len() ==> !p(s[run_len(s, p) as int]),
    decreases s.len(),
{
    if s.len() > 0 && p(s[0]) {
        lemma_run_len(s.drop_first(), p);
        assert forall|i: int| 0 <= i < run_len(s, p) implies p(#[trigger] s[i]) by {
            if i > 0 {
                assert(s[i] == s.drop_first()[i - 1]);
            }
        }
    }
}

/// Each run of line feeds made a single space (the pattern `\n+` replaced
/// by " ").
pub open spec fn lines_joined(s: Seq<char>) -> Seq<char>
    decreases s.len(),
{
    if s.len() == 0 {
        Seq::empty()
    } else if is_line_feed(s[0]) {
        let k = run_len(s, line_feed_class());
        proof {
            lemma_run_len(s, line_feed_class());
        }
        seq![' '] + lines_joined(s.skip(k as int))
    } else {
        seq![s[0]] + lines_joined(s.drop_first())
    }
}

/// Each run of two or more white-space characters made a single space; a
/// single white-space character stays as it is (the pattern `\s{2,}`
/// replaced by " ").
pub open spec fn spaces_collapsed(s: Seq<char>) -> Seq<char>
    decreases s.len(),
{
    if s.len() == 0 {
        Seq::empty()
    } else {
        let k = run_len(s, white_space_class());
        proof {
            lemma_run_len(s, white_space_class());
        }
        if k >= 2 {
            seq![' '] + spaces_collapsed(s.skip(k as int))
        } else {
            seq![s[0]] + spaces_collapsed(s.drop_first())
        }
    }
}

/// The characters of `s` that are not white space, in order.
pub open spec fn without_white_space(s: Seq<char>) -> Seq<char>
    decreases s.len(),
{
    if s.len() == 0 {
        Seq::empty()
    } else if is_white_space(s[0]) {
        without_white_space(s.drop_first())
    } else {
        seq![s[0]] + without_white_space(s.drop_first())
    }
}

/// Joining lines changes nothing in a text without line feeds.
pub proof fn lemma_lines_joined_without_line_feed(s: Seq<char>)
    requires
        !s.contains('\n'),
    ensures
        lines_joined(s) == s,
    decreases s.len(),
{
    if s.len() > 0 {
        assert(s[0] != '\n');
        assert(!s.drop_first().contains('\n')) by {
            if s.drop_first().contains('\n') {
                let j = choose|j: int| 0 <= j < s.drop_first().len() && s.drop_first()[j] == '\n';
                assert(s[j + 1] == '\n');
            }
        }
        lemma_lines_joined_without_line_feed(s.drop_first());
        assert(seq![s[0]] + s.drop_first() =~= s);
    }
}

/// Joining lines leaves no line feed, turns a leading run of line feeds into
/// one space, keeps any other first character, and what follows is the
/// joining of what follows the first run (or character) in the text.
pub proof fn lemma_lines_joined_shape(s: Seq<char>)
    ensures
        !lines_joined(s).contains('\n'),
        lines_joined(s).len() > 0 <==> s.len() > 0,
        s.len() > 0 ==> lines_joined(s)[0] == (if s[0] == '\n' {
            ' '
        } else {
            s[0]
        }),
        s.len() > 0 && s[0] == '\n' ==> lines_joined(s).drop_first() == lines_joined(
            s.skip(run_len(s, line_feed_class()) as int),
        ),
        s.len() > 0 && s[0] != '\n' ==> lines_joined(s).drop_first() == lines_joined(
            s.drop_first(),
        ),
    decreases s.len(),
{
    if s.len() > 0 {
        lemma_run_len(s, line_feed_class());
        let rest = if s[0] == '\n' {
            s.skip(run_len(s, line_feed_class()) as int)
        } else {
            s.drop_first()
        };
        lemma_lines_joined_shape(rest);
        let head = if s[0] == '\n' {
            ' '
        } else {
            s[0]
        };
        assert(lines_joined(s) == seq![head] + lines_joined(rest));
        assert((seq![head] + lines_joined(rest)).drop_first() =~= lines_joined(rest));
        if lines_joined(s).contains('\n') {
            let j = choose|j: int| 0 <= j < lines_joined(s).len() && lines_joined(s)[j] == '\n';
            if j > 0 {
                assert(lines_joined(rest)[j - 1] == '\n');
            }
        }
    }
}

/// A character of the joined text is a space or comes from the text.
pub proof fn lemma_lines_joined_chars(s: Seq<char>)
    ensures
        forall|i: int|
            0 <= i < lines_joined(s).len() ==> #[trigger] lines_joined(s)[i] == ' ' || s.contains(
                lines_joined(s)[i],
            ),
    decreases s.len(),
{
    if s.len() > 0 {
        if is_line_feed(s[0]) {
            let k = run_len(s, line_feed_class());
            lemma_run_len(s, line_feed_class());
            lemma_lines_joined_chars(s.skip(k as int));
            let t = lines_joined(s.skip(k as int));
            assert forall|i: int| 0 <= i < lines_joined(s).len() implies #[trigger] lines_joined(
                s,
            )[i] == ' ' || s.contains(lines_joined(s)[i]) by {
                if i > 0 {
                    assert(lines_joined(s)[i] == t[i - 1]);
                    if s.skip(k as int).contains(t[i - 1]) {
                        let j = choose|j: int|
                            0 <= j < s.skip(k as int).len() && s.skip(k as int)[j] == t[i - 1];
                        assert(s[j + k] == t[i - 1]);
                    }
                }
            }
        } else {
            lemma_lines_joined_chars(s.drop_first());
            let t = lines_joined(s.drop_first());
            assert forall|i: int| 0 <= i < lines_joined(s).len() implies #[trigger] lines_joined(
                s,
            )[i] == ' ' || s.contains(lines_joined(s)[i]) by {
                if i > 0 {
                    assert(lines_joined(s)[i] == t[i - 1]);
                    if s.drop_first().contains(t[i - 1]) {
                        let j = choose|j: int|
                            0 <= j < s.drop_first().len() && s.drop_first()[j] == t[i - 1];
                        assert(s[j + 1] == t[i - 1]);
                    }
                } else {
                    assert(s[0] == lines_joined(s)[0]);
                }
            }
        }
    }
}

/// A character of the collapsed text is a space or comes from the text.
pub proof fn lemma_spaces_collapsed_chars(s: Seq<char>)
    ensures
        forall|i: int|
            0 <= i < spaces_collapsed(s).len() ==> #[trigger] spaces_collapsed(s)[i] == ' '
                || s.contains(spaces_collapsed(s)[i]),
    decreases s.len(),
{
    if s.len() > 0 {
        let k = run_len(s, white_space_class());
        lemma_run_len(s, white_space_class());
        if k >= 2 {
            lemma_spaces_collapsed_chars(s.skip(k as int));
            let t = spaces_collapsed(s.skip(k as int));
            assert forall|i: int| 0 <= i < spaces_collapsed(s).len() implies #[trigger] spaces_collapsed(
                s,
            )[i] == ' ' || s.contains(spaces_collapsed(s)[i]) by {
                if i > 0 {
                    assert(spaces_collapsed(s)[i] == t[i - 1]);
                    if s.skip(k as int).contains(t[i - 1]) {
                        let j = choose|j: int|
                            0 <= j < s.skip(k as int).len() && s.skip(k as int)[j] == t[i - 1];
                        assert(s[j + k] == t[i - 1]);
                    }
                }
            }
        } else {
            lemma_spaces_collapsed_chars(s.drop_first());
            let t = spaces_collapsed(s.drop_first());
            assert forall|i: int| 0 <= i < spaces_collapsed(s).len() implies #[trigger] spaces_collapsed(
                s,
            )[i] == ' ' || s.contains(spaces_collapsed(s)[i]) by {
                if i > 0 {
                    assert(spaces_collapsed(s)[i] == t[i - 1]);
                    if s.drop_first().contains(t[i - 1]) {
                        let j = choose|j: int|
                            0 <= j < s.drop_first().len() && s.drop_first()[j] == t[i - 1];
                        assert(s[j + 1] == t[i - 1]);
                    }
                } else {
                    assert(s[0] == spaces_collapsed(s)[0]);
                }
            }
        }
    }
}

proof fn lemma_without_white_space_skip_run(s: Seq<char>, k: int)
    requires
        0 <= k <= s.len(),
        forall|i: int| 0 <= i < k ==> is_white_space(#[trigger] s[i]),
    ensures
        without_white_space(s) == without_white_space(s.skip(k)),
    decreases k,
{
    if k > 0 {
        assert(s.drop_first().skip(k - 1) =~= s.skip(k));
        assert forall|i: int| 0 <= i < k - 1 implies is_white_space(#[trigger] s.drop_first()[i]) by {
            assert(s.drop_first()[i] == s[i + 1]);
        }
        lemma_without_white_space_skip_run(s.drop_first(), k - 1);
    } else {
        assert(s.skip(0) =~= s);
    }
}

/// Collapsing white space keeps every other character, in order: no word
/// loses or gains a letter.
pub proof fn lemma_spaces_collapsed_keeps_text(s: Seq<char>)
    ensures
        without_white_space(spaces_collapsed(s)) == without_white_space(s),
    decreases s.len(),
{
    if s.len() > 0 {
        let k = run_len(s, white_space_class());
        lemma_run_len(s, white_space_class());
        if k >= 2 {
            lemma_spaces_collapsed_keeps_text(s.skip(k as int));
            lemma_without_white_space_skip_run(s, k as int);
            let t = spaces_collapsed(s.skip(k as int));
            assert((seq![' '] + t).drop_first() =~= t);
        } else {
            lemma_spaces_collapsed_keeps_text(s.drop_first());
            let t = spaces_collapsed(s.drop_first());
            assert((seq![s[0]] + t).drop_first() =~= t);
        }
    }
}

/// Collapsing never removes white space altogether: wherever the text has
/// white space, the collapsed text has white space in its place, so two
/// words that were apart stay apart. Precisely, the collapsed text starts
/// with white space exactly when the text does, and what follows the first
/// run is the collapse of what follows it in the text.
pub proof fn lemma_spaces_collapsed_keeps_gaps(s: Seq<char>)
    ensures
        spaces_collapsed(s).len() > 0 <==> s.len() > 0,
        s.len() > 0 ==> (is_white_space(spaces_collapsed(s)[0]) <==> is_white_space(s[0])),
        s.len() > 0 && is_white_space(s[0]) ==> spaces_collapsed(s).drop_first()
            == spaces_collapsed(s.skip(run_len(s, white_space_class()) as int)) || (run_len(
            s,
            white_space_class(),
        ) == 1 && spaces_collapsed(s).drop_first() == spaces_collapsed(s.drop_first())),
{
    if s.len() > 0 {
        lemma_run_len(s, white_space_class());
        let k = run_len(s, white_space_class());
        if k >= 2 {
            assert((seq![' '] + spaces_collapsed(s.skip(k as int))).drop_first() =~= spaces_collapsed(
                s.skip(k as int),
            ));
        } else {
            assert((seq![s[0]] + spaces_collapsed(s.drop_first())).drop_first() =~= spaces_collapsed(
                s.drop_first(),
            ));
        }
    }
}

/// No two white-space characters stand side by side after collapsing.
pub proof fn lemma_spaces_collapsed_single(s: Seq<char>)
    ensures
        forall|i: int|
            0 <= i < spaces_collapsed(s).len() - 1 ==> !(is_white_space(
                #[trigger] spaces_collapsed(s)[i],
            ) && is_white_space(spaces_collapsed(s)[i + 1])),
    decreases s.len(),
{
    if s.len() > 0 {
        let k = run_len(s, white_space_class());
        lemma_run_len(s, white_space_class());
        if k >= 2 {
            let r = s.skip(k as int);
            lemma_spaces_collapsed_single(r);
            lemma_spaces_collapsed_gaps_start(r);
            if r.len() > 0 {
                assert(r[0] == s[k as int]);
            }
            let t = spaces_collapsed(r);
            assert forall|i: int| 0 <= i < spaces_collapsed(s).len() - 1 implies !(is_white_space(
                #[trigger] spaces_collapsed(s)[i],
            ) && is_white_space(spaces_collapsed(s)[i + 1])) by {
                assert(spaces_collapsed(s)[i + 1] == t[i]);
                if i > 0 {
                    assert(spaces_collapsed(s)[i] == t[i - 1]);
                }
            }
        } else {
            let r = s.drop_first();
            lemma_spaces_collapsed_single(r);
            lemma_spaces_collapsed_gaps_start(r);
            if is_white_space(s[0]) && r.len() > 0 {
                assert(r[0] == s[1]);
                assert(!is_white_space(s[1]));
            }
            let t = spaces_collapsed(r);
            assert forall|i: int| 0 <= i < spaces_collapsed(s).len() - 1 implies !(is_white_space(
                #[trigger] spaces_collapsed(s)[i],
            ) && is_white_space(spaces_collapsed(s)[i + 1])) by {
                assert(spaces_collapsed(s)[i + 1] == t[i]);
                if i > 0 {
                    assert(spaces_collapsed(s)[i] == t[i - 1]);
                }
            }
        }
    }
}

proof fn lemma_spaces_collapsed_gaps_start(s: Seq<char>)
    ensures
        spaces_collapsed(s).len() > 0 <==> s.len() > 0,
        s.len() > 0 ==> (is_white_space(spaces_collapsed(s)[0]) <==> is_white_space(s[0])),
{
    lemma_spaces_collapsed_keeps_gaps(s);
}

/// Replacing a character that does not occur changes nothing.
pub proof fn lemma_replaced_absent(s: Seq<char>, c: char, rep: Seq<char>)
    requires
        !s.contains(c),
    ensures
        replaced(s, c, rep) == s,
    decreases s.len(),
{
    if s.len() > 0 {
        assert(!s.drop_last().contains(c)) by {
            if s.drop_last().contains(c) {
                let j = choose|j: int| 0 <= j < s.drop_last().len() && s.drop_last()[j] == c;
                assert(s[j] == c);
            }
        }
        lemma_replaced_absent(s.drop_last(), c, rep);
        assert(s.last() != c);
        assert(s.drop_last() + seq![s.last()] =~= s);
    }
}

} // verus!
