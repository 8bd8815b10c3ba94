//! Laws of text: what trimming, lines, words and comparisons come to, said of texts that are
//! put together from parts.
use crate::text;
use crate::text::{
    before, blank, chomped, first_index, folded, has_line_break, has_word, lines_of,
    same_ignoring_case, solid, trimmed, trimmed_end, trimmed_start, white_space, word_at,
};
use vstd::prelude::*;

verus! {

/// White space is, by code: tab to carriage return, space, next line, no-break space, and
/// the spaces and separators that Unicode has beyond Latin-1.
pub proof fn law_white_space_by_code(c: char)
    ensures
        white_space(c) <==> {
            let n = c as u32;
            ||| 9 <= n && n <= 13
            ||| n == 32
            ||| n == 133
            ||| n == 160
            ||| n == 5760
            ||| 8192 <= n && n <= 8202
            ||| n == 8232
            ||| n == 8233
            ||| n == 8239
            ||| n == 8287
            ||| n == 12288
        },
{
}

/// A text is blank if all its parts are, and solid if all its parts are; of one character,
/// either is decided by whether it is white space, and the empty text is both.
pub proof fn law_blank_and_solid_by_parts(a: Seq<char>, b: Seq<char>, c: char)
    ensures
        blank(a + b) <==> blank(a) && blank(b),
        blank(seq![c]) <==> white_space(c),
        blank(Seq::<char>::empty()),
        solid(a + b) <==> solid(a) && solid(b),
        solid(seq![c]) <==> !white_space(c),
        solid(Seq::<char>::empty()),
{
    let s = a + b;
    assert(forall|i: int| 0 <= i < a.len() ==> s[i] == a[i]);
    assert forall|i: int| 0 <= i < b.len() implies #[trigger] b[i] == s[a.len() + i] by {}
    assert(seq![c][0] == c);
    if blank(a) && blank(b) {
        assert forall|i: int| 0 <= i < s.len() implies white_space(#[trigger] s[i]) by {
            if i >= a.len() {
                assert(s[i] == b[i - a.len()]);
            }
        }
    }
    if blank(s) {
        assert forall|i: int| 0 <= i < a.len() implies white_space(#[trigger] a[i]) by {
            assert(s[i] == a[i]);
        }
        assert forall|i: int| 0 <= i < b.len() implies white_space(#[trigger] b[i]) by {
            assert(s[a.len() + i] == b[i]);
        }
    }
    if solid(a) && solid(b) {
        assert forall|i: int| 0 <= i < s.len() implies !white_space(#[trigger] s[i]) by {
            if i >= a.len() {
                assert(s[i] == b[i - a.len()]);
            }
        }
    }
    if solid(s) {
        assert forall|i: int| 0 <= i < a.len() implies !white_space(#[trigger] a[i]) by {
            assert(s[i] == a[i]);
        }
        assert forall|i: int| 0 <= i < b.len() implies !white_space(#[trigger] b[i]) by {
            assert(s[a.len() + i] == b[i]);
        }
    }
}

/// A text has a line break if one of its parts has; of one character, if that is a line feed
/// or a carriage return.
pub proof fn law_line_break_by_parts(a: Seq<char>, b: Seq<char>, c: char)
    ensures
        has_line_break(a + b) <==> has_line_break(a) || has_line_break(b),
        has_line_break(seq![c]) <==> c as u32 == 10 || c as u32 == 13,
        !has_line_break(Seq::<char>::empty()),
{
    let s = a + b;
    assert(seq![c][0] == c);
    assert(forall|i: int| 0 <= i < a.len() ==> #[trigger] a[i] == s[i]);
    assert forall|i: int| 0 <= i < b.len() implies #[trigger] b[i] == s[a.len() + i] by {}
    assert forall|x: char| #[trigger] s.contains(x) <==> a.contains(x) || b.contains(x) by {
        if a.contains(x) {
            let i = choose|i: int| 0 <= i < a.len() && a[i] == x;
            assert(s[i] == x);
        }
        if b.contains(x) {
            let i = choose|i: int| 0 <= i < b.len() && b[i] == x;
            assert(s[a.len() + i] == x);
        }
        if s.contains(x) {
            let i = choose|i: int| 0 <= i < s.len() && s[i] == x;
            if i < a.len() {
                assert(a[i] == x);
            } else {
                assert(b[i - a.len()] == x);
            }
        }
    }
    assert(a.contains('\r') || a.contains('\n') <==> has_line_break(a));
    assert(s.contains('\r') <==> a.contains('\r') || b.contains('\r'));
    assert(s.contains('\n') <==> a.contains('\n') || b.contains('\n'));
}

/// Trimming takes off just the white space in front, behind, or at both ends, and leaves
/// what is between as it is.
pub proof fn law_trimming_takes_the_ends(front: Seq<char>, s: Seq<char>, back: Seq<char>)
    requires
        blank(front),
        blank(back),
        s.len() > 0,
        !white_space(s[0]),
        !white_space(s.last()),
    ensures
        trimmed(front + s + back) == s,
        trimmed_start(front + s + back) == s + back,
        trimmed_end(front + s + back) == front + s,
{
    let t = front + s + back;
    let i = front.len() as int;
    let j = i + s.len();
    assert forall|k: int| 0 <= k < i implies white_space(#[trigger] t[k]) by {
        assert(t[k] == front[k]);
    }
    assert forall|k: int| j <= k < t.len() implies white_space(#[trigger] t[k]) by {
        assert(t[k] == back[k - j]);
    }
    assert(t[i] == s[0] && t[j - 1] == s.last());
    text::lemma_trimmed_is(t, i, j);
    text::lemma_trimmed_start_is(t, i);
    text::lemma_trimmed_end_is(t, j);
    assert(t.subrange(i, j) =~= s);
    assert(t.skip(i) =~= s + back);
    assert(t.take(j) =~= front + s);
}

/// Of a blank text, trimming leaves nothing.
pub proof fn law_trimming_a_blank_leaves_nothing(s: Seq<char>)
    requires
        blank(s),
    ensures
        trimmed(s) == Seq::<char>::empty(),
        trimmed_start(s) == Seq::<char>::empty(),
        trimmed_end(s) == Seq::<char>::empty(),
{
    text::lemma_trimmed_blank(s);
    text::lemma_trimmed_end_is(s, 0);
    assert(s.take(0) =~= Seq::<char>::empty());
    assert(trimmed(s) =~= Seq::<char>::empty());
    assert(trimmed_start(s) =~= Seq::<char>::empty());
}

/// The part in front of the first `c` is the longest beginning without one.
pub proof fn law_before_stops_at_the_first(a: Seq<char>, c: char, rest: Seq<char>)
    requires
        !a.contains(c),
    ensures
        before(a, c) == a,
        before(a + seq![c] + rest, c) == a,
        first_index(a, c) == a.len(),
        first_index(a + seq![c] + rest, c) == a.len(),
{
    let s = a + seq![c] + rest;
    assert(forall|j: int| 0 <= j < a.len() ==> #[trigger] a[j] != c);
    assert forall|j: int| 0 <= j < a.len() implies #[trigger] s[j] != c by {
        assert(s[j] == a[j]);
    }
    text::lemma_first_index_is(s, c, a.len() as int);
    text::lemma_first_index_is(a, c, a.len() as int);
    assert(s.take(a.len() as int) =~= a);
    assert(a.take(a.len() as int) =~= a);
}

/// Lines end in a line feed, with or without a carriage return in front of it, and neither
/// is part of a line. The last line may do without, and then a carriage return at its end is
/// part of it. A text that is empty has no line.
pub proof fn law_lines_by_parts(line: Seq<char>, rest: Seq<char>)
    requires
        !line.contains('\n'),
    ensures
        lines_of(Seq::<char>::empty()) == Seq::<Seq<char>>::empty(),
        line.len() > 0 ==> lines_of(line) == seq![line],
        lines_of(line + seq!['\r', '\n'] + rest) == seq![line] + lines_of(rest),
        (line.len() == 0 || line.last() != '\r') ==> lines_of(line + seq!['\n'] + rest) == seq![
            line,
        ] + lines_of(rest),
{
    if line.len() > 0 {
        text::lemma_lines_single(line);
    }
    text::lemma_lines_cons(line, rest);
    let crlf = line.push('\r');
    assert(!crlf.contains('\n')) by {
        assert forall|j: int| 0 <= j < crlf.len() implies crlf[j] != '\n' by {
            if j < line.len() {
                assert(crlf[j] == line[j]);
            }
        }
    }
    text::lemma_lines_cons(crlf, rest);
    assert(crlf + seq!['\n'] + rest =~= line + seq!['\r', '\n'] + rest);
    assert(crlf.drop_last() =~= line);
    assert(chomped(crlf) == line);
}

/// White space keeps words apart, and nothing else does: the words of a text are those of
/// its parts around a white space, and a text without white space is one word, or none where
/// it is empty.
pub proof fn law_words_by_parts(a: Seq<char>, c: char, b: Seq<char>, w: Seq<char>)
    ensures
        white_space(c) ==> (has_word(a + seq![c] + b, w) <==> has_word(a, w) || has_word(b, w)),
        solid(a) ==> (has_word(a, w) <==> w == a && a.len() > 0),
{
    let s = a + seq![c] + b;
    let n = w.len() as int;
    let k = a.len() as int;
    if white_space(c) {
        assert(s[k] == c);
        if has_word(a, w) {
            let i = choose|i: int| #[trigger] word_at(a, i, w);
            assert(s.subrange(i, i + n) =~= a.subrange(i, i + n));
            assert(i > 0 ==> s[i - 1] == a[i - 1]);
            assert(i + n < k ==> s[i + n] == a[i + n]);
            assert(word_at(s, i, w));
        }
        if has_word(b, w) {
            let i = choose|i: int| #[trigger] word_at(b, i, w);
            let p = k + 1 + i;
            assert(s.subrange(p, p + n) =~= b.subrange(i, i + n));
            assert(i > 0 ==> s[p - 1] == b[i - 1]);
            assert(i + n < b.len() ==> s[p + n] == b[i + n]);
            assert(word_at(s, p, w));
        }
        if has_word(s, w) {
            let i = choose|i: int| #[trigger] word_at(s, i, w);
            assert(!(i <= k < i + n)) by {
                if i <= k < i + n {
                    assert(s.subrange(i, i + n)[k - i] == s[k]);
                    assert(w[k - i] == s[k]);
                }
            }
            if i + n <= k {
                assert(a.subrange(i, i + n) =~= s.subrange(i, i + n));
                assert(i > 0 ==> s[i - 1] == a[i - 1]);
                assert(i + n < k ==> s[i + n] == a[i + n]);
                assert(word_at(a, i, w));
            } else {
                let p = i - k - 1;
                assert(b.subrange(p, p + n) =~= s.subrange(i, i + n));
                assert(p > 0 ==> s[i - 1] == b[p - 1]);
                assert(p + n < b.len() ==> s[i + n] == b[p + n]);
                assert(word_at(b, p, w));
            }
        }
    }
    if solid(a) {
        if w == a && a.len() > 0 {
            assert(a.subrange(0, k) =~= a);
            assert(word_at(a, 0, a));
        }
        if has_word(a, w) {
            let i = choose|i: int| #[trigger] word_at(a, i, w);
            assert(i == 0) by {
                if i > 0 {
                    assert(!white_space(a[i - 1]));
                }
            }
            assert(n == k) by {
                if n < k {
                    assert(!white_space(a[n]));
                }
            }
            assert(a.subrange(0, k) =~= a);
        }
    }
}

/// Two texts are the same but for case if they are so character by character: two characters
/// are if they are the same, or if one is an ASCII capital letter and the other the small
/// letter of it.
pub proof fn law_case_by_characters(a: Seq<char>, x: char, b: Seq<char>, y: char)
    ensures
        same_ignoring_case(Seq::<char>::empty(), Seq::<char>::empty()),
        !same_ignoring_case(Seq::<char>::empty(), b.push(y)),
        !same_ignoring_case(a.push(x), Seq::<char>::empty()),
        same_ignoring_case(a.push(x), b.push(y)) <==> same_ignoring_case(a, b) && {
            ||| x == y
            ||| 65 <= x as u32 && x as u32 <= 90 && y as u32 == x as u32 + 32
            ||| 65 <= y as u32 && y as u32 <= 90 && x as u32 == y as u32 + 32
        },
{
    let s = a.push(x);
    let t = b.push(y);
    if a.len() == b.len() {
        let n = a.len() as int;
        assert(s[n] == x && t[n] == y);
        if same_ignoring_case(s, t) {
            assert forall|i: int| 0 <= i < a.len() implies folded(#[trigger] a[i]) == folded(
                b[i],
            ) by {
                assert(s[i] == a[i] && t[i] == b[i]);
            }
            assert(folded(s[n]) == folded(t[n]));
        }
        if same_ignoring_case(a, b) && folded(x) == folded(y) {
            assert forall|i: int| 0 <= i < s.len() implies folded(#[trigger] s[i]) == folded(
                t[i],
            ) by {
                if i < n {
                    assert(s[i] == a[i] && t[i] == b[i]);
                    assert(folded(a[i]) == folded(b[i]));
                }
            }
        }
    }
}

/// The contents of strings, one by one.
pub proof fn law_texts_one_by_one(s: Seq<String>, t: Seq<&str>, i: int)
    ensures
        text::texts(s).len() == s.len(),
        0 <= i < s.len() ==> text::texts(s)[i] == s[i]@,
        text::slice_texts(t).len() == t.len(),
        0 <= i < t.len() ==> text::slice_texts(t)[i] == t[i]@,
{
}

} // verus!
