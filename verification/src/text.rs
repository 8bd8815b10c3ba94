//! Text as sequences of characters: trimming, splitting into lines, looking for
//! words, and comparing without regard to ASCII case.
use vstd::prelude::*;

verus! {

/// The characters with the Unicode property `White_Space`.
pub open spec fn white_space(c: char) -> bool {
    ||| '\u{9}' <= c <= '\u{d}'
    ||| c == '\u{20}'
    ||| c == '\u{85}'
    ||| c == '\u{a0}'
    ||| c == '\u{1680}'
    ||| '\u{2000}' <= c <= '\u{200a}'
    ||| c == '\u{2028}'
    ||| c == '\u{2029}'
    ||| c == '\u{202f}'
    ||| c == '\u{205f}'
    ||| c == '\u{3000}'
}

/// `s` holds nothing but white space.
pub open spec fn blank(s: Seq<char>) -> bool {
    forall|i: int| 0 <= i < s.len() ==> white_space(#[trigger] s[i])
}

/// `s` holds no white space.
pub open spec fn solid(s: Seq<char>) -> bool {
    forall|i: int| 0 <= i < s.len() ==> !white_space(#[trigger] s[i])
}

/// `s` holds a carriage return or a line feed.
pub open spec fn has_line_break(s: Seq<char>) -> bool {
    s.contains('\r') || s.contains('\n')
}

/// `s` without its leading white space.
pub open spec fn trimmed_start(s: Seq<char>) -> Seq<char>
    decreases s.len(),
{
    if s.len() > 0 && white_space(s[0]) {
        trimmed_start(s.skip(1))
    } else {
        s
    }
}

/// `s` without its trailing white space.
pub open spec fn trimmed_end(s: Seq<char>) -> Seq<char>
    decreases s.len(),
{
    if s.len() > 0 && white_space(s.last()) {
        trimmed_end(s.drop_last())
    } else {
        s
    }
}

/// `s` without white space at either end.
pub open spec fn trimmed(s: Seq<char>) -> Seq<char> {
    trimmed_end(trimmed_start(s))
}

/// The position of the first `c` in `s`, or the length of `s` where there is none.
pub open spec fn first_index(s: Seq<char>, c: char) -> int
    decreases s.len(),
{
    if s.len() == 0 || s[0] == c {
        0
    } else {
        1 + first_index(s.skip(1), c)
    }
}

/// The part of `s` in front of the first `c`, or all of `s` where there is none.
pub open spec fn before(s: Seq<char>, c: char) -> Seq<char> {
    s.take(first_index(s, c))
}

/// `s` without a carriage return at its end.
pub open spec fn chomped(s: Seq<char>) -> Seq<char> {
    if s.len() > 0 && s.last() == '\r' {
        s.drop_last()
    } else {
        s
    }
}

/// The lines of `s`. A line ends in a line feed, or in a carriage return and a line
/// feed, and neither belongs to the line; the last line may go without.
pub open spec fn lines_of(s: Seq<char>) -> Seq<Seq<char>>
    decreases s.len(),
    via lines_of_decreases
{
    let i = first_index(s, '\n');
    if s.len() == 0 {
        seq![]
    } else if i < s.len() {
        seq![chomped(s.take(i))] + lines_of(s.skip(i + 1))
    } else {
        seq![s]
    }
}

#[via_fn]
proof fn lines_of_decreases(s: Seq<char>) {
    lemma_first_index(s, '\n');
}

/// `w` stands at position `i` of `s` as a word: a longest run of characters that are
/// not white space.
pub open spec fn word_at(s: Seq<char>, i: int, w: Seq<char>) -> bool {
    &&& w.len() > 0
    &&& solid(w)
    &&& 0 <= i <= i + w.len() <= s.len()
    &&& s.subrange(i, i + w.len()) == w
    &&& i == 0 || white_space(s[i - 1])
    &&& i + w.len() == s.len() || white_space(s[i + w.len()])
}

/// `w` is one of the words of `s`.
pub open spec fn has_word(s: Seq<char>, w: Seq<char>) -> bool {
    exists|i: int| #[trigger] word_at(s, i, w)
}

/// The code of `c`, with an ASCII capital letter taken for the small one.
pub open spec fn folded(c: char) -> int {
    if 'A' <= c <= 'Z' {
        c as int + 32
    } else {
        c as int
    }
}

/// `a` and `b` differ at most in the case of their ASCII letters.
pub open spec fn same_ignoring_case(a: Seq<char>, b: Seq<char>) -> bool {
    &&& a.len() == b.len()
    &&& forall|i: int| 0 <= i < a.len() ==> folded(#[trigger] a[i]) == folded(b[i])
}

/// The contents of a sequence of strings.
pub open spec fn texts(s: Seq<String>) -> Seq<Seq<char>> {
    s.map_values(|t: String| t@)
}

/// The contents of a sequence of string slices.
pub open spec fn slice_texts(s: Seq<&str>) -> Seq<Seq<char>> {
    s.map_values(|t: &str| t@)
}

pub proof fn lemma_first_index(s: Seq<char>, c: char)
    ensures
        0 <= first_index(s, c) <= s.len(),
        first_index(s, c) < s.len() ==> s[first_index(s, c)] == c,
        first_index(s, c) < s.len() <==> s.contains(c),
        forall|j: int| 0 <= j < first_index(s, c) ==> #[trigger] s[j] != c,
    decreases s.len(),
{
    if s.len() > 0 && s[0] != c {
        let rest = s.skip(1);
        lemma_first_index(rest, c);
        let k = first_index(s, c);
        assert forall|j: int| 0 <= j < k implies #[trigger] s[j] != c by {
            if j > 0 {
                assert(s[j] == rest[j - 1]);
            }
        }
        if s.contains(c) {
            let j = choose|j: int| 0 <= j < s.len() && s[j] == c;
            assert(rest[j - 1] == c);
        }
    }
}

/// A position that nothing before it matches is the first.
pub proof fn lemma_first_index_is(s: Seq<char>, c: char, i: int)
    requires
        0 <= i <= s.len(),
        i < s.len() ==> s[i] == c,
        forall|j: int| 0 <= j < i ==> #[trigger] s[j] != c,
    ensures
        first_index(s, c) == i,
{
    lemma_first_index(s, c);
    let k = first_index(s, c);
    if k < i {
        assert(s[k] != c);
    } else if i < k {
        assert(s[i] != c);
    }
}

pub proof fn lemma_trimmed_start_is(s: Seq<char>, i: int)
    requires
        0 <= i <= s.len(),
        forall|j: int| 0 <= j < i ==> white_space(#[trigger] s[j]),
        i < s.len() ==> !white_space(s[i]),
    ensures
        trimmed_start(s) == s.skip(i),
    decreases i,
{
    if i > 0 {
        assert(white_space(s[0]));
        lemma_trimmed_start_is(s.skip(1), i - 1);
        assert(s.skip(1).skip(i - 1) =~= s.skip(i));
    } else {
        assert(s.skip(0) =~= s);
    }
}

pub proof fn lemma_trimmed_end_is(s: Seq<char>, i: int)
    requires
        0 <= i <= s.len(),
        forall|j: int| i <= j < s.len() ==> white_space(#[trigger] s[j]),
        i > 0 ==> !white_space(s[i - 1]),
    ensures
        trimmed_end(s) == s.take(i),
    decreases s.len() - i,
{
    if i < s.len() {
        lemma_trimmed_end_is(s.drop_last(), i);
        assert(s.drop_last().take(i) =~= s.take(i));
    } else {
        assert(s.take(i) =~= s);
    }
}

/// Text that is cut to the run from its first to its last character that is not white space.
pub proof fn lemma_trimmed_is(s: Seq<char>, i: int, j: int)
    requires
        0 <= i < j <= s.len(),
        forall|k: int| 0 <= k < i ==> white_space(#[trigger] s[k]),
        !white_space(s[i]),
        !white_space(s[j - 1]),
        forall|k: int| j <= k < s.len() ==> white_space(#[trigger] s[k]),
    ensures
        trimmed(s) == s.subrange(i, j),
{
    lemma_trimmed_start_is(s, i);
    lemma_trimmed_end_is(s.skip(i), j - i);
    assert(s.skip(i).take(j - i) =~= s.subrange(i, j));
}

/// Where the text that is not white space begins and ends.
pub proof fn lemma_trim_bounds(s: Seq<char>) -> (bounds: (int, int))
    requires
        !blank(s),
    ensures
        ({
            let (i, j) = bounds;
            &&& 0 <= i < j <= s.len()
            &&& forall|k: int| 0 <= k < i ==> white_space(#[trigger] s[k])
            &&& !white_space(s[i])
            &&& !white_space(s[j - 1])
            &&& forall|k: int| j <= k < s.len() ==> white_space(#[trigger] s[k])
            &&& trimmed(s) == s.subrange(i, j)
        }),
    decreases s.len(),
{
    if white_space(s[0]) {
        let rest = s.skip(1);
        let w = choose|k: int| 0 <= k < s.len() && !white_space(#[trigger] s[k]);
        assert(rest[w - 1] == s[w]);
        let (i, j) = lemma_trim_bounds(rest);
        assert forall|k: int| 0 <= k < i + 1 implies white_space(#[trigger] s[k]) by {
            if k > 0 {
                assert(s[k] == rest[k - 1]);
            }
        }
        assert forall|k: int| j + 1 <= k < s.len() implies white_space(#[trigger] s[k]) by {
            assert(s[k] == rest[k - 1]);
        }
        lemma_trimmed_is(s, i + 1, j + 1);
        (i + 1, j + 1)
    } else if white_space(s.last()) {
        let rest = s.drop_last();
        assert(rest[0] == s[0]);
        let (i, j) = lemma_trim_bounds(rest);
        assert forall|k: int| 0 <= k < i implies white_space(#[trigger] s[k]) by {
            assert(s[k] == rest[k]);
        }
        assert forall|k: int| j <= k < s.len() implies white_space(#[trigger] s[k]) by {
            if k < rest.len() {
                assert(s[k] == rest[k]);
            }
        }
        lemma_trimmed_is(s, i, j);
        (i, j)
    } else {
        lemma_trimmed_is(s, 0, s.len() as int);
        (0, s.len() as int)
    }
}

/// White space alone is trimmed to nothing.
pub proof fn lemma_trimmed_blank(s: Seq<char>)
    ensures
        blank(s) <==> trimmed(s).len() == 0,
        blank(s) <==> trimmed_start(s).len() == 0,
{
    if blank(s) {
        lemma_trimmed_start_is(s, s.len() as int);
        assert(s.skip(s.len() as int) =~= seq![]);
    } else {
        let (i, j) = lemma_trim_bounds(s);
        lemma_trimmed_start_is(s, i);
    }
}

/// What has been trimmed has no white space at its ends left to trim.
pub proof fn lemma_trimmed_twice(s: Seq<char>)
    ensures
        trimmed(trimmed(s)) == trimmed(s),
{
    lemma_trimmed_blank(s);
    if blank(s) {
        assert(trimmed(s) =~= seq![]);
        lemma_trimmed_blank(trimmed(s));
        assert(trimmed(trimmed(s)) =~= seq![]);
    } else {
        let (i, j) = lemma_trim_bounds(s);
        let t = trimmed(s);
        assert(t[0] == s[i] && t[t.len() - 1] == s[j - 1]);
        lemma_trimmed_is(t, 0, t.len() as int);
        assert(t.subrange(0, t.len() as int) =~= t);
    }
}

/// White space at the end of a text is of no account to what is left after trimming.
pub proof fn lemma_trimmed_ignores_tail(s: Seq<char>)
    requires
        s.len() > 0,
        white_space(s.last()),
    ensures
        trimmed(s.drop_last()) == trimmed(s),
{
    let short = s.drop_last();
    lemma_trimmed_blank(s);
    lemma_trimmed_blank(short);
    if blank(short) {
        assert forall|k: int| 0 <= k < s.len() implies white_space(#[trigger] s[k]) by {
            if k < short.len() {
                assert(short[k] == s[k]);
            }
        }
        assert(trimmed(s) =~= trimmed(short));
    } else {
        let (i, j) = lemma_trim_bounds(short);
        assert forall|k: int| 0 <= k < i implies white_space(#[trigger] s[k]) by {
            assert(s[k] == short[k]);
        }
        assert forall|k: int| j <= k < s.len() implies white_space(#[trigger] s[k]) by {
            if k < short.len() {
                assert(s[k] == short[k]);
            }
        }
        lemma_trimmed_is(s, i, j);
        assert(s.subrange(i, j) =~= short.subrange(i, j));
    }
}

/// A text that starts with a line and its line feed.
pub proof fn lemma_lines_cons(line: Seq<char>, rest: Seq<char>)
    requires
        !line.contains('\n'),
    ensures
        lines_of(line + seq!['\n'] + rest) == seq![chomped(line)] + lines_of(rest),
{
    let s = line + seq!['\n'] + rest;
    assert forall|j: int| 0 <= j < line.len() implies #[trigger] s[j] != '\n' by {
        assert(s[j] == line[j]);
    }
    lemma_first_index_is(s, '\n', line.len() as int);
    assert(s.take(line.len() as int) =~= line);
    assert(s.skip(line.len() as int + 1) =~= rest);
}

/// A text with no line feed is one line, or none where it is empty.
pub proof fn lemma_lines_single(line: Seq<char>)
    requires
        !line.contains('\n'),
        line.len() > 0,
    ensures
        lines_of(line) == seq![line],
{
    lemma_first_index(line, '\n');
}

/// Behind a line feed, the lines go on as those of the text that follows.
pub proof fn lemma_lines_concat(a: Seq<char>, b: Seq<char>)
    requires
        a.len() == 0 || a.last() == '\n',
    ensures
        lines_of(a + b) == lines_of(a) + lines_of(b),
    decreases a.len(),
{
    if a.len() == 0 {
        assert(a + b =~= b);
        assert(lines_of(a) + lines_of(b) =~= lines_of(b));
    } else {
        lemma_first_index(a, '\n');
        assert(a[a.len() - 1] == '\n');
        let i = first_index(a, '\n');
        let line = a.take(i);
        let rest = a.skip(i + 1);
        assert(!line.contains('\n'));
        assert(a =~= line + seq!['\n'] + rest);
        assert(a + b =~= line + seq!['\n'] + (rest + b));
        if rest.len() > 0 {
            assert(rest.last() == a.last());
        }
        lemma_lines_cons(line, rest);
        lemma_lines_cons(line, rest + b);
        lemma_lines_concat(rest, b);
        assert(seq![chomped(line)] + (lines_of(rest) + lines_of(b)) =~= (seq![chomped(line)]
            + lines_of(rest)) + lines_of(b));
    }
}

/// Tells whether `c` has the Unicode property `White_Space`.
pub fn is_white_space(c: char) -> (found: bool)
    ensures
        found == white_space(c),
{
    ('\u{9}' <= c && c <= '\u{d}') || c == '\u{20}' || c == '\u{85}' || c == '\u{a0}' || c
        == '\u{1680}' || ('\u{2000}' <= c && c <= '\u{200a}') || c == '\u{2028}' || c == '\u{2029}'
        || c == '\u{202f}' || c == '\u{205f}' || c == '\u{3000}'
}

/// The characters of `s`.
pub fn chars(s: &str) -> (cs: Vec<char>)
    ensures
        cs@ == s@,
{
    let mut cs: Vec<char> = Vec::new();
    for c in it: s.chars()
        invariant
            it.seq() == s@,
            cs@ == s@.take(it.index()),
    {
        cs.push(c);
    }
    cs
}

/// Takes the leading white space off `s`.
pub fn trim_start(s: &str) -> (rest: &str)
    ensures
        rest@ == trimmed_start(s@),
{
    let cs = chars(s);
    let mut i: usize = 0;
    while i < cs.len() && is_white_space(cs[i])
        invariant
            cs@ == s@,
            i <= cs.len(),
            forall|j: int| 0 <= j < i ==> white_space(#[trigger] s@[j]),
        decreases cs.len() - i,
    {
        i += 1;
    }
    proof {
        lemma_trimmed_start_is(s@, i as int);
    }
    s.substring_char(i, cs.len())
}

/// Takes the white space off both ends of `s`.
pub fn trim(s: &str) -> (rest: &str)
    ensures
        rest@ == trimmed(s@),
{
    let rest = trim_start(s);
    let cs = chars(rest);
    let mut i: usize = cs.len();
    while i > 0 && is_white_space(cs[i - 1])
        invariant
            cs@ == rest@,
            i <= cs.len(),
            forall|j: int| i <= j < cs.len() ==> white_space(#[trigger] rest@[j]),
        decreases i,
    {
        i -= 1;
    }
    proof {
        lemma_trimmed_end_is(rest@, i as int);
    }
    rest.substring_char(0, i)
}

/// Tells whether `s` holds nothing but white space.
pub fn is_blank(s: &str) -> (found: bool)
    ensures
        found == blank(s@),
{
    let cs = chars(s);
    let mut i: usize = 0;
    while i < cs.len()
        invariant
            cs@ == s@,
            i <= cs.len(),
            forall|j: int| 0 <= j < i ==> white_space(#[trigger] s@[j]),
        decreases cs.len() - i,
    {
        if !is_white_space(cs[i]) {
            return false;
        }
        i += 1;
    }
    true
}

/// Tells whether `s` holds no white space.
pub fn is_solid(s: &str) -> (found: bool)
    ensures
        found == solid(s@),
{
    let cs = chars(s);
    let mut i: usize = 0;
    while i < cs.len()
        invariant
            cs@ == s@,
            i <= cs.len(),
            forall|j: int| 0 <= j < i ==> !white_space(#[trigger] s@[j]),
        decreases cs.len() - i,
    {
        if is_white_space(cs[i]) {
            return false;
        }
        i += 1;
    }
    true
}

/// Finds the first `c` in `s`; gives the number of characters of `s` where there is none.
pub fn find(s: &str, c: char) -> (index: usize)
    ensures
        index == first_index(s@, c),
{
    let cs = chars(s);
    let mut i: usize = 0;
    while i < cs.len() && cs[i] != c
        invariant
            cs@ == s@,
            i <= cs.len(),
            forall|j: int| 0 <= j < i ==> #[trigger] s@[j] != c,
        decreases cs.len() - i,
    {
        i += 1;
    }
    proof {
        lemma_first_index_is(s@, c, i as int);
    }
    i
}

/// Tells whether `c` occurs in `s`.
pub fn contains_char(s: &str, c: char) -> (found: bool)
    ensures
        found == s@.contains(c),
{
    proof {
        lemma_first_index(s@, c);
    }
    find(s, c) < s.unicode_len()
}

/// The part of `s` in front of the first `c`.
pub fn up_to(s: &str, c: char) -> (part: &str)
    ensures
        part@ == before(s@, c),
{
    proof {
        lemma_first_index(s@, c);
    }
    let i = find(s, c);
    s.substring_char(0, i)
}

/// Tells whether `part` stands at position `i` of `cs`.
fn stands_at(cs: &Vec<char>, i: usize, part: &Vec<char>) -> (found: bool)
    requires
        i <= cs.len(),
    ensures
        found <==> i + part.len() <= cs.len() && cs@.subrange(i as int, i + part.len()) == part@,
{
    if cs.len() - i < part.len() {
        return false;
    }
    let mut k: usize = 0;
    while k < part.len()
        invariant
            k <= part.len(),
            i + part.len() <= cs.len(),
            forall|j: int| 0 <= j < k ==> cs@[i + j] == #[trigger] part@[j],
        decreases part.len() - k,
    {
        if cs[i + k] != part[k] {
            assert(cs@.subrange(i as int, i + part.len())[k as int] != part@[k as int]);
            return false;
        }
        k += 1;
    }
    assert(cs@.subrange(i as int, i + part.len()) =~= part@);
    true
}

/// What follows `prefix` in `s`, where `s` starts with it.
pub fn strip_prefix<'a>(s: &'a str, prefix: &str) -> (rest: Option<&'a str>)
    ensures
        rest is Some <==> prefix@.is_prefix_of(s@),
        rest matches Some(r) ==> r@ == s@.skip(prefix@.len() as int),
{
    let cs = chars(s);
    let ps = chars(prefix);
    if stands_at(&cs, 0, &ps) {
        Some(s.substring_char(ps.len(), cs.len()))
    } else {
        None
    }
}

/// Splits `s` into its lines.
pub fn lines<'a>(s: &'a str) -> (found: Vec<&'a str>)
    ensures
        slice_texts(found@) == lines_of(s@),
{
    let cs = chars(s);
    let mut found: Vec<&'a str> = Vec::new();
    let mut start: usize = 0;
    let mut i: usize = 0;
    proof {
        assert(s@.skip(0) =~= s@);
        assert(slice_texts(found@) =~= seq![]);
    }
    while i < cs.len()
        invariant
            cs@ == s@,
            start <= i <= cs.len(),
            forall|j: int| start <= j < i ==> #[trigger] s@[j] != '\n',
            slice_texts(found@) + lines_of(s@.skip(start as int)) == lines_of(s@),
        decreases cs.len() - i,
    {
        if cs[i] == '\n' {
            let end: usize = if i > start && cs[i - 1] == '\r' {
                i - 1
            } else {
                i
            };
            let line = s.substring_char(start, end);
            proof {
                let rest = s@.skip(start as int);
                lemma_first_index_is(rest, '\n', i - start);
                assert(rest.take(i - start) =~= s@.subrange(start as int, i as int));
                assert(line@ =~= chomped(rest.take(i - start)));
                assert(rest.skip(i - start + 1) =~= s@.skip(i + 1));
                assert(slice_texts(found@.push(line)) =~= slice_texts(found@).push(line@));
                assert(slice_texts(found@).push(line@) + lines_of(s@.skip(i + 1)) =~= slice_texts(
                    found@,
                ) + lines_of(rest));
            }
            found.push(line);
            start = i + 1;
        }
        i += 1;
    }
    proof {
        let rest = s@.skip(start as int);
        lemma_first_index_is(rest, '\n', rest.len() as int);
        assert(start == cs.len() ==> slice_texts(found@) + lines_of(rest) =~= slice_texts(found@));
    }
    if start < cs.len() {
        let line = s.substring_char(start, cs.len());
        proof {
            assert(line@ =~= s@.skip(start as int));
            assert(slice_texts(found@.push(line)) =~= slice_texts(found@) + lines_of(
                s@.skip(start as int),
            ));
        }
        found.push(line);
    }
    found
}

/// Tells whether `w` is one of the words of `s`.
pub fn contains_word(s: &str, w: &str) -> (found: bool)
    ensures
        found == has_word(s@, w@),
{
    let cs = chars(s);
    let ws = chars(w);
    let mut i: usize = 0;
    while i < cs.len()
        invariant
            cs@ == s@,
            ws@ == w@,
            i <= cs.len(),
            i == 0 || i == cs.len() || white_space(s@[i - 1]),
            forall|k: int| k < i ==> !#[trigger] word_at(s@, k, w@),
        decreases cs.len() - i,
    {
        let start = i;
        let mut end: usize = i;
        while end < cs.len() && !is_white_space(cs[end])
            invariant
                cs@ == s@,
                start <= end <= cs.len(),
                forall|j: int| start <= j < end ==> !white_space(#[trigger] s@[j]),
            decreases cs.len() - end,
        {
            end += 1;
        }
        if end > start && end - start == ws.len() && stands_at(&cs, start, &ws) {
            proof {
                assert forall|j: int| 0 <= j < w@.len() implies !white_space(#[trigger] w@[j]) by {
                    assert(w@[j] == s@[start + j]);
                }
                assert(word_at(s@, start as int, w@));
            }
            return true;
        }
        proof {
            assert forall|k: int| start <= k <= end implies !#[trigger] word_at(s@, k, w@) by {
                if word_at(s@, k, w@) {
                    assert(w@[0] == s@[k]);
                    if k == end {
                        assert(!white_space(w@[0]));
                    } else if k > start {
                        assert(!white_space(s@[k - 1]));
                    } else {
                        let n = w@.len() as int;
                        if k + n > end {
                            assert(w@[end - k] == s@[end as int]);
                        } else if k + n < end {
                            assert(!white_space(s@[k + n]));
                        }
                    }
                }
            }
        }
        i = if end < cs.len() {
            end + 1
        } else {
            end
        };
    }
    proof {
        assert forall|k: int| !#[trigger] word_at(s@, k, w@) by {
            if k >= i && word_at(s@, k, w@) {
                assert(w@.len() > 0);
            }
        }
    }
    false
}

/// The code of `c`, with an ASCII capital letter taken for the small one.
fn fold(c: char) -> (code: u32)
    ensures
        code == folded(c),
{
    if 'A' <= c && c <= 'Z' {
        c as u32 + 32
    } else {
        c as u32
    }
}

/// Tells whether two texts differ at most in the case of their ASCII letters.
pub fn same_but_for_case(a: &str, b: &str) -> (equal: bool)
    ensures
        equal == same_ignoring_case(a@, b@),
{
    let cs = chars(a);
    let ds = chars(b);
    if cs.len() != ds.len() {
        return false;
    }
    let mut i: usize = 0;
    while i < cs.len()
        invariant
            cs@ == a@,
            ds@ == b@,
            cs.len() == ds.len(),
            i <= cs.len(),
            forall|j: int| 0 <= j < i ==> folded(#[trigger] a@[j]) == folded(b@[j]),
        decreases cs.len() - i,
    {
        if fold(cs[i]) != fold(ds[i]) {
            return false;
        }
        i += 1;
    }
    true
}

} // verus!
