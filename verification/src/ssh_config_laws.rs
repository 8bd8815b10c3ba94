//! Laws of `Host` entries.
use crate::error::Fault;
use crate::ssh_config::{
    appended, entry_fault, has_host, host_entry, host_patterns, identity_fault, names_host,
};
use crate::text;
use crate::text_laws;
use vstd::prelude::*;

verus! {

/// The four lines of an entry.
pub open spec fn entry_lines(alias: Seq<char>, key: Seq<char>) -> Seq<Seq<char>> {
    seq![
        "Host "@ + alias,
        "    HostName github.com"@,
        "    User git"@,
        "    IdentityFile "@ + key,
    ]
}

proof fn lemma_entry_middle()
    ensures
        "\n    HostName github.com\n    User git\n    IdentityFile "@ == seq!['\n']
            + "    HostName github.com"@ + seq!['\n'] + "    User git"@ + seq!['\n']
            + "    IdentityFile "@,
        "\n"@ == seq!['\n'],
        "\n\n"@ == seq!['\n', '\n'],
{
    reveal_strlit("\n    HostName github.com\n    User git\n    IdentityFile ");
    reveal_strlit("    HostName github.com");
    reveal_strlit("    User git");
    reveal_strlit("    IdentityFile ");
    reveal_strlit("\n");
    reveal_strlit("\n\n");
    assert("\n    HostName github.com\n    User git\n    IdentityFile "@ =~= seq!['\n']
        + "    HostName github.com"@ + seq!['\n'] + "    User git"@ + seq!['\n']
        + "    IdentityFile "@);
    assert("\n"@ =~= seq!['\n']);
    assert("\n\n"@ =~= seq!['\n', '\n']);
}

/// An entry that passes the check is four lines and no more, whatever the alias and the
/// key hold: neither can bring in a line of its own.
pub proof fn law_entry_is_four_lines(alias: Seq<char>, key: Seq<char>)
    requires
        entry_fault(alias, key) is None,
    ensures
        text::lines_of(host_entry(alias, key)) == entry_lines(alias, key),
{
    let l1 = "Host "@ + alias;
    let l2 = "    HostName github.com"@;
    let l3 = "    User git"@;
    let l4 = "    IdentityFile "@ + key;
    let nl = seq!['\n'];
    let none = Seq::<char>::empty();
    lemma_entry_middle();
    reveal_strlit("Host ");
    reveal_strlit("    HostName github.com");
    reveal_strlit("    User git");
    reveal_strlit("    IdentityFile ");
    assert(!l1.contains('\n')) by {
        assert forall|j: int| 0 <= j < l1.len() implies l1[j] != '\n' by {
            if j >= 5 {
                assert(l1[j] == alias[j - 5]);
            }
        }
    }
    assert(!l4.contains('\n')) by {
        assert forall|j: int| 0 <= j < l4.len() implies l4[j] != '\n' by {
            if j >= 17 {
                assert(l4[j] == key[j - 17]);
            }
        }
    }
    assert(text::chomped(l1) == l1) by {
        if alias.len() > 0 {
            assert(l1.last() == alias.last());
            assert(alias.contains(alias.last()));
        }
    }
    assert(text::chomped(l4) == l4) by {
        assert(l4.last() == key.last());
        assert(key.contains(key.last()));
    }
    let t4 = l4 + nl + none;
    let t3 = l3 + nl + t4;
    let t2 = l2 + nl + t3;
    assert(host_entry(alias, key) =~= l1 + nl + t2);
    text::lemma_lines_cons(l1, t2);
    text::lemma_lines_cons(l2, t3);
    text::lemma_lines_cons(l3, t4);
    text::lemma_lines_cons(l4, none);
    assert(text::lines_of(host_entry(alias, key)) =~= entry_lines(alias, key));
}

/// A line feed behind a text that has none at its end closes the last line.
proof fn lemma_lines_closed(c: Seq<char>)
    requires
        c.len() > 0,
        c.last() != '\n',
    ensures
        text::lines_of(c).len() > 0,
        text::lines_of(c).last().len() > 0,
        text::lines_of(c).last().last() == c.last(),
        text::lines_of(c + seq!['\n']) == text::lines_of(c).drop_last().push(
            text::chomped(text::lines_of(c).last()),
        ),
    decreases c.len(),
{
    let nl = seq!['\n'];
    let none = Seq::<char>::empty();
    text::lemma_first_index(c, '\n');
    let i = text::first_index(c, '\n');
    if i < c.len() {
        let line = c.take(i);
        let rest = c.skip(i + 1);
        assert(rest.last() == c.last());
        assert(c =~= line + nl + rest);
        assert(c + nl =~= line + nl + (rest + nl));
        text::lemma_lines_cons(line, rest);
        text::lemma_lines_cons(line, rest + nl);
        lemma_lines_closed(rest);
        let all = text::lines_of(c);
        assert(all.last() == text::lines_of(rest).last());
        assert(text::lines_of(c + nl) =~= all.drop_last().push(text::chomped(all.last())));
    } else {
        text::lemma_lines_single(c);
        text::lemma_lines_cons(c, none);
        assert(c + nl + none =~= c + nl);
        assert(text::lines_of(c + nl) =~= seq![text::chomped(c)]);
        assert(seq![c].drop_last().push(text::chomped(c)) =~= seq![text::chomped(c)]);
    }
}

/// The lines of a configuration after an entry was added: `closed` are the lines it had,
/// the last of them without a carriage return that now belongs to the line's end.
proof fn lemma_appended_lines(content: Seq<char>, entry: Seq<char>) -> (closed: Seq<Seq<char>>)
    requires
        content.len() > 0,
    ensures
        text::lines_of(appended(content, entry)) == closed + seq![Seq::<char>::empty()]
            + text::lines_of(entry),
        closed == text::lines_of(content) || (text::lines_of(content).len() > 0 && closed
            == text::lines_of(content).drop_last().push(
            text::chomped(text::lines_of(content).last()),
        )),
        content.last() != '\r' ==> closed == text::lines_of(content),
{
    let nl = seq!['\n'];
    let none = Seq::<char>::empty();
    lemma_entry_middle();
    text::lemma_lines_cons(none, entry);
    assert(none + nl + entry =~= nl + entry);
    let gap = text::lines_of(nl + entry);
    assert(gap =~= seq![none] + text::lines_of(entry));
    if content.last() == '\n' {
        let closed = text::lines_of(content);
        text::lemma_lines_concat(content, nl + entry);
        assert(appended(content, entry) =~= content + (nl + entry));
        assert(closed + gap =~= closed + seq![none] + text::lines_of(entry));
        closed
    } else {
        let closed = text::lines_of(content + nl);
        lemma_lines_closed(content);
        assert((content + nl).last() == '\n');
        text::lemma_lines_concat(content + nl, nl + entry);
        assert(appended(content, entry) =~= (content + nl) + (nl + entry));
        assert(closed + gap =~= closed + seq![none] + text::lines_of(entry));
        if content.last() != '\r' {
            assert(closed =~= text::lines_of(content));
        }
        closed
    }
}

/// Adding an entry leaves all that stood in the configuration where it was, and puts the
/// entry behind it.
pub proof fn law_append_keeps_the_rest(content: Seq<char>, alias: Seq<char>, key: Seq<char>)
    ensures
        content.is_prefix_of(appended(content, host_entry(alias, key))),
        host_entry(alias, key).is_suffix_of(appended(content, host_entry(alias, key))),
{
    let entry = host_entry(alias, key);
    let new = appended(content, entry);
    lemma_entry_middle();
    assert(content =~= new.subrange(0, content.len() as int));
    assert(entry =~= new.subrange(new.len() - entry.len(), new.len() as int));
}

/// Line by line, adding an entry keeps the lines that were there and adds an empty line
/// and the four of the entry. A carriage return at the very end of the configuration is
/// set aside: the line feed that is put behind it makes it part of a line's end.
pub proof fn law_append_adds_five_lines(content: Seq<char>, alias: Seq<char>, key: Seq<char>)
    requires
        entry_fault(alias, key) is None,
        content.len() > 0,
        content.last() != '\r',
    ensures
        text::lines_of(appended(content, host_entry(alias, key))) == text::lines_of(content)
            + seq![Seq::<char>::empty()] + entry_lines(alias, key),
{
    law_entry_is_four_lines(alias, key);
    let closed = lemma_appended_lines(content, host_entry(alias, key));
}

/// Some of the lines is a `Host` line with `alias` among its aliases.
spec fn some_names(lines: Seq<Seq<char>>, alias: Seq<char>) -> bool {
    exists|i: int| 0 <= i < lines.len() && names_host(#[trigger] lines[i], alias)
}

proof fn lemma_some_names_concat(a: Seq<Seq<char>>, b: Seq<Seq<char>>, alias: Seq<char>)
    ensures
        some_names(a + b, alias) <==> some_names(a, alias) || some_names(b, alias),
{
    let all = a + b;
    if some_names(a, alias) {
        let i = choose|i: int| 0 <= i < a.len() && names_host(#[trigger] a[i], alias);
        assert(all[i] == a[i]);
    }
    if some_names(b, alias) {
        let i = choose|i: int| 0 <= i < b.len() && names_host(#[trigger] b[i], alias);
        assert(all[a.len() + i] == b[i]);
    }
    if some_names(all, alias) {
        let i = choose|i: int| 0 <= i < all.len() && names_host(#[trigger] all[i], alias);
        if i < a.len() {
            assert(a[i] == all[i]);
        } else {
            assert(b[i - a.len()] == all[i]);
        }
    }
}

proof fn lemma_chomped_names(line: Seq<char>, alias: Seq<char>)
    ensures
        names_host(text::chomped(line), alias) == names_host(line, alias),
{
    if line.len() > 0 && line.last() == '\r' {
        text::lemma_trimmed_ignores_tail(line);
    }
}

/// The words of a solid text with a space in front: that text, unless it is empty.
proof fn lemma_only_word(p: Seq<char>, w: Seq<char>)
    requires
        text::solid(p),
    ensures
        text::has_word(seq![' '] + p, w) <==> w == p && p.len() > 0,
{
    let s = seq![' '] + p;
    if w == p && p.len() > 0 {
        assert(s.subrange(1, 1 + p.len() as int) =~= p);
        assert(text::word_at(s, 1, w));
    }
    if text::has_word(s, w) {
        let i = choose|i: int| #[trigger] text::word_at(s, i, w);
        assert(w[0] == s[i]);
        assert(i != 0);
        if i > 1 {
            assert(s[i - 1] == p[i - 2]);
        }
        let n = w.len() as int;
        if i + n < s.len() {
            assert(s[i + n] == p[i + n - 1]);
        }
        assert(s.subrange(1, 1 + p.len() as int) =~= p);
    }
}

/// The first line of an entry names the alias, up to a `#` in it.
proof fn lemma_host_line_names(alias: Seq<char>, x: Seq<char>)
    requires
        text::solid(alias),
    ensures
        names_host("Host "@ + alias, x) <==> x == text::before(alias, '#') && x.len() > 0,
{
    let line = "Host "@ + alias;
    reveal_strlit("Host ");
    reveal_strlit("Host");
    if alias.len() == 0 {
        text::lemma_trimmed_is(line, 0, 4);
        assert(line.subrange(0, 4) =~= "Host"@);
        let rest = "Host"@.skip(4);
        assert(rest =~= seq![]);
        assert(text::before(rest, '#') =~= seq![]);
        assert(text::before(alias, '#') =~= seq![]);
        if names_host(line, x) {
            let i = choose|i: int| #[trigger] text::word_at(text::before(rest, '#'), i, x);
            assert(false);
        }
    } else {
        let n = line.len() as int;
        assert(line[n - 1] == alias[alias.len() - 1]);
        text::lemma_trimmed_is(line, 0, n);
        assert(line.subrange(0, n) =~= line);
        assert("Host"@ =~= line.subrange(0, 4));
        let rest = line.skip(4);
        assert(rest =~= seq![' '] + alias);
        text::lemma_first_index(alias, '#');
        let k = text::first_index(alias, '#');
        assert forall|j: int| 0 <= j < 1 + k implies #[trigger] rest[j] != '#' by {
            if j > 0 {
                assert(rest[j] == alias[j - 1]);
            }
        }
        text::lemma_first_index_is(rest, '#', 1 + k);
        assert(text::before(rest, '#') =~= seq![' '] + text::before(alias, '#'));
        lemma_only_word(text::before(alias, '#'), x);
    }
}

/// The other lines of an entry are no `Host` lines.
proof fn lemma_other_lines_name_none(key: Seq<char>, x: Seq<char>)
    ensures
        !names_host(Seq::<char>::empty(), x),
        !names_host("    HostName github.com"@, x),
        !names_host("    User git"@, x),
        !names_host("    IdentityFile "@ + key, x),
{
    reveal_strlit("Host");
    reveal_strlit("    HostName github.com");
    reveal_strlit("    User git");
    reveal_strlit("    IdentityFile ");
    text::lemma_trimmed_blank(Seq::<char>::empty());
    let l2 = "    HostName github.com"@;
    text::lemma_trimmed_is(l2, 4, l2.len() as int);
    assert(text::trimmed(l2).skip(4)[0] == 'N');
    let l3 = "    User git"@;
    text::lemma_trimmed_is(l3, 4, l3.len() as int);
    assert(text::trimmed(l3)[0] == 'U');
    let l4 = "    IdentityFile "@ + key;
    assert(l4[4] == 'I');
    let (i, j) = text::lemma_trim_bounds(l4);
    assert(i == 4) by {
        if i > 4 {
            assert(text::white_space(l4[4]));
        } else if i < 4 {
            assert(l4[i] == ' ');
        }
    }
    assert(text::trimmed(l4)[0] == 'I');
    assert("Host"@[0] == 'H');
}

/// Adding an entry adds one alias to those that the configuration names and takes none
/// away. What is named is the alias up to a `#`, where a comment begins; an alias with
/// nothing in front of that names no host.
pub proof fn law_append_adds_one_host(
    content: Seq<char>,
    alias: Seq<char>,
    key: Seq<char>,
    x: Seq<char>,
)
    requires
        entry_fault(alias, key) is None,
    ensures
        has_host(appended(content, host_entry(alias, key)), x) <==> has_host(content, x) || (x
            == text::before(alias, '#') && x.len() > 0),
{
    let entry = host_entry(alias, key);
    let gap = seq![Seq::<char>::empty()];
    let four = entry_lines(alias, key);
    law_entry_is_four_lines(alias, key);
    lemma_host_line_names(alias, x);
    lemma_other_lines_name_none(key, x);
    assert(some_names(four, x) <==> names_host(four[0], x)) by {
        if names_host(four[0], x) {
            assert(0 <= 0 < four.len());
        }
    }
    assert(!some_names(gap, x));
    if content.len() == 0 {
        assert(text::lines_of(content).len() == 0);
    } else {
        let old_lines = text::lines_of(content);
        let closed = lemma_appended_lines(content, entry);
        lemma_some_names_concat(closed + gap, four, x);
        lemma_some_names_concat(closed, gap, x);
        if closed != old_lines {
            let head = old_lines.drop_last();
            let end = seq![old_lines.last()];
            let new_end = seq![text::chomped(old_lines.last())];
            lemma_chomped_names(old_lines.last(), x);
            assert(old_lines =~= head + end);
            assert(closed =~= head + new_end);
            lemma_some_names_concat(head, end, x);
            lemma_some_names_concat(head, new_end, x);
            assert(some_names(end, x) <==> names_host(end[0], x));
            assert(some_names(new_end, x) <==> names_host(new_end[0], x));
        }
        assert(some_names(closed, x) <==> some_names(old_lines, x));
    }
}

/// Once an entry was added, its alias is found, so that asking before adding adds it once.
/// This holds of every alias that is not empty and that passes as that of an identity.
pub proof fn law_added_host_is_found(content: Seq<char>, alias: Seq<char>, key: Seq<char>)
    requires
        identity_fault(alias, key) is None,
        alias.len() > 0,
    ensures
        has_host(appended(content, host_entry(alias, key)), alias),
{
    law_append_adds_one_host(content, alias, key, alias);
    text::lemma_first_index(alias, '#');
    assert(text::before(alias, '#') =~= alias);
}

/// What is found is a whole word without a `#`: an alias that is empty, or that holds
/// white space or a `#`, is found in no configuration.
pub proof fn law_found_alias_is_a_word(content: Seq<char>, alias: Seq<char>)
    requires
        has_host(content, alias),
    ensures
        alias.len() > 0,
        text::solid(alias),
        !alias.contains('#'),
{
    let lines = text::lines_of(content);
    let n = choose|n: int| 0 <= n < lines.len() && names_host(#[trigger] lines[n], alias);
    let patterns = host_patterns(lines[n])->Some_0;
    let i = choose|i: int| #[trigger] text::word_at(patterns, i, alias);
    let rest = text::trimmed(lines[n]).skip(4);
    text::lemma_first_index(rest, '#');
    assert forall|j: int| 0 <= j < alias.len() implies alias[j] != '#' by {
        assert(alias[j] == patterns[i + j]);
        assert(patterns[i + j] == rest[i + j]);
    }
}

proof fn lemma_words_ignore_tail(p: Seq<char>, tail: Seq<char>, w: Seq<char>)
    requires
        text::blank(tail),
    ensures
        text::has_word(p + tail, w) <==> text::has_word(p, w),
{
    let s = p + tail;
    if text::has_word(p, w) {
        let i = choose|i: int| #[trigger] text::word_at(p, i, w);
        let n = w.len() as int;
        assert(s.subrange(i, i + n) =~= p.subrange(i, i + n));
        if i + n == p.len() && tail.len() > 0 {
            assert(s[i + n] == tail[0]);
        }
        assert(text::word_at(s, i, w));
    }
    if text::has_word(s, w) {
        let i = choose|i: int| #[trigger] text::word_at(s, i, w);
        let n = w.len() as int;
        if i + n > p.len() {
            assert(s[i + n - 1] == tail[i + n - 1 - p.len()]);
            assert(w[n - 1] == s[i + n - 1]);
        }
        assert(p.subrange(i, i + n) =~= s.subrange(i, i + n));
        assert(text::word_at(p, i, w));
    }
}

/// A comment makes no difference: what stands behind a `#` on a line neither names a host
/// nor hides one.
pub proof fn law_comment_is_ignored(line: Seq<char>, comment: Seq<char>, alias: Seq<char>)
    ensures
        names_host(line + seq!['#'] + comment, alias) == names_host(line, alias),
{
    let full = line + seq!['#'] + comment;
    let n = line.len() as int;
    reveal_strlit("Host");
    assert(full[n] == '#');
    assert(!text::blank(full));
    let (i2, j2) = text::lemma_trim_bounds(full);
    let b = text::trimmed(full);
    assert(j2 > n) by {
        if j2 <= n {
            assert(text::white_space(full[n]));
        }
    }
    if text::blank(line) {
        text::lemma_trimmed_blank(line);
        assert(i2 == n) by {
            if i2 > n {
                assert(text::white_space(full[n]));
            } else if i2 < n {
                assert(full[i2] == line[i2]);
            }
        }
        assert(b[0] == '#');
        assert("Host"@[0] == 'H');
    } else {
        let (i, j) = text::lemma_trim_bounds(line);
        let a = text::trimmed(line);
        assert(i2 == i) by {
            assert(full[i] == line[i]);
            if i2 < i {
                assert(full[i2] == line[i2]);
            } else if i2 > i {
                assert(text::white_space(full[i]));
            }
        }
        let k = j - i;
        let tail = line.subrange(j, n);
        assert forall|m: int| 0 <= m < tail.len() implies text::white_space(#[trigger] tail[m]) by {
            assert(tail[m] == line[j + m]);
        }
        assert(a =~= b.take(k));
        assert(b.subrange(k, n - i) =~= tail);
        assert(b[n - i] == '#');
        assert(text::white_space(b[k]) || b[k] == '#') by {
            if k < n - i {
                assert(b[k] == tail[0]);
            }
        }
        let host = "Host"@;
        assert(host.is_prefix_of(a) <==> host.is_prefix_of(b)) by {
            if host.is_prefix_of(a) {
                assert(host =~= b.subrange(0, 4));
            }
            if host.is_prefix_of(b) {
                if k < 4 {
                    assert(b[k] == host[k]);
                }
                assert(host =~= a.subrange(0, 4));
            }
        }
        if host.is_prefix_of(a) {
            let ra = a.skip(4);
            let rb = b.skip(4);
            text::lemma_first_index(ra, '#');
            let m = text::first_index(ra, '#');
            if ra.len() == 0 {
                assert(rb[0] == b[4]);
            } else {
                assert(rb[0] == ra[0]);
            }
            if m < ra.len() {
                assert forall|q: int| 0 <= q < m implies #[trigger] rb[q] != '#' by {
                    assert(rb[q] == ra[q]);
                }
                assert(rb[m] == ra[m]);
                text::lemma_first_index_is(rb, '#', m);
                assert(text::before(ra, '#') =~= text::before(rb, '#'));
            } else {
                let end = n - i - 4;
                assert forall|q: int| 0 <= q < end implies #[trigger] rb[q] != '#' by {
                    if q < ra.len() {
                        assert(rb[q] == ra[q]);
                    } else {
                        assert(rb[q] == tail[q - ra.len()]);
                    }
                }
                assert(rb[end] == '#');
                text::lemma_first_index_is(rb, '#', end);
                assert(text::before(rb, '#') =~= text::before(ra, '#') + tail);
                lemma_words_ignore_tail(text::before(ra, '#'), tail, alias);
            }
        }
    }
}

/// An alias and a key make an entry exactly if the alias holds no white space and the key
/// holds something, and neither a carriage return nor a line feed. Where they do not, the
/// first that applies is the fault: a line break in the alias, one in the key, white space
/// in the alias, no key.
pub proof fn law_entry_is_refused_for_its_faults_alone(alias: Seq<char>, key: Seq<char>)
    ensures
        entry_fault(alias, key) is None <==> {
            &&& forall|i: int| 0 <= i < alias.len() ==> !text::white_space(#[trigger] alias[i])
            &&& !key.contains('\r')
            &&& !key.contains('\n')
            &&& key.len() > 0
        },
        entry_fault(alias, key) == Some(Fault::AliasLineBreak) <==> alias.contains('\r')
            || alias.contains('\n'),
        entry_fault(alias, key) == Some(Fault::KeyLineBreak) <==> {
            &&& !alias.contains('\r') && !alias.contains('\n')
            &&& key.contains('\r') || key.contains('\n')
        },
        entry_fault(alias, key) == Some(Fault::AliasWhiteSpace(alias)) <==> {
            &&& !alias.contains('\r') && !alias.contains('\n')
            &&& !key.contains('\r') && !key.contains('\n')
            &&& exists|i: int| 0 <= i < alias.len() && text::white_space(#[trigger] alias[i])
        },
        entry_fault(alias, key) == Some(Fault::EmptyKey) <==> {
            &&& forall|i: int| 0 <= i < alias.len() ==> !text::white_space(#[trigger] alias[i])
            &&& key.len() == 0
        },
{
    if forall|i: int| 0 <= i < alias.len() ==> !text::white_space(#[trigger] alias[i]) {
        assert(!alias.contains('\r') && !alias.contains('\n'));
    }
}

/// An alias and a key make an identity exactly if they make an entry and the alias holds no
/// `#`. What stands against the entry comes first.
pub proof fn law_identity_is_refused_for_its_faults_alone(alias: Seq<char>, key: Seq<char>)
    ensures
        identity_fault(alias, key) is None <==> {
            &&& forall|i: int|
                0 <= i < alias.len() ==> !text::white_space(#[trigger] alias[i]) && alias[i] != '#'
            &&& !key.contains('\r')
            &&& !key.contains('\n')
            &&& key.len() > 0
        },
        entry_fault(alias, key) is Some ==> identity_fault(alias, key) == entry_fault(alias, key),
        entry_fault(alias, key) is None ==> (identity_fault(alias, key) == Some(
            Fault::AliasComment(alias),
        ) <==> alias.contains('#')),
{
    law_entry_is_refused_for_its_faults_alone(alias, key);
    if alias.contains('#') {
        let i = choose|i: int| 0 <= i < alias.len() && alias[i] == '#';
        assert(!(!text::white_space(alias[i]) && alias[i] != '#'));
    } else {
        assert(forall|i: int| 0 <= i < alias.len() ==> #[trigger] alias[i] != '#');
    }
}

/// An entry, line feed by line feed.
pub proof fn law_entry_to_the_letter(alias: Seq<char>, key: Seq<char>)
    ensures
        host_entry(alias, key) == "Host "@ + alias + seq!['\n'] + "    HostName github.com"@ + seq![
            '\n',
        ] + "    User git"@ + seq!['\n'] + "    IdentityFile "@ + key + seq!['\n'],
{
    lemma_entry_middle();
    assert(host_entry(alias, key) =~= "Host "@ + alias + seq!['\n'] + "    HostName github.com"@
        + seq!['\n'] + "    User git"@ + seq!['\n'] + "    IdentityFile "@ + key + seq!['\n']);
}

/// Between a configuration and the entry that is added to it stand line feeds and nothing
/// else: none where there was nothing, one behind a line feed, and two behind anything else.
pub proof fn law_entry_is_set_off_by_line_feeds(content: Seq<char>, entry: Seq<char>)
    ensures
        content.len() == 0 ==> appended(content, entry) == entry,
        appended(content.push('\n'), entry) == content + seq!['\n', '\n'] + entry,
        content.len() > 0 && content.last() != '\n' ==> appended(content, entry) == content
            + seq!['\n', '\n'] + entry,
{
    lemma_entry_middle();
    assert(appended(content.push('\n'), entry) =~= content + seq!['\n', '\n'] + entry);
}

/// A blank text has no words.
proof fn lemma_blank_has_no_word(s: Seq<char>, w: Seq<char>)
    requires
        text::blank(s),
    ensures
        !text::has_word(s, w),
{
    if text::has_word(s, w) {
        let i = choose|i: int| #[trigger] text::word_at(s, i, w);
        assert(w[0] == s[i]);
    }
}

/// White space behind a text is of no account to the words in front of its first `#`.
proof fn lemma_words_before_ignore_tail(p: Seq<char>, tail: Seq<char>, w: Seq<char>)
    requires
        text::blank(tail),
    ensures
        text::has_word(text::before(p + tail, '#'), w) <==> text::has_word(
            text::before(p, '#'),
            w,
        ),
{
    let s = p + tail;
    let k = text::first_index(p, '#');
    text::lemma_first_index(p, '#');
    assert forall|j: int| 0 <= j < k implies #[trigger] s[j] != '#' by {
        assert(s[j] == p[j]);
    }
    if k < p.len() {
        text::lemma_first_index_is(s, '#', k);
        assert(text::before(s, '#') =~= text::before(p, '#'));
    } else {
        assert forall|j: int| 0 <= j < s.len() implies #[trigger] s[j] != '#' by {
            if j < p.len() {
                assert(s[j] == p[j]);
            } else {
                assert(s[j] == tail[j - p.len()]);
                assert(text::white_space(tail[j - p.len()]));
            }
        }
        text::lemma_first_index_is(s, '#', s.len() as int);
        assert(text::before(s, '#') =~= s);
        assert(text::before(p, '#') =~= p);
        lemma_words_ignore_tail(p, tail, w);
    }
}

/// A line names an alias exactly if, white space in front aside, it is `Host` and a white
/// space, and behind that the alias is one of the words in front of the first `#`.
pub proof fn law_host_line_word_by_word(line: Seq<char>, alias: Seq<char>)
    ensures
        names_host(line, alias) <==> {
            let t = text::trimmed_start(line);
            &&& t.len() >= 5
            &&& t[0] == 'H' && t[1] == 'o' && t[2] == 's' && t[3] == 't'
            &&& text::white_space(t[4])
            &&& text::has_word(text::before(t.skip(5), '#'), alias)
        },
{
    let t = text::trimmed_start(line);
    let u = text::trimmed(line);
    let host = "Host"@;
    let none = Seq::<char>::empty();
    reveal_strlit("Host");
    text::lemma_trimmed_blank(line);
    if !text::blank(line) {
        let (i, j) = text::lemma_trim_bounds(line);
        text::lemma_trimmed_start_is(line, i);
        let m = j - i;
        let tail = t.skip(m);
        assert(u =~= t.take(m));
        assert forall|q: int| 0 <= q < tail.len() implies text::white_space(#[trigger] tail[q]) by {
            assert(tail[q] == line[j + q]);
        }
        assert(!text::white_space(u[m - 1]));
        if m < 5 {
            // Nothing but white space can stand behind the keyword.
            assert(t.len() >= 5 ==> text::blank(t.skip(5))) by {
                if t.len() >= 5 {
                    let r = t.skip(5);
                    assert forall|q: int| 0 <= q < r.len() implies text::white_space(
                        #[trigger] r[q],
                    ) by {
                        assert(r[q] == tail[5 + q - m]);
                    }
                }
            }
            if t.len() >= 5 {
                let r = text::before(t.skip(5), '#');
                text::lemma_first_index(t.skip(5), '#');
                assert(text::blank(r)) by {
                    assert forall|q: int| 0 <= q < r.len() implies text::white_space(
                        #[trigger] r[q],
                    ) by {
                        assert(r[q] == t.skip(5)[q]);
                    }
                }
                lemma_blank_has_no_word(r, alias);
            }
            if names_host(line, alias) {
                assert(u.skip(4) =~= none);
                text::lemma_first_index(u.skip(4), '#');
                assert(text::before(u.skip(4), '#') =~= none);
                lemma_blank_has_no_word(none, alias);
            }
        } else {
            let r = u.skip(4);
            let c = u[4];
            let p = u.skip(5);
            assert(r =~= seq![c] + p);
            assert(host.is_prefix_of(u) <==> t[0] == 'H' && t[1] == 'o' && t[2] == 's' && t[3]
                == 't') by {
                if host.is_prefix_of(u) {
                    assert(host[0] == u[0] && host[1] == u[1] && host[2] == u[2] && host[3] == u[3]);
                }
                if t[0] == 'H' && t[1] == 'o' && t[2] == 's' && t[3] == 't' {
                    assert(host =~= u.subrange(0, 4));
                }
            }
            assert(t.skip(5) =~= p + tail);
            lemma_words_before_ignore_tail(p, tail, alias);
            text::lemma_first_index(r, '#');
            text::lemma_first_index(p, '#');
            if c == '#' {
                text::lemma_first_index_is(r, '#', 0);
                assert(text::before(r, '#') =~= none);
                lemma_blank_has_no_word(none, alias);
            } else {
                let k = text::first_index(p, '#');
                assert forall|q: int| 0 <= q < 1 + k implies #[trigger] r[q] != '#' by {
                    if q > 0 {
                        assert(r[q] == p[q - 1]);
                    }
                }
                text::lemma_first_index_is(r, '#', 1 + k);
                assert(text::before(r, '#') =~= none + seq![c] + text::before(p, '#'));
                text_laws::law_words_by_parts(none, c, text::before(p, '#'), alias);
                lemma_blank_has_no_word(none, alias);
            }
        }
    }
}

/// A `Host` line counts wherever it stands: a configuration names the aliases that its parts
/// name, each line of it by itself.
pub proof fn law_host_counts_wherever_it_stands(
    a: Seq<char>,
    b: Seq<char>,
    line: Seq<char>,
    alias: Seq<char>,
)
    requires
        a.len() == 0 || a.last() == '\n',
        !line.contains('\n'),
    ensures
        has_host(a + b, alias) <==> has_host(a, alias) || has_host(b, alias),
        has_host(line + seq!['\n'], alias) <==> names_host(line, alias),
        has_host(line, alias) <==> names_host(line, alias),
        !has_host(Seq::<char>::empty(), alias),
{
    let none = Seq::<char>::empty();
    text::lemma_lines_concat(a, b);
    lemma_some_names_concat(text::lines_of(a), text::lines_of(b), alias);
    assert(has_host(a + b, alias) <==> some_names(text::lines_of(a + b), alias));
    assert(has_host(a, alias) <==> some_names(text::lines_of(a), alias));
    assert(has_host(b, alias) <==> some_names(text::lines_of(b), alias));
    text::lemma_lines_cons(line, none);
    assert(line + seq!['\n'] + none =~= line + seq!['\n']);
    let ended = text::lines_of(line + seq!['\n']);
    assert(ended =~= seq![text::chomped(line)]);
    assert(ended[0] == text::chomped(line));
    lemma_chomped_names(line, alias);
    assert(text::lines_of(none).len() == 0);
    if line.len() > 0 {
        text::lemma_lines_single(line);
        assert(text::lines_of(line)[0] == line);
    } else {
        assert(line =~= none);
        lemma_other_lines_name_none(none, alias);
    }
}

} // verus!
