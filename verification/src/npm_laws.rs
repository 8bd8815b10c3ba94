//! Laws of the auth token in `.npmrc`.
use crate::npm;
use crate::npm::{
    has_token, mentions_token, npm_plan, npm_update, rewritten, sets_token, token_line, token_prefix,
    token_value, upserted,
};
use crate::text;
use vstd::prelude::*;

verus! {

/// The lines of `content` that do not set the token.
pub open spec fn other_lines(content: Seq<char>) -> Seq<Seq<char>> {
    text::lines_of(content).filter(|line: Seq<char>| !sets_token(line))
}

proof fn lemma_newline()
    ensures
        "\n"@ == seq!['\n'],
{
    reveal_strlit("\n");
    assert("\n"@ =~= seq!['\n']);
}

/// The line that sets the token does set it, and to what it was given.
proof fn lemma_token_line(token: Seq<char>)
    ensures
        sets_token(token_line(token)),
        token_value(token_line(token)) == token,
        token_line(token).contains('\n') ==> token.contains('\n'),
        token_line(token).len() > 0,
{
    let e = token_line(token);
    let p = token_prefix();
    reveal_strlit("//registry.npmjs.org/:_authToken");
    reveal_strlit("=");
    assert(e[0] == '/');
    assert(text::trimmed_start(e) == e);
    assert(p =~= e.subrange(0, p.len() as int));
    assert(e.skip(p.len() as int) =~= token);
    if e.contains('\n') {
        let k = choose|k: int| 0 <= k < e.len() && e[k] == '\n';
        assert(k >= p.len());
        assert(token[k - p.len()] == '\n');
    }
}

/// The lines of a text and of the one behind it.
proof fn lemma_has_token_concat(a: Seq<char>, b: Seq<char>)
    requires
        a.len() == 0 || a.last() == '\n',
    ensures
        has_token(a + b) <==> has_token(a) || has_token(b),
{
    text::lemma_lines_concat(a, b);
    let la = text::lines_of(a);
    let lb = text::lines_of(b);
    let all = text::lines_of(a + b);
    if has_token(a) {
        let i = choose|i: int|
            0 <= i < la.len() && sets_token(#[trigger] la[i]) && !text::blank(token_value(la[i]));
        assert(all[i] == la[i]);
    }
    if has_token(b) {
        let i = choose|i: int|
            0 <= i < lb.len() && sets_token(#[trigger] lb[i]) && !text::blank(token_value(lb[i]));
        assert(all[la.len() + i] == lb[i]);
    }
    if has_token(a + b) {
        let i = choose|i: int|
            0 <= i < all.len() && sets_token(#[trigger] all[i]) && !text::blank(
                token_value(all[i]),
            );
        if i < la.len() {
            assert(all[i] == la[i]);
        } else {
            assert(all[i] == lb[i - la.len()]);
        }
    }
}

/// One line and its line feed.
proof fn lemma_has_token_line(line: Seq<char>)
    requires
        !line.contains('\n'),
    ensures
        has_token(line + seq!['\n']) <==> sets_token(line) && !text::blank(token_value(line)),
{
    let none = Seq::<char>::empty();
    text::lemma_lines_cons(line, none);
    assert(line + seq!['\n'] + none =~= line + seq!['\n']);
    npm::lemma_chomped_token(line);
    let all = text::lines_of(line + seq!['\n']);
    assert(all =~= seq![text::chomped(line)]);
    assert(all[0] == text::chomped(line));
}

/// A text taken apart at its first line feed.
proof fn lemma_first_line(content: Seq<char>) -> (parts: (Seq<char>, Seq<char>))
    requires
        content.contains('\n'),
    ensures
        !parts.0.contains('\n'),
        content == parts.0 + seq!['\n'] + parts.1,
        parts.0 == content.take(text::first_index(content, '\n')),
        parts.1 == content.skip(text::first_index(content, '\n') + 1),
        text::first_index(content, '\n') < content.len(),
{
    text::lemma_first_index(content, '\n');
    let i = text::first_index(content, '\n');
    let line = content.take(i);
    let rest = content.skip(i + 1);
    assert(content =~= line + seq!['\n'] + rest);
    (line, rest)
}

proof fn lemma_rewritten_has_token(content: Seq<char>, entry: Seq<char>)
    ensures
        has_token(rewritten(content, entry)) <==> mentions_token(content) && has_token(
            entry + seq!['\n'],
        ),
    decreases content.len(),
{
    let nl = seq!['\n'];
    lemma_newline();
    text::lemma_first_index(content, '\n');
    if content.len() == 0 {
        assert(text::lines_of(content).len() == 0);
    } else if content.contains('\n') {
        let (line, rest) = lemma_first_line(content);
        let kept = if sets_token(line) {
            entry
        } else {
            line
        };
        lemma_rewritten_has_token(rest, entry);
        npm::lemma_mentions_cons(line, rest);
        assert((kept + nl).last() == '\n');
        lemma_has_token_concat(kept + nl, rewritten(rest, entry));
        if !sets_token(line) {
            lemma_has_token_line(line);
        }
    } else {
        text::lemma_lines_single(content);
        assert(text::lines_of(content)[0] == content);
        assert(content.take(content.len() as int) =~= content);
        if !sets_token(content) {
            lemma_has_token_line(content);
        }
    }
}

/// After the token was set, it counts as set exactly if the new line does by itself: no
/// value that was there before is left to decide it.
pub proof fn law_new_token_decides(content: Seq<char>, token: Seq<char>)
    ensures
        has_token(upserted(content, token)) <==> has_token(token_line(token) + seq!['\n']),
{
    let e = token_line(token);
    let nl = seq!['\n'];
    lemma_newline();
    lemma_rewritten_has_token(content, e);
    if !mentions_token(content) {
        let head = rewritten(content, e);
        lemma_rewritten_ends_in_newline(content, e);
        lemma_has_token_concat(head, e + nl);
        assert(upserted(content, token) =~= head + (e + nl));
    }
}

/// After a token was entered, it is found, so that it is not asked for again. This holds of
/// every token that is not blank, up to a line feed in it; of a token without a line feed
/// it holds just if the token is not blank.
pub proof fn law_entered_token_is_found(content: Seq<char>, token: Seq<char>)
    ensures
        !text::blank(text::before(token, '\n')) ==> has_token(upserted(content, token)),
        !token.contains('\n') ==> (has_token(upserted(content, token)) <==> !text::blank(token)),
{
    let nl = seq!['\n'];
    law_new_token_decides(content, token);
    lemma_token_line(token);
    text::lemma_first_index(token, '\n');
    if !token.contains('\n') {
        assert(text::before(token, '\n') =~= token);
        lemma_has_token_line(token_line(token));
    } else {
        let (first, rest) = lemma_first_line(token);
        lemma_token_line(first);
        lemma_has_token_line(token_line(first));
        assert((token_line(first) + nl).last() == '\n');
        lemma_has_token_concat(token_line(first) + nl, rest + nl);
        assert(token_line(token) + nl =~= (token_line(first) + nl) + (rest + nl));
    }
}

/// The step is done once: on finding what it wrote for a token that is not blank, up to a
/// line feed in it, it has nothing left to do.
pub proof fn law_npm_step_is_done_once(existing: Seq<char>, token: Seq<char>, dry_run: bool)
    requires
        !text::blank(text::before(token, '\n')),
    ensures
        npm_plan(upserted(existing, token), dry_run) is AlreadyConfigured,
{
    law_entered_token_is_found(existing, token);
}

/// On a dry run no token is asked for, and so none is written.
pub proof fn law_dry_run_asks_for_no_token(existing: Seq<char>)
    ensures
        !(npm_plan(existing, true) is AskToken),
{
}

proof fn lemma_rewritten_ends_in_newline(content: Seq<char>, entry: Seq<char>)
    ensures
        content.len() == 0 ==> rewritten(content, entry).len() == 0,
        content.len() > 0 ==> rewritten(content, entry).len() > 0 && rewritten(
            content,
            entry,
        ).last() == '\n',
    decreases content.len(),
{
    lemma_newline();
    text::lemma_first_index(content, '\n');
    if content.contains('\n') {
        let (line, rest) = lemma_first_line(content);
        lemma_rewritten_ends_in_newline(rest, entry);
    }
}

proof fn lemma_rewritten_concat(a: Seq<char>, b: Seq<char>, entry: Seq<char>)
    requires
        a.len() == 0 || a.last() == '\n',
    ensures
        rewritten(a + b, entry) == rewritten(a, entry) + rewritten(b, entry),
    decreases a.len(),
{
    if a.len() == 0 {
        assert(a + b =~= b);
        assert(rewritten(a, entry) + rewritten(b, entry) =~= rewritten(b, entry));
    } else {
        assert(a[a.len() - 1] == '\n');
        let (line, rest) = lemma_first_line(a);
        if rest.len() > 0 {
            assert(rest.last() == a.last());
        }
        lemma_rewritten_concat(rest, b, entry);
        lemma_rewritten_cons(line, rest, entry);
        lemma_rewritten_cons(line, rest + b, entry);
        assert(a + b =~= line + seq!['\n'] + (rest + b));
        let kept = if sets_token(line) {
            entry
        } else {
            line
        };
        assert(kept + seq!['\n'] + (rewritten(rest, entry) + rewritten(b, entry)) =~= (kept + seq![
            '\n',
        ] + rewritten(rest, entry)) + rewritten(b, entry));
    }
}

proof fn lemma_rewritten_cons(line: Seq<char>, rest: Seq<char>, entry: Seq<char>)
    requires
        !line.contains('\n'),
    ensures
        rewritten(line + seq!['\n'] + rest, entry) == (if sets_token(line) {
            entry
        } else {
            line
        }) + seq!['\n'] + rewritten(rest, entry),
{
    let s = line + seq!['\n'] + rest;
    lemma_newline();
    assert forall|j: int| 0 <= j < line.len() implies #[trigger] s[j] != '\n' by {
        assert(s[j] == line[j]);
    }
    text::lemma_first_index_is(s, '\n', line.len() as int);
    assert(s.take(line.len() as int) =~= line);
    assert(s.skip(line.len() as int + 1) =~= rest);
}

/// Writing over what was written comes to writing at once.
proof fn lemma_rewritten_twice(content: Seq<char>, e1: Seq<char>, e2: Seq<char>)
    requires
        sets_token(e1),
        !e1.contains('\n'),
    ensures
        rewritten(rewritten(content, e1), e2) == rewritten(content, e2),
        mentions_token(rewritten(content, e1)) == mentions_token(content),
    decreases content.len(),
{
    let none = Seq::<char>::empty();
    let nl = seq!['\n'];
    lemma_newline();
    text::lemma_first_index(content, '\n');
    if content.len() > 0 {
        if content.contains('\n') {
            let (line, rest) = lemma_first_line(content);
            let kept = if sets_token(line) {
                e1
            } else {
                line
            };
            lemma_rewritten_twice(rest, e1, e2);
            lemma_rewritten_cons(line, rest, e1);
            lemma_rewritten_cons(line, rest, e2);
            lemma_rewritten_cons(kept, rewritten(rest, e1), e2);
            npm::lemma_mentions_cons(line, rest);
            npm::lemma_mentions_cons(kept, rewritten(rest, e1));
        } else {
            let kept = if sets_token(content) {
                e1
            } else {
                content
            };
            assert(content.take(content.len() as int) =~= content);
            assert(rewritten(content, e1) =~= kept + nl + none);
            lemma_rewritten_cons(kept, none, e2);
            assert(rewritten(none, e2) =~= none);
            assert(rewritten(content, e2) =~= rewritten(kept + nl + none, e2));
            npm::lemma_mentions_cons(kept, none);
            text::lemma_lines_single(content);
            assert(text::lines_of(content)[0] == content);
            assert(text::lines_of(none).len() == 0);
        }
    }
}

/// Of two tokens set one after the other the last one stays, as if it had been set alone;
/// in particular, setting the same token again changes nothing. A first token with a line
/// feed in it is set aside: it is more than one line, and only the first of them sets the
/// token.
pub proof fn law_last_token_wins(content: Seq<char>, first: Seq<char>, second: Seq<char>)
    requires
        !first.contains('\n'),
    ensures
        upserted(upserted(content, first), second) == upserted(content, second),
{
    let e1 = token_line(first);
    let e2 = token_line(second);
    let nl = seq!['\n'];
    let none = Seq::<char>::empty();
    lemma_newline();
    lemma_token_line(first);
    lemma_rewritten_twice(content, e1, e2);
    if !mentions_token(content) {
        let head = rewritten(content, e1);
        let new = upserted(content, first);
        lemma_rewritten_ends_in_newline(content, e1);
        assert(new =~= head + (e1 + nl + none));
        lemma_rewritten_concat(head, e1 + nl + none, e2);
        lemma_rewritten_cons(e1, none, e2);
        assert(rewritten(none, e2) =~= none);
        assert(rewritten(new, e2) =~= rewritten(content, e2) + e2 + nl);
        assert(mentions_token(new)) by {
            npm::lemma_mentions_cons(e1, none);
            let tail = e1 + nl + none;
            text::lemma_lines_concat(head, tail);
            let all = text::lines_of(new);
            let lt = text::lines_of(tail);
            let i = choose|i: int| 0 <= i < lt.len() && sets_token(#[trigger] lt[i]);
            assert(all[text::lines_of(head).len() + i] == lt[i]);
        }
    }
}

proof fn lemma_filter_single(line: Seq<char>)
    ensures
        seq![line].filter(|line: Seq<char>| !sets_token(line)) == if sets_token(line) {
            seq![]
        } else {
            seq![line]
        },
{
    reveal(Seq::filter);
    let s = seq![line];
    assert(s.drop_last() =~= seq![]);
    assert(s.drop_last().filter(|line: Seq<char>| !sets_token(line)) =~= seq![]);
    assert(seq![].push(line) =~= seq![line]);
}

proof fn lemma_other_lines_concat(a: Seq<char>, b: Seq<char>)
    requires
        a.len() == 0 || a.last() == '\n',
    ensures
        other_lines(a + b) == other_lines(a) + other_lines(b),
{
    text::lemma_lines_concat(a, b);
    Seq::filter_distributes_over_add(
        text::lines_of(a),
        text::lines_of(b),
        |line: Seq<char>| !sets_token(line),
    );
}

proof fn lemma_other_lines_line(line: Seq<char>)
    requires
        !line.contains('\n'),
    ensures
        other_lines(line + seq!['\n']) == if sets_token(line) {
            seq![]
        } else {
            seq![text::chomped(line)]
        },
{
    let none = Seq::<char>::empty();
    text::lemma_lines_cons(line, none);
    assert(line + seq!['\n'] + none =~= line + seq!['\n']);
    assert(text::lines_of(line + seq!['\n']) =~= seq![text::chomped(line)]);
    npm::lemma_chomped_token(line);
    lemma_filter_single(text::chomped(line));
}

proof fn lemma_rewritten_other_lines(content: Seq<char>, entry: Seq<char>)
    requires
        sets_token(entry),
        !entry.contains('\n'),
        content.len() > 0 && content.last() == '\r' ==> sets_token(text::lines_of(content).last()),
    ensures
        other_lines(rewritten(content, entry)) == other_lines(content),
    decreases content.len(),
{
    let nl = seq!['\n'];
    lemma_newline();
    text::lemma_first_index(content, '\n');
    if content.len() > 0 {
        if content.contains('\n') {
            let (line, rest) = lemma_first_line(content);
            if rest.len() > 0 {
                assert(rest.last() == content.last());
                text::lemma_first_index(rest, '\n');
                assert(text::lines_of(rest).len() > 0);
                text::lemma_lines_cons(line, rest);
                assert(text::lines_of(content).last() == text::lines_of(rest).last());
            }
            let kept = if sets_token(line) {
                entry
            } else {
                line
            };
            lemma_rewritten_other_lines(rest, entry);
            lemma_rewritten_cons(line, rest, entry);
            assert((kept + nl).last() == '\n');
            assert((line + nl).last() == '\n');
            lemma_other_lines_concat(kept + nl, rewritten(rest, entry));
            lemma_other_lines_concat(line + nl, rest);
            lemma_other_lines_line(line);
            lemma_other_lines_line(entry);
        } else {
            assert(content.take(content.len() as int) =~= content);
            text::lemma_lines_single(content);
            lemma_filter_single(content);
            lemma_other_lines_line(content);
            lemma_other_lines_line(entry);
        }
    }
}

/// Setting the token leaves every other line as it is, in the same order. A token with a
/// line feed in it is set aside, since it brings lines of its own, and so is a carriage
/// return at the very end of a line that is kept: it becomes part of the line's end.
pub proof fn law_other_lines_are_kept(content: Seq<char>, token: Seq<char>)
    requires
        !token.contains('\n'),
        content.len() > 0 && content.last() == '\r' ==> sets_token(text::lines_of(content).last()),
    ensures
        other_lines(upserted(content, token)) == other_lines(content),
{
    let e = token_line(token);
    let nl = seq!['\n'];
    lemma_newline();
    lemma_token_line(token);
    lemma_rewritten_other_lines(content, e);
    if !mentions_token(content) {
        let head = rewritten(content, e);
        lemma_rewritten_ends_in_newline(content, e);
        assert(upserted(content, token) =~= head + (e + nl));
        lemma_other_lines_concat(head, e + nl);
        lemma_other_lines_line(e);
        assert(other_lines(head) + seq![] =~= other_lines(head));
    }
}

proof fn lemma_token_prefix_literal()
    ensures
        token_prefix() == "//registry.npmjs.org/:_authToken="@,
{
    reveal_strlit("//registry.npmjs.org/:_authToken=");
    reveal_strlit("//registry.npmjs.org/:_authToken");
    reveal_strlit("=");
    assert(token_prefix() =~= "//registry.npmjs.org/:_authToken="@);
}

/// A line sets the token exactly if it begins, white space in front aside, with the key of
/// the npm registry and an equals sign, and what follows is the value.
pub proof fn law_token_line_in_plain_text(line: Seq<char>, token: Seq<char>)
    ensures
        sets_token(line) <==> "//registry.npmjs.org/:_authToken="@.is_prefix_of(
            text::trimmed_start(line),
        ),
        sets_token(line) ==> text::trimmed_start(line) == "//registry.npmjs.org/:_authToken="@
            + token_value(line),
        token_line(token) == "//registry.npmjs.org/:_authToken="@ + token,
{
    lemma_token_prefix_literal();
    if sets_token(line) {
        let t = text::trimmed_start(line);
        assert(t =~= token_prefix() + t.skip(token_prefix().len() as int));
    }
}

/// A token counts wherever it stands: a text has one if a part of it has, each line by
/// itself; and a line has one if it begins, white space in front aside, with the key and an
/// equals sign, and more than white space follows.
pub proof fn law_token_counts_wherever_it_stands(a: Seq<char>, b: Seq<char>, line: Seq<char>)
    requires
        a.len() == 0 || a.last() == '\n',
        !line.contains('\n'),
    ensures
        has_token(a + b) <==> has_token(a) || has_token(b),
        !has_token(Seq::<char>::empty()),
        has_token(line) <==> {
            let t = text::trimmed_start(line);
            let key = "//registry.npmjs.org/:_authToken="@;
            key.is_prefix_of(t) && !text::blank(t.skip(key.len() as int))
        },
        has_token(line + seq!['\n']) <==> has_token(line),
{
    let none = Seq::<char>::empty();
    lemma_has_token_concat(a, b);
    lemma_token_prefix_literal();
    assert(text::lines_of(none).len() == 0);
    lemma_has_token_line(line);
    if line.len() > 0 {
        text::lemma_lines_single(line);
        assert(text::lines_of(line)[0] == line);
    } else {
        assert(line =~= none);
        text::lemma_trimmed_blank(none);
        reveal_strlit("//registry.npmjs.org/:_authToken=");
        assert(!sets_token(none));
    }
}

/// The npm step has nothing to do exactly if some line of the file begins, white space in
/// front aside, with the key and an equals sign, and more than white space follows. In every
/// other case it asks for the token, or on a dry run says that it would.
pub proof fn law_npm_step_asks_unless_a_token_is_there(existing: Seq<char>, dry_run: bool)
    ensures
        ({
            let key = "//registry.npmjs.org/:_authToken="@;
            let configured = exists|i: int|
                0 <= i < text::lines_of(existing).len() && key.is_prefix_of(
                    text::trimmed_start(#[trigger] text::lines_of(existing)[i]),
                ) && !text::blank(
                    text::trimmed_start(text::lines_of(existing)[i]).skip(key.len() as int),
                );
            &&& npm_plan(existing, dry_run) is AlreadyConfigured <==> configured
            &&& npm_plan(existing, dry_run) is DryRun <==> !configured && dry_run
            &&& npm_plan(existing, dry_run) is AskToken <==> !configured && !dry_run
        }),
{
    lemma_token_prefix_literal();
    let key = "//registry.npmjs.org/:_authToken="@;
    let lines = text::lines_of(existing);
    if has_token(existing) {
        let i = choose|i: int|
            0 <= i < lines.len() && sets_token(#[trigger] lines[i]) && !text::blank(
                token_value(lines[i]),
            );
        assert(key.is_prefix_of(text::trimmed_start(lines[i])));
    }
}

/// Setting the token keeps, to the letter and in order, every line that does not begin, white
/// space in front aside, with the key of the npm registry and an equals sign; in particular
/// the tokens of other registries. Set aside are a token with a line feed in it, which brings
/// lines of its own, and a carriage return at the very end of a line that is kept, which
/// becomes part of the line's end.
pub proof fn law_lines_without_the_key_are_kept(content: Seq<char>, token: Seq<char>)
    requires
        !token.contains('\n'),
        content.len() > 0 && content.last() == '\r'
            ==> "//registry.npmjs.org/:_authToken="@.is_prefix_of(
            text::trimmed_start(text::lines_of(content).last()),
        ),
    ensures
        text::lines_of(upserted(content, token)).filter(
            |line: Seq<char>|
                !"//registry.npmjs.org/:_authToken="@.is_prefix_of(text::trimmed_start(line)),
        ) == text::lines_of(content).filter(
            |line: Seq<char>|
                !"//registry.npmjs.org/:_authToken="@.is_prefix_of(text::trimmed_start(line)),
        ),
{
    let f = |line: Seq<char>| !sets_token(line);
    let g = |line: Seq<char>|
        !"//registry.npmjs.org/:_authToken="@.is_prefix_of(text::trimmed_start(line));
    lemma_token_prefix_literal();
    assert(f =~= g);
    law_other_lines_are_kept(content, token);
}

/// A text with a line feed at its end, unless it is empty.
pub open spec fn ended(s: Seq<char>) -> Seq<char> {
    if s.len() == 0 || s.last() == '\n' {
        s
    } else {
        s.push('\n')
    }
}

proof fn lemma_rewritten_without_token(content: Seq<char>, entry: Seq<char>)
    requires
        !mentions_token(content),
    ensures
        rewritten(content, entry) == ended(content),
    decreases content.len(),
{
    lemma_newline();
    text::lemma_first_index(content, '\n');
    if content.len() > 0 {
        if content.contains('\n') {
            let (line, rest) = lemma_first_line(content);
            npm::lemma_mentions_cons(line, rest);
            lemma_rewritten_cons(line, rest, entry);
            lemma_rewritten_without_token(rest, entry);
            if rest.len() > 0 {
                assert(rest.last() == content.last());
            } else {
                assert(content.last() == '\n');
            }
            assert(rewritten(content, entry) =~= ended(content));
        } else {
            text::lemma_lines_single(content);
            assert(text::lines_of(content)[0] == content);
            assert(content.take(content.len() as int) =~= content);
            assert(content.last() != '\n') by {
                assert(content.contains(content.last()));
            }
            assert(rewritten(content, entry) =~= ended(content));
        }
    }
}

/// Where no line begins, white space in front aside, with the key and an equals sign, the new
/// line is put behind all that is there, which is kept to the letter.
pub proof fn law_new_token_line_is_put_last(content: Seq<char>, token: Seq<char>)
    requires
        forall|i: int|
            0 <= i < text::lines_of(content).len()
                ==> !"//registry.npmjs.org/:_authToken="@.is_prefix_of(
                text::trimmed_start(#[trigger] text::lines_of(content)[i]),
            ),
    ensures
        upserted(content, token) == (if content.len() == 0 || content.last() == '\n' {
            content
        } else {
            content.push('\n')
        }) + "//registry.npmjs.org/:_authToken="@ + token + seq!['\n'],
{
    lemma_token_prefix_literal();
    lemma_newline();
    assert(!mentions_token(content));
    lemma_rewritten_without_token(content, token_line(token));
    assert(upserted(content, token) =~= ended(content) + "//registry.npmjs.org/:_authToken="@
        + token + seq!['\n']);
}

/// A line that begins, white space in front aside, with the key and an equals sign gives way
/// to the new one, whatever its value was.
pub proof fn law_token_line_gives_way(line: Seq<char>, token: Seq<char>)
    requires
        !line.contains('\n'),
        "//registry.npmjs.org/:_authToken="@.is_prefix_of(text::trimmed_start(line)),
    ensures
        upserted(line, token) == "//registry.npmjs.org/:_authToken="@ + token + seq!['\n'],
        upserted(line + seq!['\n'], token) == "//registry.npmjs.org/:_authToken="@ + token + seq![
            '\n',
        ],
{
    let none = Seq::<char>::empty();
    let e = token_line(token);
    lemma_token_prefix_literal();
    lemma_newline();
    reveal_strlit("//registry.npmjs.org/:_authToken=");
    if line.len() == 0 {
        assert(text::trimmed_start(line).len() == 0);
    }
    text::lemma_lines_single(line);
    assert(text::lines_of(line)[0] == line);
    assert(mentions_token(line));
    text::lemma_first_index(line, '\n');
    assert(line.take(line.len() as int) =~= line);
    assert(rewritten(line, e) =~= e + seq!['\n']);
    npm::lemma_mentions_cons(line, none);
    lemma_rewritten_cons(line, none, e);
    assert(line + seq!['\n'] + none =~= line + seq!['\n']);
    assert(rewritten(line + seq!['\n'], e) =~= e + seq!['\n']);
}

proof fn lemma_mentions_concat(a: Seq<char>, b: Seq<char>)
    requires
        a.len() == 0 || a.last() == '\n',
    ensures
        mentions_token(a + b) <==> mentions_token(a) || mentions_token(b),
{
    text::lemma_lines_concat(a, b);
    let la = text::lines_of(a);
    let lb = text::lines_of(b);
    let all = text::lines_of(a + b);
    if mentions_token(a) {
        let i = choose|i: int| 0 <= i < la.len() && sets_token(#[trigger] la[i]);
        assert(all[i] == la[i]);
    }
    if mentions_token(b) {
        let i = choose|i: int| 0 <= i < lb.len() && sets_token(#[trigger] lb[i]);
        assert(all[la.len() + i] == lb[i]);
    }
    if mentions_token(a + b) {
        let i = choose|i: int| 0 <= i < all.len() && sets_token(#[trigger] all[i]);
        if i < la.len() {
            assert(all[i] == la[i]);
        } else {
            assert(all[i] == lb[i - la.len()]);
        }
    }
}

/// Setting the token goes part by part: a part with no line for the key stays as it is, but
/// for a line feed at the end of the last one, and in a part with such lines the token is set
/// as in a text of its own.
pub proof fn law_token_is_set_part_by_part(a: Seq<char>, b: Seq<char>, token: Seq<char>)
    requires
        a.len() == 0 || a.last() == '\n',
    ensures
        ({
            let key = "//registry.npmjs.org/:_authToken="@;
            let in_a = exists|i: int|
                0 <= i < text::lines_of(a).len() && key.is_prefix_of(
                    text::trimmed_start(#[trigger] text::lines_of(a)[i]),
                );
            let in_b = exists|i: int|
                0 <= i < text::lines_of(b).len() && key.is_prefix_of(
                    text::trimmed_start(#[trigger] text::lines_of(b)[i]),
                );
            let closed = if b.len() == 0 || b.last() == '\n' {
                b
            } else {
                b.push('\n')
            };
            &&& in_a && in_b ==> upserted(a + b, token) == upserted(a, token) + upserted(b, token)
            &&& in_a && !in_b ==> upserted(a + b, token) == upserted(a, token) + closed
            &&& !in_a && in_b ==> upserted(a + b, token) == a + upserted(b, token)
        }),
{
    let e = token_line(token);
    lemma_token_prefix_literal();
    lemma_mentions_concat(a, b);
    lemma_rewritten_concat(a, b, e);
    assert(mentions_token(a) <==> exists|i: int|
        0 <= i < text::lines_of(a).len() && "//registry.npmjs.org/:_authToken="@.is_prefix_of(
            text::trimmed_start(#[trigger] text::lines_of(a)[i]),
        ));
    assert(mentions_token(b) <==> exists|i: int|
        0 <= i < text::lines_of(b).len() && "//registry.npmjs.org/:_authToken="@.is_prefix_of(
            text::trimmed_start(#[trigger] text::lines_of(b)[i]),
        ));
    if !mentions_token(a) {
        lemma_rewritten_without_token(a, e);
    }
    if !mentions_token(b) {
        lemma_rewritten_without_token(b, e);
    }
}

/// Nothing is written where no token was entered, and nothing else is a reason not to write:
/// any token that was, whatever it is made of, is put in place as it is.
pub proof fn law_entered_token_is_written(existing: Seq<char>, token: Seq<char>, c: char)
    ensures
        npm_update(existing, Seq::<char>::empty()) is None,
        npm_update(existing, token.push(c)) == Some(upserted(existing, token.push(c))),
{
}

/// The file and the key are those that npm reads.
pub proof fn law_names_are_those_of_npm()
    ensures
        npm::NPMRC_FILE@ == ".npmrc"@,
        npm::NPM_TOKEN_KEY@ == "//registry.npmjs.org/:_authToken"@,
{
}

} // verus!
