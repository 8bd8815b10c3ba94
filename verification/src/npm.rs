//! The npm step: the auth token of the npm registry in `.npmrc`.
use crate::text;
use vstd::prelude::*;

verus! {

/// Where the `.npmrc` is, from the home directory.
pub const NPMRC_FILE: &'static str = ".npmrc";

/// The `.npmrc` key of the auth token for `https://registry.npmjs.org`.
pub const NPM_TOKEN_KEY: &'static str = "//registry.npmjs.org/:_authToken";

/// How a line that sets the token begins.
pub open spec fn token_prefix() -> Seq<char> {
    "//registry.npmjs.org/:_authToken"@ + "="@
}

/// The line that sets the token to `token`.
pub open spec fn token_line(token: Seq<char>) -> Seq<char> {
    token_prefix() + token
}

/// `line` sets the token, to whatever value.
pub open spec fn sets_token(line: Seq<char>) -> bool {
    token_prefix().is_prefix_of(text::trimmed_start(line))
}

/// The value to which `line` sets the token.
pub open spec fn token_value(line: Seq<char>) -> Seq<char> {
    text::trimmed_start(line).skip(token_prefix().len() as int)
}

/// Some line of `content` sets the token.
pub open spec fn mentions_token(content: Seq<char>) -> bool {
    exists|i: int|
        0 <= i < text::lines_of(content).len() && sets_token(#[trigger] text::lines_of(content)[i])
}

/// Some line of `content` sets the token to more than white space.
pub open spec fn has_token(content: Seq<char>) -> bool {
    exists|i: int|
        0 <= i < text::lines_of(content).len() && sets_token(#[trigger] text::lines_of(content)[i])
            && !text::blank(token_value(text::lines_of(content)[i]))
}

/// `content` with `entry` in place of each line that sets the token, and a line feed behind
/// the last line.
pub open spec fn rewritten(content: Seq<char>, entry: Seq<char>) -> Seq<char>
    decreases content.len(),
    via rewritten_decreases
{
    let i = text::first_index(content, '\n');
    let line = content.take(i);
    let kept = if sets_token(line) {
        entry
    } else {
        line
    };
    if content.len() == 0 {
        seq![]
    } else if i < content.len() {
        kept + "\n"@ + rewritten(content.skip(i + 1), entry)
    } else {
        kept + "\n"@
    }
}

#[via_fn]
proof fn rewritten_decreases(content: Seq<char>, entry: Seq<char>) {
    text::lemma_first_index(content, '\n');
}

/// `content` with the token set to `token`: in the lines that set it, or in a new last line
/// where none does.
pub open spec fn upserted(content: Seq<char>, token: Seq<char>) -> Seq<char> {
    if mentions_token(content) {
        rewritten(content, token_line(token))
    } else {
        rewritten(content, token_line(token)) + token_line(token) + "\n"@
    }
}

proof fn lemma_token_prefix_has_no_return()
    ensures
        token_prefix().len() > 0,
        !text::has_line_break(token_prefix()),
        text::solid(token_prefix()),
{
    reveal_strlit("//registry.npmjs.org/:_authToken");
    reveal_strlit("=");
}

/// A carriage return at the end of a line is of no account to whether it sets the token,
/// nor to whether what it sets is blank.
pub(crate) proof fn lemma_chomped_token(line: Seq<char>)
    ensures
        sets_token(text::chomped(line)) == sets_token(line),
        sets_token(line) ==> text::blank(token_value(text::chomped(line))) == text::blank(
            token_value(line),
        ),
{
    lemma_token_prefix_has_no_return();
    if line.len() > 0 && line.last() == '\r' {
        let short = text::chomped(line);
        let p = token_prefix();
        text::lemma_trimmed_blank(line);
        text::lemma_trimmed_blank(short);
        if text::blank(line) {
            assert(text::blank(short));
            assert(!sets_token(line));
            assert(!sets_token(short));
        } else {
            let (i, j) = text::lemma_trim_bounds(line);
            assert(i < short.len());
            assert forall|k: int| 0 <= k < i implies text::white_space(#[trigger] short[k]) by {
                assert(short[k] == line[k]);
            }
            assert(short[i] == line[i]);
            text::lemma_trimmed_start_is(line, i);
            text::lemma_trimmed_start_is(short, i);
            let a = line.skip(i);
            let b = short.skip(i);
            assert(b =~= a.drop_last());
            if p.is_prefix_of(a) {
                if p.len() == a.len() {
                    assert(p.last() == '\r');
                    assert(p.contains(p.last()));
                }
                assert(p =~= b.subrange(0, p.len() as int));
                let va = a.skip(p.len() as int);
                let vb = b.skip(p.len() as int);
                assert(vb =~= va.drop_last());
                assert(va.last() == '\r');
                if text::blank(vb) {
                    assert forall|k: int| 0 <= k < va.len() implies text::white_space(
                        #[trigger] va[k],
                    ) by {
                        if k < vb.len() {
                            assert(vb[k] == va[k]);
                        }
                    }
                }
                if text::blank(va) {
                    assert forall|k: int| 0 <= k < vb.len() implies text::white_space(
                        #[trigger] vb[k],
                    ) by {
                        assert(vb[k] == va[k]);
                    }
                }
            }
            if p.is_prefix_of(b) {
                assert(p =~= a.subrange(0, p.len() as int));
            }
        }
    }
}

/// The first line of a text sets the token, or one behind it does.
pub(crate) proof fn lemma_mentions_cons(line: Seq<char>, rest: Seq<char>)
    requires
        !line.contains('\n'),
    ensures
        mentions_token(line + seq!['\n'] + rest) <==> sets_token(line) || mentions_token(rest),
{
    let s = line + seq!['\n'] + rest;
    let all = text::lines_of(s);
    let more = text::lines_of(rest);
    text::lemma_lines_cons(line, rest);
    lemma_chomped_token(line);
    assert(all[0] == text::chomped(line));
    if mentions_token(rest) {
        let i = choose|i: int| 0 <= i < more.len() && sets_token(#[trigger] more[i]);
        assert(all[i + 1] == more[i]);
    }
    if mentions_token(s) {
        let i = choose|i: int| 0 <= i < all.len() && sets_token(#[trigger] all[i]);
        if i > 0 {
            assert(all[i] == more[i - 1]);
        }
    }
}

proof fn lemma_mentions_single(line: Seq<char>)
    requires
        !line.contains('\n'),
        line.len() > 0,
    ensures
        mentions_token(line) <==> sets_token(line),
{
    text::lemma_lines_single(line);
    assert(text::lines_of(line)[0] == line);
}

/// Tells whether `line` sets the token, and to what.
fn token_in<'a>(line: &'a str) -> (value: Option<&'a str>)
    ensures
        value is Some <==> sets_token(line@),
        value matches Some(v) ==> v@ == token_value(line@),
{
    let mut prefix = NPM_TOKEN_KEY.to_string();
    prefix.append("=");
    text::strip_prefix(text::trim_start(line), prefix.as_str())
}

/// Tells whether an `.npmrc` has the auth token. A line that sets it to nothing, or to
/// white space, does not count.
pub fn npmrc_has_token(content: &str) -> (found: bool)
    ensures
        found == has_token(content@),
{
    let lines = text::lines(content);
    let ghost all = text::lines_of(content@);
    let mut i: usize = 0;
    while i < lines.len()
        invariant
            i <= lines.len(),
            all == text::lines_of(content@),
            text::slice_texts(lines@) == all,
            forall|j: int|
                0 <= j < i ==> !(sets_token(#[trigger] all[j]) && !text::blank(
                    token_value(all[j]),
                )),
        decreases lines.len() - i,
    {
        assert(all[i as int] == lines@[i as int]@);
        match token_in(lines[i]) {
            Some(value) => {
                if !text::is_blank(value) {
                    return true;
                }
            },
            None => {},
        }
        i += 1;
    }
    false
}

/// Sets the auth token in an `.npmrc`. The lines that set it already are replaced; where
/// there are none, one is added at the end. The other lines are kept to the letter.
pub fn upsert_npmrc_line(content: &str, token: &str) -> (updated: String)
    ensures
        updated@ == upserted(content@, token@),
{
    let mut entry = NPM_TOKEN_KEY.to_string();
    entry.append("=");
    entry.append(token);
    let ghost e = token_line(token@);
    let cs = text::chars(content);
    let mut updated = String::new();
    let mut found = false;
    let mut start: usize = 0;
    let mut i: usize = 0;
    proof {
        reveal_strlit("\n");
        assert("\n"@ =~= seq!['\n']);
        assert(content@.skip(0) =~= content@);
        assert(updated@ + rewritten(content@, e) =~= rewritten(content@, e));
        assert(entry@ =~= e);
    }
    while i < cs.len()
        invariant
            cs@ == content@,
            entry@ == e,
            "\n"@ == seq!['\n'],
            start <= i <= cs.len(),
            forall|j: int| start <= j < i ==> #[trigger] content@[j] != '\n',
            updated@ + rewritten(content@.skip(start as int), e) == rewritten(content@, e),
            (found || mentions_token(content@.skip(start as int))) == mentions_token(content@),
        decreases cs.len() - i,
    {
        if cs[i] == '\n' {
            let line = content.substring_char(start, i);
            let ghost rest = content@.skip(start as int);
            let ghost tail = content@.skip(i + 1);
            let ghost done = updated@;
            proof {
                text::lemma_first_index_is(rest, '\n', i - start);
                assert(rest.take(i - start) =~= line@);
                assert(rest.skip(i - start + 1) =~= tail);
                assert(!line@.contains('\n')) by {
                    assert forall|j: int| 0 <= j < line@.len() implies line@[j] != '\n' by {
                        assert(line@[j] == content@[start + j]);
                    }
                }
                assert(rest =~= line@ + seq!['\n'] + tail);
                lemma_mentions_cons(line@, tail);
            }
            if token_in(line).is_some() {
                found = true;
                updated.append(entry.as_str());
            } else {
                updated.append(line);
            }
            updated.append("\n");
            start = i + 1;
            assert(updated@ + rewritten(tail, e) =~= done + rewritten(rest, e));
        }
        i += 1;
    }
    let ghost rest = content@.skip(start as int);
    if start < cs.len() {
        let line = content.substring_char(start, cs.len());
        let ghost done = updated@;
        proof {
            text::lemma_first_index_is(rest, '\n', rest.len() as int);
            assert(rest.take(rest.len() as int) =~= rest);
            assert(line@ =~= rest);
            assert(!line@.contains('\n')) by {
                assert forall|j: int| 0 <= j < line@.len() implies line@[j] != '\n' by {
                    assert(line@[j] == content@[start + j]);
                }
            }
            lemma_mentions_single(line@);
        }
        if token_in(line).is_some() {
            found = true;
            updated.append(entry.as_str());
        } else {
            updated.append(line);
        }
        updated.append("\n");
        assert(updated@ =~= done + rewritten(rest, e));
    } else {
        proof {
            assert(rest =~= seq![]);
            assert(text::lines_of(rest).len() == 0);
            assert(updated@ =~= updated@ + rewritten(rest, e));
        }
    }
    if !found {
        updated.append(entry.as_str());
        updated.append("\n");
    }
    updated
}

/// What the npm step does on finding an `.npmrc`.
#[derive(Debug, Clone, Copy, PartialEq, Eq, Structural)]
pub enum NpmPlan {
    /// The token is there; nothing is left to do.
    AlreadyConfigured,
    /// Say what would be done, and do nothing.
    DryRun,
    /// Ask for the token.
    AskToken,
}

/// What the npm step does with the token that was entered.
#[derive(Debug, PartialEq, Eq)]
pub enum NpmUpdate {
    /// None was entered; nothing is written.
    Skip,
    /// Write this as the new `.npmrc`, for its owner alone to read and write.
    Write(String),
}

/// What to do on finding `existing` as the `.npmrc`.
pub open spec fn npm_plan(existing: Seq<char>, dry_run: bool) -> NpmPlan {
    if has_token(existing) {
        NpmPlan::AlreadyConfigured
    } else if dry_run {
        NpmPlan::DryRun
    } else {
        NpmPlan::AskToken
    }
}

/// Decides what to do on finding `existing` as the `.npmrc`; one that does not exist is
/// empty.
pub fn plan_npm_step(existing: &str, dry_run: bool) -> (plan: NpmPlan)
    ensures
        plan == npm_plan(existing@, dry_run),
{
    if npmrc_has_token(existing) {
        NpmPlan::AlreadyConfigured
    } else if dry_run {
        NpmPlan::DryRun
    } else {
        NpmPlan::AskToken
    }
}

/// The `.npmrc` to write when `token` was entered, if any is.
pub open spec fn npm_update(existing: Seq<char>, token: Seq<char>) -> Option<Seq<char>> {
    if token.len() == 0 {
        None
    } else {
        Some(upserted(existing, token))
    }
}

/// Decides what to write when `token` was entered.
pub fn npm_token_entered(existing: &str, token: &str) -> (update: NpmUpdate)
    ensures
        match update {
            NpmUpdate::Skip => token@.len() == 0,
            NpmUpdate::Write(new) => token@.len() > 0 && new@ == upserted(existing@, token@),
        },
        npm_update(existing@, token@) == match update {
            NpmUpdate::Skip => None,
            NpmUpdate::Write(new) => Some(new@),
        },
{
    if token.is_empty() {
        NpmUpdate::Skip
    } else {
        NpmUpdate::Write(upsert_npmrc_line(existing, token))
    }
}

} // verus!
