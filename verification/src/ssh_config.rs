//! `Host` entries of an OpenSSH client configuration: checking, writing and finding them.
use crate::error::{Fault, SetupError};
use crate::text;
use vstd::prelude::*;

verus! {

/// What stands against an entry for `alias` and `key`, if anything does. A line break
/// could start a directive of its own, and white space would make the alias several.
pub open spec fn entry_fault(alias: Seq<char>, key: Seq<char>) -> Option<Fault> {
    if text::has_line_break(alias) {
        Some(Fault::AliasLineBreak)
    } else if text::has_line_break(key) {
        Some(Fault::KeyLineBreak)
    } else if !text::solid(alias) {
        Some(Fault::AliasWhiteSpace(alias))
    } else if key.len() == 0 {
        Some(Fault::EmptyKey)
    } else {
        None
    }
}

/// What stands against keeping `alias` and `key` as an identity, if anything does: what
/// stands against their entry, and a `#`, behind which the alias would be a comment and
/// could not be found again.
pub open spec fn identity_fault(alias: Seq<char>, key: Seq<char>) -> Option<Fault> {
    match entry_fault(alias, key) {
        Some(fault) => Some(fault),
        None => if alias.contains('#') {
            Some(Fault::AliasComment(alias))
        } else {
            None
        },
    }
}

/// The entry that makes `alias` stand for GitHub with the key at `key`.
pub open spec fn host_entry(alias: Seq<char>, key: Seq<char>) -> Seq<char> {
    "Host "@ + alias + "\n    HostName github.com\n    User git\n    IdentityFile "@ + key + "\n"@
}

/// `entry` behind `content`, with an empty line between the two.
pub open spec fn appended(content: Seq<char>, entry: Seq<char>) -> Seq<char> {
    if content.len() == 0 {
        entry
    } else if content.last() == '\n' {
        content + "\n"@ + entry
    } else {
        content + "\n\n"@ + entry
    }
}

/// What a `Host` line says of its aliases: all that follows the keyword, up to a comment.
/// On any other line, `None`.
pub open spec fn host_patterns(line: Seq<char>) -> Option<Seq<char>> {
    let line = text::trimmed(line);
    let rest = line.skip(4);
    if "Host"@.is_prefix_of(line) && (rest.len() == 0 || text::white_space(rest[0]) || rest[0]
        == '#') {
        Some(text::before(rest, '#'))
    } else {
        None
    }
}

/// `line` is a `Host` line with `alias` among its aliases.
pub open spec fn names_host(line: Seq<char>, alias: Seq<char>) -> bool {
    host_patterns(line) matches Some(patterns) && text::has_word(patterns, alias)
}

/// Some line of `content` is a `Host` line with `alias` among its aliases.
pub open spec fn has_host(content: Seq<char>, alias: Seq<char>) -> bool {
    exists|i: int|
        0 <= i < text::lines_of(content).len() && names_host(
            #[trigger] text::lines_of(content)[i],
            alias,
        )
}

/// Checks an alias and a key path before they are written to a configuration.
pub fn validate_host_entry_fields(alias: &str, key: &str) -> (checked: Result<(), SetupError>)
    ensures
        match checked {
            Ok(_) => entry_fault(alias@, key@) is None,
            Err(e) => entry_fault(alias@, key@) == Some(e@),
        },
{
    if text::contains_char(alias, '\r') || text::contains_char(alias, '\n') {
        return Err(SetupError::AliasLineBreak);
    }
    if text::contains_char(key, '\r') || text::contains_char(key, '\n') {
        return Err(SetupError::KeyLineBreak);
    }
    if !text::is_solid(alias) {
        return Err(SetupError::AliasWhiteSpace(alias.to_string()));
    }
    if key.is_empty() {
        return Err(SetupError::EmptyKey);
    }
    Ok(())
}

/// Checks an alias and a key path before they are kept as an identity: their entry must
/// pass, and the alias must be one that is found again once it was written.
pub fn validate_identity_fields(alias: &str, key: &str) -> (checked: Result<(), SetupError>)
    ensures
        match checked {
            Ok(_) => identity_fault(alias@, key@) is None,
            Err(e) => identity_fault(alias@, key@) == Some(e@),
        },
{
    match validate_host_entry_fields(alias, key) {
        Ok(_) => {
            if text::contains_char(alias, '#') {
                return Err(SetupError::AliasComment(alias.to_string()));
            }
            Ok(())
        },
        Err(e) => Err(e),
    }
}

/// Builds the entry for one identity:
///
/// ```text
/// Host github-personal
///     HostName github.com
///     User git
///     IdentityFile ~/.ssh/id_ed25519_personal
/// ```
pub fn format_host_entry(alias: &str, key: &str) -> (formatted: Result<String, SetupError>)
    ensures
        match formatted {
            Ok(entry) => entry_fault(alias@, key@) is None && entry@ == host_entry(alias@, key@),
            Err(e) => entry_fault(alias@, key@) == Some(e@),
        },
{
    match validate_host_entry_fields(alias, key) {
        Ok(_) => {
            let mut entry = "Host ".to_string();
            entry.append(alias);
            entry.append("\n    HostName github.com\n    User git\n    IdentityFile ");
            entry.append(key);
            entry.append("\n");
            Ok(entry)
        },
        Err(e) => Err(e),
    }
}

/// Tells whether `line` is a `Host` line with `alias` among its aliases.
pub fn line_names_host(line: &str, alias: &str) -> (found: bool)
    ensures
        found == names_host(line@, alias@),
{
    proof {
        reveal_strlit("Host");
    }
    match text::strip_prefix(text::trim(line), "Host") {
        None => false,
        Some(rest) => {
            if !rest.is_empty() {
                let first = rest.get_char(0);
                if !text::is_white_space(first) && first != '#' {
                    return false;
                }
            }
            text::contains_word(text::up_to(rest, '#'), alias)
        },
    }
}

/// Tells whether a configuration has a `Host` line that names `alias`, alone or among
/// others, a trailing comment left aside. Only a whole alias counts.
pub fn ssh_config_has_host(content: &str, alias: &str) -> (found: bool)
    ensures
        found == has_host(content@, alias@),
{
    let lines = text::lines(content);
    let ghost all = text::lines_of(content@);
    let mut i: usize = 0;
    while i < lines.len()
        invariant
            i <= lines.len(),
            all == text::lines_of(content@),
            text::slice_texts(lines@) == all,
            forall|j: int| 0 <= j < i ==> !names_host(#[trigger] all[j], alias@),
        decreases lines.len() - i,
    {
        assert(all[i as int] == lines@[i as int]@);
        if line_names_host(lines[i], alias) {
            return true;
        }
        i += 1;
    }
    false
}

/// Adds an entry at the end of a configuration, behind an empty line.
pub fn append_ssh_host(content: &str, alias: &str, key: &str) -> (updated: Result<
    String,
    SetupError,
>)
    ensures
        match updated {
            Ok(new) => entry_fault(alias@, key@) is None && new@ == appended(
                content@,
                host_entry(alias@, key@),
            ),
            Err(e) => entry_fault(alias@, key@) == Some(e@),
        },
{
    match format_host_entry(alias, key) {
        Ok(entry) => {
            let n = content.unicode_len();
            if n == 0 {
                return Ok(entry);
            }
            let mut new = content.to_string();
            if content.get_char(n - 1) == '\n' {
                new.append("\n");
            } else {
                new.append("\n\n");
            }
            new.append(entry.as_str());
            Ok(new)
        },
        Err(e) => Err(e),
    }
}

} // verus!
