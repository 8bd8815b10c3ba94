use starbase::error::{CountError, SetupError};
use starbase::identities::{SshIdentity, SshIdentityFile};
use starbase::ssh_config::{
    append_ssh_host, format_host_entry, line_names_host, ssh_config_has_host,
    validate_host_entry_fields, validate_identity_fields,
};
use starbase::ssh_step::{SshNotice, SshState};

fn identity(alias: &str, username: &str, key: &str) -> SshIdentity {
    SshIdentity {
        alias: alias.to_string(),
        username: username.to_string(),
        key: key.to_string(),
    }
}

fn step(state: SshState, answer: &str) -> SshState {
    let (next, notice) = state.answer(answer);
    assert_eq!(notice, SshNotice::Quiet);
    next
}

/// A step that has just been told how many identities there are and what is on record.
fn begun(count: &str, store: SshIdentityFile) -> SshState {
    let state = step(SshState::start(false), count);
    assert!(matches!(state, SshState::Loading { .. }));
    state.loaded(store)
}

#[test]
fn entry_to_the_letter() {
    assert_eq!(
        format_host_entry("github-work", "~/.ssh/id").unwrap(),
        "Host github-work\n    HostName github.com\n    User git\n    IdentityFile ~/.ssh/id\n"
    );
}

#[test]
fn each_fault_of_an_entry() {
    assert_eq!(validate_host_entry_fields("a\n", ""), Err(SetupError::AliasLineBreak));
    assert_eq!(validate_host_entry_fields("a\r", "k"), Err(SetupError::AliasLineBreak));
    assert_eq!(validate_host_entry_fields("a b", "k\n"), Err(SetupError::KeyLineBreak));
    assert_eq!(
        validate_host_entry_fields("a b", ""),
        Err(SetupError::AliasWhiteSpace("a b".to_string()))
    );
    assert_eq!(validate_host_entry_fields("a", ""), Err(SetupError::EmptyKey));
    assert_eq!(validate_host_entry_fields("", "k"), Ok(()));
    assert_eq!(validate_host_entry_fields("a", "k k"), Ok(()));
}

#[test]
fn entry_is_four_lines() {
    let entry = format_host_entry("a", " \u{2028}Host x").unwrap();
    assert_eq!(entry.lines().count(), 4);
    assert!(!ssh_config_has_host(&entry, "x"));
}

#[test]
fn appending_to_the_letter() {
    let entry = format_host_entry("a", "k").unwrap();
    assert_eq!(append_ssh_host("", "a", "k").unwrap(), entry);
    assert_eq!(append_ssh_host("x\n", "a", "k").unwrap(), format!("x\n\n{entry}"));
    assert_eq!(append_ssh_host("x", "a", "k").unwrap(), format!("x\n\n{entry}"));
    assert_eq!(append_ssh_host("x\r", "a", "k").unwrap(), format!("x\r\n\n{entry}"));
}

#[test]
fn added_host_is_found_and_others_stay() {
    let content = "Host b c # d\r\n  Port 22\r";
    let updated = append_ssh_host(content, "a", "k").unwrap();
    assert!(updated.starts_with(content));
    for alias in ["a", "b", "c"] {
        assert!(ssh_config_has_host(&updated, alias));
    }
    for alias in ["d", "k", "git", "github.com", "", "b c"] {
        assert!(!ssh_config_has_host(&updated, alias));
    }
}

#[test]
fn host_lines() {
    assert!(line_names_host("\tHost\ta\tb  ", "b"));
    assert!(line_names_host("Host a#b", "a"));
    assert!(!line_names_host("Host#a", "a"));
    assert!(!line_names_host("Host", ""));
    assert!(!line_names_host("Hosta", "a"));
    assert!(!line_names_host("HostName a", "a"));
    assert!(!line_names_host("host a", "a"));
    assert!(!line_names_host("# Host a", "a"));
    assert!(!line_names_host("Match Host a", "a"));
}

#[test]
fn upsert_is_keyed_by_alias() {
    let mut file = SshIdentityFile::default();
    file.upsert(identity("a", "u", "k"));
    file.upsert(identity("b", "v", "l"));
    file.upsert(identity("a", "w", "m"));
    assert_eq!(file.identity, vec![identity("a", "w", "m"), identity("b", "v", "l")]);
    assert_eq!(file.position(&"b".to_string()), 1);
    assert_eq!(file.position(&"c".to_string()), 2);
}

#[test]
fn dry_run_stays_a_dry_run() {
    let state = SshState::start(true);
    let (state, _) = state.answer("3");
    let state = state.loaded(SshIdentityFile::default());
    let (state, _) = state.config_read("");
    let state = state.config_written().saved();
    assert!(matches!(state, SshState::DryRun));
}

#[test]
fn count_decides_how_the_step_goes_on() {
    assert!(matches!(step(SshState::start(false), " 0 "), SshState::Skipped));
    assert!(matches!(step(SshState::start(false), "2"), SshState::Loading { count: 2 }));
    match step(SshState::start(false), "-2") {
        SshState::Failed { error } => {
            assert_eq!(error, SetupError::Count(CountError::InvalidDigit))
        }
        other => panic!("{other:?}"),
    }
}

#[test]
fn new_identity_is_written_and_recorded() {
    let state = begun("1", SshIdentityFile::default());
    let state = step(state, " github-work ");
    let state = step(state, " me ");
    let state = step(state, " ~/.ssh/id ");
    assert!(matches!(state, SshState::ReadingConfig { .. }));
    let (state, notice) = state.config_read("Host other\n");
    assert_eq!(notice, SshNotice::Quiet);
    match &state {
        SshState::WritingConfig { config, .. } => {
            assert_eq!(*config, append_ssh_host("Host other\n", "github-work", "~/.ssh/id").unwrap())
        }
        other => panic!("{other:?}"),
    }
    match state.config_written() {
        SshState::Saving { store } => {
            assert_eq!(store.identity, vec![identity("github-work", "me", "~/.ssh/id")]);
            assert!(matches!(SshState::Saving { store }.saved(), SshState::Saved));
        }
        other => panic!("{other:?}"),
    }
}

#[test]
fn configured_identity_keeps_its_key() {
    let mut store = SshIdentityFile::default();
    store.upsert(identity("a", "old", "k"));
    let state = begun("2", store);
    let state = step(step(step(state, "a"), "new"), "l");
    let (state, notice) = state.config_read("Host a\n");
    assert_eq!(notice, SshNotice::AlreadyConfigured);
    match state {
        SshState::AskingAlias { progress } => {
            assert_eq!((progress.index, progress.count), (2, 2));
            assert_eq!(progress.store.identity, vec![identity("a", "old", "k")]);
        }
        other => panic!("{other:?}"),
    }
}

#[test]
fn configured_identity_without_a_record_is_recorded() {
    let state = begun("1", SshIdentityFile::default());
    let state = step(step(step(state, "a"), "new"), "l");
    match state.config_read("Host a\n") {
        (SshState::Saving { store }, SshNotice::AlreadyConfigured) => {
            assert_eq!(store.identity, vec![identity("a", "new", "l")])
        }
        other => panic!("{other:?}"),
    }
}

#[test]
fn host_is_added_once() {
    let state = begun("2", SshIdentityFile::default());
    let state = step(step(step(state, "a"), "u"), "k");
    let (state, _) = state.config_read("");
    let written = append_ssh_host("", "a", "k").unwrap();
    let state = state.config_written();
    let state = step(step(step(state, "a"), "v"), "l");
    match state.config_read(&written) {
        (SshState::Saving { store }, SshNotice::AlreadyConfigured) => {
            assert_eq!(store.identity, vec![identity("a", "u", "k")])
        }
        other => panic!("{other:?}"),
    }
}

#[test]
fn empty_alias_is_passed_over() {
    let state = begun("2", SshIdentityFile::default());
    let (state, notice) = state.answer("  ");
    assert_eq!(notice, SshNotice::EmptyAlias);
    match state.answer("") {
        (SshState::Saving { store }, SshNotice::EmptyAlias) => assert!(store.identity.is_empty()),
        other => panic!("{other:?}"),
    }
}

#[test]
fn missing_username_and_bad_key_end_the_step() {
    let state = step(begun("1", SshIdentityFile::default()), "a");
    match step(state, " ") {
        SshState::Failed { error } => assert_eq!(error, SetupError::EmptyUsername),
        other => panic!("{other:?}"),
    }
    let state = step(step(begun("1", SshIdentityFile::default()), "a"), "u");
    match step(state, " ") {
        SshState::Failed { error } => assert_eq!(error, SetupError::EmptyKey),
        other => panic!("{other:?}"),
    }
    let state = step(step(begun("1", SshIdentityFile::default()), "a b"), "u");
    match step(state, "k") {
        SshState::Failed { error } => {
            assert_eq!(error, SetupError::AliasWhiteSpace("a b".to_string()))
        }
        other => panic!("{other:?}"),
    }
}

#[test]
fn event_that_was_not_asked_for_changes_nothing() {
    let state = SshState::start(false).config_written().saved();
    let (state, notice) = state.config_read("Host a\n");
    assert_eq!(notice, SshNotice::Quiet);
    assert!(matches!(state.loaded(SshIdentityFile::default()), SshState::AskingCount));
}

#[test]
fn alias_with_a_hash_is_refused() {
    let refused = Err(SetupError::AliasComment("a#b".to_string()));
    assert_eq!(validate_identity_fields("a#b", "k"), refused);
    assert_eq!(validate_identity_fields("a#b", ""), Err(SetupError::EmptyKey));
    assert_eq!(
        validate_identity_fields("a #", "k"),
        Err(SetupError::AliasWhiteSpace("a #".to_string()))
    );
    assert_eq!(validate_identity_fields("ab", "k#l"), Ok(()));
    let state = step(step(begun("1", SshIdentityFile::default()), "a#b"), "u");
    match step(state, "k") {
        SshState::Failed { error } => assert_eq!(Err(error), refused),
        other => panic!("{other:?}"),
    }
}

/// Runs the whole dialogue on files held in memory. Gives the new configuration and, where
/// the dialogue came to its end, the new store.
fn run(config: &str, store: SshIdentityFile, answers: &[&str]) -> (String, Option<SshIdentityFile>) {
    let mut config = config.to_string();
    let mut saved: Option<SshIdentityFile> = None;
    let mut loaded = Some(store);
    let mut given = answers.iter();
    let mut state = SshState::start(false);
    loop {
        state = match state {
            SshState::Loading { count } => {
                SshState::Loading { count }.loaded(loaded.take().unwrap())
            }
            SshState::ReadingConfig { progress, identity } => {
                SshState::ReadingConfig { progress, identity }.config_read(&config).0
            }
            SshState::WritingConfig { progress, identity, config: text } => {
                config = text.clone();
                SshState::WritingConfig { progress, identity, config: text }.config_written()
            }
            SshState::Saving { store } => {
                saved = Some(SshIdentityFile { identity: store.identity.clone() });
                SshState::Saving { store }.saved()
            }
            SshState::Saved | SshState::Skipped | SshState::DryRun | SshState::Failed { .. } => {
                return (config, saved);
            }
            asking => asking.answer(given.next().unwrap()).0,
        };
    }
}

#[test]
fn second_run_with_the_same_answers_changes_nothing() {
    let mut store = SshIdentityFile::default();
    store.upsert(identity("old", "o", "p"));
    let before = "Host old known # note\r\n  Port 22\r";
    let answers = ["5", " a ", "u", "k", "", "b", "v", "l", "known", "w", "m", "a", "x", "n"];
    let (config, saved) = run(before, store, &answers);
    let first = saved.unwrap();
    assert!(config.starts_with(before));
    for alias in ["a", "b", "old", "known"] {
        assert!(ssh_config_has_host(&config, alias));
    }
    assert_eq!(
        first.identity,
        vec![
            identity("old", "o", "p"),
            identity("a", "u", "k"),
            identity("b", "v", "l"),
            identity("known", "w", "m"),
        ]
    );
    let again = SshIdentityFile { identity: first.identity.clone() };
    let (config_again, saved_again) = run(&config, again, &answers);
    assert_eq!(config_again, config);
    assert_eq!(saved_again.unwrap().identity, first.identity);
}

#[test]
fn failed_run_saves_nothing() {
    let (config, saved) = run("", SshIdentityFile::default(), &["2", "a", "u", "k", "b", " "]);
    assert_eq!(config, format_host_entry("a", "k").unwrap());
    assert!(saved.is_none());
    let (config, saved) = run("x", SshIdentityFile::default(), &["1", "a#b", "u", "k"]);
    assert_eq!(config, "x");
    assert!(saved.is_none());
}
