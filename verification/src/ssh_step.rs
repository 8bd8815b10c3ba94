//! The SSH step: a dialogue that asks for identities, adds each to the SSH configuration
//! and keeps them on record.
//!
//! The caller does what the state asks for (puts a question, reads or writes a file) and
//! hands back what came of it; the step decides what follows.
use crate::count;
use crate::error::{Fault, SetupError};
use crate::identities;
use crate::identities::{IdentityView, SshIdentity, SshIdentityFile};
use crate::ssh_config;
use crate::text;
use vstd::prelude::*;

verus! {

/// Where the SSH configuration is, from the home directory.
pub const SSH_CONFIG_FILE: &'static str = ".ssh/config";

/// Where the identities on record are, from the home directory.
pub const SSH_IDENTITIES_FILE: &'static str = ".config/starbase/ssh-identities.toml";

/// How far the dialogue has come.
#[derive(Debug)]
pub struct Progress {
    /// The identity that is being asked for, counted from one.
    pub index: usize,
    /// How many identities there are.
    pub count: usize,
    /// The identities on record.
    pub store: SshIdentityFile,
}

/// What the step needs next, or how it ended.
#[derive(Debug)]
pub enum SshState {
    /// Say what would be done, and do nothing.
    DryRun,
    /// Ask how many identities there are.
    AskingCount,
    /// Load the identities on record.
    Loading { count: usize },
    /// Ask for the alias of the next identity.
    AskingAlias { progress: Progress },
    /// Ask for its GitHub username.
    AskingUsername { progress: Progress, alias: String },
    /// Ask for the path to its key.
    AskingKey { progress: Progress, alias: String, username: String },
    /// Read the SSH configuration; one that does not exist is empty.
    ReadingConfig { progress: Progress, identity: SshIdentity },
    /// Write `config` as the new SSH configuration.
    WritingConfig { progress: Progress, identity: SshIdentity, config: String },
    /// Save the identities on record.
    Saving { store: SshIdentityFile },
    /// There were no identities to ask for.
    Skipped,
    /// All identities are on record and saved.
    Saved,
    /// The step was given up; the identities on record are not saved.
    Failed { error: SetupError },
}

/// A [`Progress`] with its store taken as a sequence.
pub struct ProgressView {
    pub index: usize,
    pub count: usize,
    pub store: Seq<IdentityView>,
}

/// An [`SshState`] with its texts taken as sequences of characters.
pub enum StateView {
    DryRun,
    AskingCount,
    Loading { count: usize },
    AskingAlias { progress: ProgressView },
    AskingUsername { progress: ProgressView, alias: Seq<char> },
    AskingKey { progress: ProgressView, alias: Seq<char>, username: Seq<char> },
    ReadingConfig { progress: ProgressView, identity: IdentityView },
    WritingConfig { progress: ProgressView, identity: IdentityView, config: Seq<char> },
    Saving { store: Seq<IdentityView> },
    Skipped,
    Saved,
    Failed { error: Fault },
}

/// What to tell the user of a decision, beside what the state says.
#[derive(Debug, Clone, Copy, PartialEq, Eq, Structural)]
pub enum SshNotice {
    /// Nothing.
    Quiet,
    /// No alias was given, so this identity is passed over.
    EmptyAlias,
    /// The SSH configuration has the alias already and is left as it is.
    AlreadyConfigured,
}

impl View for Progress {
    type V = ProgressView;

    open spec fn view(&self) -> ProgressView {
        ProgressView { index: self.index, count: self.count, store: self.store@ }
    }
}

impl View for SshState {
    type V = StateView;

    open spec fn view(&self) -> StateView {
        match self {
            SshState::DryRun => StateView::DryRun,
            SshState::AskingCount => StateView::AskingCount,
            SshState::Loading { count } => StateView::Loading { count: *count },
            SshState::AskingAlias { progress } => StateView::AskingAlias { progress: progress@ },
            SshState::AskingUsername { progress, alias } => StateView::AskingUsername {
                progress: progress@,
                alias: alias@,
            },
            SshState::AskingKey { progress, alias, username } => StateView::AskingKey {
                progress: progress@,
                alias: alias@,
                username: username@,
            },
            SshState::ReadingConfig { progress, identity } => StateView::ReadingConfig {
                progress: progress@,
                identity: identity@,
            },
            SshState::WritingConfig { progress, identity, config } => StateView::WritingConfig {
                progress: progress@,
                identity: identity@,
                config: config@,
            },
            SshState::Saving { store } => StateView::Saving { store: store@ },
            SshState::Skipped => StateView::Skipped,
            SshState::Saved => StateView::Saved,
            SshState::Failed { error } => StateView::Failed { error: error@ },
        }
    }
}

impl ProgressView {
    /// The state after an identity was dealt with: the next one is asked for, or, behind
    /// the last, the store is saved.
    pub open spec fn moved_on(self) -> StateView {
        if self.index < self.count {
            StateView::AskingAlias {
                progress: ProgressView { index: (self.index + 1) as usize, ..self },
            }
        } else {
            StateView::Saving { store: self.store }
        }
    }

    /// The state after `identity` was put on record.
    pub open spec fn recorded(self, identity: IdentityView) -> StateView {
        ProgressView { store: identities::upserted(self.store, identity), ..self }.moved_on()
    }
}

/// The state in which the step begins.
pub open spec fn first_state(dry_run: bool) -> StateView {
    if dry_run {
        StateView::DryRun
    } else {
        StateView::AskingCount
    }
}

/// The state that follows `state` when the user answers `answer`.
pub open spec fn after_answer(state: StateView, answer: Seq<char>) -> StateView {
    let given = text::trimmed(answer);
    match state {
        StateView::AskingCount => match count::count_in(given) {
            Ok(n) => if n == 0 {
                StateView::Skipped
            } else {
                StateView::Loading { count: n }
            },
            Err(cause) => StateView::Failed { error: Fault::Count(cause) },
        },
        StateView::AskingAlias { progress } => if given.len() == 0 {
            progress.moved_on()
        } else {
            StateView::AskingUsername { progress, alias: given }
        },
        StateView::AskingUsername { progress, alias } => if given.len() == 0 {
            StateView::Failed { error: Fault::EmptyUsername }
        } else {
            StateView::AskingKey { progress, alias, username: given }
        },
        StateView::AskingKey { progress, alias, username } => match ssh_config::identity_fault(
            alias,
            given,
        ) {
            Some(error) => StateView::Failed { error },
            None => StateView::ReadingConfig {
                progress,
                identity: IdentityView { alias, username, key: given },
            },
        },
        _ => state,
    }
}

/// The state that follows `state` when the identities on record are `store`.
pub open spec fn after_load(state: StateView, store: Seq<IdentityView>) -> StateView {
    match state {
        StateView::Loading { count } => StateView::AskingAlias {
            progress: ProgressView { index: 1, count, store },
        },
        _ => state,
    }
}

/// The state that follows `state` when the SSH configuration is `config`. An alias that
/// it has already is left as it is, there and in the store.
pub open spec fn after_config(state: StateView, config: Seq<char>) -> StateView {
    match state {
        StateView::ReadingConfig { progress, identity } => if ssh_config::has_host(
            config,
            identity.alias,
        ) {
            progress.recorded(identities::resolved(progress.store, identity))
        } else {
            match ssh_config::entry_fault(identity.alias, identity.key) {
                Some(error) => StateView::Failed { error },
                None => StateView::WritingConfig {
                    progress,
                    identity,
                    config: ssh_config::appended(
                        config,
                        ssh_config::host_entry(identity.alias, identity.key),
                    ),
                },
            }
        },
        _ => state,
    }
}

/// The state that follows `state` when the SSH configuration was written.
pub open spec fn after_write(state: StateView) -> StateView {
    match state {
        StateView::WritingConfig { progress, identity, config } => progress.recorded(identity),
        _ => state,
    }
}

/// The state that follows `state` when the identities on record were saved.
pub open spec fn after_save(state: StateView) -> StateView {
    match state {
        StateView::Saving { store } => StateView::Saved,
        _ => state,
    }
}

/// What to tell the user of an answer.
pub open spec fn answer_notice(state: StateView, answer: Seq<char>) -> SshNotice {
    if state is AskingAlias && text::blank(answer) {
        SshNotice::EmptyAlias
    } else {
        SshNotice::Quiet
    }
}

/// What to tell the user of the SSH configuration.
pub open spec fn config_notice(state: StateView, config: Seq<char>) -> SshNotice {
    if state matches StateView::ReadingConfig { identity, .. } && ssh_config::has_host(
        config,
        identity.alias,
    ) {
        SshNotice::AlreadyConfigured
    } else {
        SshNotice::Quiet
    }
}

impl Progress {
    /// Goes on behind an identity that was dealt with.
    fn move_on(self) -> (next: SshState)
        ensures
            next@ == self@.moved_on(),
    {
        if self.index < self.count {
            SshState::AskingAlias {
                progress: Progress {
                    index: self.index + 1,
                    count: self.count,
                    store: self.store,
                },
            }
        } else {
            SshState::Saving { store: self.store }
        }
    }

    /// Puts `identity` on record and goes on.
    fn record(self, identity: SshIdentity) -> (next: SshState)
        ensures
            next@ == self@.recorded(identity@),
    {
        let Progress { index, count, mut store } = self;
        store.upsert(identity);
        Progress { index, count, store }.move_on()
    }
}

impl SshState {
    /// Begins the step.
    pub fn start(dry_run: bool) -> (state: SshState)
        ensures
            state@ == first_state(dry_run),
    {
        if dry_run {
            SshState::DryRun
        } else {
            SshState::AskingCount
        }
    }

    /// Takes the user's answer to the question that the state puts. In a state that puts
    /// none, nothing changes.
    pub fn answer(self, answer: &str) -> (next: (SshState, SshNotice))
        ensures
            next.0@ == after_answer(self@, answer@),
            next.1 == if self@ is AskingAlias && text::blank(answer@) {
                SshNotice::EmptyAlias
            } else {
                SshNotice::Quiet
            },
            next.1 == answer_notice(self@, answer@),
    {
        proof {
            text::lemma_trimmed_blank(answer@);
        }
        match self {
            SshState::AskingCount => {
                let next = match count::parse_identity_count(answer) {
                    Ok(n) => if n == 0 {
                        SshState::Skipped
                    } else {
                        SshState::Loading { count: n }
                    },
                    Err(error) => SshState::Failed { error },
                };
                (next, SshNotice::Quiet)
            },
            SshState::AskingAlias { progress } => {
                let given = text::trim(answer);
                if given.is_empty() {
                    (progress.move_on(), SshNotice::EmptyAlias)
                } else {
                    (
                        SshState::AskingUsername { progress, alias: given.to_string() },
                        SshNotice::Quiet,
                    )
                }
            },
            SshState::AskingUsername { progress, alias } => {
                let given = text::trim(answer);
                let next = if given.is_empty() {
                    SshState::Failed { error: SetupError::EmptyUsername }
                } else {
                    SshState::AskingKey { progress, alias, username: given.to_string() }
                };
                (next, SshNotice::Quiet)
            },
            SshState::AskingKey { progress, alias, username } => {
                let given = text::trim(answer);
                let next = match ssh_config::validate_identity_fields(alias.as_str(), given) {
                    Ok(_) => SshState::ReadingConfig {
                        progress,
                        identity: SshIdentity { alias, username, key: given.to_string() },
                    },
                    Err(error) => SshState::Failed { error },
                };
                (next, SshNotice::Quiet)
            },
            other => (other, SshNotice::Quiet),
        }
    }

    /// Takes the identities on record. In a state that does not ask for them, nothing
    /// changes.
    pub fn loaded(self, store: SshIdentityFile) -> (next: SshState)
        ensures
            next@ == after_load(self@, store@),
    {
        match self {
            SshState::Loading { count } => SshState::AskingAlias {
                progress: Progress { index: 1, count, store },
            },
            other => other,
        }
    }

    /// Takes the text of the SSH configuration. In a state that does not ask for it,
    /// nothing changes.
    pub fn config_read(self, config: &str) -> (next: (SshState, SshNotice))
        ensures
            next.0@ == after_config(self@, config@),
            next.1 == if self@ matches StateView::ReadingConfig { identity, .. }
                && ssh_config::has_host(config@, identity.alias) {
                SshNotice::AlreadyConfigured
            } else {
                SshNotice::Quiet
            },
            next.1 == config_notice(self@, config@),
    {
        match self {
            SshState::ReadingConfig { progress, identity } => {
                if ssh_config::ssh_config_has_host(config, identity.alias.as_str()) {
                    let kept = identities::resolve_existing_identity(&progress.store, identity);
                    return (progress.record(kept), SshNotice::AlreadyConfigured);
                }
                let next = match ssh_config::append_ssh_host(
                    config,
                    identity.alias.as_str(),
                    identity.key.as_str(),
                ) {
                    Ok(config) => SshState::WritingConfig { progress, identity, config },
                    Err(error) => SshState::Failed { error },
                };
                (next, SshNotice::Quiet)
            },
            other => (other, SshNotice::Quiet),
        }
    }

    /// Takes note that the SSH configuration was written. In a state that does not ask for
    /// that, nothing changes.
    pub fn config_written(self) -> (next: SshState)
        ensures
            next@ == after_write(self@),
    {
        match self {
            SshState::WritingConfig { progress, identity, .. } => progress.record(identity),
            other => other,
        }
    }

    /// Takes note that the identities on record were saved. In a state that does not ask
    /// for that, nothing changes.
    pub fn saved(self) -> (next: SshState)
        ensures
            next@ == after_save(self@),
    {
        match self {
            SshState::Saving { .. } => SshState::Saved,
            other => other,
        }
    }
}

} // verus!
