//! Laws of the SSH step, turn by turn: what each answer, and each file that was read or
//! written, makes of the dialogue.
use crate::count;
use crate::error::{CountError, Fault, SetupError};
use crate::identities;
use crate::identities::IdentityView;
use crate::ssh_config;
use crate::ssh_config_laws;
use crate::ssh_step;
use crate::ssh_step::{ProgressView, SshNotice, SshState, StateView};
use crate::text;
use crate::text_laws;
use vstd::prelude::*;

verus! {

/// A dry run says what it would do, and any other asks first how many identities there are.
pub proof fn law_step_begins_with_the_count(dry_run: bool)
    ensures
        ssh_step::first_state(dry_run) is DryRun <==> dry_run,
        ssh_step::first_state(dry_run) is AskingCount <==> !dry_run,
{
}

/// The answer to how many identities there are: none ends the step, any other number is
/// taken on, and what is no number fails for what is wrong with it. White space around the
/// number is of no account, and by itself is the same as no answer.
pub proof fn law_count_is_taken(front: Seq<char>, s: Seq<char>, back: Seq<char>)
    requires
        text::blank(front),
        text::blank(back),
        s.len() > 0 && !text::white_space(s[0]) && !text::white_space(s.last()),
    ensures
        count::count_in(s) matches Ok(n) ==> ssh_step::after_answer(
            StateView::AskingCount,
            front + s + back,
        ) == if n == 0 {
            StateView::Skipped
        } else {
            StateView::Loading { count: n }
        },
        count::count_in(s) matches Err(cause) ==> ssh_step::after_answer(
            StateView::AskingCount,
            front + s + back,
        ) == (StateView::Failed { error: Fault::Count(cause) }),
        ssh_step::after_answer(StateView::AskingCount, front) == (StateView::Failed {
            error: Fault::Count(CountError::Empty),
        }),
{
    text_laws::law_trimming_takes_the_ends(front, s, back);
    text_laws::law_trimming_a_blank_leaves_nothing(front);
}

/// Once the identities on record are there, the first identity is asked for.
pub proof fn law_first_identity_is_asked_for(count: usize, store: Seq<IdentityView>)
    ensures
        ssh_step::after_load(StateView::Loading { count }, store) matches StateView::AskingAlias {
            progress,
        } && progress.index == 1 && progress.count == count && progress.store == store,
{
}

/// The answers for one identity are taken one after the other, without the white space
/// around them, and with nothing else lost or changed.
pub proof fn law_answers_are_taken(
    progress: ProgressView,
    front: Seq<char>,
    s: Seq<char>,
    back: Seq<char>,
    alias: Seq<char>,
    username: Seq<char>,
)
    requires
        text::blank(front),
        text::blank(back),
        s.len() > 0 && !text::white_space(s[0]) && !text::white_space(s.last()),
    ensures
        ssh_step::after_answer(StateView::AskingAlias { progress }, front + s + back) == (
        StateView::AskingUsername { progress, alias: s }),
        ssh_step::after_answer(StateView::AskingUsername { progress, alias }, front + s + back)
            == (StateView::AskingKey { progress, alias, username: s }),
        ({
            let next = ssh_step::after_answer(
                StateView::AskingKey { progress, alias, username },
                front + s + back,
            );
            let fit = {
                &&& forall|i: int|
                    0 <= i < alias.len() ==> !text::white_space(#[trigger] alias[i]) && alias[i]
                        != '#'
                &&& !s.contains('\r')
                &&& !s.contains('\n')
            };
            &&& fit ==> next == (StateView::ReadingConfig {
                progress,
                identity: IdentityView { alias, username, key: s },
            })
            &&& !fit ==> ssh_config::identity_fault(alias, s) is Some && next == (
            StateView::Failed { error: ssh_config::identity_fault(alias, s)->Some_0 })
        }),
{
    text_laws::law_trimming_takes_the_ends(front, s, back);
    ssh_config_laws::law_identity_is_refused_for_its_faults_alone(alias, s);
}

/// A blank answer for the alias passes the identity over, and leaves the identities on
/// record as they are: the next one is asked for, or behind the last the record is saved.
/// A blank answer for the username or for the key fails.
pub proof fn law_blank_answers(
    progress: ProgressView,
    answer: Seq<char>,
    alias: Seq<char>,
    username: Seq<char>,
)
    requires
        text::blank(answer),
    ensures
        progress.index < progress.count ==> ssh_step::after_answer(
            StateView::AskingAlias { progress },
            answer,
        ) == (StateView::AskingAlias {
            progress: ProgressView {
                index: (progress.index + 1) as usize,
                count: progress.count,
                store: progress.store,
            },
        }),
        progress.index >= progress.count ==> ssh_step::after_answer(
            StateView::AskingAlias { progress },
            answer,
        ) == (StateView::Saving { store: progress.store }),
        ssh_step::after_answer(StateView::AskingUsername { progress, alias }, answer) == (
        StateView::Failed { error: Fault::EmptyUsername }),
        ssh_step::after_answer(StateView::AskingKey { progress, alias, username }, answer)
            is Failed,
        text::solid(alias) ==> ssh_step::after_answer(
            StateView::AskingKey { progress, alias, username },
            answer,
        ) == (StateView::Failed { error: Fault::EmptyKey }),
{
    let none = Seq::<char>::empty();
    text_laws::law_trimming_a_blank_leaves_nothing(answer);
    ssh_config_laws::law_entry_is_refused_for_its_faults_alone(alias, none);
    ssh_config_laws::law_identity_is_refused_for_its_faults_alone(alias, none);
}

/// An alias that the configuration has is not written again. What is on record for it stays,
/// in its place, and what was entered is put on record, last, only where nothing was. Then
/// the next identity is asked for, or behind the last the record is saved.
pub proof fn law_configured_alias_is_not_written(
    progress: ProgressView,
    identity: IdentityView,
    config: Seq<char>,
)
    requires
        ssh_config::has_host(config, identity.alias),
    ensures
        ({
            let next = ssh_step::after_config(
                StateView::ReadingConfig { progress, identity },
                config,
            );
            let on_record = exists|i: int|
                0 <= i < progress.store.len() && (#[trigger] progress.store[i]).alias
                    == identity.alias;
            let store = if on_record {
                progress.store
            } else {
                progress.store + seq![identity]
            };
            &&& progress.index < progress.count ==> next == (StateView::AskingAlias {
                progress: ProgressView {
                    index: (progress.index + 1) as usize,
                    count: progress.count,
                    store,
                },
            })
            &&& progress.index >= progress.count ==> next == (StateView::Saving { store })
        }),
{
    lemma_lookup(progress.store, identity);
    if identities::lookup(progress.store, identity.alias) is Some {
        identities::law_recorded_entry_is_kept(progress.store, identity);
    } else {
        identities::law_first_entry_counts(progress.store, identity, seq![], identity);
    }
}

proof fn lemma_lookup(store: Seq<IdentityView>, identity: IdentityView)
    ensures
        identities::lookup(store, identity.alias) is Some <==> exists|i: int|
            0 <= i < store.len() && (#[trigger] store[i]).alias == identity.alias,
{
    if exists|i: int| 0 <= i < store.len() && (#[trigger] store[i]).alias == identity.alias {
        let (a, entry, b) = lemma_first_entry(store, identity.alias);
        identities::law_first_entry_counts(a, entry, b, identity);
    } else {
        identities::law_first_entry_counts(store, identity, seq![], identity);
    }
}

proof fn lemma_first_entry(store: Seq<IdentityView>, alias: Seq<char>) -> (parts: (
    Seq<IdentityView>,
    IdentityView,
    Seq<IdentityView>,
))
    requires
        exists|i: int| 0 <= i < store.len() && (#[trigger] store[i]).alias == alias,
    ensures
        store == parts.0 + seq![parts.1] + parts.2,
        forall|i: int| 0 <= i < parts.0.len() ==> (#[trigger] parts.0[i]).alias != alias,
        parts.1.alias == alias,
    decreases store.len(),
{
    let k = choose|i: int| 0 <= i < store.len() && (#[trigger] store[i]).alias == alias;
    let front = store.drop_last();
    if exists|i: int| 0 <= i < front.len() && (#[trigger] front[i]).alias == alias {
        let (a, entry, b) = lemma_first_entry(front, alias);
        assert(store =~= front.push(store.last()));
        assert((a + seq![entry] + b).push(store.last()) =~= a + seq![entry] + b.push(store.last()));
        (a, entry, b.push(store.last()))
    } else {
        if k < front.len() {
            assert(front[k].alias == alias);
        }
        assert(store =~= front + seq![store.last()] + seq![]);
        (front, store.last(), seq![])
    }
}

/// An alias that the configuration does not have is written to it, behind all that is there,
/// with nothing put on record yet; unless there is something against the entry, which is then
/// what the step fails for.
pub proof fn law_new_alias_is_written(
    progress: ProgressView,
    identity: IdentityView,
    config: Seq<char>,
)
    requires
        !ssh_config::has_host(config, identity.alias),
    ensures
        ({
            let next = ssh_step::after_config(
                StateView::ReadingConfig { progress, identity },
                config,
            );
            let fault = ssh_config::entry_fault(identity.alias, identity.key);
            let entry = "Host "@ + identity.alias + seq!['\n'] + "    HostName github.com"@ + seq![
                '\n',
            ] + "    User git"@ + seq!['\n'] + "    IdentityFile "@ + identity.key + seq!['\n'];
            &&& fault matches Some(error) ==> next == (StateView::Failed { error })
            &&& fault is None ==> {
                &&& next is WritingConfig
                &&& next->WritingConfig_progress == progress
                &&& next->WritingConfig_identity == identity
                &&& next->config == if config.len() == 0 {
                    entry
                } else if config.last() == '\n' {
                    config + seq!['\n'] + entry
                } else {
                    config + seq!['\n', '\n'] + entry
                }
            }
        }),
{
    let entry = ssh_config::host_entry(identity.alias, identity.key);
    let new = ssh_config::appended(config, entry);
    ssh_config_laws::law_entry_to_the_letter(identity.alias, identity.key);
    ssh_config_laws::law_entry_is_set_off_by_line_feeds(config, entry);
    if config.len() > 0 && config.last() == '\n' {
        let front = config.drop_last();
        assert(front.push('\n') =~= config);
        ssh_config_laws::law_entry_is_set_off_by_line_feeds(front, entry);
        assert(new =~= config + seq!['\n'] + entry);
    }
}

/// An identity that was written to the configuration is put on record as it was written: in
/// place of the first entry for its alias, or last where there is none. Then the next
/// identity is asked for, or behind the last the record is saved.
pub proof fn law_written_identity_is_recorded(
    progress: ProgressView,
    identity: IdentityView,
    config: Seq<char>,
    a: Seq<IdentityView>,
    entry: IdentityView,
    b: Seq<IdentityView>,
)
    requires
        forall|i: int| 0 <= i < a.len() ==> (#[trigger] a[i]).alias != identity.alias,
        progress.store == a || (entry.alias == identity.alias && progress.store == a + seq![entry]
            + b),
    ensures
        ({
            let next = ssh_step::after_write(
                StateView::WritingConfig { progress, identity, config },
            );
            let store = if progress.store == a {
                a + seq![identity]
            } else {
                a + seq![identity] + b
            };
            &&& progress.index < progress.count ==> next == (StateView::AskingAlias {
                progress: ProgressView {
                    index: (progress.index + 1) as usize,
                    count: progress.count,
                    store,
                },
            })
            &&& progress.index >= progress.count ==> next == (StateView::Saving { store })
        }),
{
    if progress.store == a {
        identities::law_first_entry_counts(a, identity, b, identity);
    } else {
        identities::law_first_entry_counts(a, entry, b, identity);
    }
}

/// Once the record is saved, the step is at its end.
pub proof fn law_saving_ends_the_step(store: Seq<IdentityView>)
    ensures
        ssh_step::after_save(StateView::Saving { store }) is Saved,
{
}

/// What was not asked for changes nothing.
pub proof fn law_what_was_not_asked_for_changes_nothing(
    state: StateView,
    text: Seq<char>,
    store: Seq<IdentityView>,
)
    ensures
        !(state is AskingCount || state is AskingAlias || state is AskingUsername
            || state is AskingKey) ==> ssh_step::after_answer(state, text) == state,
        !(state is Loading) ==> ssh_step::after_load(state, store) == state,
        !(state is ReadingConfig) ==> ssh_step::after_config(state, text) == state,
        !(state is WritingConfig) ==> ssh_step::after_write(state) == state,
        !(state is Saving) ==> ssh_step::after_save(state) == state,
{
}

/// A state shows all that it carries, under its own name.
pub proof fn law_state_shows_what_it_carries(state: SshState)
    ensures
        match state {
            SshState::DryRun => state@ is DryRun,
            SshState::AskingCount => state@ is AskingCount,
            SshState::Loading { count } => state@ is Loading && state@->Loading_count == count,
            SshState::AskingAlias { progress } => {
                &&& state@ is AskingAlias
                &&& state@->AskingAlias_progress.index == progress.index
                &&& state@->AskingAlias_progress.count == progress.count
                &&& state@->AskingAlias_progress.store == progress.store@
            },
            SshState::AskingUsername { progress, alias } => {
                &&& state@ is AskingUsername
                &&& state@->AskingUsername_progress.index == progress.index
                &&& state@->AskingUsername_progress.count == progress.count
                &&& state@->AskingUsername_progress.store == progress.store@
                &&& state@->AskingUsername_alias == alias@
            },
            SshState::AskingKey { progress, alias, username } => {
                &&& state@ is AskingKey
                &&& state@->AskingKey_progress.index == progress.index
                &&& state@->AskingKey_progress.count == progress.count
                &&& state@->AskingKey_progress.store == progress.store@
                &&& state@->AskingKey_alias == alias@
                &&& state@->username == username@
            },
            SshState::ReadingConfig { progress, identity } => {
                &&& state@ is ReadingConfig
                &&& state@->ReadingConfig_progress.index == progress.index
                &&& state@->ReadingConfig_progress.count == progress.count
                &&& state@->ReadingConfig_progress.store == progress.store@
                &&& state@->ReadingConfig_identity.alias == identity.alias@
                &&& state@->ReadingConfig_identity.username == identity.username@
                &&& state@->ReadingConfig_identity.key == identity.key@
            },
            SshState::WritingConfig { progress, identity, config } => {
                &&& state@ is WritingConfig
                &&& state@->WritingConfig_progress.index == progress.index
                &&& state@->WritingConfig_progress.count == progress.count
                &&& state@->WritingConfig_progress.store == progress.store@
                &&& state@->WritingConfig_identity.alias == identity.alias@
                &&& state@->WritingConfig_identity.username == identity.username@
                &&& state@->WritingConfig_identity.key == identity.key@
                &&& state@->config == config@
            },
            SshState::Saving { store } => state@ is Saving && state@->Saving_store == store@,
            SshState::Skipped => state@ is Skipped,
            SshState::Saved => state@ is Saved,
            SshState::Failed { error } => state@ is Failed && state@->error == error@,
        },
{
}

/// An error shows what it is, and the alias that it carries.
pub proof fn law_error_shows_what_it_is(error: SetupError)
    ensures
        match error {
            SetupError::HomeUnresolved => error@ is HomeUnresolved,
            SetupError::AliasLineBreak => error@ is AliasLineBreak,
            SetupError::KeyLineBreak => error@ is KeyLineBreak,
            SetupError::AliasWhiteSpace(alias) => error@ == Fault::AliasWhiteSpace(alias@),
            SetupError::AliasComment(alias) => error@ == Fault::AliasComment(alias@),
            SetupError::EmptyKey => error@ is EmptyKey,
            SetupError::EmptyUsername => error@ is EmptyUsername,
            SetupError::Count(cause) => error@ == Fault::Count(cause),
        },
{
}

/// The user is told of an identity exactly if it is passed over, and of an alias exactly if
/// the configuration has it, so that nothing is written and nothing fails.
pub proof fn law_user_is_told_of_what_is_left_alone(state: StateView, text: Seq<char>)
    ensures
        ssh_step::answer_notice(state, text) == if state is AskingAlias && !(
        ssh_step::after_answer(state, text) is AskingUsername) {
            SshNotice::EmptyAlias
        } else {
            SshNotice::Quiet
        },
        ssh_step::config_notice(state, text) == if state is ReadingConfig && !(
        ssh_step::after_config(state, text) is WritingConfig) && !(ssh_step::after_config(
            state,
            text,
        ) is Failed) {
            SshNotice::AlreadyConfigured
        } else {
            SshNotice::Quiet
        },
{
    text::lemma_trimmed_blank(text);
}

/// The files are those that OpenSSH reads, and one of the program's own.
pub proof fn law_names_of_the_files()
    ensures
        ssh_step::SSH_CONFIG_FILE@ == ".ssh/config"@,
        ssh_step::SSH_IDENTITIES_FILE@ == ".config/starbase/ssh-identities.toml"@,
{
}

} // verus!
