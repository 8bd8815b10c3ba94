//! Laws of the SSH step, over every course that its dialogue can take.
use crate::identities;
use crate::identities::IdentityView;
use crate::ssh_config;
use crate::ssh_config_laws;
use crate::ssh_step;
use crate::ssh_step::{ProgressView, StateView};
use crate::text;
use vstd::prelude::*;

verus! {

/// What the caller can hand to the step.
pub enum EventView {
    Answer(Seq<char>),
    Loaded(Seq<IdentityView>),
    ConfigRead(Seq<char>),
    ConfigWritten,
    Saved,
}

/// The state that follows `state` on `event`.
pub open spec fn after(state: StateView, event: EventView) -> StateView {
    match event {
        EventView::Answer(answer) => ssh_step::after_answer(state, answer),
        EventView::Loaded(store) => ssh_step::after_load(state, store),
        EventView::ConfigRead(config) => ssh_step::after_config(state, config),
        EventView::ConfigWritten => ssh_step::after_write(state),
        EventView::Saved => ssh_step::after_save(state),
    }
}

/// The state that `events` lead to, one after the other, from `state`.
pub open spec fn course(state: StateView, events: Seq<EventView>) -> StateView
    decreases events.len(),
{
    if events.len() == 0 {
        state
    } else {
        after(course(state, events.drop_last()), events.last())
    }
}

/// The state that a step reaches by `events`.
pub open spec fn reached(dry_run: bool, events: Seq<EventView>) -> StateView {
    course(ssh_step::first_state(dry_run), events)
}

/// The progress that a state carries.
pub open spec fn progress_of(state: StateView) -> Option<ProgressView> {
    match state {
        StateView::AskingAlias { progress } => Some(progress),
        StateView::AskingUsername { progress, .. } => Some(progress),
        StateView::AskingKey { progress, .. } => Some(progress),
        StateView::ReadingConfig { progress, .. } => Some(progress),
        StateView::WritingConfig { progress, .. } => Some(progress),
        _ => None,
    }
}

/// The identities on record that a state carries.
pub open spec fn store_of(state: StateView) -> Option<Seq<IdentityView>> {
    match state {
        StateView::Saving { store } => Some(store),
        _ => match progress_of(state) {
            Some(progress) => Some(progress.store),
            None => None,
        },
    }
}

/// The alias that a state is busy with.
pub open spec fn alias_of(state: StateView) -> Option<Seq<char>> {
    match state {
        StateView::AskingUsername { alias, .. } => Some(alias),
        StateView::AskingKey { alias, .. } => Some(alias),
        StateView::ReadingConfig { identity, .. } => Some(identity.alias),
        StateView::WritingConfig { identity, .. } => Some(identity.alias),
        _ => None,
    }
}

/// `s` is not empty and has no white space at its ends.
pub open spec fn neat(s: Seq<char>) -> bool {
    s.len() > 0 && text::trimmed(s) == s
}

/// An identity that may be written: all of it given, and nothing against its entry.
pub open spec fn sound(identity: IdentityView) -> bool {
    &&& neat(identity.alias)
    &&& neat(identity.username)
    &&& neat(identity.key)
    &&& ssh_config::identity_fault(identity.alias, identity.key) is None
}

/// What holds in every state that a step can reach.
pub open spec fn valid(state: StateView) -> bool {
    &&& progress_of(state) matches Some(progress) ==> 1 <= progress.index <= progress.count
    &&& match state {
        StateView::Loading { count } => count > 0,
        StateView::AskingUsername { alias, .. } => neat(alias),
        StateView::AskingKey { alias, username, .. } => neat(alias) && neat(username),
        StateView::ReadingConfig { identity, .. } => sound(identity),
        StateView::WritingConfig { identity, config, .. } => {
            &&& sound(identity)
            &&& exists|before: Seq<char>|
                !ssh_config::has_host(before, identity.alias) && config
                    == #[trigger] ssh_config::appended(
                    before,
                    ssh_config::host_entry(identity.alias, identity.key),
                )
        },
        _ => true,
    }
}

/// Every step keeps what holds of the states: the identities are counted from one to
/// their number; an alias, a username and a key are never empty; and a configuration is
/// written only for an identity whose entry passes the check, only where its alias was
/// not there, and as what was there with that entry behind it.
pub proof fn law_event_keeps_validity(state: StateView, event: EventView)
    requires
        valid(state),
    ensures
        valid(after(state, event)),
{
    match event {
        EventView::Answer(answer) => {
            text::lemma_trimmed_twice(answer);
        },
        EventView::ConfigRead(before) => {
            if let StateView::WritingConfig { identity, config, .. } = after(state, event) {
                if state is ReadingConfig {
                    assert(!ssh_config::has_host(before, identity.alias));
                    assert(config == ssh_config::appended(
                        before,
                        ssh_config::host_entry(identity.alias, identity.key),
                    ));
                }
            }
        },
        _ => {},
    }
}

/// Every state that a step reaches is valid.
pub proof fn law_reached_states_are_valid(dry_run: bool, events: Seq<EventView>)
    ensures
        valid(reached(dry_run, events)),
    decreases events.len(),
{
    if events.len() > 0 {
        law_reached_states_are_valid(dry_run, events.drop_last());
        law_event_keeps_validity(reached(dry_run, events.drop_last()), events.last());
    }
}

/// On a dry run the step never gets past saying what it would do: nothing is asked,
/// written or saved.
pub proof fn law_dry_run_changes_nothing(events: Seq<EventView>)
    ensures
        reached(true, events) is DryRun,
    decreases events.len(),
{
    if events.len() > 0 {
        law_dry_run_changes_nothing(events.drop_last());
    }
}

/// How many rounds of the dialogue, and which part of one, are still to come. First what
/// comes before the identities are counted, then the rest.
pub open spec fn left(state: StateView) -> (int, int) {
    match state {
        StateView::AskingCount => (2, 0),
        StateView::Loading { .. } => (1, 0),
        StateView::AskingAlias { progress } => (0, 5 * (progress.count - progress.index) + 6),
        StateView::AskingUsername { progress, .. } => (
            0,
            5 * (progress.count - progress.index) + 5,
        ),
        StateView::AskingKey { progress, .. } => (0, 5 * (progress.count - progress.index) + 4),
        StateView::ReadingConfig { progress, .. } => (0, 5 * (progress.count - progress.index) + 3),
        StateView::WritingConfig { progress, .. } => (0, 5 * (progress.count - progress.index) + 2),
        StateView::Saving { .. } => (0, 1),
        _ => (0, 0),
    }
}

/// The dialogue comes to an end: an event either is of no concern to the state and changes
/// nothing, or leaves less to come.
pub proof fn law_dialogue_ends(state: StateView, event: EventView)
    requires
        valid(state),
    ensures
        left(state).0 >= 0,
        left(state).1 >= 0,
        after(state, event) == state || left(after(state, event)).0 < left(state).0 || (left(
            after(state, event),
        ).0 == left(state).0 && left(after(state, event)).1 < left(state).1),
{
}

/// An identity whose entry passed the check cannot fail once the configuration is read:
/// either its alias is there, or the configuration is written with it.
pub proof fn law_checked_identity_is_not_refused(state: StateView, config: Seq<char>)
    requires
        valid(state),
        state is ReadingConfig,
    ensures
        !(ssh_step::after_config(state, config) is Failed),
{
}

/// The identities on record are saved only behind the last identity.
pub proof fn law_saved_behind_the_last(state: StateView, event: EventView)
    requires
        valid(state),
        !(state is Saving),
        after(state, event) is Saving,
    ensures
        progress_of(state) matches Some(progress) && progress.index == progress.count,
{
}

/// Dealing with an identity changes what is on record under its alias alone.
pub proof fn law_other_aliases_are_kept(state: StateView, event: EventView, alias: Seq<char>)
    requires
        store_of(state) is Some,
        store_of(after(state, event)) is Some,
        alias_of(state) != Some(alias),
    ensures
        identities::lookup(store_of(after(state, event))->Some_0, alias) == identities::lookup(
            store_of(state)->Some_0,
            alias,
        ),
{
    let store = store_of(state)->Some_0;
    match state {
        StateView::ReadingConfig { progress, identity } => {
            identities::law_upsert_is_keyed_by_alias(
                store,
                identities::resolved(store, identity),
                alias,
            );
            identities::law_resolved_has_the_alias(store, identity);
        },
        StateView::WritingConfig { progress, identity, .. } => {
            identities::law_upsert_is_keyed_by_alias(store, identity, alias);
        },
        _ => {},
    }
}

/// The step keeps the store keyed by alias: with one entry for each alias before, there is
/// one for each after.
pub proof fn law_aliases_stay_distinct(state: StateView, event: EventView)
    requires
        store_of(state) is Some,
        identities::aliases_distinct(store_of(state)->Some_0),
        store_of(after(state, event)) is Some,
    ensures
        identities::aliases_distinct(store_of(after(state, event))->Some_0),
{
    let store = store_of(state)->Some_0;
    match state {
        StateView::ReadingConfig { progress, identity } => {
            identities::law_upsert_keeps_aliases_distinct(
                store,
                identities::resolved(store, identity),
            );
        },
        StateView::WritingConfig { progress, identity, .. } => {
            identities::law_upsert_keeps_aliases_distinct(store, identity);
        },
        _ => {},
    }
}

/// As long as every store that is loaded has one entry for each alias, so has the store at
/// every point of the dialogue, and the one that is saved.
pub proof fn law_reached_store_is_keyed_by_alias(dry_run: bool, events: Seq<EventView>)
    requires
        forall|i: int|
            0 <= i < events.len() ==> ((#[trigger] events[i]) matches EventView::Loaded(store)
                ==> identities::aliases_distinct(store)),
    ensures
        store_of(reached(dry_run, events)) matches Some(store) ==> identities::aliases_distinct(
            store,
        ),
    decreases events.len(),
{
    if events.len() > 0 {
        let front = events.drop_last();
        assert forall|i: int| 0 <= i < front.len() implies ((
        #[trigger] front[i]) matches EventView::Loaded(store) ==> identities::aliases_distinct(
            store,
        )) by {
            assert(front[i] == events[i]);
        }
        law_reached_store_is_keyed_by_alias(dry_run, front);
        assert(events[events.len() - 1] == events.last());
        let state = reached(dry_run, front);
        if store_of(state) is Some && store_of(after(state, events.last())) is Some {
            law_aliases_stay_distinct(state, events.last());
        }
    }
}

/// An alias that the configuration has and the store has is left as it is in both, whatever
/// was entered for it.
pub proof fn law_configured_alias_keeps_its_key(
    progress: ProgressView,
    identity: IdentityView,
    config: Seq<char>,
)
    requires
        ssh_config::has_host(config, identity.alias),
        identities::lookup(progress.store, identity.alias) is Some,
    ensures
        ssh_step::after_config(StateView::ReadingConfig { progress, identity }, config)
            == progress.moved_on(),
{
    identities::law_recorded_entry_is_kept(progress.store, identity);
}

/// An identity that was written to the configuration is on record afterwards with the key
/// that was written.
pub proof fn law_written_key_is_on_record(
    progress: ProgressView,
    identity: IdentityView,
    before: Seq<char>,
)
    requires
        ssh_step::after_config(StateView::ReadingConfig { progress, identity }, before)
            is WritingConfig,
    ensures
        ({
            let writing = ssh_step::after_config(
                StateView::ReadingConfig { progress, identity },
                before,
            );
            &&& writing->config == ssh_config::appended(
                before,
                ssh_config::host_entry(identity.alias, identity.key),
            )
            &&& store_of(ssh_step::after_write(writing)) is Some
            &&& identities::lookup(
                store_of(ssh_step::after_write(writing))->Some_0,
                identity.alias,
            ) == Some(identity)
        }),
{
    identities::law_upsert_is_keyed_by_alias(progress.store, identity, identity.alias);
}

/// An alias is added to the configuration once: when a configuration to which it was added
/// is read again, it is not written again.
pub proof fn law_host_is_added_once(
    progress: ProgressView,
    identity: IdentityView,
    before: Seq<char>,
    key: Seq<char>,
)
    requires
        valid(StateView::ReadingConfig { progress, identity }),
        ssh_config::identity_fault(identity.alias, key) is None,
    ensures
        ssh_step::after_config(
            StateView::ReadingConfig { progress, identity },
            ssh_config::appended(before, ssh_config::host_entry(identity.alias, key)),
        ) == progress.recorded(identities::resolved(progress.store, identity)),
{
    ssh_config_laws::law_added_host_is_found(before, identity.alias, key);
}

/// A second round with an alias that was added and recorded in a first one changes neither
/// the configuration nor the store, whatever is entered with it.
pub proof fn law_second_round_changes_nothing(
    progress: ProgressView,
    identity: IdentityView,
    before: Seq<char>,
    again: IdentityView,
)
    requires
        sound(identity),
        again.alias == identity.alias,
    ensures
        ({
            let later = ProgressView {
                store: identities::upserted(progress.store, identity),
                ..progress
            };
            ssh_step::after_config(
                StateView::ReadingConfig { progress: later, identity: again },
                ssh_config::appended(
                    before,
                    ssh_config::host_entry(identity.alias, identity.key),
                ),
            ) == later.moved_on()
        }),
{
    let later = ProgressView {
        store: identities::upserted(progress.store, identity),
        ..progress
    };
    let config = ssh_config::appended(
        before,
        ssh_config::host_entry(identity.alias, identity.key),
    );
    identities::law_upsert_is_keyed_by_alias(progress.store, identity, identity.alias);
    ssh_config_laws::law_added_host_is_found(before, identity.alias, identity.key);
    law_configured_alias_keeps_its_key(later, again, config);
}

/// The SSH configuration after `decided`, the state that followed from reading `config`.
pub open spec fn config_left(decided: StateView, config: Seq<char>) -> Seq<char> {
    match decided {
        StateView::WritingConfig { config: written, .. } => written,
        _ => config,
    }
}

/// The SSH configuration and the store after one identity was dealt with.
pub open spec fn files_with(
    config: Seq<char>,
    store: Seq<IdentityView>,
    identity: IdentityView,
) -> (Seq<char>, Seq<IdentityView>) {
    let progress = ProgressView { index: 1, count: 1, store };
    let decided = ssh_step::after_config(StateView::ReadingConfig { progress, identity }, config);
    let kept = match store_of(ssh_step::after_write(decided)) {
        Some(new) => new,
        None => store,
    };
    (config_left(decided, config), kept)
}

/// The SSH configuration and the store after the identities `ids`, one after the other.
pub open spec fn files_after(
    config: Seq<char>,
    store: Seq<IdentityView>,
    ids: Seq<IdentityView>,
) -> (Seq<char>, Seq<IdentityView>)
    decreases ids.len(),
{
    if ids.len() == 0 {
        (config, store)
    } else {
        let before = files_after(config, store, ids.drop_last());
        files_with(before.0, before.1, ids.last())
    }
}

/// `alias` is in the SSH configuration and in the store.
pub open spec fn settled(files: (Seq<char>, Seq<IdentityView>), alias: Seq<char>) -> bool {
    ssh_config::has_host(files.0, alias) && identities::lookup(files.1, alias) is Some
}

/// Dealing with an identity settles its alias, and unsettles none.
proof fn lemma_files_with_settles(
    config: Seq<char>,
    store: Seq<IdentityView>,
    identity: IdentityView,
    alias: Seq<char>,
)
    requires
        sound(identity),
    ensures
        settled(files_with(config, store, identity), identity.alias),
        settled((config, store), alias) ==> settled(files_with(config, store, identity), alias),
{
    let kept = identities::resolved(store, identity);
    identities::law_resolved_has_the_alias(store, identity);
    identities::law_upsert_is_keyed_by_alias(store, kept, identity.alias);
    identities::law_upsert_is_keyed_by_alias(store, kept, alias);
    identities::law_upsert_is_keyed_by_alias(store, identity, identity.alias);
    identities::law_upsert_is_keyed_by_alias(store, identity, alias);
    ssh_config_laws::law_added_host_is_found(config, identity.alias, identity.key);
    ssh_config_laws::law_append_adds_one_host(config, identity.alias, identity.key, alias);
}

/// An identity whose alias is settled changes nothing.
proof fn lemma_settled_files_stay(
    config: Seq<char>,
    store: Seq<IdentityView>,
    identity: IdentityView,
)
    requires
        settled((config, store), identity.alias),
    ensures
        files_with(config, store, identity) == (config, store),
{
    identities::law_recorded_entry_is_kept(store, identity);
}

/// After a run every alias that was entered is in the SSH configuration and on record, and
/// so is every one that was before.
pub proof fn law_run_settles_every_alias(
    config: Seq<char>,
    store: Seq<IdentityView>,
    ids: Seq<IdentityView>,
    alias: Seq<char>,
)
    requires
        forall|i: int| 0 <= i < ids.len() ==> sound(#[trigger] ids[i]),
        settled((config, store), alias) || exists|i: int|
            0 <= i < ids.len() && (#[trigger] ids[i]).alias == alias,
    ensures
        settled(files_after(config, store, ids), alias),
    decreases ids.len(),
{
    if ids.len() > 0 {
        let front = ids.drop_last();
        let before = files_after(config, store, front);
        let n = ids.len() - 1;
        assert(ids[n] == ids.last());
        assert forall|i: int| 0 <= i < front.len() implies sound(#[trigger] front[i]) by {
            assert(front[i] == ids[i]);
        }
        lemma_files_with_settles(before.0, before.1, ids.last(), alias);
        if ids.last().alias != alias {
            if !settled((config, store), alias) {
                let i = choose|i: int| 0 <= i < ids.len() && (#[trigger] ids[i]).alias == alias;
                assert(front[i] == ids[i]);
            }
            law_run_settles_every_alias(config, store, front, alias);
        }
    }
}

/// Identities whose aliases are all settled change nothing.
proof fn lemma_settled_run_stays(
    config: Seq<char>,
    store: Seq<IdentityView>,
    ids: Seq<IdentityView>,
)
    requires
        forall|i: int|
            0 <= i < ids.len() ==> settled((config, store), (#[trigger] ids[i]).alias),
    ensures
        files_after(config, store, ids) == (config, store),
    decreases ids.len(),
{
    if ids.len() > 0 {
        let front = ids.drop_last();
        assert forall|i: int| 0 <= i < front.len() implies settled(
            (config, store),
            (#[trigger] front[i]).alias,
        ) by {
            assert(front[i] == ids[i]);
        }
        lemma_settled_run_stays(config, store, front);
        assert(ids[ids.len() - 1] == ids.last());
        lemma_settled_files_stay(config, store, ids.last());
    }
}

/// A second run with the same identities leaves the SSH configuration and the store as the
/// first one left them, however many identities there are and whatever the files held.
pub proof fn law_second_run_changes_nothing(
    config: Seq<char>,
    store: Seq<IdentityView>,
    ids: Seq<IdentityView>,
)
    requires
        forall|i: int| 0 <= i < ids.len() ==> sound(#[trigger] ids[i]),
    ensures
        ({
            let first = files_after(config, store, ids);
            files_after(first.0, first.1, ids) == first
        }),
{
    let first = files_after(config, store, ids);
    assert forall|i: int| 0 <= i < ids.len() implies settled(first, (#[trigger] ids[i]).alias) by {
        law_run_settles_every_alias(config, store, ids, ids[i].alias);
    }
    lemma_settled_run_stays(first.0, first.1, ids);
}

} // verus!
