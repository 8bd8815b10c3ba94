//! Laws of a whole run of the SSH step: the answers that the user gives, from the first
//! question to the last, and what they leave on disk.
use crate::count;
use crate::identities::IdentityView;
use crate::ssh_step;
use crate::ssh_step::{ProgressView, StateView};
use crate::ssh_step_laws::{
    config_left, course, files_after, files_with, law_second_run_changes_nothing, reached,
    sound, EventView,
};
use crate::text;
use vstd::prelude::*;

verus! {

/// What the user answers when asked for one identity. Where the alias is blank, the other
/// two are not asked for.
pub struct AnswersView {
    pub alias: Seq<char>,
    pub username: Seq<char>,
    pub key: Seq<char>,
}

impl AnswersView {
    /// The identity that the answers make.
    pub open spec fn identity(self) -> IdentityView {
        IdentityView {
            alias: text::trimmed(self.alias),
            username: text::trimmed(self.username),
            key: text::trimmed(self.key),
        }
    }

    /// The answers let the dialogue go on.
    pub open spec fn pass(self) -> bool {
        text::blank(self.alias) || sound(self.identity())
    }
}

/// The identities that the answers make, those with a blank alias left out.
pub open spec fn entered(all: Seq<AnswersView>) -> Seq<IdentityView>
    decreases all.len(),
{
    if all.len() == 0 {
        seq![]
    } else if text::blank(all.last().alias) {
        entered(all.drop_last())
    } else {
        entered(all.drop_last()).push(all.last().identity())
    }
}

/// The events of the round that `answers` make in `state`, when the SSH configuration is
/// `config`.
pub open spec fn round_events(
    state: StateView,
    config: Seq<char>,
    answers: AnswersView,
) -> Seq<EventView> {
    let named = ssh_step::after_answer(state, answers.alias);
    let keyed = ssh_step::after_answer(
        ssh_step::after_answer(named, answers.username),
        answers.key,
    );
    if !(named is AskingUsername) {
        seq![EventView::Answer(answers.alias)]
    } else if ssh_step::after_config(keyed, config) is WritingConfig {
        seq![
            EventView::Answer(answers.alias),
            EventView::Answer(answers.username),
            EventView::Answer(answers.key),
            EventView::ConfigRead(config),
            EventView::ConfigWritten,
        ]
    } else {
        seq![
            EventView::Answer(answers.alias),
            EventView::Answer(answers.username),
            EventView::Answer(answers.key),
            EventView::ConfigRead(config),
        ]
    }
}

/// The state and the SSH configuration after the round that `answers` make in `state`, when
/// the configuration was `config`.
pub open spec fn round(state: StateView, config: Seq<char>, answers: AnswersView) -> (
    StateView,
    Seq<char>,
) {
    let named = ssh_step::after_answer(state, answers.alias);
    let keyed = ssh_step::after_answer(
        ssh_step::after_answer(named, answers.username),
        answers.key,
    );
    let decided = ssh_step::after_config(keyed, config);
    if named is AskingUsername {
        (ssh_step::after_write(decided), config_left(decided, config))
    } else {
        (named, config)
    }
}

/// The state and the SSH configuration after one round for each of `all`.
pub open spec fn rounds(state: StateView, config: Seq<char>, all: Seq<AnswersView>) -> (
    StateView,
    Seq<char>,
)
    decreases all.len(),
{
    if all.len() == 0 {
        (state, config)
    } else {
        let before = rounds(state, config, all.drop_last());
        round(before.0, before.1, all.last())
    }
}

/// The events of all rounds.
pub open spec fn rounds_events(
    state: StateView,
    config: Seq<char>,
    all: Seq<AnswersView>,
) -> Seq<EventView>
    decreases all.len(),
{
    if all.len() == 0 {
        seq![]
    } else {
        let before = rounds(state, config, all.drop_last());
        rounds_events(state, config, all.drop_last()) + round_events(
            before.0,
            before.1,
            all.last(),
        )
    }
}

/// How a run ends and what it leaves on disk.
pub struct Outcome {
    pub state: StateView,
    pub config: Seq<char>,
    pub store: Seq<IdentityView>,
}

/// The state in which the first identity is asked for.
pub open spec fn opened(store: Seq<IdentityView>, count: Seq<char>) -> StateView {
    ssh_step::after_load(ssh_step::after_answer(ssh_step::first_state(false), count), store)
}

/// A whole run: `count` is the answer to how many identities there are, `all` the answers
/// for each of them, `config` and `store` what the files hold. The store on disk changes
/// only where the dialogue comes to saving it.
pub open spec fn whole_run(
    config: Seq<char>,
    store: Seq<IdentityView>,
    count: Seq<char>,
    all: Seq<AnswersView>,
) -> Outcome {
    let end = rounds(opened(store, count), config, all);
    Outcome {
        state: ssh_step::after_save(end.0),
        config: end.1,
        store: match end.0 {
            StateView::Saving { store: saved } => saved,
            _ => store,
        },
    }
}

/// The events of a whole run.
pub open spec fn run_events(
    config: Seq<char>,
    store: Seq<IdentityView>,
    count: Seq<char>,
    all: Seq<AnswersView>,
) -> Seq<EventView> {
    seq![EventView::Answer(count), EventView::Loaded(store)] + rounds_events(
        opened(store, count),
        config,
        all,
    ) + seq![EventView::Saved]
}

/// `count` is the number of identities for which there are answers.
pub open spec fn counts(count: Seq<char>, all: Seq<AnswersView>) -> bool {
    count::count_in(text::trimmed(count)) matches Ok(n) && n == all.len()
}

proof fn lemma_course_concat(state: StateView, a: Seq<EventView>, b: Seq<EventView>)
    ensures
        course(state, a + b) == course(course(state, a), b),
    decreases b.len(),
{
    if b.len() == 0 {
        assert(a + b =~= a);
    } else {
        assert((a + b).drop_last() =~= a + b.drop_last());
        lemma_course_concat(state, a, b.drop_last());
    }
}

proof fn lemma_round_is_a_course(state: StateView, config: Seq<char>, answers: AnswersView)
    ensures
        course(state, round_events(state, config, answers)) == round(state, config, answers).0,
{
    let e = round_events(state, config, answers);
    reveal_with_fuel(course, 6);
    let e1 = seq![EventView::Answer(answers.alias)];
    let e2 = e1.push(EventView::Answer(answers.username));
    let e3 = e2.push(EventView::Answer(answers.key));
    let e4 = e3.push(EventView::ConfigRead(config));
    assert(e1.drop_last() =~= seq![]);
    assert(e2.drop_last() =~= e1);
    assert(e3.drop_last() =~= e2);
    assert(e4.drop_last() =~= e3);
    if e.len() == 5 {
        assert(e =~= e4.push(EventView::ConfigWritten));
        assert(e.drop_last() =~= e4);
    } else if e.len() == 4 {
        assert(e =~= e4);
    } else {
        assert(e =~= e1);
    }
}

proof fn lemma_rounds_are_a_course(state: StateView, config: Seq<char>, all: Seq<AnswersView>)
    ensures
        course(state, rounds_events(state, config, all)) == rounds(state, config, all).0,
    decreases all.len(),
{
    if all.len() > 0 {
        let front = all.drop_last();
        let before = rounds(state, config, front);
        lemma_rounds_are_a_course(state, config, front);
        lemma_round_is_a_course(before.0, before.1, all.last());
        lemma_course_concat(
            state,
            rounds_events(state, config, front),
            round_events(before.0, before.1, all.last()),
        );
    }
}

/// A run is a course of the dialogue: its events lead to the state in which it ends.
pub proof fn law_run_is_a_course_of_the_dialogue(
    config: Seq<char>,
    store: Seq<IdentityView>,
    count: Seq<char>,
    all: Seq<AnswersView>,
)
    ensures
        reached(false, run_events(config, store, count, all)) == whole_run(
            config,
            store,
            count,
            all,
        ).state,
{
    let first = ssh_step::first_state(false);
    let open = seq![EventView::Answer(count), EventView::Loaded(store)];
    let middle = rounds_events(opened(store, count), config, all);
    let close = seq![EventView::Saved];
    reveal_with_fuel(course, 3);
    assert(open.drop_last() =~= seq![EventView::Answer(count)]);
    assert(seq![EventView::Answer(count)].drop_last() =~= seq![]);
    assert(course(first, open) == opened(store, count));
    lemma_course_concat(first, open, middle);
    lemma_rounds_are_a_course(opened(store, count), config, all);
    lemma_course_concat(first, open + middle, close);
    assert(close.drop_last() =~= seq![]);
}

/// What one round comes to when an identity is asked for.
proof fn lemma_round(progress: ProgressView, config: Seq<char>, answers: AnswersView)
    ensures
        ({
            let got = round(StateView::AskingAlias { progress }, config, answers);
            let files = files_with(config, progress.store, answers.identity());
            if text::blank(answers.alias) {
                got == (progress.moved_on(), config)
            } else if sound(answers.identity()) {
                got == (ProgressView { store: files.1, ..progress }.moved_on(), files.0)
            } else {
                got.0 is Failed
            }
        }),
{
    text::lemma_trimmed_blank(answers.alias);
    text::lemma_trimmed_twice(answers.alias);
    text::lemma_trimmed_twice(answers.username);
    text::lemma_trimmed_twice(answers.key);
}

/// What the first rounds come to: they leave the files that their identities make, unless
/// the answers do not let the dialogue go on.
proof fn lemma_rounds(
    config: Seq<char>,
    store: Seq<IdentityView>,
    count: usize,
    all: Seq<AnswersView>,
)
    requires
        0 < count,
        all.len() <= count,
    ensures
        ({
            let start = StateView::AskingAlias {
                progress: ProgressView { index: 1, count, store },
            };
            let got = rounds(start, config, all);
            let files = files_after(config, store, entered(all));
            if forall|i: int| 0 <= i < all.len() ==> (#[trigger] all[i]).pass() {
                &&& got.1 == files.0
                &&& got.0 == if all.len() < count {
                    StateView::AskingAlias {
                        progress: ProgressView {
                            index: (all.len() + 1) as usize,
                            count,
                            store: files.1,
                        },
                    }
                } else {
                    StateView::Saving { store: files.1 }
                }
            } else {
                got.0 is Failed
            }
        }),
    decreases all.len(),
{
    let start = StateView::AskingAlias { progress: ProgressView { index: 1, count, store } };
    if all.len() > 0 {
        let front = all.drop_last();
        let n = all.len() - 1;
        let before = rounds(start, config, front);
        lemma_rounds(config, store, count, front);
        assert(all[n] == all.last());
        assert forall|i: int| 0 <= i < front.len() implies #[trigger] front[i] == all[i] by {}
        if forall|i: int| 0 <= i < front.len() ==> (#[trigger] front[i]).pass() {
            let files = files_after(config, store, entered(front));
            let progress = ProgressView { index: all.len() as usize, count, store: files.1 };
            lemma_round(progress, before.1, all.last());
            if !text::blank(all.last().alias) {
                assert(entered(all).drop_last() =~= entered(front));
            }
            if all.last().pass() {
                assert forall|i: int| 0 <= i < all.len() implies (#[trigger] all[i]).pass() by {
                    if i < n {
                        assert(front[i].pass());
                    }
                }
            }
        } else {
            let i = choose|i: int| 0 <= i < front.len() && !(#[trigger] front[i]).pass();
            assert(!all[i].pass());
        }
    }
}

/// Where the answers let the dialogue go on, a run saves, and leaves in the two files what
/// its identities make of them.
pub proof fn law_run_leaves_the_files_of_its_identities(
    config: Seq<char>,
    store: Seq<IdentityView>,
    count: Seq<char>,
    all: Seq<AnswersView>,
)
    requires
        counts(count, all),
        all.len() > 0,
        forall|i: int| 0 <= i < all.len() ==> (#[trigger] all[i]).pass(),
    ensures
        whole_run(config, store, count, all).state is Saved,
        whole_run(config, store, count, all).config == files_after(config, store, entered(all)).0,
        whole_run(config, store, count, all).store == files_after(config, store, entered(all)).1,
{
    lemma_rounds(config, store, all.len() as usize, all);
}

/// Where some answers do not let the dialogue go on, a run fails, and the store on disk is
/// left as it was.
pub proof fn law_failed_run_saves_nothing(
    config: Seq<char>,
    store: Seq<IdentityView>,
    count: Seq<char>,
    all: Seq<AnswersView>,
    i: int,
)
    requires
        counts(count, all),
        0 <= i < all.len(),
        !all[i].pass(),
    ensures
        whole_run(config, store, count, all).state is Failed,
        whole_run(config, store, count, all).store == store,
{
    lemma_rounds(config, store, all.len() as usize, all);
}

proof fn lemma_entered_are_sound(all: Seq<AnswersView>)
    requires
        forall|i: int| 0 <= i < all.len() ==> (#[trigger] all[i]).pass(),
    ensures
        forall|i: int| 0 <= i < entered(all).len() ==> sound(#[trigger] entered(all)[i]),
    decreases all.len(),
{
    if all.len() > 0 {
        let front = all.drop_last();
        assert forall|i: int| 0 <= i < front.len() implies (#[trigger] front[i]).pass() by {
            assert(front[i] == all[i]);
        }
        lemma_entered_are_sound(front);
        assert(all[all.len() - 1] == all.last());
        assert forall|i: int| 0 <= i < entered(all).len() implies sound(
            #[trigger] entered(all)[i],
        ) by {
            if i < entered(front).len() {
                assert(entered(all)[i] == entered(front)[i]);
            }
        }
    }
}

/// The step is idempotent: when a run came to its end without failing, a second run with
/// the same answers, on the files that the first one left, ends the same way and leaves the
/// files as they are.
pub proof fn law_step_is_idempotent(
    config: Seq<char>,
    store: Seq<IdentityView>,
    count: Seq<char>,
    all: Seq<AnswersView>,
)
    requires
        counts(count, all),
        !(whole_run(config, store, count, all).state is Failed),
    ensures
        ({
            let first = whole_run(config, store, count, all);
            whole_run(first.config, first.store, count, all) == first
        }),
        whole_run(config, store, count, all).state == if all.len() == 0 {
            StateView::Skipped
        } else {
            StateView::Saved
        },
{
    if all.len() > 0 {
        let first = whole_run(config, store, count, all);
        assert forall|i: int| 0 <= i < all.len() implies (#[trigger] all[i]).pass() by {
            if !all[i].pass() {
                law_failed_run_saves_nothing(config, store, count, all, i);
            }
        }
        law_run_leaves_the_files_of_its_identities(config, store, count, all);
        law_run_leaves_the_files_of_its_identities(first.config, first.store, count, all);
        lemma_entered_are_sound(all);
        law_second_run_changes_nothing(config, store, entered(all));
    }
}

} // verus!
