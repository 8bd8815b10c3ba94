//! Which setup steps to run.
use crate::text;
use vstd::prelude::*;

verus! {

/// What the user asked for.
#[derive(Debug)]
pub struct SecretsArgs {
    /// Only run these steps: npm, ssh, docker (default: all).
    pub steps: Vec<String>,
    /// Say what would happen, and change nothing.
    pub dry_run: bool,
}

/// A setup step.
#[derive(Debug, Clone, Copy, PartialEq, Eq, Structural)]
pub enum Step {
    /// The auth token of the npm registry.
    Npm,
    /// The SSH identities.
    Ssh,
    /// The login to a Docker registry.
    Docker,
}

/// What a run comes to.
#[derive(Debug)]
pub struct RunPlan {
    /// One line for each step name that is not known.
    pub warnings: Vec<String>,
    /// The steps to run, in order.
    pub steps: Vec<Step>,
}

impl Step {
    /// The name of a step on the command line.
    pub open spec fn spec_name(self) -> Seq<char> {
        match self {
            Step::Npm => "npm"@,
            Step::Ssh => "ssh"@,
            Step::Docker => "docker"@,
        }
    }

    /// The name of a step on the command line.
    pub fn name(&self) -> (name: &'static str)
        ensures
            name@ == self.spec_name(),
    {
        match self {
            Step::Npm => "npm",
            Step::Ssh => "ssh",
            Step::Docker => "docker",
        }
    }
}

/// The names among `steps`: each without white space at its ends, and those left out of
/// which nothing remains.
pub open spec fn normalized(steps: Seq<Seq<char>>) -> Seq<Seq<char>>
    decreases steps.len(),
{
    if steps.len() == 0 {
        seq![]
    } else {
        let kept = normalized(steps.drop_last());
        let name = text::trimmed(steps.last());
        if name.len() == 0 {
            kept
        } else {
            kept.push(name)
        }
    }
}

/// `step` is among `steps`, the case of ASCII letters aside.
pub open spec fn listed(step: Seq<char>, steps: Seq<Seq<char>>) -> bool {
    exists|i: int| 0 <= i < steps.len() && text::same_ignoring_case(#[trigger] steps[i], step)
}

/// `step` is to be run: every step is, where none is asked for by name.
pub open spec fn selected(step: Seq<char>, steps: Seq<Seq<char>>) -> bool {
    steps.len() == 0 || listed(step, steps)
}

/// `name` is the name of a step.
pub open spec fn known(name: Seq<char>) -> bool {
    ||| text::same_ignoring_case("npm"@, name)
    ||| text::same_ignoring_case("ssh"@, name)
    ||| text::same_ignoring_case("docker"@, name)
}

/// The warning for a step name that is not known.
pub open spec fn warning_for(name: Seq<char>) -> Seq<char> {
    "warning: unknown step name '"@ + name + "' (known: npm, ssh, docker)"@
}

/// The warnings for those of `steps` that are not known.
pub open spec fn warnings_for(steps: Seq<Seq<char>>) -> Seq<Seq<char>>
    decreases steps.len(),
{
    if steps.len() == 0 {
        seq![]
    } else {
        let rest = warnings_for(steps.drop_last());
        if known(steps.last()) {
            rest
        } else {
            rest.push(warning_for(steps.last()))
        }
    }
}

/// `step` by itself where `steps` select it, and nothing where they do not.
pub open spec fn if_selected(step: Step, steps: Seq<Seq<char>>) -> Seq<Step> {
    if selected(step.spec_name(), steps) {
        seq![step]
    } else {
        seq![]
    }
}

/// The steps that `steps` select, in the order in which they run.
pub open spec fn planned(steps: Seq<Seq<char>>) -> Seq<Step> {
    if_selected(Step::Npm, steps) + if_selected(Step::Ssh, steps) + if_selected(
        Step::Docker,
        steps,
    )
}

/// Takes the white space off the ends of each step name, and leaves out those of which
/// nothing remains, so that `"npm, ssh"` split at the comma means what it says.
pub fn normalize_steps(steps: &[String]) -> (names: Vec<String>)
    ensures
        text::texts(names@) == normalized(text::texts(steps@)),
{
    let mut names: Vec<String> = Vec::new();
    let mut i: usize = 0;
    let ghost all = text::texts(steps@);
    assert(text::texts(names@) =~= normalized(all.take(0)));
    while i < steps.len()
        invariant
            i <= steps.len(),
            all == text::texts(steps@),
            text::texts(names@) == normalized(all.take(i as int)),
        decreases steps.len() - i,
    {
        let name = text::trim(steps[i].as_str());
        proof {
            assert(all.take(i + 1).drop_last() =~= all.take(i as int));
            assert(all.take(i + 1).last() == steps@[i as int]@);
        }
        if !name.is_empty() {
            let owned = name.to_string();
            assert(text::texts(names@.push(owned)) =~= text::texts(names@).push(name@));
            names.push(owned);
        }
        i += 1;
    }
    assert(all.take(all.len() as int) =~= all);
    names
}

/// Tells whether a step is to be run. Where no step is asked for by name, every one is.
pub fn should_run(step: &str, steps: &[String]) -> (run: bool)
    ensures
        run == selected(step@, text::texts(steps@)),
{
    if steps.len() == 0 {
        return true;
    }
    let ghost all = text::texts(steps@);
    let mut i: usize = 0;
    while i < steps.len()
        invariant
            i <= steps.len(),
            all == text::texts(steps@),
            forall|j: int| 0 <= j < i ==> !text::same_ignoring_case(#[trigger] all[j], step@),
        decreases steps.len() - i,
    {
        assert(all[i as int] == steps@[i as int]@);
        if text::same_but_for_case(steps[i].as_str(), step) {
            return true;
        }
        i += 1;
    }
    false
}

/// Tells whether `name` is the name of a step.
fn is_known(name: &str) -> (found: bool)
    ensures
        found == known(name@),
{
    text::same_but_for_case("npm", name) || text::same_but_for_case("ssh", name)
        || text::same_but_for_case("docker", name)
}

/// Gives a warning for each step name that is not known.
pub fn warn_unknown_steps(steps: &[String]) -> (warnings: Vec<String>)
    ensures
        text::texts(warnings@) == warnings_for(text::texts(steps@)),
{
    let mut warnings: Vec<String> = Vec::new();
    let mut i: usize = 0;
    let ghost all = text::texts(steps@);
    assert(text::texts(warnings@) =~= warnings_for(all.take(0)));
    while i < steps.len()
        invariant
            i <= steps.len(),
            all == text::texts(steps@),
            text::texts(warnings@) == warnings_for(all.take(i as int)),
        decreases steps.len() - i,
    {
        proof {
            assert(all.take(i + 1).drop_last() =~= all.take(i as int));
            assert(all.take(i + 1).last() == steps@[i as int]@);
        }
        if !is_known(steps[i].as_str()) {
            let mut warning = "warning: unknown step name '".to_string();
            warning.append(steps[i].as_str());
            warning.append("' (known: npm, ssh, docker)");
            assert(text::texts(warnings@.push(warning)) =~= text::texts(warnings@).push(warning@));
            warnings.push(warning);
        }
        i += 1;
    }
    assert(all.take(all.len() as int) =~= all);
    warnings
}

/// Decides what a run comes to.
pub fn plan_run(args: &SecretsArgs) -> (plan: RunPlan)
    ensures
        text::texts(plan.warnings@) == warnings_for(normalized(text::texts(args.steps@))),
        plan.steps@ == planned(normalized(text::texts(args.steps@))),
{
    let names = normalize_steps(args.steps.as_slice());
    let warnings = warn_unknown_steps(names.as_slice());
    let mut steps: Vec<Step> = Vec::new();
    if should_run(Step::Npm.name(), names.as_slice()) {
        steps.push(Step::Npm);
    }
    if should_run(Step::Ssh.name(), names.as_slice()) {
        steps.push(Step::Ssh);
    }
    if should_run(Step::Docker.name(), names.as_slice()) {
        steps.push(Step::Docker);
    }
    assert(steps@ =~= planned(text::texts(names@)));
    RunPlan { warnings, steps }
}

/// Normalizing step names that are normalized changes nothing.
pub proof fn law_normalizing_is_idempotent(steps: Seq<Seq<char>>)
    ensures
        normalized(normalized(steps)) == normalized(steps),
    decreases steps.len(),
{
    if steps.len() > 0 {
        let kept = normalized(steps.drop_last());
        let name = text::trimmed(steps.last());
        law_normalizing_is_idempotent(steps.drop_last());
        text::lemma_trimmed_twice(steps.last());
        if name.len() > 0 {
            assert(kept.push(name).drop_last() =~= kept);
        }
    }
}

/// A normalized name is never empty, and has no white space at its ends.
pub proof fn law_normalized_names_are_trimmed(steps: Seq<Seq<char>>, i: int)
    requires
        0 <= i < normalized(steps).len(),
    ensures
        normalized(steps)[i].len() > 0,
        text::trimmed(normalized(steps)[i]) == normalized(steps)[i],
    decreases steps.len(),
{
    if steps.len() > 0 {
        let kept = normalized(steps.drop_last());
        text::lemma_trimmed_twice(steps.last());
        if i < kept.len() {
            law_normalized_names_are_trimmed(steps.drop_last(), i);
        }
    }
}

/// White space around a name is of no account: a step is listed among the normalized names
/// exactly if one of the names as given, trimmed, is that of the step.
pub proof fn law_listed_after_trimming(step: Seq<char>, steps: Seq<Seq<char>>)
    requires
        step.len() > 0,
    ensures
        listed(step, normalized(steps)) <==> exists|i: int|
            0 <= i < steps.len() && text::same_ignoring_case(
                text::trimmed(#[trigger] steps[i]),
                step,
            ),
    decreases steps.len(),
{
    if steps.len() > 0 {
        let front = steps.drop_last();
        let kept = normalized(front);
        let name = text::trimmed(steps.last());
        let all = normalized(steps);
        let n = steps.len() as int;
        law_listed_after_trimming(step, front);
        if listed(step, kept) {
            let k = choose|k: int|
                0 <= k < kept.len() && text::same_ignoring_case(#[trigger] kept[k], step);
            assert(all[k] == kept[k]);
            let i = choose|i: int|
                0 <= i < front.len() && text::same_ignoring_case(
                    text::trimmed(#[trigger] front[i]),
                    step,
                );
            assert(steps[i] == front[i]);
        }
        if text::same_ignoring_case(name, step) {
            assert(all[kept.len() as int] == name);
            assert(steps[n - 1] == steps.last());
        }
        if listed(step, all) {
            let k = choose|k: int|
                0 <= k < all.len() && text::same_ignoring_case(#[trigger] all[k], step);
            if k < kept.len() {
                assert(kept[k] == all[k]);
            }
        }
        if exists|i: int|
            0 <= i < steps.len() && text::same_ignoring_case(
                text::trimmed(#[trigger] steps[i]),
                step,
            ) {
            let i = choose|i: int|
                0 <= i < steps.len() && text::same_ignoring_case(
                    text::trimmed(#[trigger] steps[i]),
                    step,
                );
            if i < n - 1 {
                assert(front[i] == steps[i]);
            }
        }
    }
}

/// The case of ASCII letters is of no account: names that differ in nothing else select the
/// same step.
pub proof fn law_case_does_not_matter(a: Seq<char>, b: Seq<char>, steps: Seq<Seq<char>>)
    requires
        text::same_ignoring_case(a, b),
    ensures
        selected(a, steps) == selected(b, steps),
{
    assert forall|i: int| 0 <= i < steps.len() implies text::same_ignoring_case(
        #[trigger] steps[i],
        a,
    ) == text::same_ignoring_case(steps[i], b) by {
        let s = steps[i];
        if text::same_ignoring_case(s, a) {
            assert forall|j: int| 0 <= j < s.len() implies text::folded(#[trigger] s[j])
                == text::folded(b[j]) by {
                assert(text::folded(a[j]) == text::folded(b[j]));
            }
        }
        if text::same_ignoring_case(s, b) {
            assert forall|j: int| 0 <= j < s.len() implies text::folded(#[trigger] s[j])
                == text::folded(a[j]) by {
                assert(text::folded(a[j]) == text::folded(b[j]));
            }
        }
    }
}

/// A name that is not known selects nothing and drops nothing: beside others it makes no
/// difference to the steps that run. By itself it is not the same as no name at all, which
/// selects every step.
pub proof fn law_unknown_name_is_ignored(steps: Seq<Seq<char>>, name: Seq<char>)
    requires
        !known(name),
        steps.len() > 0,
    ensures
        planned(steps.push(name)) == planned(steps),
        planned(seq![name]) == Seq::<Step>::empty(),
{
    let more = steps.push(name);
    assert forall|step: Step| selected(#[trigger] step.spec_name(), more) == selected(
        step.spec_name(),
        steps,
    ) && !selected(step.spec_name(), seq![name]) by {
        let s = step.spec_name();
        assert(!text::same_ignoring_case(name, s)) by {
            if text::same_ignoring_case(name, s) {
                assert forall|j: int| 0 <= j < s.len() implies text::folded(#[trigger] s[j])
                    == text::folded(name[j]) by {
                    assert(text::folded(name[j]) == text::folded(s[j]));
                }
                assert(text::same_ignoring_case(s, name));
            }
        }
        if listed(s, steps) {
            let i = choose|i: int|
                0 <= i < steps.len() && text::same_ignoring_case(#[trigger] steps[i], s);
            assert(more[i] == steps[i]);
        }
        if listed(s, more) {
            let i = choose|i: int|
                0 <= i < more.len() && text::same_ignoring_case(#[trigger] more[i], s);
            if i < steps.len() {
                assert(steps[i] == more[i]);
            }
        }
    }
    assert(selected(Step::Npm.spec_name(), more) == selected(Step::Npm.spec_name(), steps));
    assert(selected(Step::Ssh.spec_name(), more) == selected(Step::Ssh.spec_name(), steps));
    assert(selected(Step::Docker.spec_name(), more) == selected(Step::Docker.spec_name(), steps));
    assert(planned(seq![name]) =~= Seq::<Step>::empty());
}

/// Where no name was given, or only blank ones, all three steps run, in order.
pub proof fn law_no_names_select_all(steps: Seq<Seq<char>>)
    requires
        forall|i: int| 0 <= i < steps.len() ==> text::blank(#[trigger] steps[i]),
    ensures
        planned(normalized(steps)) == seq![Step::Npm, Step::Ssh, Step::Docker],
    decreases steps.len(),
{
    if steps.len() > 0 {
        assert forall|i: int| 0 <= i < steps.drop_last().len() implies text::blank(
            #[trigger] steps.drop_last()[i],
        ) by {
            assert(steps.drop_last()[i] == steps[i]);
        }
        law_no_names_select_all(steps.drop_last());
        assert(text::blank(steps[steps.len() - 1]));
        text::lemma_trimmed_blank(steps.last());
    } else {
        assert(planned(normalized(steps)) =~= seq![Step::Npm, Step::Ssh, Step::Docker]);
    }
}

/// Every name is accounted for: it is that of a step, or there is a warning for it.
pub proof fn law_unknown_names_are_warned_of(steps: Seq<Seq<char>>, i: int)
    requires
        0 <= i < steps.len(),
    ensures
        known(steps[i]) || warnings_for(steps).contains(warning_for(steps[i])),
    decreases steps.len(),
{
    let front = steps.drop_last();
    if i < front.len() {
        law_unknown_names_are_warned_of(front, i);
        assert(front[i] == steps[i]);
        if !known(steps[i]) {
            let w = warnings_for(front);
            let k = choose|k: int| 0 <= k < w.len() && w[k] == warning_for(steps[i]);
            assert(warnings_for(steps)[k] == w[k]);
        }
    } else if !known(steps[i]) {
        let w = warnings_for(steps);
        assert(w[w.len() - 1] == warning_for(steps[i]));
    }
}

proof fn lemma_case_symmetric(a: Seq<char>, b: Seq<char>)
    requires
        text::same_ignoring_case(a, b),
    ensures
        text::same_ignoring_case(b, a),
{
    assert forall|j: int| 0 <= j < b.len() implies text::folded(#[trigger] b[j]) == text::folded(
        a[j],
    ) by {
        assert(text::folded(a[j]) == text::folded(b[j]));
    }
}

/// A step runs exactly if no names were given, or one of the names is that of the step, the
/// case of ASCII letters aside; whether another step runs makes no difference. The steps run
/// in the order npm, ssh, docker, each at most once.
pub proof fn law_step_runs_if_it_is_named(names: Seq<Seq<char>>, step: Step)
    ensures
        planned(names).contains(step) <==> names.len() == 0 || exists|i: int|
            0 <= i < names.len() && text::same_ignoring_case(
                #[trigger] names[i],
                match step {
                    Step::Npm => "npm"@,
                    Step::Ssh => "ssh"@,
                    Step::Docker => "docker"@,
                },
            ),
        planned(names) == seq![Step::Npm, Step::Ssh, Step::Docker].filter(
            |s: Step| planned(names).contains(s),
        ),
{
    let plan = planned(names);
    let npm = if_selected(Step::Npm, names);
    let ssh = if_selected(Step::Ssh, names);
    let docker = if_selected(Step::Docker, names);
    let runs = |s: Step| plan.contains(s);
    if npm.len() > 0 {
        assert(plan[0] == Step::Npm);
    }
    if ssh.len() > 0 {
        assert(plan[npm.len() as int] == Step::Ssh);
    }
    if docker.len() > 0 {
        assert(plan[(npm.len() + ssh.len()) as int] == Step::Docker);
    }
    let one = seq![Step::Npm];
    let two = seq![Step::Npm, Step::Ssh];
    let three = seq![Step::Npm, Step::Ssh, Step::Docker];
    assert(three.drop_last() =~= two);
    assert(two.drop_last() =~= one);
    assert(one.drop_last() =~= Seq::<Step>::empty());
    reveal_with_fuel(Seq::filter, 4);
    assert(three.filter(runs) =~= plan);
}

/// Of the names on the command line the white space at the ends is of no account, nor are
/// those that are blank: a step runs exactly if they all are, or one of them, trimmed, is the
/// name of the step, the case of ASCII letters aside.
pub proof fn law_step_runs_if_it_is_asked_for(names: Seq<Seq<char>>, step: Step)
    ensures
        planned(normalized(names)).contains(step) <==> {
            ||| forall|i: int| 0 <= i < names.len() ==> text::blank(#[trigger] names[i])
            ||| exists|i: int|
                0 <= i < names.len() && text::same_ignoring_case(
                    text::trimmed(#[trigger] names[i]),
                    match step {
                        Step::Npm => "npm"@,
                        Step::Ssh => "ssh"@,
                        Step::Docker => "docker"@,
                    },
                )
        },
{
    reveal_strlit("npm");
    reveal_strlit("ssh");
    reveal_strlit("docker");
    law_step_runs_if_it_is_named(normalized(names), step);
    law_listed_after_trimming(step.spec_name(), names);
    lemma_normalized_empty(names);
}

proof fn lemma_normalized_empty(names: Seq<Seq<char>>)
    ensures
        normalized(names).len() == 0 <==> (forall|i: int|
            0 <= i < names.len() ==> text::blank(#[trigger] names[i])),
    decreases names.len(),
{
    if names.len() > 0 {
        let front = names.drop_last();
        lemma_normalized_empty(front);
        text::lemma_trimmed_blank(names.last());
        assert(names[names.len() - 1] == names.last());
        if normalized(names).len() == 0 {
            assert forall|i: int| 0 <= i < names.len() implies text::blank(#[trigger] names[i]) by {
                if i < front.len() {
                    assert(front[i] == names[i]);
                }
            }
        } else if normalized(front).len() > 0 {
            let i = choose|i: int| 0 <= i < front.len() && !text::blank(#[trigger] front[i]);
            assert(!text::blank(names[i]));
        }
    }
}

/// Names are normalized one by one, in order: a blank one is left out, and of any other the
/// white space at its ends.
pub proof fn law_names_are_normalized_one_by_one(
    a: Seq<Seq<char>>,
    name: Seq<char>,
    b: Seq<Seq<char>>,
)
    ensures
        normalized(Seq::<Seq<char>>::empty()) == Seq::<Seq<char>>::empty(),
        text::blank(name) ==> normalized(seq![name]) == Seq::<Seq<char>>::empty(),
        !text::blank(name) ==> normalized(seq![name]) == seq![text::trimmed(name)],
        normalized(a + b) == normalized(a) + normalized(b),
    decreases b.len(),
{
    text::lemma_trimmed_blank(name);
    assert(seq![name].drop_last() =~= Seq::<Seq<char>>::empty());
    assert(normalized(Seq::<Seq<char>>::empty()) =~= Seq::<Seq<char>>::empty());
    reveal_with_fuel(normalized, 2);
    if b.len() == 0 {
        assert(a + b =~= a);
        assert(normalized(a) + normalized(b) =~= normalized(a));
    } else {
        law_names_are_normalized_one_by_one(a, name, b.drop_last());
        assert((a + b).drop_last() =~= a + b.drop_last());
        assert((a + b).last() == b.last());
        assert(normalized(a + b) =~= normalized(a) + normalized(b));
    }
}

/// Where names were given, a step is run if one of them is its name, the case of ASCII
/// letters aside; where none was, every step is.
pub proof fn law_selected_by_parts(
    step: Seq<char>,
    a: Seq<Seq<char>>,
    name: Seq<char>,
    b: Seq<Seq<char>>,
)
    ensures
        selected(step, Seq::<Seq<char>>::empty()),
        selected(step, seq![name]) <==> text::same_ignoring_case(name, step),
        a.len() > 0 && b.len() > 0 ==> (selected(step, a + b) <==> selected(step, a) || selected(
            step,
            b,
        )),
{
    let all = a + b;
    assert(seq![name][0] == name);
    if listed(step, a) {
        let i = choose|i: int| 0 <= i < a.len() && text::same_ignoring_case(#[trigger] a[i], step);
        assert(all[i] == a[i]);
    }
    if listed(step, b) {
        let i = choose|i: int| 0 <= i < b.len() && text::same_ignoring_case(#[trigger] b[i], step);
        assert(all[a.len() + i] == b[i]);
    }
    if listed(step, all) {
        let i = choose|i: int|
            0 <= i < all.len() && text::same_ignoring_case(#[trigger] all[i], step);
        if i < a.len() {
            assert(a[i] == all[i]);
        } else {
            assert(b[i - a.len()] == all[i]);
        }
    }
}

/// Names are looked at one by one, in order: the name of a step gives no warning, the case of
/// ASCII letters aside, and any other gives one that quotes it.
pub proof fn law_warnings_come_one_by_one(a: Seq<Seq<char>>, name: Seq<char>, b: Seq<Seq<char>>)
    ensures
        warnings_for(Seq::<Seq<char>>::empty()) == Seq::<Seq<char>>::empty(),
        warnings_for(seq![name]) == if text::same_ignoring_case(name, "npm"@)
            || text::same_ignoring_case(name, "ssh"@) || text::same_ignoring_case(
            name,
            "docker"@,
        ) {
            Seq::<Seq<char>>::empty()
        } else {
            seq!["warning: unknown step name '"@ + name + "' (known: npm, ssh, docker)"@]
        },
        warnings_for(a + b) == warnings_for(a) + warnings_for(b),
    decreases b.len(),
{
    assert(known(name) <==> text::same_ignoring_case(name, "npm"@) || text::same_ignoring_case(
        name,
        "ssh"@,
    ) || text::same_ignoring_case(name, "docker"@)) by {
        if text::same_ignoring_case(name, "npm"@) {
            lemma_case_symmetric(name, "npm"@);
        }
        if text::same_ignoring_case(name, "ssh"@) {
            lemma_case_symmetric(name, "ssh"@);
        }
        if text::same_ignoring_case(name, "docker"@) {
            lemma_case_symmetric(name, "docker"@);
        }
        if text::same_ignoring_case("npm"@, name) {
            lemma_case_symmetric("npm"@, name);
        }
        if text::same_ignoring_case("ssh"@, name) {
            lemma_case_symmetric("ssh"@, name);
        }
        if text::same_ignoring_case("docker"@, name) {
            lemma_case_symmetric("docker"@, name);
        }
    }
    assert(seq![name].drop_last() =~= Seq::<Seq<char>>::empty());
    assert(warnings_for(Seq::<Seq<char>>::empty()) =~= Seq::<Seq<char>>::empty());
    reveal_with_fuel(warnings_for, 2);
    if b.len() == 0 {
        assert(a + b =~= a);
        assert(warnings_for(a) + warnings_for(b) =~= warnings_for(a));
    } else {
        law_warnings_come_one_by_one(a, name, b.drop_last());
        assert((a + b).drop_last() =~= a + b.drop_last());
        assert((a + b).last() == b.last());
        assert(warnings_for(a + b) =~= warnings_for(a) + warnings_for(b));
    }
}

/// Each step goes by its own name, which is known, and is run where that name is given.
pub proof fn law_step_goes_by_its_name(step: Step)
    ensures
        step.spec_name() == match step {
            Step::Npm => "npm"@,
            Step::Ssh => "ssh"@,
            Step::Docker => "docker"@,
        },
        known(step.spec_name()),
        planned(seq![step.spec_name()]).contains(step),
{
    let names = seq![step.spec_name()];
    law_step_runs_if_it_is_named(names, step);
    assert(names[0] == step.spec_name());
}

} // verus!
