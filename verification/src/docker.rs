//! The Docker step: the arguments of a login.
use crate::text;
use crate::text_laws;
use vstd::prelude::*;

verus! {

/// The registry that is meant where none is named.
pub const DOCKER_HUB_REGISTRY: &'static str = "docker.io";

/// The arguments of a login. The password is Docker's to ask for.
#[derive(Debug, PartialEq, Eq)]
pub struct DockerLoginArgs {
    /// The registry to log in to.
    pub registry: String,
    /// The username, unless Docker is to ask for it.
    pub username: Option<String>,
    /// Say what would happen, and do nothing.
    pub dry_run: bool,
}

/// What the Docker step does first.
#[derive(Debug, Clone, Copy, PartialEq, Eq, Structural)]
pub enum DockerPlan {
    /// Say what would be done, and do nothing.
    DryRun,
    /// Ask for the registry and the username, then log in.
    AskRegistry,
}

/// Decides what the Docker step does: on a dry run it neither asks nor logs in.
pub fn plan_docker_step(dry_run: bool) -> (plan: DockerPlan)
    ensures
        plan == if dry_run {
            DockerPlan::DryRun
        } else {
            DockerPlan::AskRegistry
        },
{
    if dry_run {
        DockerPlan::DryRun
    } else {
        DockerPlan::AskRegistry
    }
}

/// The registry and the username of a login, from what was answered. A blank username is
/// none.
pub open spec fn login(registry: Seq<char>, username: Seq<char>) -> (Seq<char>, Option<Seq<char>>) {
    (
        text::trimmed(registry),
        if text::blank(username) {
            None
        } else {
            Some(text::trimmed(username))
        },
    )
}

/// Makes the arguments of a login from what the user answered when asked for the registry
/// and the username.
pub fn docker_login_args(registry: &str, username: &str) -> (args: DockerLoginArgs)
    ensures
        args.registry@ == text::trimmed(registry@),
        match args.username {
            Some(name) => !text::blank(username@) && name@ == text::trimmed(username@),
            None => text::blank(username@),
        },
        !args.dry_run,
        args.registry@ == login(registry@, username@).0,
        login(registry@, username@).1 == match args.username {
            Some(name) => Some(name@),
            None => None,
        },
{
    proof {
        text::lemma_trimmed_blank(username@);
    }
    let name = text::trim(username);
    DockerLoginArgs {
        registry: text::trim(registry).to_string(),
        username: if name.is_empty() {
            None
        } else {
            Some(name.to_string())
        },
        dry_run: false,
    }
}

/// The answers are taken without the white space around them and with nothing else lost or
/// changed, each by itself: neither makes a difference to the other. A blank username leaves
/// it to Docker to ask.
pub proof fn law_login_takes_the_answers(
    front: Seq<char>,
    s: Seq<char>,
    back: Seq<char>,
    other: Seq<char>,
)
    requires
        text::blank(front),
        text::blank(back),
        s.len() > 0 && !text::white_space(s[0]) && !text::white_space(s.last()),
    ensures
        login(front + s + back, other).0 == s,
        login(front, other).0 == Seq::<char>::empty(),
        login(other, front + s + back).1 == Some(s),
        login(other, front).1 is None,
{
    let t = front + s + back;
    text_laws::law_trimming_takes_the_ends(front, s, back);
    text_laws::law_trimming_a_blank_leaves_nothing(front);
    assert(t[front.len() as int] == s[0]);
    assert(!text::blank(t));
}

} // verus!
