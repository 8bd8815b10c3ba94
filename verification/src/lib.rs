//! Setting up the credentials of a machine: the auth token of the npm registry, SSH
//! identities for GitHub, and the login to a Docker registry.
//!
//! This is the part that decides and computes. It reads no file and asks no question: it is
//! handed what was read or answered, and says what is to be written or asked next.
use vstd::prelude::*;

pub mod count;
pub mod docker;
pub mod error;
pub mod identities;
pub mod npm;
pub mod npm_laws;
pub mod ssh_config;
pub mod ssh_config_laws;
pub mod ssh_dialogue_laws;
pub mod ssh_run_laws;
pub mod ssh_step;
pub mod ssh_step_laws;
pub mod steps;
pub mod text;
pub mod text_laws;

verus! {

/// Says that the crate is in place.
pub fn stub_message() -> (message: &'static str)
    ensures
        message@ == "Starbase stub crate is wired."@,
{
    "Starbase stub crate is wired."
}

} // verus!
