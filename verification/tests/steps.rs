use starbase::docker::{
    docker_login_args, plan_docker_step, DockerPlan, DOCKER_HUB_REGISTRY,
};
use starbase::steps::{
    normalize_steps, plan_run, should_run, warn_unknown_steps, SecretsArgs, Step,
};

fn names(list: &[&str]) -> Vec<String> {
    list.iter().map(|s| s.to_string()).collect()
}

fn plan(list: &[&str]) -> (Vec<String>, Vec<Step>) {
    let args = SecretsArgs { steps: names(list), dry_run: false };
    let plan = plan_run(&args);
    (plan.warnings, plan.steps)
}

#[test]
fn no_names_select_all_steps() {
    let all = vec![Step::Npm, Step::Ssh, Step::Docker];
    assert_eq!(plan(&[]), (names(&[]), all.clone()));
    assert_eq!(plan(&["", "  "]), (names(&[]), all));
}

#[test]
fn steps_run_in_their_own_order() {
    assert_eq!(plan(&["docker", " SSH "]).1, vec![Step::Ssh, Step::Docker]);
}

#[test]
fn unknown_names_are_warned_of_and_ignored() {
    let (warnings, steps) = plan(&["npm", "shh"]);
    assert_eq!(
        warnings,
        names(&["warning: unknown step name 'shh' (known: npm, ssh, docker)"])
    );
    assert_eq!(steps, vec![Step::Npm]);
    assert_eq!(plan(&["shh"]).1, vec![]);
}

#[test]
fn known_names_bring_no_warning() {
    assert!(warn_unknown_steps(&names(&["npm", "Ssh", "DOCKER"])).is_empty());
    assert_eq!(warn_unknown_steps(&names(&["a", "npm", "b"])).len(), 2);
}

#[test]
fn normalizing_twice_is_normalizing_once() {
    let once = normalize_steps(&names(&[" npm\t", "", "\u{a0}", "ssh"]));
    assert_eq!(once, names(&["npm", "ssh"]));
    assert_eq!(normalize_steps(&once), once);
}

#[test]
fn names_must_match_in_full() {
    assert!(!should_run("npm", &names(&["np", "npmx"])));
    assert_eq!(Step::Docker.name(), "docker");
}

#[test]
fn docker_arguments() {
    let args = docker_login_args(" ghcr.io ", " me ");
    assert_eq!(args.registry, "ghcr.io");
    assert_eq!(args.username, Some("me".to_string()));
    assert!(!args.dry_run);
    let args = docker_login_args(DOCKER_HUB_REGISTRY, "  ");
    assert_eq!(args.registry, "docker.io");
    assert_eq!(args.username, None);
}

#[test]
fn docker_step_decisions() {
    assert_eq!(plan_docker_step(true), DockerPlan::DryRun);
    assert_eq!(plan_docker_step(false), DockerPlan::AskRegistry);
}
