use starbase::npm::{
    npm_token_entered, npmrc_has_token, plan_npm_step, upsert_npmrc_line, NpmPlan, NpmUpdate,
    NPM_TOKEN_KEY,
};

#[test]
fn token_is_added_to_an_empty_file() {
    assert_eq!(upsert_npmrc_line("", "abc"), "//registry.npmjs.org/:_authToken=abc\n");
}

#[test]
fn token_is_added_behind_other_lines() {
    assert_eq!(
        upsert_npmrc_line("a=1\nb=2", "abc"),
        "a=1\nb=2\n//registry.npmjs.org/:_authToken=abc\n"
    );
}

#[test]
fn blank_token_line_is_filled_in() {
    let content = "a=1\r\n  //registry.npmjs.org/:_authToken=  \nb=2\n";
    assert!(!npmrc_has_token(content));
    let updated = upsert_npmrc_line(content, "abc");
    assert_eq!(updated, "a=1\r\n//registry.npmjs.org/:_authToken=abc\nb=2\n");
    assert!(npmrc_has_token(&updated));
}

#[test]
fn every_token_line_is_replaced() {
    let content = format!("{NPM_TOKEN_KEY}=x\nz=0\n{NPM_TOKEN_KEY}=y");
    let updated = upsert_npmrc_line(&content, "abc");
    assert_eq!(updated, format!("{NPM_TOKEN_KEY}=abc\nz=0\n{NPM_TOKEN_KEY}=abc\n"));
}

#[test]
fn last_token_wins() {
    let content = "a=1\n";
    let twice = upsert_npmrc_line(&upsert_npmrc_line(content, "one"), "two");
    assert_eq!(twice, upsert_npmrc_line(content, "two"));
    assert_eq!(upsert_npmrc_line(&twice, "two"), twice);
}

#[test]
fn blank_token_does_not_count() {
    assert!(!npmrc_has_token(&upsert_npmrc_line("a=1\n", " \t")));
    assert!(npmrc_has_token(&upsert_npmrc_line("a=1\n", " x")));
}

#[test]
fn other_registries_do_not_count() {
    assert!(!npmrc_has_token("//npm.example.org/:_authToken=secret\n"));
    assert!(!npmrc_has_token("# //registry.npmjs.org/:_authToken=secret\n"));
    assert!(npmrc_has_token("\t//registry.npmjs.org/:_authToken=secret"));
}

#[test]
fn npm_step_decisions() {
    let set = "//registry.npmjs.org/:_authToken=secret\n";
    assert_eq!(plan_npm_step(set, false), NpmPlan::AlreadyConfigured);
    assert_eq!(plan_npm_step(set, true), NpmPlan::AlreadyConfigured);
    assert_eq!(plan_npm_step("", true), NpmPlan::DryRun);
    assert_eq!(plan_npm_step("", false), NpmPlan::AskToken);
    assert_eq!(npm_token_entered("", ""), NpmUpdate::Skip);
    assert_eq!(
        npm_token_entered("", "t"),
        NpmUpdate::Write("//registry.npmjs.org/:_authToken=t\n".to_string())
    );
}

#[test]
fn npm_step_is_done_once() {
    match npm_token_entered("a=1\n", "secret") {
        NpmUpdate::Write(new) => {
            assert_eq!(plan_npm_step(&new, false), NpmPlan::AlreadyConfigured);
            assert!(new.starts_with("a=1\n"));
        }
        NpmUpdate::Skip => panic!("a token was entered"),
    }
}
