use starbase::identities::{resolve_existing_identity, SshIdentity, SshIdentityFile};
use starbase::npm::npmrc_has_token;
use starbase::ssh_config::{append_ssh_host, format_host_entry, ssh_config_has_host};
use starbase::steps::{normalize_steps, should_run};

// --- should_run ---

#[test]
fn should_run_empty_steps_runs_all() {
    assert!(should_run("npm", &[]));
    assert!(should_run("ssh", &[]));
    assert!(should_run("docker", &[]));
}

#[test]
fn should_run_filters_correctly() {
    let steps = vec!["npm".to_string(), "ssh".to_string()];
    assert!(should_run("npm", &steps));
    assert!(should_run("ssh", &steps));
    assert!(!should_run("docker", &steps));
}

#[test]
fn should_run_is_case_insensitive() {
    let steps = vec!["NPM".to_string()];
    assert!(should_run("npm", &steps));
    assert!(!should_run("ssh", &steps));
}

// --- normalize_steps ---

#[test]
fn normalize_steps_trims_and_drops_empty() {
    // `--steps "npm, ssh"` (clap's comma split leaves " ssh") must still
    // match the "ssh" step, and a trailing empty segment must not linger.
    let steps = vec!["npm".to_string(), " ssh".to_string(), "".to_string()];
    let normalized = normalize_steps(&steps);
    assert_eq!(normalized, vec!["npm".to_string(), "ssh".to_string()]);
    assert!(should_run("ssh", &normalized));
}

// --- npmrc_has_token ---

#[test]
fn npmrc_has_token_detects_present() {
    let content = "//registry.npmjs.org/:_authToken=secret\nother=value\n";
    assert!(npmrc_has_token(content));
}

#[test]
fn npmrc_has_token_false_when_absent() {
    let content = "other=value\nfoo=bar\n";
    assert!(!npmrc_has_token(content));
}

#[test]
fn npmrc_has_token_false_for_empty() {
    assert!(!npmrc_has_token(""));
}

#[test]
fn npmrc_has_token_false_for_blank_value() {
    // A bare `key=` (or whitespace-only value) must not count as configured.
    let content = "//registry.npmjs.org/:_authToken=\nother=value\n";
    assert!(!npmrc_has_token(content));

    let content_ws = "//registry.npmjs.org/:_authToken=   \n";
    assert!(!npmrc_has_token(content_ws));
}

// --- format_host_entry ---

#[test]
fn format_host_entry_contains_alias() {
    let entry = format_host_entry("github-personal", "~/.ssh/id_ed25519_personal").unwrap();
    assert!(entry.contains("Host github-personal"));
    assert!(entry.contains("HostName github.com"));
    assert!(entry.contains("User git"));
    assert!(entry.contains("IdentityFile ~/.ssh/id_ed25519_personal"));
}

#[test]
fn format_host_entry_ends_with_newline() {
    let entry = format_host_entry("github-work", "~/.ssh/id_ed25519_work").unwrap();
    assert!(entry.ends_with('\n'));
}

#[test]
fn format_host_entry_rejects_empty_key() {
    assert!(format_host_entry("github-personal", "").is_err());
}

#[test]
fn format_host_entry_rejects_crlf_injection() {
    // Embedded CR/LF in alias or key must not be interpolated verbatim —
    // that would let attacker-controlled input smuggle extra config lines.
    assert!(format_host_entry("github-personal\nHost evil", "~/.ssh/id_ed25519").is_err());
    assert!(format_host_entry("github-personal", "~/.ssh/id\nHostName evil.com").is_err());
    assert!(format_host_entry("github-personal\r\nHost evil", "~/.ssh/id_ed25519").is_err());
}

#[test]
fn format_host_entry_rejects_whitespace_in_alias() {
    assert!(format_host_entry("github personal", "~/.ssh/id_ed25519").is_err());
}

// --- ssh_config_has_host ---

#[test]
fn ssh_config_has_host_detects_exact_match() {
    let content = "Host github-personal\n    HostName github.com\n    User git\n";
    assert!(ssh_config_has_host(content, "github-personal"));
}

#[test]
fn ssh_config_has_host_false_for_partial_match() {
    let content = "Host github-personal\n    HostName github.com\n";
    assert!(!ssh_config_has_host(content, "github"));
}

#[test]
fn ssh_config_has_host_false_when_absent() {
    let content = "Host github-work\n    HostName github.com\n";
    assert!(!ssh_config_has_host(content, "github-personal"));
}

#[test]
fn ssh_config_has_host_false_for_empty() {
    assert!(!ssh_config_has_host("", "github-personal"));
}

#[test]
fn ssh_config_has_host_detects_multi_alias_line() {
    let content = "Host github-personal github-alt\n    HostName github.com\n";
    assert!(ssh_config_has_host(content, "github-personal"));
    assert!(ssh_config_has_host(content, "github-alt"));
    assert!(!ssh_config_has_host(content, "github-other"));
}

#[test]
fn ssh_config_has_host_detects_inline_comment() {
    let content = "Host github-personal # personal account\n    HostName github.com\n";
    assert!(ssh_config_has_host(content, "github-personal"));
    // The comment text itself must not match as an alias.
    assert!(!ssh_config_has_host(content, "personal"));
    assert!(!ssh_config_has_host(content, "account"));
}

// --- append_ssh_host ---

#[test]
fn append_ssh_host_to_empty_content() {
    let result = append_ssh_host("", "github-personal", "~/.ssh/id_ed25519").unwrap();
    assert!(result.starts_with("Host github-personal"));
    assert!(!result.starts_with('\n'));
}

#[test]
fn append_ssh_host_adds_blank_separator() {
    let existing = "Host github-work\n    HostName github.com\n    User git\n    IdentityFile ~/.ssh/id_ed25519_work\n";
    let result =
        append_ssh_host(existing, "github-personal", "~/.ssh/id_ed25519_personal").unwrap();
    // There should be a blank line between the two blocks
    assert!(result.contains("\n\nHost github-personal"));
}

#[test]
fn append_ssh_host_both_blocks_present() {
    let existing = "Host github-work\n    HostName github.com\n    User git\n    IdentityFile ~/.ssh/id_ed25519_work\n";
    let result = append_ssh_host(existing, "github-personal", "~/.ssh/key").unwrap();
    assert!(result.contains("Host github-work"));
    assert!(result.contains("Host github-personal"));
}

#[test]
fn append_ssh_host_rejects_crlf_injection() {
    let existing = "";
    assert!(append_ssh_host(existing, "alias\nHost evil", "~/.ssh/key").is_err());
}

// --- resolve_existing_identity ---

#[test]
fn resolve_existing_identity_preserves_prior_entry() {
    // Regression: when the alias is already configured in ~/.ssh/config,
    // the identity store must keep the pre-existing key rather than
    // silently swap in whatever the user just typed — otherwise the two
    // files would end up describing different keys for the same alias.
    let existing_identities = SshIdentityFile {
        identity: vec![SshIdentity {
            alias: "github-personal".to_string(),
            username: "old-user".to_string(),
            key: "~/.ssh/id_ed25519_original".to_string(),
        }],
    };
    let freshly_entered = SshIdentity {
        alias: "github-personal".to_string(),
        username: "new-user".to_string(),
        key: "~/.ssh/id_ed25519_new".to_string(),
    };

    let resolved = resolve_existing_identity(&existing_identities, freshly_entered);

    assert_eq!(resolved.username, "old-user");
    assert_eq!(resolved.key, "~/.ssh/id_ed25519_original");
}

#[test]
fn resolve_existing_identity_falls_back_when_no_prior_entry() {
    // ~/.ssh/config already had this Host (e.g. hand-edited before starbase
    // existed) but the identity store has never recorded it — nothing to
    // preserve, so the freshly-entered identity is used as-is.
    let existing_identities = SshIdentityFile::default();
    let freshly_entered = SshIdentity {
        alias: "github-personal".to_string(),
        username: "new-user".to_string(),
        key: "~/.ssh/id_ed25519_new".to_string(),
    };

    let resolved = resolve_existing_identity(&existing_identities, freshly_entered.clone());

    assert_eq!(resolved, freshly_entered);
}
