use oma_id::provisioning::{
    account_action, groupadd_args, passwd_name, passwd_uid, shadow_hash_in, useradd_args,
    validate_mapping, verify_local_password, AccountAction, CredentialVerifier, PosixMapping,
    ProvisionError, RateDecision, RateLimiter, CREDENTIAL_WINDOW_NANOS, MAX_CREDENTIAL_FAILURES,
};

const SECOND: u64 = 1_000_000_000;

fn mapping() -> PosixMapping {
    PosixMapping {
        username: "deviceowner".into(),
        uid: 10001,
        gid: 10001,
        home: "/home/deviceowner".into(),
        shell: "/bin/zsh".into(),
        full_name: "Device Owner".into(),
    }
}

#[test]
fn mapping_paths_are_checked() {
    assert!(validate_mapping(&mapping()).is_ok());
    let mut m = mapping();
    m.home = "/root".into();
    assert!(matches!(validate_mapping(&m), Err(ProvisionError::Message(t)) if t == "home \"/root\" must be under /home"));
    m.home = "/home/../etc".into();
    assert!(matches!(validate_mapping(&m), Err(ProvisionError::Message(t)) if t == "home \"/home/../etc\" must be under /home"));
    let mut m = mapping();
    m.shell = "bin/zsh".into();
    assert!(matches!(validate_mapping(&m), Err(ProvisionError::Message(t)) if t == "shell \"bin/zsh\" must be an absolute path"));
    m.shell = "a\"b\\c\n".into();
    assert!(matches!(validate_mapping(&m), Err(ProvisionError::Message(t)) if t == format!("shell {:?} must be an absolute path", "a\"b\\c\n")));
}

#[test]
fn passwd_entries_are_read_from_their_first_line() {
    let entry = "deviceowner:x:10001:10001:Device Owner:/home/deviceowner:/bin/zsh\n";
    assert_eq!(passwd_uid(entry), Some(10001));
    assert_eq!(passwd_name(entry), "deviceowner");
    assert_eq!(passwd_uid("a:x:+7:1\r\nb:x:8:1\n"), Some(7));
    assert_eq!(passwd_uid("a:x:notanumber:1\n"), None);
    assert_eq!(passwd_uid("a:x\n"), None);
    assert_eq!(passwd_uid(""), None);
    assert_eq!(passwd_name(""), "");
}

#[test]
fn provisioning_is_idempotent_and_refuses_collisions() {
    let m = mapping();
    assert!(matches!(account_action(&m, Some(10001), None), Ok(AccountAction::AlreadyProvisioned)));
    assert!(matches!(
        account_action(&m, Some(1000), None),
        Err(ProvisionError::Message(t))
            if t == "local user deviceowner exists with uid 1000, server maps uid 10001 (§8.4 collision)"
    ));
    assert!(matches!(
        account_action(&m, None, Some("someone:x:10001:10001::/home/someone:/bin/sh\n")),
        Err(ProvisionError::Message(t)) if t == "uid 10001 is taken by local user someone (§8.4 collision)"
    ));
    assert!(matches!(account_action(&m, None, None), Ok(AccountAction::Create)));
}

#[test]
fn account_tools_get_argument_arrays() {
    assert_eq!(groupadd_args(10001, "deviceowner"), vec!["--gid", "10001", "deviceowner"]);
    assert_eq!(
        useradd_args(&mapping()),
        vec![
            "--uid", "10001", "--gid", "10001", "--create-home", "--home-dir", "/home/deviceowner",
            "--shell", "/bin/zsh", "--comment", "Device Owner", "deviceowner",
        ]
    );
    let mut m = mapping();
    m.full_name = String::new();
    assert_eq!(useradd_args(&m)[10], "deviceowner");
}

#[test]
fn shadow_hashes_are_found_by_account() {
    let shadow = "root:!:19000::::::\nowner:$y$j9T$salt$hash:19000:0:99999:7:::\nempty::19000::::::\n";
    assert_eq!(shadow_hash_in(shadow, "owner"), Some("$y$j9T$salt$hash"));
    assert_eq!(shadow_hash_in(shadow, "root"), Some("!"));
    assert_eq!(shadow_hash_in(shadow, "empty"), None);
    assert_eq!(shadow_hash_in(shadow, "nobody"), None);
    assert_eq!(shadow_hash_in("owner\n", "owner"), None);
}

fn fake_crypt(setting: &str, key: &str) -> Option<String> {
    // Stands in for crypt(3): the stored setting is "$t$" + password.
    if setting.starts_with("$t$") {
        Some(format!("$t${key}"))
    } else {
        None
    }
}

#[test]
fn local_passwords_verify_against_the_shadow_hash() {
    let shadow = "owner:$t$hunter2:1::::::\nlocked:!$t$hunter2:1::::::\nstar:*:1::::::\nodd:$x$abc:1::::::\n";
    assert!(verify_local_password(shadow, "owner", "hunter2", fake_crypt));
    assert!(!verify_local_password(shadow, "owner", "hunter3", fake_crypt));
    assert!(!verify_local_password(shadow, "locked", "hunter2", fake_crypt));
    assert!(!verify_local_password(shadow, "star", "", fake_crypt));
    assert!(!verify_local_password(shadow, "odd", "abc", fake_crypt));
    assert!(!verify_local_password(shadow, "nobody", "hunter2", fake_crypt));
}

#[test]
fn rate_limiter_locks_after_max_failures_in_window() {
    let mut limiter = RateLimiter::new(3, 60 * SECOND, 120 * SECOND);
    let t0 = 1_000 * SECOND;
    for i in 0..3 {
        assert_eq!(limiter.check("owner", t0 + i), RateDecision::Allowed);
        limiter.record_failure("owner", t0 + i);
    }
    // The oldest counted failure is 10s old: 110 whole seconds of cooldown
    // remain, and the hint rounds up past them.
    assert_eq!(limiter.check("owner", t0 + 10 * SECOND), RateDecision::Limited { retry_after_secs: 111 });
    // Other accounts are unaffected.
    assert_eq!(limiter.check("other", t0 + 10 * SECOND), RateDecision::Allowed);
    // Failures leave the window.
    assert_eq!(limiter.check("owner", t0 + 61 * SECOND), RateDecision::Allowed);
}

#[test]
fn rate_limiter_allows_below_the_limit_and_bounds_the_retry_hint() {
    let mut limiter = RateLimiter::new(3, 60 * SECOND, 30 * SECOND);
    // A failure that left the window never counts.
    limiter.record_failure("owner", 0);
    limiter.record_failure("owner", 100 * SECOND);
    limiter.record_failure("owner", 101 * SECOND);
    assert_eq!(limiter.check("owner", 102 * SECOND), RateDecision::Allowed);
    limiter.record_failure("owner", 102 * SECOND);
    match limiter.check("owner", 102 * SECOND) {
        RateDecision::Limited { retry_after_secs } => assert!((1..=31).contains(&retry_after_secs)),
        RateDecision::Allowed => panic!("three failures in the window limit"),
    }
    // Past the whole cooldown the hint is one second.
    assert_eq!(limiter.check("owner", 150 * SECOND), RateDecision::Limited { retry_after_secs: 1 });
}

#[test]
fn rate_limiter_success_clears_failures() {
    let mut limiter = RateLimiter::new(2, 60 * SECOND, 60 * SECOND);
    limiter.record_failure("owner", 0);
    limiter.record_failure("owner", 1);
    assert!(matches!(limiter.check("owner", 2), RateDecision::Limited { .. }));
    limiter.record_success("owner");
    assert_eq!(limiter.check("owner", 3), RateDecision::Allowed);
}

#[test]
fn zero_limit_always_limits() {
    let mut limiter = RateLimiter::new(0, SECOND, 5 * SECOND);
    assert_eq!(limiter.check("owner", 7), RateDecision::Limited { retry_after_secs: 6 });
}

#[test]
fn credential_verifier_rate_limits_wrong_passwords() {
    let mut verifier = CredentialVerifier::new();
    let start = 10 * SECOND;
    for i in 0..MAX_CREDENTIAL_FAILURES as u64 {
        assert!(!verifier.verify("owner", "wrong", start + i, |_, p| p == "right"));
    }
    // Now even the right password is refused, and the check is not consulted.
    assert!(!verifier.verify("owner", "right", start + 10, |_, _| panic!("must not be consulted")));
    // Another account is untouched by the owner's failures.
    assert!(verifier.verify("guest", "right", start + 11, |_, p| p == "right"));
    // After the window the right password verifies again and clears the record.
    let later = start + CREDENTIAL_WINDOW_NANOS + 10;
    assert!(verifier.verify("owner", "right", later, |_, p| p == "right"));
    assert!(!verifier.verify("owner", "wrong", later + 1, |_, p| p == "right"));
}
