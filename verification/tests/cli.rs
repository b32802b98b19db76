use oma_id::authz::Operation;
use oma_id::cli::{parse, parse_ops, parse_u64, CliError, Flag, LeaseSource};

fn args(list: &[&str]) -> Vec<String> {
    list.iter().map(|s| s.to_string()).collect()
}

#[test]
fn parses_a_command_line_lease() {
    let parsed = parse(&args(&[
        "--socket", "/tmp/agent.sock",
        "--subject", "person-1",
        "--device", "device-1",
        "--not-before", "1000",
        "--expires-at", "2000",
        "--revocation-epoch", "7",
        "--trusted-time-floor", "1400",
        "--min-revocation-epoch", "7",
        "--ops", "Login, Unlock,,",
        "--password", "p1nned-credential",
    ]))
    .expect("parsed");
    assert_eq!(parsed.socket, "/tmp/agent.sock");
    assert!(matches!(parsed.lease_source, LeaseSource::Cli));
    assert_eq!(parsed.subject.as_deref(), Some("person-1"));
    assert_eq!(parsed.not_before, Some(1000));
    assert_eq!(parsed.expires_at, Some(2000));
    assert_eq!(parsed.minimum_revocation_epoch, Some(7));
    assert_eq!(parsed.ops, Some(vec![Operation::Login, Operation::Unlock]));
    assert_eq!(parsed.password.as_deref(), Some("p1nned-credential"));
}

#[test]
fn parses_store_modes() {
    let parsed = parse(&args(&["--socket", "s", "--store", "leases.json", "--issuer-keys", "keys.json"])).expect("key set mode");
    assert!(matches!(parsed.lease_source, LeaseSource::StoreWithKeySet { ref path, ref key_set } if path == "leases.json" && key_set == "keys.json"));
    assert!(parsed.subject.is_none() && parsed.ops.is_none() && parsed.password.is_none());
    let parsed = parse(&args(&["--store", "leases.json", "--issuer-key", "abcd", "--socket", "s"])).expect("single key mode");
    assert!(matches!(parsed.lease_source, LeaseSource::Store { ref issuer_key, .. } if issuer_key == "abcd"));
}

#[test]
fn later_flags_win() {
    let parsed = parse(&args(&["--socket", "a", "--socket", "b", "--store", "x", "--issuer-key", "k"])).expect("parsed");
    assert_eq!(parsed.socket, "b");
}

#[test]
fn refuses_malformed_command_lines() {
    assert!(matches!(parse(&args(&["--socket"])), Err(CliError::MissingValue(k)) if k == "--socket"));
    assert!(matches!(parse(&args(&["--bogus", "1"])), Err(CliError::UnknownArgument(k)) if k == "--bogus"));
    assert!(matches!(
        parse(&args(&["--socket", "s", "--not-before", "soon"])),
        Err(CliError::InvalidNumber(Flag::NotBefore))
    ));
    assert!(matches!(parse(&args(&["--store", "x", "--issuer-key", "k"])), Err(CliError::MissingRequired(Flag::Socket))));
    assert!(matches!(
        parse(&args(&["--socket", "s", "--store", "x", "--issuer-key", "k", "--issuer-keys", "ks"])),
        Err(CliError::IssuerKeysExclusive)
    ));
    assert!(matches!(parse(&args(&["--socket", "s", "--store", "x"])), Err(CliError::StoreNeedsIssuer)));
    assert!(matches!(parse(&args(&["--socket", "s", "--issuer-key", "k"])), Err(CliError::IssuerNeedsStore)));
    assert!(matches!(
        parse(&args(&["--socket", "s", "--store", "x", "--issuer-key", "k", "--ops", "Login", "--device", "d"])),
        Err(CliError::MixedLeaseSource(Flag::Device))
    ));
    assert!(matches!(parse(&args(&["--socket", "s", "--subject", "p"])), Err(CliError::MissingRequired(Flag::Device))));
}

#[test]
fn operations_list_is_checked() {
    assert_eq!(parse_ops(" Elevate ,RemoteLogin").expect("ops"), vec![Operation::Elevate, Operation::RemoteLogin]);
    assert!(matches!(parse_ops(" , ,"), Err(CliError::NoOperations)));
    assert!(matches!(parse_ops("Login,login"), Err(CliError::UnknownOperation(name)) if name == "login"));
}

#[test]
fn numbers_follow_unsigned_decimal_parsing() {
    assert_eq!(parse_u64("18446744073709551615", Flag::ExpiresAt).expect("max"), u64::MAX);
    assert!(matches!(parse_u64("18446744073709551616", Flag::ExpiresAt), Err(CliError::InvalidNumber(Flag::ExpiresAt))));
    assert_eq!(parse_u64("+42", Flag::NotBefore).expect("plus"), 42);
    assert!(parse_u64("+", Flag::NotBefore).is_err());
    assert!(parse_u64("-1", Flag::NotBefore).is_err());
    assert!(parse_u64("", Flag::NotBefore).is_err());
    assert!(parse_u64(" 1", Flag::NotBefore).is_err());
}
