use ciri::remote_validate::{parse_input, validate_fields, RemoteTarget, ValidationError, MAX_TOTAL};

fn parse_ok(input: &str) -> RemoteTarget {
    parse_input(input, 22).unwrap_or_else(|e| panic!("expected ok for {input:?}, got {}", e.message()))
}

fn parse_err(input: &str) -> ValidationError {
    parse_input(input, 22).unwrap_err()
}

#[test]
fn accepts_user_at_host() {
    let t = parse_ok("user@example.com");
    assert_eq!(t.user.as_deref(), Some("user"));
    assert_eq!(t.host, "example.com");
    assert_eq!(t.ssh_port, 22);
}

#[test]
fn accepts_bare_host() {
    let t = parse_ok("example.com");
    assert_eq!(t.user, None);
    assert_eq!(t.host, "example.com");
}

#[test]
fn accepts_ipv4() {
    assert!(parse_input("root@192.168.1.1", 22).is_ok());
}

#[test]
fn accepts_ipv6_bracketed() {
    let t = parse_ok("user@[::1]");
    assert_eq!(t.host, "[::1]");
    let t = parse_ok("user@[fe80::1%eth0]");
    assert_eq!(t.host, "[fe80::1%eth0]");
}

#[test]
fn accepts_explicit_port() {
    assert_eq!(parse_ok("h.local:2222").ssh_port, 2222);
    assert_eq!(parse_ok("[::1]:2222").ssh_port, 2222);
}

#[test]
fn accepts_usernames_with_legal_chars() {
    assert!(parse_input("a_b.c-d@host", 22).is_ok());
    assert!(parse_input("1user@host", 22).is_ok());
}

#[test]
fn rejects_ssh_option_injection() {
    assert_eq!(parse_err("-oProxyCommand=evil"), ValidationError::LeadingDash);
    assert_eq!(parse_err("-oProxyCommand=foo@host"), ValidationError::LeadingDash);
    assert_eq!(parse_err("-lroot"), ValidationError::LeadingDash);
    assert!(matches!(
        parse_err("-bad@host"),
        ValidationError::LeadingDash | ValidationError::UserBadChar('-')
    ));
}

#[test]
fn rejects_shell_metacharacters_in_host() {
    assert!(parse_input("user@host;rm", 22).is_err());
    assert!(parse_input("user@host|pwd", 22).is_err());
    assert!(parse_input("user@host$(whoami)", 22).is_err());
    assert!(parse_input("user@host name", 22).is_err());
    assert!(parse_input("user@host`id`", 22).is_err());
    assert!(parse_input("user@host\"quoted", 22).is_err());
}

#[test]
fn rejects_shell_metacharacters_in_user() {
    assert!(parse_input("us er@host", 22).is_err());
    assert!(parse_input("u;r@host", 22).is_err());
    assert!(parse_input("u$@host", 22).is_err());
    assert!(parse_input("\"u\"@host", 22).is_err());
}

#[test]
fn rejects_empty_and_degenerate() {
    assert_eq!(parse_err(""), ValidationError::Empty);
    assert_eq!(parse_err("   "), ValidationError::Empty);
    assert_eq!(parse_err("@host"), ValidationError::UserEmpty);
    assert_eq!(parse_err("user@"), ValidationError::HostEmpty);
    assert_eq!(parse_err("@"), ValidationError::UserEmpty);
}

#[test]
fn rejects_host_boundary_chars() {
    assert!(matches!(
        parse_err("user@-bad"),
        ValidationError::LabelInvalid | ValidationError::HostBadChar(_)
    ));
    assert_eq!(parse_err("user@.bad"), ValidationError::HostBadChar('.'));
    assert!(matches!(parse_err("user@bad-"), ValidationError::LabelInvalid));
    assert!(matches!(parse_err("user@a..b"), ValidationError::LabelInvalid));
}

#[test]
fn rejects_all_numeric_hostnames_unless_ipv4() {
    assert_eq!(parse_err("ff@1"), ValidationError::NumericHostRequiresIpv4);
    assert_eq!(parse_err("1"), ValidationError::NumericHostRequiresIpv4);
    assert_eq!(parse_err("999"), ValidationError::NumericHostRequiresIpv4);
    assert_eq!(parse_err("u@1.2"), ValidationError::InvalidIpv4);
    assert_eq!(parse_err("u@1.2.3"), ValidationError::InvalidIpv4);
    assert_eq!(parse_err("u@999.999.999.999"), ValidationError::InvalidIpv4);
    assert_eq!(parse_err("u@192.168.1.300"), ValidationError::InvalidIpv4);
    assert!(parse_input("u@127.0.0.1", 22).is_ok());
    assert!(parse_input("u@10.0.0.1", 22).is_ok());
    assert!(parse_input("u@1a", 22).is_ok());
    assert!(parse_input("u@a1", 22).is_ok());
    assert!(parse_input("u@1.example.com", 22).is_ok());
}

#[test]
fn rejects_shell_active_ipv6_zone_id() {
    assert!(parse_input("u@[fe80::1%$(id)]", 22).is_err());
    assert!(parse_input("u@[fe80::1%`id`]", 22).is_err());
    assert!(parse_input("u@[fe80::1%;]", 22).is_err());
    assert!(parse_input("u@[fe80::1%]", 22).is_err());
    assert!(parse_input("u@[fe80::1%eth0]", 22).is_ok());
    assert!(parse_input("u@[fe80::1%en_0]", 22).is_ok());
}

#[test]
fn accepts_underscore_in_host_alias() {
    assert!(parse_input("prod_db", 22).is_ok());
    assert!(parse_input("u@stage_web", 22).is_ok());
    assert!(parse_input("u@foo_bar.example.com", 22).is_ok());
}

#[test]
fn rejects_ipv6_malformed() {
    assert!(matches!(parse_err("user@[bad"), ValidationError::UnbalancedBracket));
    assert!(matches!(parse_err("user@::1"), ValidationError::UnbalancedBracket));
    assert_eq!(parse_err("user@[not-ipv6]"), ValidationError::InvalidIpv6);
}

#[test]
fn rejects_port_zero_and_junk() {
    assert_eq!(parse_err("host:0"), ValidationError::ReservedPortZero);
    assert_eq!(parse_err("host:"), ValidationError::TrailingColon);
    assert!(matches!(parse_err("host:abc"), ValidationError::InvalidPort(_)));
    assert!(matches!(parse_err("host:99999"), ValidationError::InvalidPort(_)));
}

#[test]
fn rejects_overlong() {
    let long_user = "a".repeat(33);
    assert!(matches!(
        parse_input(&format!("{long_user}@host"), 22),
        Err(ValidationError::UserTooLong)
    ));

    let long_label = "a".repeat(64);
    assert!(matches!(
        parse_input(&format!("user@{long_label}.com"), 22),
        Err(ValidationError::LabelInvalid)
    ));

    let long_total = "a".repeat(MAX_TOTAL + 1);
    assert_eq!(parse_input(&long_total, 22).unwrap_err(), ValidationError::TooLong);
}

#[test]
fn fields_accepts_bare_host() {
    assert!(validate_fields("example.com", 7890, 22).is_ok());
}

#[test]
fn fields_rejects_leading_dash() {
    assert_eq!(
        validate_fields("-oProxyCommand=x", 7890, 22).unwrap_err(),
        ValidationError::LeadingDash
    );
}

#[test]
fn fields_rejects_port_zero() {
    assert_eq!(validate_fields("h", 0, 22).unwrap_err(), ValidationError::ReservedPortZero);
    assert_eq!(validate_fields("h", 7890, 0).unwrap_err(), ValidationError::ReservedPortZero);
}

#[test]
fn default_port_applies_without_explicit_port() {
    assert_eq!(parse_input("example.com", 2200).unwrap().ssh_port, 2200);
    assert_eq!(parse_input("  user@host:2022  ", 22).unwrap().ssh_port, 2022);
    assert_eq!(parse_input("  user@host  ", 22).unwrap().host, "host");
}

#[test]
fn messages_name_the_offending_part() {
    assert_eq!(ValidationError::Empty.message(), "input is empty");
    assert_eq!(ValidationError::TooLong.message(), "input too long (max 320 chars)");
    assert_eq!(
        ValidationError::UserBadChar(';').message(),
        "username contains invalid character ';'"
    );
    assert_eq!(
        ValidationError::HostBadChar('\'').message(),
        "hostname contains invalid character '\\''"
    );
    assert_eq!(
        ValidationError::InvalidPort("ab\"c".to_string()).message(),
        "invalid port \"ab\\\"c\""
    );
    assert_eq!(parse_err("host:0").message(), "port 0 is reserved");
}

#[test]
fn accepted_targets_hold_only_safe_characters() {
    let safe = |c: char| c.is_ascii_alphanumeric() || matches!(c, '.' | '_' | '-' | '[' | ']' | ':' | '%');
    for input in ["user@example.com", "a_b.c-d@host:22", "u@[fe80::1%eth0]:2222", "[::ffff:1.2.3.4]", "10.0.0.1"] {
        let t = parse_input(input, 22).unwrap();
        assert!(!t.host.starts_with('-'), "{input}");
        assert!(t.host.chars().all(safe), "{input}");
        if let Some(u) = &t.user {
            assert!(!u.starts_with('-'));
            assert!(u.chars().all(|c| c.is_ascii_alphanumeric() || matches!(c, '.' | '_' | '-')));
        }
    }
}

#[test]
fn accepted_targets_pass_the_field_validator_again() {
    for input in ["alice@example.com:2222", "  host_1.lan ", "[fe80::1%eth0]:22", "bob@[::1]", "10.0.0.1"] {
        let t = parse_input(input, 22).unwrap();
        let spec = match &t.user {
            Some(u) => format!("{u}@{}", t.host),
            None => t.host.clone(),
        };
        assert_eq!(validate_fields(&spec, 7890, t.ssh_port), Ok(()), "{input}");
    }
}
