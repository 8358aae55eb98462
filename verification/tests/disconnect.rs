use ciri::disconnect::{classify_disconnect, classify_ssh_stderr, push_stderr_tail, DisconnectReason, STDERR_TAIL_CAP};

#[test]
fn classify_dns_failure() {
    let tail = "ssh: Could not resolve hostname bogus.example: Name or service not known\r\n";
    assert!(matches!(classify_ssh_stderr(tail), Some(DisconnectReason::DnsFailure(_))));
}

#[test]
fn classify_permission_denied() {
    let tail = "Permission denied (publickey,password).\r\n";
    assert!(matches!(classify_ssh_stderr(tail), Some(DisconnectReason::PermissionDenied(_))));
}

#[test]
fn classify_host_key_changed() {
    let tail = "@    WARNING: REMOTE HOST IDENTIFICATION HAS CHANGED!     @\nHost key verification failed.\n";
    assert!(matches!(classify_ssh_stderr(tail), Some(DisconnectReason::HostKeyChanged(_))));
}

#[test]
fn classify_connection_refused() {
    let tail = "ssh: connect to host example.com port 22: Connection refused\r\n";
    assert!(matches!(classify_ssh_stderr(tail), Some(DisconnectReason::ConnectionRefused(_))));
}

#[test]
fn classify_timeout() {
    let tail = "ssh: connect to host example.com port 22: Operation timed out\r\n";
    assert!(matches!(classify_ssh_stderr(tail), Some(DisconnectReason::Timeout)));
}

#[test]
fn classify_unknown_returns_none() {
    assert!(classify_ssh_stderr("Debug: pure log noise").is_none());
    assert!(classify_ssh_stderr("").is_none());
}

#[test]
fn classify_disconnect_prefers_stderr_match_over_proto_timeout() {
    let r = classify_disconnect(
        Err(DisconnectReason::Timeout),
        "ssh: Could not resolve hostname foo: Name or service not known",
        Some(false),
        10_000,
    );
    assert!(matches!(r, DisconnectReason::DnsFailure(_)));
}

#[test]
fn classify_disconnect_falls_through_to_proto_when_stderr_silent() {
    let r = classify_disconnect(
        Err(DisconnectReason::HandshakeFailed("bad magic".into())),
        "",
        Some(false),
        1_000,
    );
    assert!(matches!(r, DisconnectReason::HandshakeFailed(_)));
}

#[test]
fn classify_disconnect_clean_exit_yields_remote_eof() {
    let r = classify_disconnect(Ok(()), "", Some(true), 60_000);
    assert!(matches!(r, DisconnectReason::RemoteEof));
}

#[test]
fn classify_disconnect_early_failed_exit_is_other() {
    let r = classify_disconnect(Ok(()), "", Some(false), 1_000);
    assert_eq!(r, DisconnectReason::Other("ssh exited".into()));
    let r = classify_disconnect(Ok(()), "noise one\nlast words", Some(false), 1_000);
    assert_eq!(r, DisconnectReason::Other("ssh exited: last words".into()));
    // A failed exit long after the handshake is an ordinary end.
    let r = classify_disconnect(Ok(()), "", Some(false), 120_000);
    assert_eq!(r, DisconnectReason::RemoteEof);
}

#[test]
fn stderr_tail_is_bounded() {
    let mut tail: Vec<u8> = Vec::new();
    for _ in 0..16 {
        push_stderr_tail(&mut tail, &b"x".repeat(1024));
    }
    push_stderr_tail(&mut tail, b"FINAL");
    assert!(tail.len() <= STDERR_TAIL_CAP);
    assert_eq!(tail.len(), STDERR_TAIL_CAP);
    assert!(tail.ends_with(b"FINAL"));
}
