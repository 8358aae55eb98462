use ciri::disconnect::DisconnectReason;
use ciri::tunnel::{spawn_failure_reason, ssh_tunnel_args, tunnel_end_reason};

#[test]
fn ssh_args_put_the_host_after_the_separator() {
    assert_eq!(
        ssh_tunnel_args("user@host", 7890, 22, false),
        vec!["-p", "22", "-W", "localhost:7890", "--", "user@host"]
    );
    assert_eq!(
        ssh_tunnel_args("h", 1, 65535, true),
        vec![
            "-p",
            "65535",
            "-W",
            "localhost:1",
            "-o",
            "ConnectTimeout=4",
            "-o",
            "StrictHostKeyChecking=accept-new",
            "--",
            "h"
        ]
    );
}

#[test]
fn tunnel_end_reasons() {
    assert_eq!(tunnel_end_reason(true, Err(DisconnectReason::Timeout), "", Some(false), 5), DisconnectReason::Cancelled);
    assert_eq!(tunnel_end_reason(false, Ok(()), "", Some(true), 5), DisconnectReason::RemoteEof);
    assert_eq!(spawn_failure_reason(true, "x"), DisconnectReason::SshNotFound);
    assert_eq!(spawn_failure_reason(false, "denied"), DisconnectReason::SshSpawnFailed("denied".into()));
}
