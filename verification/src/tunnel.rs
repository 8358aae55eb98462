//! The ssh tunnel to a remote server: the command line it is started
//! with, and why it ended.

use vstd::prelude::*;
use crate::disconnect::{classify_disconnect, classify_disconnect_spec, DisconnectReason, Reason};
use crate::labels::{decimal, digit_char};
use crate::remote_validate::{outer_error, validate_fields_spec};
use crate::text::{chars_of, is_ws, lemma_trim_first, string_of, trim};

verus! {

/// The arguments `ssh` is started with for a tunnel to `remote_port` on
/// `host` through ssh port `ssh_port`: the port, the stdio forwarding,
/// for a probe a short connect timeout and first-use host-key acceptance,
/// then `--` and the host, so that the host is never read as an option.
pub open spec fn ssh_args_spec(host: Seq<char>, remote_port: u16, ssh_port: u16, probe: bool) -> Seq<Seq<char>> {
    seq!["-p"@, decimal(ssh_port as nat), "-W"@, "localhost:"@ + decimal(remote_port as nat)] + (if probe {
        seq!["-o"@, "ConnectTimeout=4"@, "-o"@, "StrictHostKeyChecking=accept-new"@]
    } else {
        Seq::empty()
    }) + seq!["--"@, host]
}

pub open spec fn strings_view(v: Seq<String>) -> Seq<Seq<char>> {
    v.map_values(|s: String| s@)
}

fn decimal_u16(n: u16) -> (r: Vec<char>)
    ensures
        r@ == decimal(n as nat),
    decreases n,
{
    let d = n % 10;
    let c = ((48 + d) as u8) as char;
    proof {
        assert(c == digit_char((n % 10) as nat));
    }
    if n < 10 {
        let mut v: Vec<char> = Vec::new();
        v.push(c);
        v
    } else {
        let mut v = decimal_u16(n / 10);
        v.push(c);
        v
    }
}

/// The arguments for `ssh` (see [`ssh_args_spec`]).
pub fn ssh_tunnel_args(host: &str, remote_port: u16, ssh_port: u16, probe: bool) -> (r: Vec<String>)
    ensures
        strings_view(r@) == ssh_args_spec(host@, remote_port, ssh_port, probe),
{
    let mut target = chars_of("localhost:");
    let mut digits = decimal_u16(remote_port);
    target.append(&mut digits);
    let mut args: Vec<String> = vec![
        "-p".to_owned(),
        string_of(&decimal_u16(ssh_port)),
        "-W".to_owned(),
        string_of(&target),
    ];
    if probe {
        args.push("-o".to_owned());
        args.push("ConnectTimeout=4".to_owned());
        args.push("-o".to_owned());
        args.push("StrictHostKeyChecking=accept-new".to_owned());
    }
    args.push("--".to_owned());
    args.push(host.to_owned());
    proof {
        assert(strings_view(args@) =~= ssh_args_spec(host@, remote_port, ssh_port, probe));
    }
    args
}

/// A host that passes validation reaches `ssh` only after `--` and never
/// begins with `-`, so it cannot be read as an ssh option.
pub proof fn lemma_validated_host_is_not_an_option(host: Seq<char>, remote_port: u16, ssh_port: u16, probe: bool)
    requires
        validate_fields_spec(host, remote_port, ssh_port) is None,
    ensures
        ({
            let args = ssh_args_spec(host, remote_port, ssh_port, probe);
            &&& args.last() == host
            &&& args[args.len() - 2] == "--"@
            &&& host.len() > 0
            &&& host[0] != '-'
        }),
{
    let s = trim(host);
    assert(outer_error(s) is None);
    crate::text::lemma_trim_props(host);
    lemma_trim_first(host);
    assert(s.len() > 0);
    assert(s[0] != '-');
    assert(!is_ws('-'));
}

/// Why a tunnel to a remote server ended: `Cancelled` when the user gave
/// up on it, else the classification of what ssh and the protocol loop
/// reported.
pub fn tunnel_end_reason(
    cancelled: bool,
    proto_result: Result<(), DisconnectReason>,
    stderr_trimmed: &str,
    exit_success: Option<bool>,
    elapsed_ms: u64,
) -> (r: DisconnectReason)
    ensures
        cancelled ==> r == DisconnectReason::Cancelled,
        !cancelled ==> r@ == classify_disconnect_spec(
            match proto_result {
                Ok(()) => Ok(()),
                Err(e) => Err(e@),
            },
            stderr_trimmed@,
            exit_success,
            elapsed_ms,
        ),
{
    if cancelled {
        DisconnectReason::Cancelled
    } else {
        classify_disconnect(proto_result, stderr_trimmed, exit_success, elapsed_ms)
    }
}

/// Why ssh could not be started: not installed, or another spawn error
/// with its message.
pub fn spawn_failure_reason(not_found: bool, message: &str) -> (r: DisconnectReason)
    ensures
        r@ == if not_found {
            Reason::SshNotFound
        } else {
            Reason::SshSpawnFailed(message@)
        },
{
    if not_found {
        DisconnectReason::SshNotFound
    } else {
        DisconnectReason::SshSpawnFailed(message.to_owned())
    }
}

} // verus!
