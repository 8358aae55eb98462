//! Why an ssh tunnel ended: classification of ssh's stderr and of the
//! protocol loop's outcome, plus the bounded buffer that keeps the tail of
//! ssh's stderr.

use vstd::prelude::*;
use crate::text::{chars_of, find_last, position_last, slice_chars, split_from, split_items, string_of, trim, trim_chars};

verus! {

#[derive(Debug, Clone, PartialEq, Eq)]
pub enum DisconnectReason {
    DnsFailure(String),
    PermissionDenied(String),
    HostKeyChanged(String),
    ConnectionRefused(String),
    Timeout,
    RemoteEof,
    HandshakeFailed(String),
    SshNotFound,
    SshSpawnFailed(String),
    InvalidTarget(String),
    Cancelled,
    Other(String),
}

/// The mathematical content of a [`DisconnectReason`].
pub enum Reason {
    DnsFailure(Seq<char>),
    PermissionDenied(Seq<char>),
    HostKeyChanged(Seq<char>),
    ConnectionRefused(Seq<char>),
    Timeout,
    RemoteEof,
    HandshakeFailed(Seq<char>),
    SshNotFound,
    SshSpawnFailed(Seq<char>),
    InvalidTarget(Seq<char>),
    Cancelled,
    Other(Seq<char>),
}

impl View for DisconnectReason {
    type V = Reason;

    open spec fn view(&self) -> Reason {
        match self {
            DisconnectReason::DnsFailure(s) => Reason::DnsFailure(s@),
            DisconnectReason::PermissionDenied(s) => Reason::PermissionDenied(s@),
            DisconnectReason::HostKeyChanged(s) => Reason::HostKeyChanged(s@),
            DisconnectReason::ConnectionRefused(s) => Reason::ConnectionRefused(s@),
            DisconnectReason::Timeout => Reason::Timeout,
            DisconnectReason::RemoteEof => Reason::RemoteEof,
            DisconnectReason::HandshakeFailed(s) => Reason::HandshakeFailed(s@),
            DisconnectReason::SshNotFound => Reason::SshNotFound,
            DisconnectReason::SshSpawnFailed(s) => Reason::SshSpawnFailed(s@),
            DisconnectReason::InvalidTarget(s) => Reason::InvalidTarget(s@),
            DisconnectReason::Cancelled => Reason::Cancelled,
            DisconnectReason::Other(s) => Reason::Other(s@),
        }
    }
}

/// ASCII lower-casing of one character (`char::to_ascii_lowercase`).
pub open spec fn ascii_lower(c: char) -> char {
    if 'A' <= c && c <= 'Z' {
        ((c as u32) + 32) as char
    } else {
        c
    }
}

/// `str::to_ascii_lowercase`.
pub open spec fn lower(s: Seq<char>) -> Seq<char> {
    Seq::new(s.len(), |i: int| ascii_lower(s[i]))
}

/// `needle` occurs in `hay`.
pub open spec fn contains_seq(hay: Seq<char>, needle: Seq<char>) -> bool {
    exists|i: int| 0 <= i && i + needle.len() <= hay.len() && #[trigger] hay.subrange(i, i + needle.len()) == needle
}

/// The last of `lines` with something other than white space.
pub open spec fn last_nonblank(lines: Seq<Seq<char>>) -> Option<Seq<char>>
    decreases lines.len(),
{
    if lines.len() == 0 {
        None
    } else if trim(lines.last()).len() > 0 {
        Some(lines.last())
    } else {
        last_nonblank(lines.drop_last())
    }
}

/// A short summary of ssh's stderr: its last non-blank line, trimmed.
pub open spec fn summary_of(tail: Seq<char>) -> Seq<char> {
    match last_nonblank(split_items(tail, '\n')) {
        Some(l) => trim(l),
        None => trim(tail),
    }
}

pub open spec fn classify_spec(tail: Seq<char>) -> Option<Reason> {
    let l = lower(tail);
    let summary = summary_of(tail);
    if contains_seq(l, "could not resolve hostname"@) || contains_seq(l, "name or service not known"@) {
        Some(Reason::DnsFailure(summary))
    } else if contains_seq(l, "permission denied"@) {
        Some(Reason::PermissionDenied(summary))
    } else if contains_seq(l, "host key verification failed"@) || contains_seq(
        l,
        "remote host identification has changed"@,
    ) {
        Some(Reason::HostKeyChanged(summary))
    } else if contains_seq(l, "connection refused"@) {
        Some(Reason::ConnectionRefused(summary))
    } else if contains_seq(l, "connection timed out"@) || contains_seq(l, "operation timed out"@) {
        Some(Reason::Timeout)
    } else {
        None
    }
}

fn lower_chars(s: &Vec<char>) -> (r: Vec<char>)
    ensures
        r@ == lower(s@),
{
    let mut r: Vec<char> = Vec::new();
    let mut i: usize = 0;
    while i < s.len()
        invariant
            i <= s.len(),
            r@.len() == i,
            forall|k: int| 0 <= k < i ==> r@[k] == ascii_lower(s@[k]),
        decreases s.len() - i,
    {
        let c = s[i];
        let d = if 'A' <= c && c <= 'Z' {
            ((c as u8) + 32) as char
        } else {
            c
        };
        r.push(d);
        i = i + 1;
    }
    proof {
        assert(r@ =~= lower(s@));
    }
    r
}

/// `needle` occurs in `hay`.
pub fn contains_lit(hay: &Vec<char>, needle: &str) -> (r: bool)
    ensures
        r == contains_seq(hay@, needle@),
{
    let n = chars_of(needle);
    if n.len() > hay.len() {
        return false;
    }
    let mut i: usize = 0;
    while i <= hay.len() - n.len()
        invariant
            n@ == needle@,
            n.len() <= hay.len(),
            forall|j: int| 0 <= j < i ==> #[trigger] hay@.subrange(j, j + n@.len()) != n@,
        decreases hay.len() - i,
    {
        let mut k: usize = 0;
        let mut same = true;
        while k < n.len()
            invariant
                k <= n.len(),
                i + n.len() <= hay.len(),
                same == (forall|m: int| 0 <= m < k ==> hay@[i + m] == n@[m]),
            decreases n.len() - k,
        {
            if hay[i + k] != n[k] {
                same = false;
            }
            k = k + 1;
        }
        if same {
            proof {
                assert(hay@.subrange(i as int, i + n@.len()) =~= n@);
            }
            return true;
        }
        proof {
            let m = choose|m: int| 0 <= m < n.len() && hay@[i + m] != n@[m];
            assert(hay@.subrange(i as int, i + n@.len())[m] != n@[m]);
        }
        i = i + 1;
    }
    proof {
        assert forall|j: int| 0 <= j && j + n@.len() <= hay@.len() implies #[trigger] hay@.subrange(
            j,
            j + n@.len(),
        ) != n@ by {
            assert(j < i);
        }
    }
    false
}

fn summary_chars(tail: &Vec<char>) -> (r: Vec<char>)
    ensures
        r@ == summary_of(tail@),
{
    let lines = split_from(tail, 0, '\n');
    proof {
        assert(tail@.skip(0) =~= tail@);
    }
    let ghost ls = split_items(tail@, '\n');
    let mut k: usize = lines.len();
    proof {
        assert(ls.take(ls.len() as int) =~= ls);
    }
    while k > 0
        invariant
            k <= lines.len() == ls.len(),
            ls == split_items(tail@, '\n'),
            forall|j: int| 0 <= j < lines.len() ==> #[trigger] lines[j]@ == ls[j],
            last_nonblank(ls) == last_nonblank(ls.take(k as int)),
        decreases k,
    {
        let t = trim_chars(&lines[k - 1]);
        proof {
            assert(ls.take(k as int).last() == ls[k - 1]);
            assert(ls.take(k as int).drop_last() =~= ls.take(k - 1));
        }
        if t.len() > 0 {
            return t;
        }
        k = k - 1;
    }
    proof {
        assert(ls.take(0).len() == 0);
    }
    trim_chars(tail)
}

fn make_reason(kind: u8, summary: &Vec<char>) -> (r: DisconnectReason)
    requires
        kind <= 3,
    ensures
        r@ == if kind == 0 {
            Reason::DnsFailure(summary@)
        } else if kind == 1 {
            Reason::PermissionDenied(summary@)
        } else if kind == 2 {
            Reason::HostKeyChanged(summary@)
        } else {
            Reason::ConnectionRefused(summary@)
        },
{
    let s = string_of(summary);
    if kind == 0 {
        DisconnectReason::DnsFailure(s)
    } else if kind == 1 {
        DisconnectReason::PermissionDenied(s)
    } else if kind == 2 {
        DisconnectReason::HostKeyChanged(s)
    } else {
        DisconnectReason::ConnectionRefused(s)
    }
}

/// Classify ssh's stderr tail into a disconnect reason, if it holds one of
/// the messages openssh prints for DNS, auth, host-key, refused and
/// time-out failures.
pub fn classify_ssh_stderr(tail: &str) -> (r: Option<DisconnectReason>)
    ensures
        match r {
            Some(d) => classify_spec(tail@) == Some(d@),
            None => classify_spec(tail@) is None,
        },
{
    let t = chars_of(tail);
    let l = lower_chars(&t);
    let summary = summary_chars(&t);
    if contains_lit(&l, "could not resolve hostname") || contains_lit(&l, "name or service not known") {
        return Some(make_reason(0, &summary));
    }
    if contains_lit(&l, "permission denied") {
        return Some(make_reason(1, &summary));
    }
    if contains_lit(&l, "host key verification failed") || contains_lit(
        &l,
        "remote host identification has changed",
    ) {
        return Some(make_reason(2, &summary));
    }
    if contains_lit(&l, "connection refused") {
        return Some(make_reason(3, &summary));
    }
    if contains_lit(&l, "connection timed out") || contains_lit(&l, "operation timed out") {
        return Some(DisconnectReason::Timeout);
    }
    None
}

/// Milliseconds within which the server hello must arrive.
pub const HANDSHAKE_GRACE_MS: u64 = 30_000;

/// The last line of `s` (`str::lines().last()`): without a final line
/// ending and without the '\r' of a "\r\n".
pub open spec fn last_line(s: Seq<char>) -> Seq<char> {
    let body = if s.len() > 0 && s.last() == '\n' {
        s.drop_last()
    } else {
        s
    };
    let line = match find_last(body, '\n') {
        Some(i) => body.skip(i + 1),
        None => body,
    };
    if line.len() > 0 && line.last() == '\r' {
        line.drop_last()
    } else {
        line
    }
}

pub open spec fn classify_disconnect_spec(
    proto_result: Result<(), Reason>,
    stderr_trimmed: Seq<char>,
    exit_success: Option<bool>,
    elapsed_ms: u64,
) -> Reason {
    if stderr_trimmed.len() > 0 && classify_spec(stderr_trimmed) is Some {
        classify_spec(stderr_trimmed)->0
    } else {
        let exit_nonzero = exit_success == Some(false);
        let before_handshake = elapsed_ms < HANDSHAKE_GRACE_MS || (proto_result matches Err(
            Reason::HandshakeFailed(_),
        )) || (proto_result matches Err(Reason::Timeout));
        match proto_result {
            Err(r) => r,
            Ok(()) => if exit_nonzero && before_handshake {
                if stderr_trimmed.len() == 0 {
                    Reason::Other("ssh exited"@)
                } else {
                    Reason::Other("ssh exited: "@ + last_line(stderr_trimmed))
                }
            } else {
                Reason::RemoteEof
            },
        }
    }
}

fn last_line_chars(s: &Vec<char>) -> (r: Vec<char>)
    ensures
        r@ == last_line(s@),
{
    let body = if s.len() > 0 && s[s.len() - 1] == '\n' {
        slice_chars(s, 0, s.len() - 1)
    } else {
        slice_chars(s, 0, s.len())
    };
    proof {
        if s@.len() > 0 && s@.last() == '\n' {
            assert(body@ =~= s@.drop_last());
        } else {
            assert(body@ =~= s@);
        }
    }
    let line = match position_last(&body, '\n') {
        Some(i) => slice_chars(&body, i + 1, body.len()),
        None => slice_chars(&body, 0, body.len()),
    };
    proof {
        assert(line@ =~= match find_last(body@, '\n') {
            Some(i) => body@.skip(i + 1),
            None => body@,
        });
    }
    if line.len() > 0 && line[line.len() - 1] == '\r' {
        let r = slice_chars(&line, 0, line.len() - 1);
        proof {
            assert(r@ =~= line@.drop_last());
        }
        r
    } else {
        line
    }
}

/// Pick the best reason for a just-ended ssh tunnel: ssh's own stderr
/// first, then what the protocol loop reported, and a generic `Other`
/// only when ssh exited non-zero before the handshake without a
/// recognisable message. `exit_success` is `None` when ssh's exit status
/// is unknown; `elapsed_ms` is the tunnel's lifetime.
pub fn classify_disconnect(
    proto_result: Result<(), DisconnectReason>,
    stderr_trimmed: &str,
    exit_success: Option<bool>,
    elapsed_ms: u64,
) -> (r: DisconnectReason)
    ensures
        r@ == classify_disconnect_spec(
            match proto_result {
                Ok(()) => Ok(()),
                Err(e) => Err(e@),
            },
            stderr_trimmed@,
            exit_success,
            elapsed_ms,
        ),
{
    let t = chars_of(stderr_trimmed);
    if t.len() > 0 {
        if let Some(classified) = classify_ssh_stderr(stderr_trimmed) {
            return classified;
        }
    }
    let exit_nonzero = match exit_success {
        Some(ok) => !ok,
        None => false,
    };
    let before_handshake = elapsed_ms < HANDSHAKE_GRACE_MS || match &proto_result {
        Err(DisconnectReason::HandshakeFailed(_)) => true,
        Err(DisconnectReason::Timeout) => true,
        _ => false,
    };
    match proto_result {
        Err(r) => r,
        Ok(()) => if exit_nonzero && before_handshake {
            if t.len() == 0 {
                DisconnectReason::Other(string_of(&chars_of("ssh exited")))
            } else {
                let mut msg = chars_of("ssh exited: ");
                let mut last = last_line_chars(&t);
                msg.append(&mut last);
                DisconnectReason::Other(string_of(&msg))
            }
        } else {
            DisconnectReason::RemoteEof
        },
    }
}

/// Most bytes of ssh stderr kept for classification.
pub const STDERR_TAIL_CAP: usize = 8 * 1024;

/// `old` followed by `chunk`, cut to its last `STDERR_TAIL_CAP` bytes.
pub open spec fn bounded_tail(old: Seq<u8>, chunk: Seq<u8>) -> Seq<u8> {
    let all = old + chunk;
    if all.len() > STDERR_TAIL_CAP {
        all.skip(all.len() - STDERR_TAIL_CAP)
    } else {
        all
    }
}

/// Append `chunk` to the stderr tail, keeping only its last
/// `STDERR_TAIL_CAP` bytes.
pub fn push_stderr_tail(tail: &mut Vec<u8>, chunk: &[u8])
    requires
        old(tail)@.len() + chunk@.len() <= usize::MAX,
    ensures
        final(tail)@ == bounded_tail(old(tail)@, chunk@),
        final(tail)@.len() <= STDERR_TAIL_CAP,
{
    let ghost all = old(tail)@ + chunk@;
    let mut i: usize = 0;
    while i < chunk.len()
        invariant
            i <= chunk@.len(),
            tail@ == old(tail)@ + chunk@.subrange(0, i as int),
            all == old(tail)@ + chunk@,
            old(tail)@.len() + chunk@.len() <= usize::MAX,
        decreases chunk.len() - i,
    {
        tail.push(chunk[i]);
        proof {
            assert(tail@ =~= old(tail)@ + chunk@.subrange(0, i + 1));
        }
        i = i + 1;
    }
    proof {
        assert(tail@ =~= all);
    }
    if tail.len() > STDERR_TAIL_CAP {
        let drop = tail.len() - STDERR_TAIL_CAP;
        let mut kept: Vec<u8> = Vec::new();
        let mut j = drop;
        while j < tail.len()
            invariant
                drop <= j <= tail.len(),
                kept@ == tail@.subrange(drop as int, j as int),
            decreases tail.len() - j,
        {
            kept.push(tail[j]);
            j = j + 1;
        }
        proof {
            assert(kept@ =~= all.skip(all.len() - STDERR_TAIL_CAP));
        }
        *tail = kept;
    }
}

/// `msg` occurs in `tail`, ignoring ASCII case.
pub open spec fn mentions(tail: Seq<char>, msg: Seq<char>) -> bool {
    contains_seq(lower(tail), msg)
}

/// How ssh's stderr is read. Each of OpenSSH's canonical messages, found
/// anywhere in the text whatever its ASCII case, names a reason, an earlier
/// one in this list winning over a later: a host name that does not
/// resolve, a refused login, a changed host key, a refused connection, a
/// timed-out connection. The named reasons but the timeout carry the last
/// non-blank line as their summary; text with none of the messages names no
/// reason.
pub proof fn lemma_ssh_messages_classified(tail: Seq<char>)
    ensures
        ({
            let dns = mentions(tail, "could not resolve hostname"@) || mentions(tail, "name or service not known"@);
            let denied = mentions(tail, "permission denied"@);
            let host_key = mentions(tail, "host key verification failed"@) || mentions(
                tail,
                "remote host identification has changed"@,
            );
            let refused = mentions(tail, "connection refused"@);
            let timed_out = mentions(tail, "connection timed out"@) || mentions(tail, "operation timed out"@);
            &&& dns ==> classify_spec(tail) == Some(Reason::DnsFailure(summary_of(tail)))
            &&& !dns && denied ==> classify_spec(tail) == Some(Reason::PermissionDenied(summary_of(tail)))
            &&& !dns && !denied && host_key ==> classify_spec(tail) == Some(
                Reason::HostKeyChanged(summary_of(tail)),
            )
            &&& !dns && !denied && !host_key && refused ==> classify_spec(tail) == Some(
                Reason::ConnectionRefused(summary_of(tail)),
            )
            &&& !dns && !denied && !host_key && !refused && timed_out ==> classify_spec(tail) == Some(
                Reason::Timeout,
            )
            &&& !dns && !denied && !host_key && !refused && !timed_out ==> classify_spec(tail) is None
        }),
{
}

/// A recognised ssh message decides the reason, whatever the protocol loop
/// reported, however ssh exited and however long the tunnel lived.
pub proof fn lemma_stderr_match_wins(proto_result: Result<(), Reason>, stderr_trimmed: Seq<char>, exit_success: Option<bool>, elapsed_ms: u64)
    requires
        stderr_trimmed.len() > 0,
        classify_spec(stderr_trimmed) is Some,
    ensures
        classify_disconnect_spec(proto_result, stderr_trimmed, exit_success, elapsed_ms)
            == classify_spec(stderr_trimmed)->0,
{
}

/// Without a recognised ssh message, a failure the protocol loop reported
/// is the reason.
pub proof fn lemma_protocol_failure_kept(r: Reason, stderr_trimmed: Seq<char>, exit_success: Option<bool>, elapsed_ms: u64)
    requires
        stderr_trimmed.len() == 0 || classify_spec(stderr_trimmed) is None,
    ensures
        classify_disconnect_spec(Err(r), stderr_trimmed, exit_success, elapsed_ms) == r,
{
}

/// A tunnel that ended cleanly, without a recognised ssh message and
/// without ssh reporting failure, ended because the remote side closed.
pub proof fn lemma_clean_end_is_remote_eof(stderr_trimmed: Seq<char>, exit_success: Option<bool>, elapsed_ms: u64)
    requires
        stderr_trimmed.len() == 0 || classify_spec(stderr_trimmed) is None,
        exit_success != Some(false),
    ensures
        classify_disconnect_spec(Ok(()), stderr_trimmed, exit_success, elapsed_ms) == Reason::RemoteEof,
{
}

/// The kept stderr tail is the end of everything ssh printed: all of it
/// while it fits, else its last `STDERR_TAIL_CAP` bytes; the newest chunk
/// is kept whole when it fits.
pub proof fn lemma_tail_is_suffix(old: Seq<u8>, chunk: Seq<u8>)
    ensures
        bounded_tail(old, chunk).len() <= STDERR_TAIL_CAP,
        bounded_tail(old, chunk) == (old + chunk).skip((old + chunk).len() - bounded_tail(old, chunk).len()),
        chunk.len() <= STDERR_TAIL_CAP ==> bounded_tail(old, chunk).skip(
            bounded_tail(old, chunk).len() - chunk.len(),
        ) == chunk,
{
    let all = old + chunk;
    let t = bounded_tail(old, chunk);
    if all.len() > STDERR_TAIL_CAP {
        assert(t == all.skip(all.len() - STDERR_TAIL_CAP));
    } else {
        assert(all.skip(0) =~= all);
    }
    if chunk.len() <= STDERR_TAIL_CAP {
        assert(t.skip(t.len() - chunk.len()) =~= chunk);
    }
}

} // verus!
