//! Validation for remote-host input (`user@host[:ssh_port]`, `host[:port]`, ...).
//!
//! Every path that ends in spawning `ssh` passes through one of these
//! functions first. They reject a leading '-' (ssh option injection),
//! shell metacharacters in user or host, malformed or unbracketed IPv6
//! literals, all-numeric host names that are not IPv4 addresses, and port 0.

use vstd::prelude::*;
use crate::text::{
    alnum, chars_of, contains_char, digit, find_first, find_last, is_alnum, is_digit,
    lemma_find_first_bounds, lemma_find_first_is, lemma_find_first_none, lemma_min_index, is_ws, lead_ws, trail_ws, lemma_split_chars, lemma_split_first, lemma_split_items_len, lemma_utf8_len_ge_len, position_first, position_last, slice_chars,
    split_from, split_items, string_of, trim, trim_chars, utf8_len, utf8_len_of,
};

verus! {

pub const MAX_USER: usize = 32;
pub const MAX_HOST: usize = 253;
pub const MAX_LABEL: usize = 63;
pub const MAX_TOTAL: usize = 320;

#[derive(Debug, Clone, PartialEq, Eq)]
pub enum ValidationError {
    Empty,
    TooLong,
    LeadingDash,
    UserEmpty,
    UserBadChar(char),
    UserTooLong,
    HostEmpty,
    HostBadChar(char),
    HostTooLong,
    LabelInvalid,
    UnbalancedBracket,
    InvalidIpv4,
    InvalidIpv6,
    NumericHostRequiresIpv4,
    InvalidPort(String),
    ReservedPortZero,
    TrailingColon,
}

/// The mathematical content of a [`ValidationError`].
pub enum Rejection {
    Empty,
    TooLong,
    LeadingDash,
    UserEmpty,
    UserBadChar(char),
    UserTooLong,
    HostEmpty,
    HostBadChar(char),
    HostTooLong,
    LabelInvalid,
    UnbalancedBracket,
    InvalidIpv4,
    InvalidIpv6,
    NumericHostRequiresIpv4,
    InvalidPort(Seq<char>),
    ReservedPortZero,
    TrailingColon,
}

impl View for ValidationError {
    type V = Rejection;

    open spec fn view(&self) -> Rejection {
        match self {
            ValidationError::Empty => Rejection::Empty,
            ValidationError::TooLong => Rejection::TooLong,
            ValidationError::LeadingDash => Rejection::LeadingDash,
            ValidationError::UserEmpty => Rejection::UserEmpty,
            ValidationError::UserBadChar(c) => Rejection::UserBadChar(*c),
            ValidationError::UserTooLong => Rejection::UserTooLong,
            ValidationError::HostEmpty => Rejection::HostEmpty,
            ValidationError::HostBadChar(c) => Rejection::HostBadChar(*c),
            ValidationError::HostTooLong => Rejection::HostTooLong,
            ValidationError::LabelInvalid => Rejection::LabelInvalid,
            ValidationError::UnbalancedBracket => Rejection::UnbalancedBracket,
            ValidationError::InvalidIpv4 => Rejection::InvalidIpv4,
            ValidationError::InvalidIpv6 => Rejection::InvalidIpv6,
            ValidationError::NumericHostRequiresIpv4 => Rejection::NumericHostRequiresIpv4,
            ValidationError::InvalidPort(s) => Rejection::InvalidPort(s@),
            ValidationError::ReservedPortZero => Rejection::ReservedPortZero,
            ValidationError::TrailingColon => Rejection::TrailingColon,
        }
    }
}

/// The `Debug` rendering of a character: quoted, with escapes (`{c:?}`).
pub uninterp spec fn char_debug(c: char) -> Seq<char>;

/// The `Debug` rendering of a string: quoted, with escapes (`{s:?}`).
pub uninterp spec fn str_debug(s: Seq<char>) -> Seq<char>;

/// `<char as Debug>::fmt`, rendered into a `String`.
#[verifier::external_body]
fn debug_char(c: char) -> (r: String)
    ensures
        r@ == char_debug(c),
{
    format!("{c:?}")
}

/// `<str as Debug>::fmt`, rendered into a `String`.
#[verifier::external_body]
fn debug_str(s: &str) -> (r: String)
    ensures
        r@ == str_debug(s@),
{
    format!("{s:?}")
}

/// The message shown for a rejection.
pub open spec fn rejection_message(e: Rejection) -> Seq<char> {
    match e {
        Rejection::Empty => "input is empty"@,
        Rejection::TooLong => "input too long (max 320 chars)"@,
        Rejection::LeadingDash => "input must not start with '-' (would be parsed as an ssh option)"@,
        Rejection::UserEmpty => "username is empty"@,
        Rejection::UserBadChar(c) => "username contains invalid character "@ + char_debug(c),
        Rejection::UserTooLong => "username too long (max 32 chars)"@,
        Rejection::HostEmpty => "hostname is empty"@,
        Rejection::HostBadChar(c) => "hostname contains invalid character "@ + char_debug(c),
        Rejection::HostTooLong => "hostname too long (max 253 chars)"@,
        Rejection::LabelInvalid => "hostname label invalid (empty, too long, or boundary '-')"@,
        Rejection::UnbalancedBracket => "IPv6 literal missing or misplaced brackets"@,
        Rejection::InvalidIpv4 => "invalid IPv4 address"@,
        Rejection::InvalidIpv6 => "invalid IPv6 address"@,
        Rejection::NumericHostRequiresIpv4 => "all-numeric hostnames must be a valid IPv4 address (use e.g. 1.2.3.4)"@,
        Rejection::InvalidPort(s) => "invalid port "@ + str_debug(s),
        Rejection::ReservedPortZero => "port 0 is reserved"@,
        Rejection::TrailingColon => "input ends with ':' (missing port)"@,
    }
}

fn concat(a: &str, b: String) -> (r: String)
    ensures
        r@ == a@ + b@,
{
    let mut v = chars_of(a);
    let w = chars_of(b.as_str());
    let mut i: usize = 0;
    let ghost base = v@;
    while i < w.len()
        invariant
            i <= w@.len(),
            v@ == base + w@.take(i as int),
        decreases w@.len() - i,
    {
        v.push(w[i]);
        proof {
            assert(w@.take(i + 1) =~= w@.take(i as int).push(w@[i as int]));
        }
        i = i + 1;
    }
    proof {
        assert(w@.take(w@.len() as int) =~= w@);
    }
    string_of(&v)
}

impl ValidationError {
    /// The message shown for the error (what `Display` would print).
    pub fn message(&self) -> (r: String)
        ensures
            r@ == rejection_message(self@),
    {
        match self {
            ValidationError::Empty => "input is empty".to_owned(),
            ValidationError::TooLong => "input too long (max 320 chars)".to_owned(),
            ValidationError::LeadingDash => "input must not start with '-' (would be parsed as an ssh option)".to_owned(),
            ValidationError::UserEmpty => "username is empty".to_owned(),
            ValidationError::UserBadChar(c) => concat("username contains invalid character ", debug_char(*c)),
            ValidationError::UserTooLong => "username too long (max 32 chars)".to_owned(),
            ValidationError::HostEmpty => "hostname is empty".to_owned(),
            ValidationError::HostBadChar(c) => concat("hostname contains invalid character ", debug_char(*c)),
            ValidationError::HostTooLong => "hostname too long (max 253 chars)".to_owned(),
            ValidationError::LabelInvalid => "hostname label invalid (empty, too long, or boundary '-')".to_owned(),
            ValidationError::UnbalancedBracket => "IPv6 literal missing or misplaced brackets".to_owned(),
            ValidationError::InvalidIpv4 => "invalid IPv4 address".to_owned(),
            ValidationError::InvalidIpv6 => "invalid IPv6 address".to_owned(),
            ValidationError::NumericHostRequiresIpv4 => "all-numeric hostnames must be a valid IPv4 address (use e.g. 1.2.3.4)".to_owned(),
            ValidationError::InvalidPort(s) => concat("invalid port ", debug_str(s.as_str())),
            ValidationError::ReservedPortZero => "port 0 is reserved".to_owned(),
            ValidationError::TrailingColon => "input ends with ':' (missing port)".to_owned(),
        }
    }
}

#[derive(Debug, Clone, PartialEq, Eq)]
pub struct RemoteTarget {
    pub user: Option<String>,
    /// For IPv6 literals this keeps the surrounding `[...]` so it can be
    /// passed verbatim to `ssh`.
    pub host: String,
    pub ssh_port: u16,
}

/// The mathematical content of a [`RemoteTarget`].
pub struct TargetView {
    pub user: Option<Seq<char>>,
    pub host: Seq<char>,
    pub ssh_port: u16,
}

impl View for RemoteTarget {
    type V = TargetView;

    open spec fn view(&self) -> TargetView {
        TargetView {
            user: match self.user {
                Some(u) => Some(u@),
                None => None,
            },
            host: self.host@,
            ssh_port: self.ssh_port,
        }
    }
}

// ---------------------------------------------------------------- specs

/// Characters allowed in user names, host names and IPv6 zone ids.
pub open spec fn name_char(c: char) -> bool {
    is_alnum(c) || c == '.' || c == '_' || c == '-'
}

/// The first character of `s` that is not a [`name_char`].
pub open spec fn first_bad(s: Seq<char>) -> Option<char>
    decreases s.len(),
{
    if s.len() == 0 {
        None
    } else if !name_char(s[0]) {
        Some(s[0])
    } else {
        first_bad(s.drop_first())
    }
}

pub open spec fn all_digits(s: Seq<char>) -> bool {
    forall|i: int| 0 <= i < s.len() ==> #[trigger] is_digit(s[i])
}

/// The number written by the decimal digits `d`.
pub open spec fn digits_value(d: Seq<char>) -> nat
    decreases d.len(),
{
    if d.len() == 0 {
        0
    } else {
        digits_value(d.drop_last()) * 10 + ((d.last() as int) - ('0' as int)) as nat
    }
}

/// `u16`'s `FromStr`: an optional '+' followed by one or more decimal
/// digits whose value fits in 16 bits.
pub open spec fn parse_u16(s: Seq<char>) -> Option<u16> {
    let d = if s.len() > 0 && s[0] == '+' {
        s.drop_first()
    } else {
        s
    };
    if d.len() > 0 && all_digits(d) && digits_value(d) <= 65535 {
        Some(digits_value(d) as u16)
    } else {
        None
    }
}

/// One octet of a dotted-quad IPv4 address: one to three digits, no
/// leading zero, at most 255.
pub open spec fn octet_text(g: Seq<char>) -> bool {
    &&& 1 <= g.len() <= 3
    &&& all_digits(g)
    &&& (g.len() == 1 || g[0] != '0')
    &&& digits_value(g) <= 255
}

/// Dotted-quad IPv4 notation, as `Ipv4Addr`'s `FromStr` accepts it.
#[verifier::opaque]
pub open spec fn ipv4_text(s: Seq<char>) -> bool {
    let items = split_items(s, '.');
    items.len() == 4 && forall|k: int| 0 <= k < 4 ==> #[trigger] octet_text(items[k])
}

pub open spec fn is_hex(c: char) -> bool {
    is_digit(c) || ('a' <= c && c <= 'f') || ('A' <= c && c <= 'F')
}

/// One 16-bit group of an IPv6 address: one to four hex digits.
pub open spec fn hex_group(g: Seq<char>) -> bool {
    1 <= g.len() <= 4 && forall|i: int| 0 <= i < g.len() ==> #[trigger] is_hex(g[i])
}

/// A ':'-separated list of hex groups, the last of which may be an
/// embedded IPv4 address when `v4` holds. Gives the number of 16-bit
/// groups the list stands for.
#[verifier::opaque]
pub open spec fn group_list(s: Seq<char>, v4: bool) -> Option<nat> {
    if s.len() == 0 {
        Some(0)
    } else {
        let items = split_items(s, ':');
        let n = items.len();
        if !(forall|k: int| 0 <= k < n - 1 ==> #[trigger] hex_group(items[k])) {
            None
        } else if hex_group(items[n - 1]) {
            Some(n as nat)
        } else if v4 && ipv4_text(items[n - 1]) {
            Some((n + 1) as nat)
        } else {
            None
        }
    }
}

/// Index of the first "::" in `s`.
pub open spec fn find_double_colon(s: Seq<char>) -> Option<int> {
    if exists|i: int| 0 <= i < s.len() - 1 && #[trigger] s[i] == ':' && s[i + 1] == ':' {
        Some(
            choose|i: int|
                0 <= i < s.len() - 1 && #[trigger] s[i] == ':' && s[i + 1] == ':' && forall|k: int|
                    0 <= k < i ==> !(#[trigger] s[k] == ':' && s[k + 1] == ':'),
        )
    } else {
        None
    }
}

/// IPv6 text notation, as `Ipv6Addr`'s `FromStr` accepts it: eight groups,
/// or groups on both sides of a single "::" standing for at least one
/// zero group; an embedded IPv4 address may stand for the last two groups.
#[verifier::opaque]
pub open spec fn ipv6_text(s: Seq<char>) -> bool {
    ||| group_list(s, true) == Some(8nat)
    ||| match find_double_colon(s) {
        Some(i) => match (group_list(s.take(i), false), group_list(s.skip(i + 2), true)) {
            (Some(a), Some(b)) => a + b <= 7,
            _ => false,
        },
        None => false,
    }
}

pub open spec fn outer_error(s: Seq<char>) -> Option<Rejection> {
    if s.len() == 0 {
        Some(Rejection::Empty)
    } else if utf8_len(s) > MAX_TOTAL {
        Some(Rejection::TooLong)
    } else if s[0] == '-' {
        Some(Rejection::LeadingDash)
    } else {
        None
    }
}

pub open spec fn user_error(u: Seq<char>) -> Option<Rejection> {
    if u.len() == 0 {
        Some(Rejection::UserEmpty)
    } else if utf8_len(u) > MAX_USER {
        Some(Rejection::UserTooLong)
    } else if u[0] == '-' {
        Some(Rejection::UserBadChar('-'))
    } else {
        match first_bad(u) {
            Some(c) => Some(Rejection::UserBadChar(c)),
            None => None,
        }
    }
}

/// A host-name label that is empty, too long, or starts or ends with '-'.
pub open spec fn label_bad(l: Seq<char>) -> bool {
    l.len() == 0 || utf8_len(l) > MAX_LABEL || l[0] == '-' || l.last() == '-'
}

/// Checks on a bracketed IPv6 literal `h` (which starts with '[').
#[verifier::opaque]
pub open spec fn bracket_error(h: Seq<char>) -> Option<Rejection> {
    if h.last() != ']' {
        Some(Rejection::UnbalancedBracket)
    } else {
        let end = h.subrange(1, h.len() - 1);
        let addr = match find_first(end, '%') {
            Some(p) => end.take(p),
            None => end,
        };
        if !ipv6_text(addr) {
            Some(Rejection::InvalidIpv6)
        } else {
            match find_first(end, '%') {
                Some(p) => {
                    let zone = end.skip(p + 1);
                    if zone.len() == 0 {
                        Some(Rejection::InvalidIpv6)
                    } else {
                        match first_bad(zone) {
                            Some(c) => Some(Rejection::HostBadChar(c)),
                            None => None,
                        }
                    }
                },
                None => None,
            }
        }
    }
}

#[verifier::opaque]
pub open spec fn host_error(h: Seq<char>) -> Option<Rejection> {
    if h.len() == 0 {
        Some(Rejection::HostEmpty)
    } else if utf8_len(h) > MAX_HOST {
        Some(Rejection::HostTooLong)
    } else if h[0] == '[' {
        bracket_error(h)
    } else if h.contains('[') || h.contains(']') {
        Some(Rejection::UnbalancedBracket)
    } else if first_bad(h) is Some {
        Some(Rejection::HostBadChar(first_bad(h)->0))
    } else if h[0] == '.' {
        Some(Rejection::HostBadChar('.'))
    } else {
        labels_error(h)
    }
}

/// Checks on the dot-separated labels of a host name.
#[verifier::opaque]
pub open spec fn labels_error(h: Seq<char>) -> Option<Rejection> {
    let labels = split_items(h, '.');
    if exists|k: int| 0 <= k < labels.len() && #[trigger] label_bad(labels[k]) {
        Some(Rejection::LabelInvalid)
    } else if (forall|k: int| 0 <= k < labels.len() ==> #[trigger] all_digits(labels[k]))
        && !ipv4_text(h) {
        if h.contains('.') {
            Some(Rejection::InvalidIpv4)
        } else {
            Some(Rejection::NumericHostRequiresIpv4)
        }
    } else {
        None
    }
}

/// Splitting `host`, `host:port`, `[v6]` or `[v6]:port` into the host
/// text (brackets kept) and the port.
#[verifier::opaque]
pub open spec fn split_host_port_spec(s: Seq<char>, default_port: u16) -> Result<
    (Seq<char>, u16),
    Rejection,
> {
    if s.len() > 0 && s[0] == '[' {
        let st = s.drop_first();
        match find_first(st, ']') {
            None => Err(Rejection::UnbalancedBracket),
            Some(rb) => {
                let host = s.take(rb + 2);
                let after = st.skip(rb + 1);
                if after.len() == 0 {
                    Ok((host, default_port))
                } else if after[0] != ':' {
                    Err(Rejection::HostBadChar(after[0]))
                } else {
                    let rest = after.drop_first();
                    if rest.len() == 0 {
                        Err(Rejection::TrailingColon)
                    } else {
                        match parse_u16(rest) {
                            Some(p) => Ok((host, p)),
                            None => Err(Rejection::InvalidPort(rest)),
                        }
                    }
                }
            },
        }
    } else {
        match find_last(s, ':') {
            Some(c) => {
                if s.take(c).contains(':') {
                    Err(Rejection::UnbalancedBracket)
                } else {
                    let port = s.skip(c + 1);
                    if port.len() == 0 {
                        Err(Rejection::TrailingColon)
                    } else {
                        match parse_u16(port) {
                            Some(p) => Ok((s.take(c), p)),
                            None => Err(Rejection::InvalidPort(port)),
                        }
                    }
                }
            },
            None => Ok((s, default_port)),
        }
    }
}

/// The user part of `s` (before the first '@') and the rest.
#[verifier::opaque]
pub open spec fn split_user_spec(s: Seq<char>) -> Result<(Option<Seq<char>>, Seq<char>), Rejection> {
    match find_first(s, '@') {
        Some(i) => match user_error(s.take(i)) {
            Some(e) => Err(e),
            None => Ok((Some(s.take(i)), s.skip(i + 1))),
        },
        None => Ok((None, s)),
    }
}

/// What `parse_input` answers for the text `input`.
pub open spec fn parse_input_spec(input: Seq<char>, default_ssh_port: u16) -> Result<TargetView, Rejection> {
    let s = trim(input);
    match outer_error(s) {
        Some(e) => Err(e),
        None => match split_user_spec(s) {
            Err(e) => Err(e),
            Ok((user, rest)) => match split_host_port_spec(rest, default_ssh_port) {
                Err(e) => Err(e),
                Ok((host, port)) => match host_error(host) {
                    Some(e) => Err(e),
                    None => if port == 0 {
                        Err(Rejection::ReservedPortZero)
                    } else {
                        Ok(TargetView { user, host, ssh_port: port })
                    },
                },
            },
        },
    }
}

/// What `validate_fields` answers.
pub open spec fn validate_fields_spec(host_spec: Seq<char>, remote_port: u16, ssh_port: u16) -> Option<Rejection> {
    let s = trim(host_spec);
    match outer_error(s) {
        Some(e) => Some(e),
        None => match split_user_spec(s) {
            Err(e) => Some(e),
            Ok((_, rest)) => match host_error(rest) {
                Some(e) => Some(e),
                None => if remote_port == 0 || ssh_port == 0 {
                    Some(Rejection::ReservedPortZero)
                } else {
                    None
                },
            },
        },
    }
}

// ---------------------------------------------------------------- code

fn first_bad_char(s: &Vec<char>) -> (r: Option<char>)
    ensures
        r == first_bad(s@),
{
    let mut i: usize = 0;
    proof {
        lemma_skip_zero(s@);
    }
    while i < s.len()
        invariant
            i <= s.len(),
            first_bad(s@) == first_bad(s@.skip(i as int)),
        decreases s.len() - i,
    {
        proof {
            assert(s@.skip(i as int).drop_first() =~= s@.skip(i + 1));
        }
        let c = s[i];
        if !(alnum(c) || c == '.' || c == '_' || c == '-') {
            return Some(c);
        }
        i = i + 1;
    }
    proof {
        assert(s@.skip(i as int).len() == 0);
    }
    None
}

proof fn lemma_skip_zero(s: Seq<char>)
    ensures
        s.skip(0) == s,
{
    assert(s.skip(0) =~= s);
}

/// `utf8_len(s) > limit`, without computing lengths that could overflow.
fn utf8_len_exceeds(s: &Vec<char>, limit: usize) -> (r: bool)
    requires
        limit <= 1024,
    ensures
        r == (utf8_len(s@) > limit),
{
    proof {
        lemma_utf8_len_ge_len(s@);
    }
    if s.len() > limit {
        true
    } else {
        utf8_len_of(s) > limit
    }
}

proof fn lemma_digits_value_prefix(d: Seq<char>, k: int)
    requires
        0 <= k <= d.len(),
        all_digits(d),
    ensures
        digits_value(d.take(k)) <= digits_value(d),
    decreases d.len(),
{
    if k < d.len() {
        let e = d.drop_last();
        assert(e.take(k) =~= d.take(k));
        assert(all_digits(e)) by {
            assert forall|i: int| 0 <= i < e.len() implies #[trigger] is_digit(e[i]) by {
                assert(e[i] == d[i]);
            }
        }
        lemma_digits_value_prefix(e, k);
        assert(is_digit(d[d.len() - 1]));
    } else {
        assert(d.take(k) =~= d);
    }
}

proof fn lemma_digits_step(d: Seq<char>, k: int)
    requires
        0 <= k < d.len(),
        is_digit(d[k]),
    ensures
        digits_value(d.take(k + 1)) == digits_value(d.take(k)) * 10 + ((d[k] as int) - ('0' as int)),
        0 <= (d[k] as int) - ('0' as int) <= 9,
{
    let p = d.take(k + 1);
    assert(p.drop_last() =~= d.take(k));
    assert(p.last() == d[k]);
}

proof fn lemma_all_digits_extend(d: Seq<char>, k: int)
    requires
        0 <= k < d.len(),
        all_digits(d.take(k)),
        is_digit(d[k]),
    ensures
        all_digits(d.take(k + 1)),
{
    let p = d.take(k + 1);
    assert forall|j: int| 0 <= j < p.len() implies #[trigger] is_digit(p[j]) by {
        if j < k {
            assert(p[j] == d.take(k)[j]);
        }
    }
}

/// `u16`'s `FromStr` on the characters `s`.
fn parse_port(s: &Vec<char>) -> (r: Option<u16>)
    ensures
        r == parse_u16(s@),
{
    let n = s.len();
    let start: usize = if n > 0 && s[0] == '+' {
        1
    } else {
        0
    };
    let ghost d = s@.skip(start as int);
    proof {
        if start == 1 {
            assert(s@.drop_first() =~= d);
        } else {
            lemma_skip_zero(s@);
        }
    }
    if start == n {
        return None;
    }
    let mut v: u32 = 0;
    let mut i = start;
    proof {
        assert(d.take(0).len() == 0);
    }
    while i < n
        invariant
            start <= i <= n == s.len(),
            d == s@.skip(start as int),
            d == (if s@.len() > 0 && s@[0] == '+' {
                s@.drop_first()
            } else {
                s@
            }),
            d.len() == n - start,
            all_digits(d.take(i - start)),
            v == digits_value(d.take(i - start)),
            v <= 65535,
        decreases n - i,
    {
        let c = s[i];
        proof {
            assert(d[i - start] == c);
        }
        if !digit(c) {
            proof {
                assert(!is_digit(d[i - start]));
                assert(!all_digits(d));
            }
            return None;
        }
        proof {
            lemma_digits_step(d, i - start);
            lemma_all_digits_extend(d, i - start);
        }
        v = v * 10 + (c as u32 - 48);
        i = i + 1;
        if v > 65535 {
            proof {
                if all_digits(d) {
                    lemma_digits_value_prefix(d, i - start);
                }
            }
            return None;
        }
    }
    proof {
        assert(d.take(n - start) =~= d);
    }
    Some(v as u16)
}

fn octet_ok(g: &Vec<char>) -> (r: bool)
    ensures
        r == octet_text(g@),
{
    let n = g.len();
    if n < 1 || n > 3 {
        return false;
    }
    if n > 1 && g[0] == '0' {
        return false;
    }
    let mut v: u32 = 0;
    let mut i: usize = 0;
    proof {
        assert(g@.take(0).len() == 0);
    }
    while i < n
        invariant
            i <= n == g.len() <= 3,
            all_digits(g@.take(i as int)),
            v == digits_value(g@.take(i as int)),
            i == 0 ==> v == 0,
            i == 1 ==> v <= 9,
            i == 2 ==> v <= 99,
            v <= 999,
        decreases n - i,
    {
        let c = g[i];
        if !digit(c) {
            proof {
                assert(!is_digit(g@[i as int]));
            }
            return false;
        }
        proof {
            lemma_digits_step(g@, i as int);
            lemma_all_digits_extend(g@, i as int);
        }
        v = v * 10 + (c as u32 - 48);
        i = i + 1;
    }
    proof {
        assert(g@.take(n as int) =~= g@);
    }
    v <= 255
}

fn ipv4_ok(s: &Vec<char>) -> (r: bool)
    ensures
        r == ipv4_text(s@),
{
    reveal(ipv4_text);
    let items = split_from(s, 0, '.');
    proof {
        lemma_skip_zero(s@);
    }
    if items.len() != 4 {
        return false;
    }
    let mut k: usize = 0;
    while k < 4
        invariant
            k <= 4,
            items.len() == 4,
            items.len() == split_items(s@, '.').len(),
            forall|j: int| 0 <= j < items.len() ==> #[trigger] items[j]@ == split_items(s@, '.')[j],
            forall|j: int| 0 <= j < k ==> #[trigger] octet_text(split_items(s@, '.')[j]),
        decreases 4 - k,
    {
        if !octet_ok(&items[k]) {
            proof {
                reveal(ipv4_text);
                assert(!octet_text(split_items(s@, '.')[k as int]));
            }
            return false;
        }
        k = k + 1;
    }
    true
}

fn hex(c: char) -> (r: bool)
    ensures
        r == is_hex(c),
{
    ('0' <= c && c <= '9') || ('a' <= c && c <= 'f') || ('A' <= c && c <= 'F')
}

fn hex_group_ok(g: &Vec<char>) -> (r: bool)
    ensures
        r == hex_group(g@),
{
    if g.len() < 1 || g.len() > 4 {
        return false;
    }
    let mut i: usize = 0;
    while i < g.len()
        invariant
            i <= g.len(),
            forall|j: int| 0 <= j < i ==> #[trigger] is_hex(g@[j]),
        decreases g.len() - i,
    {
        if !hex(g[i]) {
            return false;
        }
        i = i + 1;
    }
    true
}

#[verifier::rlimit(40)]
fn group_list_count(s: &Vec<char>, v4: bool) -> (r: Option<usize>)
    ensures
        match r {
            Some(n) => group_list(s@, v4) == Some(n as nat),
            None => match group_list(s@, v4) {
                Some(m) => m > 9,
                None => true,
            },
        },
{
    reveal(group_list);
    if s.len() == 0 {
        return Some(0);
    }
    let items = split_from(s, 0, ':');
    proof {
        lemma_skip_zero(s@);
        lemma_split_items_len(s@, ':');
    }
    let ghost spec_items = split_items(s@, ':');
    let n = items.len();
    let mut k: usize = 0;
    while k + 1 < n
        invariant
            n == items.len() == spec_items.len() >= 1,
            s@.len() > 0,
            spec_items == split_items(s@, ':'),
            forall|j: int| 0 <= j < n ==> #[trigger] items[j]@ == spec_items[j],
            k < n,
            forall|j: int| 0 <= j < k ==> #[trigger] hex_group(spec_items[j]),
        decreases n - k,
    {
        if !hex_group_ok(&items[k]) {
            proof {
                reveal(group_list);
                assert(!hex_group(spec_items[k as int]));
            }
            return None;
        }
        k = k + 1;
    }
    if hex_group_ok(&items[n - 1]) {
        Some(n)
    } else if v4 && ipv4_ok(&items[n - 1]) {
        if n >= 9 {
            return None;
        }
        Some(n + 1)
    } else {
        None
    }
}

fn ipv6_ok(s: &Vec<char>) -> (r: bool)
    ensures
        r == ipv6_text(s@),
{
    reveal(ipv6_text);
    let full = group_list_count(s, true);
    if let Some(8) = full {
        return true;
    }
    let mut i: usize = 0;
    while i < s.len() && i + 1 < s.len() && !(s[i] == ':' && s[i + 1] == ':')
        invariant
            i <= s.len(),
            forall|k: int| 0 <= k < i ==> !(#[trigger] s@[k] == ':' && s@[k + 1] == ':'),
        decreases s.len() - i,
    {
        i = i + 1;
    }
    if i >= s.len() || i + 1 >= s.len() {
        proof {
            assert(!(exists|j: int| 0 <= j < s@.len() - 1 && #[trigger] s@[j] == ':' && s@[j + 1] == ':'));
        }
        return false;
    }
    proof {
        let j = choose|j: int|
            0 <= j < s@.len() - 1 && #[trigger] s@[j] == ':' && s@[j + 1] == ':' && forall|k: int|
                0 <= k < j ==> !(#[trigger] s@[k] == ':' && s@[k + 1] == ':');
        assert(j == i) by {
            if j < i {
            } else if j > i {
                assert(s@[i as int] == ':' && s@[i + 1] == ':');
            }
        }
    }
    let head = slice_chars(s, 0, i);
    let tail = slice_chars(s, i + 2, s.len());
    proof {
        assert(head@ =~= s@.take(i as int));
        assert(tail@ =~= s@.skip(i + 2));
    }
    match (group_list_count(&head, false), group_list_count(&tail, true)) {
        (Some(a), Some(b)) => a <= 7 && b <= 7 - a,
        _ => false,
    }
}

fn check_outer(s: &Vec<char>) -> (r: Result<(), ValidationError>)
    ensures
        match r {
            Ok(_) => outer_error(s@) is None,
            Err(e) => outer_error(s@) == Some(e@),
        },
{
    if s.len() == 0 {
        return Err(ValidationError::Empty);
    }
    if utf8_len_exceeds(s, MAX_TOTAL) {
        return Err(ValidationError::TooLong);
    }
    if s[0] == '-' {
        return Err(ValidationError::LeadingDash);
    }
    Ok(())
}

fn validate_user(u: &Vec<char>) -> (r: Result<(), ValidationError>)
    ensures
        match r {
            Ok(_) => user_error(u@) is None,
            Err(e) => user_error(u@) == Some(e@),
        },
{
    if u.len() == 0 {
        return Err(ValidationError::UserEmpty);
    }
    if utf8_len_exceeds(u, MAX_USER) {
        return Err(ValidationError::UserTooLong);
    }
    if u[0] == '-' {
        return Err(ValidationError::UserBadChar('-'));
    }
    match first_bad_char(u) {
        Some(c) => Err(ValidationError::UserBadChar(c)),
        None => Ok(()),
    }
}

fn validate_bracketed(h: &Vec<char>) -> (r: Result<(), ValidationError>)
    requires
        h@.len() > 0,
        h@[0] == '[',
    ensures
        match r {
            Ok(_) => bracket_error(h@) is None,
            Err(e) => bracket_error(h@) == Some(e@),
        },
{
    reveal(bracket_error);
    let n = h.len();
    if h[n - 1] != ']' {
        return Err(ValidationError::UnbalancedBracket);
    }
    let end = slice_chars(h, 1, n - 1);
    let pct = position_first(&end, '%');
    let addr = match pct {
        Some(p) => slice_chars(&end, 0, p),
        None => slice_chars(&end, 0, end.len()),
    };
    proof {
        assert(addr@ =~= match find_first(end@, '%') {
            Some(p) => end@.take(p),
            None => end@,
        });
    }
    if !ipv6_ok(&addr) {
        return Err(ValidationError::InvalidIpv6);
    }
    match pct {
        Some(p) => {
            let zone = slice_chars(&end, p + 1, end.len());
            proof {
                assert(zone@ =~= end@.skip(p + 1));
            }
            if zone.len() == 0 {
                return Err(ValidationError::InvalidIpv6);
            }
            match first_bad_char(&zone) {
                Some(c) => Err(ValidationError::HostBadChar(c)),
                None => Ok(()),
            }
        },
        None => Ok(()),
    }
}

fn validate_host(h: &Vec<char>) -> (r: Result<(), ValidationError>)
    ensures
        match r {
            Ok(_) => host_error(h@) is None,
            Err(e) => host_error(h@) == Some(e@),
        },
{
    reveal(host_error);
    if h.len() == 0 {
        return Err(ValidationError::HostEmpty);
    }
    if utf8_len_exceeds(h, MAX_HOST) {
        return Err(ValidationError::HostTooLong);
    }
    if h[0] == '[' {
        return validate_bracketed(h);
    }
    if contains_char(h, '[') || contains_char(h, ']') {
        return Err(ValidationError::UnbalancedBracket);
    }
    if let Some(c) = first_bad_char(h) {
        return Err(ValidationError::HostBadChar(c));
    }
    if h[0] == '.' {
        return Err(ValidationError::HostBadChar('.'));
    }
    check_labels(h)
}

#[verifier::rlimit(40)]
fn check_labels(h: &Vec<char>) -> (r: Result<(), ValidationError>)
    ensures
        match r {
            Ok(_) => labels_error(h@) is None,
            Err(e) => labels_error(h@) == Some(e@),
        },
{
    reveal(labels_error);
    let labels = split_from(h, 0, '.');
    proof {
        lemma_skip_zero(h@);
    }
    let ghost ls = split_items(h@, '.');
    let mut all_numeric = true;
    let mut k: usize = 0;
    while k < labels.len()
        invariant
            k <= labels.len() == ls.len(),
            ls == split_items(h@, '.'),
            forall|j: int| 0 <= j < labels.len() ==> #[trigger] labels[j]@ == ls[j],
            forall|j: int| 0 <= j < k ==> !(#[trigger] label_bad(ls[j])),
            all_numeric == (forall|j: int| 0 <= j < k ==> #[trigger] all_digits(ls[j])),
        decreases labels.len() - k,
    {
        let l = &labels[k];
        if l.len() == 0 || utf8_len_exceeds(l, MAX_LABEL) || l[0] == '-' || l[l.len() - 1] == '-' {
            proof {
                reveal(labels_error);
                assert(label_bad(ls[k as int]));
            }
            return Err(ValidationError::LabelInvalid);
        }
        let mut i: usize = 0;
        let mut digits_only = true;
        while i < l.len()
            invariant
                i <= l.len(),
                digits_only == (forall|j: int| 0 <= j < i ==> #[trigger] is_digit(l@[j])),
            decreases l.len() - i,
        {
            if !digit(l[i]) {
                digits_only = false;
            }
            i = i + 1;
        }
        proof {
            if !all_numeric {
                let j0 = choose|j: int| 0 <= j < k && !all_digits(ls[j]);
                assert(!(forall|j: int| 0 <= j < k + 1 ==> #[trigger] all_digits(ls[j])));
            }
            if !digits_only {
                assert(!all_digits(ls[k as int]));
            }
        }
        all_numeric = all_numeric && digits_only;
        k = k + 1;
    }
    if all_numeric && !ipv4_ok(h) {
        if contains_char(h, '.') {
            return Err(ValidationError::InvalidIpv4);
        } else {
            return Err(ValidationError::NumericHostRequiresIpv4);
        }
    }
    Ok(())
}

/// Split `host`, `host:port`, `[v6]`, or `[v6]:port`.
fn split_host_port(s: &Vec<char>, default_port: u16) -> (r: Result<(Vec<char>, u16), ValidationError>)
    ensures
        match r {
            Ok((h, p)) => split_host_port_spec(s@, default_port) == Ok::<(Seq<char>, u16), Rejection>((h@, p)),
            Err(e) => split_host_port_spec(s@, default_port) == Err::<(Seq<char>, u16), Rejection>(e@),
        },
{
    reveal(split_host_port_spec);
    let n = s.len();
    if n > 0 && s[0] == '[' {
        let st = slice_chars(s, 1, n);
        proof {
            assert(st@ =~= s@.drop_first());
        }
        let rb = match position_first(&st, ']') {
            Some(rb) => rb,
            None => {
                return Err(ValidationError::UnbalancedBracket);
            },
        };
        let host = slice_chars(s, 0, rb + 2);
        let after = slice_chars(&st, rb + 1, st.len());
        proof {
            assert(host@ =~= s@.take(rb + 2));
            assert(after@ =~= st@.skip(rb + 1));
        }
        if after.len() == 0 {
            return Ok((host, default_port));
        }
        if after[0] != ':' {
            return Err(ValidationError::HostBadChar(after[0]));
        }
        let rest = slice_chars(&after, 1, after.len());
        proof {
            assert(rest@ =~= after@.drop_first());
        }
        if rest.len() == 0 {
            return Err(ValidationError::TrailingColon);
        }
        match parse_port(&rest) {
            Some(p) => Ok((host, p)),
            None => Err(ValidationError::InvalidPort(string_of(&rest))),
        }
    } else {
        match position_last(s, ':') {
            Some(c) => {
                let host = slice_chars(s, 0, c);
                proof {
                    assert(host@ =~= s@.take(c as int));
                }
                if contains_char(&host, ':') {
                    return Err(ValidationError::UnbalancedBracket);
                }
                let port = slice_chars(s, c + 1, n);
                proof {
                    assert(port@ =~= s@.skip(c + 1));
                }
                if port.len() == 0 {
                    return Err(ValidationError::TrailingColon);
                }
                match parse_port(&port) {
                    Some(p) => Ok((host, p)),
                    None => Err(ValidationError::InvalidPort(string_of(&port))),
                }
            },
            None => {
                let all = slice_chars(s, 0, n);
                proof {
                    assert(all@ =~= s@);
                }
                Ok((all, default_port))
            },
        }
    }
}

/// Split `[user@]rest`, validating the user part when there is one.
fn split_user(s: &Vec<char>) -> (r: Result<(Option<Vec<char>>, Vec<char>), ValidationError>)
    ensures
        match r {
            Ok((u, rest)) => split_user_spec(s@) == Ok::<(Option<Seq<char>>, Seq<char>), Rejection>(
                (
                    match u {
                        Some(u) => Some(u@),
                        None => None,
                    },
                    rest@,
                ),
            ),
            Err(e) => split_user_spec(s@) == Err::<(Option<Seq<char>>, Seq<char>), Rejection>(e@),
        },
{
    reveal(split_user_spec);
    match position_first(s, '@') {
        Some(i) => {
            let u = slice_chars(s, 0, i);
            let rest = slice_chars(s, i + 1, s.len());
            proof {
                assert(u@ =~= s@.take(i as int));
                assert(rest@ =~= s@.skip(i + 1));
            }
            match validate_user(&u) {
                Err(e) => Err(e),
                Ok(()) => Ok((Some(u), rest)),
            }
        },
        None => {
            let rest = slice_chars(s, 0, s.len());
            proof {
                assert(rest@ =~= s@);
            }
            Ok((None, rest))
        },
    }
}

/// Parse the palette text input (`[user@]host[:ssh_port]`) and validate it.
pub fn parse_input(input: &str, default_ssh_port: u16) -> (r: Result<RemoteTarget, ValidationError>)
    ensures
        match r {
            Ok(t) => parse_input_spec(input@, default_ssh_port) == Ok::<TargetView, Rejection>(t@),
            Err(e) => parse_input_spec(input@, default_ssh_port) == Err::<TargetView, Rejection>(e@),
        },
{
    let raw = chars_of(input);
    let s = trim_chars(&raw);
    check_outer(&s)?;
    let (user, rest) = split_user(&s)?;
    let (host, port) = split_host_port(&rest, default_ssh_port)?;
    validate_host(&host)?;
    if port == 0 {
        return Err(ValidationError::ReservedPortZero);
    }
    let user_s = match user {
        Some(u) => Some(string_of(&u)),
        None => None,
    };
    Ok(RemoteTarget { user: user_s, host: string_of(&host), ssh_port: port })
}

/// Validate pre-split `host_spec` (`user@host` or bare `host`),
/// `remote_port` and `ssh_port`.
pub fn validate_fields(host_spec: &str, remote_port: u16, ssh_port: u16) -> (r: Result<(), ValidationError>)
    ensures
        match r {
            Ok(_) => validate_fields_spec(host_spec@, remote_port, ssh_port) is None,
            Err(e) => validate_fields_spec(host_spec@, remote_port, ssh_port) == Some(e@),
        },
{
    let raw = chars_of(host_spec);
    let s = trim_chars(&raw);
    check_outer(&s)?;
    let (_user, host_part) = split_user(&s)?;
    validate_host(&host_part)?;
    if remote_port == 0 || ssh_port == 0 {
        return Err(ValidationError::ReservedPortZero);
    }
    Ok(())
}

// ---------------------------------------------------------------- laws

/// Characters an accepted host may hold: name characters, and the
/// brackets, colons and percent sign of an IPv6 literal with a zone.
pub open spec fn shell_safe(c: char) -> bool {
    name_char(c) || c == '[' || c == ']' || c == ':' || c == '%'
}

proof fn lemma_first_bad_none(s: Seq<char>)
    requires
        first_bad(s) is None,
    ensures
        forall|i: int| 0 <= i < s.len() ==> name_char(#[trigger] s[i]),
    decreases s.len(),
{
    if s.len() > 0 {
        lemma_first_bad_none(s.drop_first());
        assert forall|i: int| 0 <= i < s.len() implies name_char(#[trigger] s[i]) by {
            if i > 0 {
                assert(s[i] == s.drop_first()[i - 1]);
            }
        }
    }
}

/// Characters of IPv6 text: hex digits, colons, and the dots of an
/// embedded IPv4 address.
pub open spec fn ipv6_char(c: char) -> bool {
    is_hex(c) || c == ':' || c == '.'
}

proof fn lemma_ipv4_chars(s: Seq<char>)
    requires
        ipv4_text(s),
    ensures
        forall|i: int| 0 <= i < s.len() ==> ipv6_char(#[trigger] s[i]),
{
    reveal(ipv4_text);
    let items = split_items(s, '.');
    assert forall|k: int, j: int| 0 <= k < items.len() && 0 <= j < items[k].len() implies ipv6_char(
        #[trigger] items[k][j],
    ) by {
        assert(octet_text(items[k]));
        assert(is_digit(items[k][j]));
    }
    let p = |c: char| ipv6_char(c);
    assert forall|k: int, j: int| 0 <= k < items.len() && 0 <= j < items[k].len() implies p(
        #[trigger] items[k][j],
    ) by {
        assert(ipv6_char(items[k][j]));
    }
    lemma_split_chars(s, '.', p);
    assert forall|i: int| 0 <= i < s.len() implies ipv6_char(#[trigger] s[i]) by {
        assert(s[i] == '.' || p(s[i]));
    }
}

proof fn lemma_group_list_chars(s: Seq<char>, v4: bool)
    requires
        group_list(s, v4) is Some,
    ensures
        forall|i: int| 0 <= i < s.len() ==> ipv6_char(#[trigger] s[i]),
{
    reveal(group_list);
    if s.len() > 0 {
        let items = split_items(s, ':');
        let n = items.len();
        lemma_split_items_len(s, ':');
        assert forall|k: int, j: int| 0 <= k < n && 0 <= j < items[k].len() implies ipv6_char(
            #[trigger] items[k][j],
        ) by {
            if k < n - 1 || hex_group(items[n - 1]) {
                assert(hex_group(items[k]));
                assert(is_hex(items[k][j]));
            } else {
                lemma_ipv4_chars(items[k]);
            }
        }
        let p = |c: char| ipv6_char(c);
        assert forall|k: int, j: int| 0 <= k < n && 0 <= j < items[k].len() implies p(
            #[trigger] items[k][j],
        ) by {
            assert(ipv6_char(items[k][j]));
        }
        lemma_split_chars(s, ':', p);
        assert forall|i: int| 0 <= i < s.len() implies ipv6_char(#[trigger] s[i]) by {
            assert(s[i] == ':' || p(s[i]));
        }
    }
}

proof fn lemma_min_double_colon(s: Seq<char>, j: int)
    requires
        0 <= j < s.len() - 1,
        s[j] == ':' && s[j + 1] == ':',
    ensures
        exists|i: int|
            0 <= i < s.len() - 1 && #[trigger] s[i] == ':' && s[i + 1] == ':' && forall|k: int|
                0 <= k < i ==> !(#[trigger] s[k] == ':' && s[k + 1] == ':'),
    decreases j,
{
    if exists|k: int| 0 <= k < j && #[trigger] s[k] == ':' && s[k + 1] == ':' {
        let k = choose|k: int| 0 <= k < j && #[trigger] s[k] == ':' && s[k + 1] == ':';
        lemma_min_double_colon(s, k);
    } else {
        assert(forall|k: int| 0 <= k < j ==> !(#[trigger] s[k] == ':' && s[k + 1] == ':'));
    }
}

proof fn lemma_double_colon_props(s: Seq<char>)
    ensures
        find_double_colon(s) matches Some(i) ==> 0 <= i < s.len() - 1 && s[i] == ':' && s[i + 1] == ':',
{
    if exists|j: int| 0 <= j < s.len() - 1 && #[trigger] s[j] == ':' && s[j + 1] == ':' {
        let j = choose|j: int| 0 <= j < s.len() - 1 && #[trigger] s[j] == ':' && s[j + 1] == ':';
        lemma_min_double_colon(s, j);
    }
}

#[verifier::spinoff_prover]
#[verifier::rlimit(60)]
proof fn lemma_ipv6_chars(s: Seq<char>)
    requires
        ipv6_text(s),
    ensures
        forall|i: int| 0 <= i < s.len() ==> ipv6_char(#[trigger] s[i]),
{
    if group_list(s, true) == Some(8nat) {
        lemma_group_list_chars(s, true);
    } else {
        lemma_double_colon_props(s);
        assert(find_double_colon(s) is Some) by {
            reveal(ipv6_text);
        }
        let i = find_double_colon(s)->0;
        let a = s.take(i);
        let b = s.skip(i + 2);
        assert(group_list(a, false) is Some && group_list(b, true) is Some) by {
            reveal(ipv6_text);
        }
        lemma_group_list_chars(a, false);
        lemma_group_list_chars(b, true);
        assert forall|m: int| 0 <= m < s.len() implies ipv6_char(#[trigger] s[m]) by {
            if m < i {
                assert(s[m] == a[m]);
            } else if m >= i + 2 {
                assert(s[m] == b[m - i - 2]);
            }
        }
    }
}

/// A host that passes the host checks is not empty, does not begin with
/// `-`, and holds only shell-safe characters.
pub proof fn lemma_accepted_host_is_shell_safe(h: Seq<char>)
    requires
        host_error(h) is None,
    ensures
        h.len() > 0,
        h[0] != '-',
        forall|i: int| 0 <= i < h.len() ==> shell_safe(#[trigger] h[i]),
{
    reveal(host_error);
    if h[0] == '[' {
        reveal(bracket_error);
        let end = h.subrange(1, h.len() - 1);
        lemma_find_first_bounds(end, '%');
        match find_first(end, '%') {
            Some(p) => {
                let addr = end.take(p);
                let zone = end.skip(p + 1);
                lemma_ipv6_chars(addr);
                lemma_first_bad_none(zone);
                assert forall|i: int| 0 <= i < h.len() implies shell_safe(#[trigger] h[i]) by {
                    if 1 <= i < h.len() - 1 {
                        let m = i - 1;
                        assert(h[i] == end[m]);
                        if m < p {
                            assert(end[m] == addr[m]);
                            assert(ipv6_char(addr[m]));
                        } else if m > p {
                            assert(end[m] == zone[m - p - 1]);
                        }
                    }
                }
            },
            None => {
                lemma_ipv6_chars(end);
                assert forall|i: int| 0 <= i < h.len() implies shell_safe(#[trigger] h[i]) by {
                    if 1 <= i < h.len() - 1 {
                        assert(h[i] == end[i - 1]);
                        assert(ipv6_char(end[i - 1]));
                    }
                }
            },
        }
    } else {
        lemma_first_bad_none(h);
        reveal(labels_error);
        let labels = split_items(h, '.');
        lemma_split_first(h, '.');
        assert(!label_bad(labels[0]));
        assert(labels[0][0] == h[0]);
    }
}

/// An accepted remote target has a host that cannot be taken for an ssh
/// option or carry shell metacharacters, and a user name (if any) made of
/// name characters that does not begin with `-`.
pub proof fn lemma_accepted_target_is_shell_safe(input: Seq<char>, default_ssh_port: u16)
    requires
        parse_input_spec(input, default_ssh_port) is Ok,
    ensures
        ({
            let t = parse_input_spec(input, default_ssh_port)->Ok_0;
            &&& t.host.len() > 0
            &&& t.host[0] != '-'
            &&& forall|i: int| 0 <= i < t.host.len() ==> shell_safe(#[trigger] t.host[i])
            &&& t.user matches Some(u) ==> u.len() > 0 && u[0] != '-' && forall|i: int|
                0 <= i < u.len() ==> name_char(#[trigger] u[i])
        }),
{
    let s = trim(input);
    reveal(split_user_spec);
    let (user, rest) = split_user_spec(s)->Ok_0;
    let (host, port) = split_host_port_spec(rest, default_ssh_port)->Ok_0;
    lemma_accepted_host_is_shell_safe(host);
    match user {
        Some(u) => {
            assert(user_error(u) is None);
            lemma_first_bad_none(u);
        },
        None => {},
    }
}

proof fn lemma_max_index(s: Seq<char>, c: char, i: int)
    requires
        0 <= i < s.len(),
        s[i] == c,
    ensures
        exists|j: int| 0 <= j < s.len() && s[j] == c && forall|k: int| j < k < s.len() ==> s[k] != c,
    decreases s.len() - i,
{
    if exists|k: int| i < k < s.len() && s[k] == c {
        let k = choose|k: int| i < k < s.len() && s[k] == c;
        lemma_max_index(s, c, k);
    } else {
        assert(forall|k: int| i < k < s.len() ==> s[k] != c);
    }
}

proof fn lemma_trim_unchanged(s: Seq<char>)
    requires
        s.len() > 0,
        !is_ws(s[0]),
        !is_ws(s.last()),
    ensures
        trim(s) == s,
{
    assert(lead_ws(s) == 0);
    let t = s.skip(0);
    assert(t =~= s);
    assert(trail_ws(t) == 0);
    assert(t.take(t.len() as int) =~= s);
}

proof fn lemma_utf8_len_prefix(s: Seq<char>, k: int)
    requires
        0 <= k <= s.len(),
    ensures
        utf8_len(s.take(k)) <= utf8_len(s),
    decreases s.len(),
{
    if k == s.len() {
        assert(s.take(k) =~= s);
    } else {
        lemma_utf8_len_prefix(s.drop_last(), k);
        assert(s.drop_last().take(k) =~= s.take(k));
    }
}

/// The host an accepted `[user@]host[:port]` names is where that text
/// begins: a prefix of what follows the user.
proof fn lemma_split_host_prefix(s: Seq<char>, default_port: u16)
    requires
        split_host_port_spec(s, default_port) is Ok,
    ensures
        ({
            let host = split_host_port_spec(s, default_port)->Ok_0.0;
            host.len() <= s.len() && host == s.take(host.len() as int)
        }),
{
    reveal(split_host_port_spec);
    if s.len() > 0 && s[0] == '[' {
        let st = s.drop_first();
        lemma_find_first_bounds(st, ']');
    } else {
        match find_last(s, ':') {
            Some(c) => {
                let w = choose|i: int| 0 <= i < s.len() && s[i] == ':';
                lemma_max_index(s, ':', w);
            },
            None => {
                assert(s.take(s.len() as int) =~= s);
            },
        }
    }
}

/// Every target the palette parser accepts is accepted again by the field
/// validator that guards `ssh`, given back as `user@host` (or `host`) with
/// its ssh port and any remote port but 0.
#[verifier::spinoff_prover]
#[verifier::rlimit(60)]
pub proof fn lemma_accepted_target_revalidates(input: Seq<char>, default_ssh_port: u16, remote_port: u16)
    requires
        parse_input_spec(input, default_ssh_port) is Ok,
        remote_port != 0,
    ensures
        ({
            let t = parse_input_spec(input, default_ssh_port)->Ok_0;
            let spec = match t.user {
                Some(u) => u + seq!['@'] + t.host,
                None => t.host,
            };
            validate_fields_spec(spec, remote_port, t.ssh_port) is None
        }),
{
    let s = trim(input);
    lemma_accepted_target_is_shell_safe(input, default_ssh_port);
    reveal(split_user_spec);
    let (user, rest) = split_user_spec(s)->Ok_0;
    let (host, port) = split_host_port_spec(rest, default_ssh_port)->Ok_0;
    lemma_split_host_prefix(rest, default_ssh_port);
    lemma_find_first_bounds(s, '@');
    let t = parse_input_spec(input, default_ssh_port)->Ok_0;
    assert(t.host == host && t.user == user && t.ssh_port == port);
    let spec = match user {
        Some(u) => u + seq!['@'] + host,
        None => host,
    };
    // The text handed back is a prefix of the trimmed input.
    let n: int = match user {
        Some(u) => (u.len() + 1 + host.len()) as int,
        None => host.len() as int,
    };
    match user {
        Some(u) => {
            let i = find_first(s, '@')->0;
            assert(u == s.take(i));
            assert(rest == s.skip(i + 1));
            assert(spec =~= s.take(n));
            assert(spec.take(i) =~= u);
            assert(spec.skip(i + 1) =~= host);
            assert(forall|k: int| 0 <= k < i ==> spec[k] == s[k]);
            lemma_find_first_is(spec, '@', i);
            lemma_first_bad_none(u);
        },
        None => {
            assert(rest == s);
            assert(spec =~= s.take(n));
            lemma_find_first_none(spec, '@');
        },
    }
    assert(spec.len() > 0);
    assert(spec.last() == host.last());
    assert(shell_safe(host[host.len() - 1]));
    lemma_trim_unchanged(spec);
    lemma_utf8_len_prefix(s, n);
    assert(spec[0] == s[0]);
}

/// `parts` written one after another with `sep` between them.
pub open spec fn join_with(parts: Seq<Seq<char>>, sep: char) -> Seq<char>
    decreases parts.len(),
{
    if parts.len() == 0 {
        Seq::empty()
    } else if parts.len() == 1 {
        parts[0]
    } else {
        parts[0] + seq![sep] + join_with(parts.drop_first(), sep)
    }
}

proof fn lemma_join_chars(parts: Seq<Seq<char>>, sep: char, p: spec_fn(char) -> bool)
    requires
        forall|k: int, j: int| 0 <= k < parts.len() && 0 <= j < parts[k].len() ==> p(#[trigger] parts[k][j]),
    ensures
        forall|i: int| 0 <= i < join_with(parts, sep).len() ==> #[trigger] join_with(parts, sep)[i] == sep || p(
            join_with(parts, sep)[i],
        ),
        parts.len() >= 1 ==> join_with(parts, sep).len() + 1 == parts.len() + lens(parts),
    decreases parts.len(),
{
    if parts.len() > 1 {
        let rest = parts.drop_first();
        assert forall|k: int, j: int| 0 <= k < rest.len() && 0 <= j < rest[k].len() implies p(#[trigger] rest[k][j]) by {
            assert(rest[k] == parts[k + 1]);
        }
        lemma_join_chars(rest, sep, p);
        let s = join_with(parts, sep);
        let t = join_with(rest, sep);
        assert(s == parts[0] + seq![sep] + t);
        assert(lens(parts) == parts[0].len() + lens(rest));
        assert forall|i: int| 0 <= i < s.len() implies #[trigger] s[i] == sep || p(s[i]) by {
            if i < parts[0].len() {
                assert(s[i] == parts[0][i]);
            } else if i > parts[0].len() {
                assert(s[i] == t[i - parts[0].len() - 1]);
            }
        }
    } else if parts.len() == 1 {
        assert(lens(parts.drop_first()) == 0);
        assert forall|i: int| 0 <= i < join_with(parts, sep).len() implies #[trigger] join_with(parts, sep)[i]
            == sep || p(join_with(parts, sep)[i]) by {
            assert(join_with(parts, sep)[i] == parts[0][i]);
        }
    }
}

/// The total length of `parts`.
pub open spec fn lens(parts: Seq<Seq<char>>) -> nat
    decreases parts.len(),
{
    if parts.len() == 0 {
        0
    } else {
        parts[0].len() + lens(parts.drop_first())
    }
}

proof fn lemma_lens_bound(parts: Seq<Seq<char>>, m: nat)
    requires
        forall|k: int| 0 <= k < parts.len() ==> #[trigger] parts[k].len() <= m,
    ensures
        lens(parts) <= parts.len() * m,
    decreases parts.len(),
{
    if parts.len() > 0 {
        let rest = parts.drop_first();
        assert forall|k: int| 0 <= k < rest.len() implies #[trigger] rest[k].len() <= m by {
            assert(rest[k] == parts[k + 1]);
        }
        lemma_lens_bound(rest, m);
        assert(lens(parts) == parts[0].len() + lens(rest));
        assert((rest.len() * m) + m == parts.len() * m) by (nonlinear_arith)
            requires
                rest.len() + 1 == parts.len(),
        ;
    }
}

proof fn lemma_split_at(s: Seq<char>, sep: char, n: int)
    requires
        0 <= n < s.len(),
        s[n] == sep,
        forall|k: int| 0 <= k < n ==> s[k] != sep,
    ensures
        split_items(s, sep) == seq![s.take(n)] + split_items(s.skip(n + 1), sep),
{
    reveal(split_items);
    lemma_min_index(s, sep, n);
    let i = choose|i: int| 0 <= i < s.len() && s[i] == sep && forall|k: int| 0 <= k < i ==> s[k] != sep;
    assert(i == n) by {
        if i > n {
            assert(s[n] == sep);
        }
    }
}

proof fn lemma_split_none(s: Seq<char>, sep: char)
    requires
        forall|k: int| 0 <= k < s.len() ==> s[k] != sep,
    ensures
        split_items(s, sep) == seq![s],
{
    reveal(split_items);
}

/// Splitting what `join_with` wrote gives the parts back, when none holds
/// the separator.
proof fn lemma_split_join(parts: Seq<Seq<char>>, sep: char)
    requires
        parts.len() >= 1,
        forall|k: int, j: int| 0 <= k < parts.len() && 0 <= j < parts[k].len() ==> #[trigger] parts[k][j] != sep,
    ensures
        split_items(join_with(parts, sep), sep) == parts,
    decreases parts.len(),
{
    let s = join_with(parts, sep);
    if parts.len() == 1 {
        assert(forall|k: int| 0 <= k < s.len() ==> s[k] == parts[0][k]);
        lemma_split_none(s, sep);
        assert(seq![s] =~= parts);
    } else {
        let rest = parts.drop_first();
        assert forall|k: int, j: int| 0 <= k < rest.len() && 0 <= j < rest[k].len() implies #[trigger] rest[k][j]
            != sep by {
            assert(rest[k] == parts[k + 1]);
        }
        lemma_split_join(rest, sep);
        let t = join_with(rest, sep);
        let n = parts[0].len() as int;
        assert(s == parts[0] + seq![sep] + t);
        assert(forall|k: int| 0 <= k < n ==> s[k] == parts[0][k]);
        lemma_split_at(s, sep, n);
        assert(s.take(n) =~= parts[0]);
        assert(s.skip(n + 1) =~= t);
        assert(seq![parts[0]] + rest =~= parts);
    }
}

/// A bracketed IPv6 address written out in full, eight ':'-separated groups
/// of one to four hex digits (as `Ipv6Addr` reads it), passes the host
/// checks.
pub proof fn lemma_full_ipv6_host_accepted(groups: Seq<Seq<char>>)
    requires
        groups.len() == 8,
        forall|k: int| 0 <= k < 8 ==> 1 <= #[trigger] groups[k].len() <= 4,
        forall|k: int, j: int| 0 <= k < 8 && 0 <= j < groups[k].len() ==> is_hex(#[trigger] groups[k][j]),
    ensures
        host_error(seq!['['] + join_with(groups, ':') + seq![']']) is None,
{
    let addr = join_with(groups, ':');
    let h = seq!['['] + addr + seq![']'];
    assert forall|k: int, j: int| 0 <= k < groups.len() && 0 <= j < groups[k].len() implies #[trigger] groups[k][j]
        != ':' by {
        assert(is_hex(groups[k][j]));
    }
    lemma_split_join(groups, ':');
    let p = |c: char| is_hex(c);
    assert forall|k: int, j: int| 0 <= k < groups.len() && 0 <= j < groups[k].len() implies p(
        #[trigger] groups[k][j],
    ) by {
        assert(is_hex(groups[k][j]));
    }
    lemma_join_chars(groups, ':', p);
    lemma_lens_bound(groups, 4);
    assert(addr.len() > 0) by {
        assert(lens(groups) >= 1) by {
            reveal_with_fuel(lens, 2);
        }
    }
    // Eight hex groups: `Ipv6Addr`'s full form.
    assert(group_list(addr, true) == Some(8nat)) by {
        reveal(group_list);
        let items = split_items(addr, ':');
        assert(items == groups);
        assert(forall|k: int| 0 <= k < 8 ==> #[trigger] hex_group(items[k]));
    }
    assert(ipv6_text(addr)) by {
        reveal(ipv6_text);
    }
    let end = h.subrange(1, h.len() - 1);
    assert(end =~= addr);
    assert forall|i: int| 0 <= i < end.len() implies end[i] != '%' by {
        assert(end[i] == addr[i]);
        assert(addr[i] == ':' || p(addr[i]));
    }
    lemma_find_first_none(end, '%');
    assert(bracket_error(h) is None) by {
        reveal(bracket_error);
    }
    lemma_utf8_len_ge_len(h);
    assert(h[0] == '[');
    reveal(host_error);
}

/// What `join_with` writes from non-empty parts free of the separator never
/// holds two separators in a row, nor begins or ends with one.
proof fn lemma_join_no_double(parts: Seq<Seq<char>>, sep: char)
    requires
        parts.len() >= 1,
        forall|k: int| 0 <= k < parts.len() ==> #[trigger] parts[k].len() >= 1,
        forall|k: int, j: int| 0 <= k < parts.len() && 0 <= j < parts[k].len() ==> #[trigger] parts[k][j] != sep,
    ensures
        join_with(parts, sep).len() >= 1,
        join_with(parts, sep)[0] != sep,
        join_with(parts, sep).last() != sep,
        forall|i: int|
            0 <= i < join_with(parts, sep).len() - 1 ==> !(#[trigger] join_with(parts, sep)[i] == sep && join_with(
                parts,
                sep,
            )[i + 1] == sep),
    decreases parts.len(),
{
    let s = join_with(parts, sep);
    assert(parts[0][0] != sep);
    if parts.len() == 1 {
        assert(parts[0].last() != sep);
    } else {
        let rest = parts.drop_first();
        assert forall|k: int| 0 <= k < rest.len() implies #[trigger] rest[k].len() >= 1 by {
            assert(rest[k] == parts[k + 1]);
        }
        assert forall|k: int, j: int| 0 <= k < rest.len() && 0 <= j < rest[k].len() implies #[trigger] rest[k][j]
            != sep by {
            assert(rest[k] == parts[k + 1]);
        }
        lemma_join_no_double(rest, sep);
        let t = join_with(rest, sep);
        let n = parts[0].len() as int;
        assert(s == parts[0] + seq![sep] + t);
        assert(s.last() == t.last());
        assert forall|i: int| 0 <= i < s.len() - 1 implies !(#[trigger] s[i] == sep && s[i + 1] == sep) by {
            if i < n - 1 {
                assert(s[i] == parts[0][i]);
            } else if i == n - 1 {
                assert(s[i] == parts[0][n - 1]);
            } else if i == n {
                assert(s[i + 1] == t[0]);
            } else {
                assert(s[i] == t[i - n - 1]);
                assert(s[i + 1] == t[i - n]);
            }
        }
    }
}

/// The groups `join_with` writes from hex groups are read back as that many
/// groups.
proof fn lemma_group_list_of_join(groups: Seq<Seq<char>>, v4: bool)
    requires
        forall|k: int| 0 <= k < groups.len() ==> #[trigger] hex_group(groups[k]),
    ensures
        group_list(join_with(groups, ':'), v4) == Some(groups.len()),
{
    reveal(group_list);
    if groups.len() > 0 {
        assert forall|k: int| 0 <= k < groups.len() implies #[trigger] groups[k].len() >= 1 by {
            assert(hex_group(groups[k]));
        }
        assert forall|k: int, j: int| 0 <= k < groups.len() && 0 <= j < groups[k].len() implies #[trigger] groups[k][j]
            != ':' by {
            assert(hex_group(groups[k]));
            assert(is_hex(groups[k][j]));
        }
        lemma_join_no_double(groups, ':');
        lemma_split_join(groups, ':');
    }
}

/// A bracketed IPv6 address written with "::": hex groups (of one to four
/// digits) before and after a single "::", seven groups or fewer in all,
/// passes the host checks.
#[verifier::spinoff_prover]
#[verifier::rlimit(40)]
pub proof fn lemma_compressed_ipv6_host_accepted(left: Seq<Seq<char>>, right: Seq<Seq<char>>)
    requires
        left.len() + right.len() <= 7,
        forall|k: int| 0 <= k < left.len() ==> 1 <= #[trigger] left[k].len() <= 4,
        forall|k: int, j: int| 0 <= k < left.len() && 0 <= j < left[k].len() ==> is_hex(#[trigger] left[k][j]),
        forall|k: int| 0 <= k < right.len() ==> 1 <= #[trigger] right[k].len() <= 4,
        forall|k: int, j: int| 0 <= k < right.len() && 0 <= j < right[k].len() ==> is_hex(#[trigger] right[k][j]),
    ensures
        host_error(seq!['['] + join_with(left, ':') + seq![':', ':'] + join_with(right, ':') + seq![']']) is None,
{
    let l = join_with(left, ':');
    let r = join_with(right, ':');
    let addr = l + seq![':', ':'] + r;
    let h = seq!['['] + addr + seq![']'];
    assert(forall|k: int| 0 <= k < left.len() ==> #[trigger] hex_group(left[k]));
    assert(forall|k: int| 0 <= k < right.len() ==> #[trigger] hex_group(right[k]));
    lemma_group_list_of_join(left, false);
    lemma_group_list_of_join(right, true);
    let pl = |c: char| is_hex(c);
    assert forall|k: int, j: int| 0 <= k < left.len() && 0 <= j < left[k].len() implies pl(#[trigger] left[k][j]) by {
        assert(is_hex(left[k][j]));
    }
    assert forall|k: int, j: int| 0 <= k < right.len() && 0 <= j < right[k].len() implies pl(
        #[trigger] right[k][j],
    ) by {
        assert(is_hex(right[k][j]));
    }
    lemma_join_chars(left, ':', pl);
    lemma_join_chars(right, ':', pl);
    lemma_lens_bound(left, 4);
    lemma_lens_bound(right, 4);
    let n = l.len() as int;
    // The first "::" is the one written between the two halves.
    if left.len() > 0 {
        assert forall|k: int| 0 <= k < left.len() implies #[trigger] left[k].len() >= 1 by {
            assert(hex_group(left[k]));
        }
        assert forall|k: int, j: int| 0 <= k < left.len() && 0 <= j < left[k].len() implies #[trigger] left[k][j]
            != ':' by {
            assert(is_hex(left[k][j]));
        }
        lemma_join_no_double(left, ':');
    }
    assert(addr[n] == ':' && addr[n + 1] == ':');
    assert forall|k: int| 0 <= k < n implies !(#[trigger] addr[k] == ':' && addr[k + 1] == ':') by {
        assert(addr[k] == l[k]);
        if k < n - 1 {
            assert(addr[k + 1] == l[k + 1]);
        } else {
            assert(l[k] == l.last());
        }
    }
    let i = choose|i: int|
        0 <= i < addr.len() - 1 && #[trigger] addr[i] == ':' && addr[i + 1] == ':' && forall|k: int|
            0 <= k < i ==> !(#[trigger] addr[k] == ':' && addr[k + 1] == ':');
    assert(find_double_colon(addr) == Some(n)) by {
        assert(addr[n] == ':' && addr[n + 1] == ':');
        assert(0 <= n < addr.len() - 1);
        assert(i == n) by {
            if i < n {
                assert(!(addr[i] == ':' && addr[i + 1] == ':'));
            } else if i > n {
                assert(!(addr[n] == ':' && addr[n + 1] == ':'));
            }
        }
    }
    assert(addr.take(n) =~= l);
    assert(addr.skip(n + 2) =~= r);
    assert(ipv6_text(addr)) by {
        reveal(ipv6_text);
    }
    let end = h.subrange(1, h.len() - 1);
    assert(end =~= addr);
    assert forall|m: int| 0 <= m < end.len() implies end[m] != '%' by {
        assert(end[m] == addr[m]);
        if m < n {
            assert(addr[m] == l[m]);
            assert(l[m] == ':' || pl(l[m]));
        } else if m >= n + 2 {
            assert(addr[m] == r[m - n - 2]);
            assert(r[m - n - 2] == ':' || pl(r[m - n - 2]));
        }
    }
    lemma_find_first_none(end, '%');
    assert(bracket_error(h) is None) by {
        reveal(bracket_error);
    }
    lemma_utf8_len_ge_len(h);
    assert(h[0] == '[');
    assert(h == seq!['['] + join_with(left, ':') + seq![':', ':'] + join_with(right, ':') + seq![']']);
    reveal(host_error);
}

} // verus!
