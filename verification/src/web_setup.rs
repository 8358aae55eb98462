//! The decisions of `ciritty web`: which auth token to use, the listen
//! address, whether the origin policy can work, the URL to open, and the
//! server's command line.

use vstd::prelude::*;
use crate::labels::{decimal, digit_char};
use crate::text::{chars_of, string_of, trim, trim_chars};

verus! {

/// Where the web token comes from.
#[derive(Debug, Clone, PartialEq, Eq)]
pub enum WebToken {
    /// `--token`, trimmed (it stays visible in process listings).
    Flag(String),
    /// `CIRITTY_WEB_TOKEN`, trimmed.
    Env(String),
    /// The usable token already in the configuration, trimmed.
    Configured(String),
    /// None of these: mint a fresh one.
    Generate,
}

/// The token, by precedence: a non-blank `--token`, else a non-blank
/// `CIRITTY_WEB_TOKEN`, else the configured token if it is usable, else a
/// fresh one; each trimmed.
pub open spec fn web_token_spec(flag: Option<Seq<char>>, env: Option<Seq<char>>, configured: Seq<char>, configured_usable: bool) -> (u8, Seq<char>) {
    if flag is Some && trim(flag->0).len() > 0 {
        (0, trim(flag->0))
    } else if env is Some && trim(env->0).len() > 0 {
        (1, trim(env->0))
    } else if configured_usable {
        (2, trim(configured))
    } else {
        (3, Seq::empty())
    }
}

pub open spec fn web_token_view(t: WebToken) -> (u8, Seq<char>) {
    match t {
        WebToken::Flag(s) => (0, s@),
        WebToken::Env(s) => (1, s@),
        WebToken::Configured(s) => (2, s@),
        WebToken::Generate => (3, Seq::empty()),
    }
}

pub open spec fn opt_view(o: Option<&str>) -> Option<Seq<char>> {
    match o {
        Some(s) => Some(s@),
        None => None,
    }
}

fn trimmed(s: &str) -> (r: Vec<char>)
    ensures
        r@ == trim(s@),
{
    let v = chars_of(s);
    trim_chars(&v)
}

/// Which token `ciritty web` uses (see [`web_token_spec`]);
/// `configured_usable` says whether the configured token passes the
/// configuration's usability check.
pub fn choose_web_token(flag: Option<&str>, env: Option<&str>, configured: &str, configured_usable: bool) -> (r: WebToken)
    ensures
        web_token_view(r) == web_token_spec(opt_view(flag), opt_view(env), configured@, configured_usable),
{
    if let Some(f) = flag {
        let t = trimmed(f);
        if t.len() > 0 {
            return WebToken::Flag(string_of(&t));
        }
    }
    if let Some(e) = env {
        let t = trimmed(e);
        if t.len() > 0 {
            return WebToken::Env(string_of(&t));
        }
    }
    if configured_usable {
        WebToken::Configured(string_of(&trimmed(configured)))
    } else {
        WebToken::Generate
    }
}

/// The lower-case hexadecimal digit for `n < 16`.
pub open spec fn hex_digit(n: nat) -> char {
    if n < 10 {
        ((48 + n) as u8) as char
    } else {
        ((87 + n) as u8) as char
    }
}

/// `bytes` in lower-case hexadecimal, two digits per byte.
pub open spec fn hex_spec(bytes: Seq<u8>) -> Seq<char>
    decreases bytes.len(),
{
    if bytes.len() == 0 {
        Seq::empty()
    } else {
        hex_spec(bytes.drop_last()) + seq![
            hex_digit((bytes.last() / 16) as nat),
            hex_digit((bytes.last() % 16) as nat),
        ]
    }
}

fn hex_char(n: u8) -> (r: char)
    requires
        n < 16,
    ensures
        r == hex_digit(n as nat),
{
    if n < 10 {
        (48 + n) as char
    } else {
        (87 + n) as char
    }
}

/// A token from random bytes: their lower-case hexadecimal digits.
pub fn hex_token(bytes: &[u8]) -> (r: String)
    ensures
        r@ == hex_spec(bytes@),
        r@.len() == 2 * bytes@.len(),
{
    let mut out: Vec<char> = Vec::new();
    let mut i: usize = 0;
    while i < bytes.len()
        invariant
            i <= bytes@.len(),
            out@ == hex_spec(bytes@.take(i as int)),
            out@.len() == 2 * i,
        decreases bytes@.len() - i,
    {
        let b = bytes[i];
        out.push(hex_char(b / 16));
        out.push(hex_char(b % 16));
        proof {
            assert(bytes@.take(i + 1).drop_last() =~= bytes@.take(i as int));
        }
        i = i + 1;
    }
    proof {
        assert(bytes@.take(bytes@.len() as int) =~= bytes@);
    }
    string_of(&out)
}

/// The listen address: `--bind`, else the configured one, else loopback.
pub fn resolve_web_bind(flag: Option<String>, configured: &str) -> (r: String)
    ensures
        r@ == match flag {
            Some(b) => b@,
            None => if configured@.len() == 0 {
                "127.0.0.1"@
            } else {
                configured@
            },
        },
{
    match flag {
        Some(b) => b,
        None => {
            let c = chars_of(configured);
            if c.len() == 0 {
                "127.0.0.1".to_owned()
            } else {
                string_of(&c)
            }
        },
    }
}

/// Why the origin policy cannot work for the self-hosted page.
#[derive(Debug, Clone, Copy, PartialEq, Eq, Structural)]
pub enum OriginProblem {
    /// A non-loopback bind with no origin allowlist (the server refuses it).
    OpenBindWithoutAllowlist,
    /// The allowlist holds only `"null"`, which no http(s) page sends.
    OnlyNullOrigin,
}

pub open spec fn is_null_origin(o: Seq<char>) -> bool {
    o == "null"@
}

pub open spec fn origin_problem_spec(loopback: bool, origins: Seq<Seq<char>>) -> Option<OriginProblem> {
    if !loopback && origins.len() == 0 {
        Some(OriginProblem::OpenBindWithoutAllowlist)
    } else if origins.len() > 0 && forall|i: int| 0 <= i < origins.len() ==> is_null_origin(#[trigger] origins[i]) {
        Some(OriginProblem::OnlyNullOrigin)
    } else {
        None
    }
}

pub open spec fn strs_of(v: Seq<String>) -> Seq<Seq<char>> {
    v.map_values(|s: String| s@)
}

fn is_null(s: &String) -> (r: bool)
    ensures
        r == is_null_origin(s@),
{
    let v = chars_of(s.as_str());
    let n = chars_of("null");
    proof {
        reveal_strlit("null");
    }
    if v.len() != 4 {
        proof {
            assert(v@.len() != "null"@.len());
        }
        return false;
    }
    let r = v[0] == 'n' && v[1] == 'u' && v[2] == 'l' && v[3] == 'l';
    proof {
        if r {
            assert(v@ =~= "null"@);
        } else {
            assert(v@ != "null"@) by {
                if v@ == "null"@ {
                    assert(v@[0] == 'n' && v@[1] == 'u' && v@[2] == 'l' && v@[3] == 'l');
                }
            }
        }
    }
    r
}

/// Whether the origin settings keep the web page from logging in; `loopback`
/// says whether the listen address is a loopback address (or no IP).
pub fn origin_problem(loopback: bool, origins: &Vec<String>) -> (r: Option<OriginProblem>)
    ensures
        r == origin_problem_spec(loopback, strs_of(origins@)),
{
    if !loopback && origins.len() == 0 {
        return Some(OriginProblem::OpenBindWithoutAllowlist);
    }
    if origins.len() == 0 {
        return None;
    }
    let mut i: usize = 0;
    while i < origins.len()
        invariant
            i <= origins@.len(),
            forall|k: int| 0 <= k < i ==> is_null_origin(#[trigger] strs_of(origins@)[k]),
        decreases origins@.len() - i,
    {
        if !is_null(&origins[i]) {
            proof {
                assert(!is_null_origin(strs_of(origins@)[i as int]));
            }
            return None;
        }
        i = i + 1;
    }
    Some(OriginProblem::OnlyNullOrigin)
}

/// `s` without trailing `/` characters.
pub open spec fn strip_slashes(s: Seq<char>) -> Seq<char>
    decreases s.len(),
{
    if s.len() > 0 && s.last() == '/' {
        strip_slashes(s.drop_last())
    } else {
        s
    }
}

/// The first origin that is not `"null"`, from index `i` on.
pub open spec fn first_real_origin(origins: Seq<Seq<char>>, i: int) -> Option<Seq<char>>
    decreases origins.len() - i,
{
    if i < 0 || i >= origins.len() {
        None
    } else if !is_null_origin(origins[i]) {
        Some(origins[i])
    } else {
        first_real_origin(origins, i + 1)
    }
}

/// How the listen address appears in a URL: wildcards as loopback, IPv6
/// literals in brackets.
pub open spec fn display_host(bind: Seq<char>) -> Seq<char> {
    if bind == "0.0.0.0"@ {
        "127.0.0.1"@
    } else if bind == "::"@ {
        "[::1]"@
    } else if bind.contains(':') && !(bind.len() > 0 && bind[0] == '[') {
        "["@ + bind + "]"@
    } else {
        bind
    }
}

/// The URL to open: the first real allowlisted origin (the server admits
/// only exact origins), else one made from the listen address.
pub open spec fn web_url_spec(origins: Seq<Seq<char>>, bind: Seq<char>, port: u16) -> Seq<char> {
    match first_real_origin(origins, 0) {
        Some(o) => strip_slashes(o) + "/"@,
        None => "http://"@ + display_host(bind) + ":"@ + decimal(port as nat) + "/"@,
    }
}

fn eq_lit(a: &Vec<char>, lit: &str) -> (r: bool)
    ensures
        r == (a@ == lit@),
{
    let b = chars_of(lit);
    if a.len() != b.len() {
        return false;
    }
    let mut i: usize = 0;
    while i < a.len()
        invariant
            a@.len() == b@.len(),
            b@ == lit@,
            i <= a@.len(),
            forall|k: int| 0 <= k < i ==> a@[k] == b@[k],
        decreases a@.len() - i,
    {
        if a[i] != b[i] {
            return false;
        }
        i = i + 1;
    }
    proof {
        assert(a@ =~= b@);
    }
    true
}

fn decimal_u16(n: u16) -> (r: Vec<char>)
    ensures
        r@ == decimal(n as nat),
    decreases n,
{
    let d = n % 10;
    let c = ((48 + d) as u8) as char;
    proof {
        assert(c == digit_char((n % 10) as nat));
    }
    if n < 10 {
        let mut v: Vec<char> = Vec::new();
        v.push(c);
        v
    } else {
        let mut v = decimal_u16(n / 10);
        v.push(c);
        v
    }
}

fn host_for_url(bind: &str) -> (r: Vec<char>)
    ensures
        r@ == display_host(bind@),
{
    let b = chars_of(bind);
    if eq_lit(&b, "0.0.0.0") {
        return chars_of("127.0.0.1");
    }
    if eq_lit(&b, "::") {
        return chars_of("[::1]");
    }
    let mut has_colon = false;
    let mut i: usize = 0;
    while i < b.len()
        invariant
            i <= b@.len(),
            has_colon == (exists|k: int| 0 <= k < i && b@[k] == ':'),
        decreases b@.len() - i,
    {
        if b[i] == ':' {
            has_colon = true;
        }
        i = i + 1;
    }
    proof {
        assert(has_colon == b@.contains(':'));
    }
    if has_colon && !(b.len() > 0 && b[0] == '[') {
        let mut out = chars_of("[");
        let mut bb = b;
        out.append(&mut bb);
        let mut close = chars_of("]");
        out.append(&mut close);
        out
    } else {
        b
    }
}

/// The URL to open (see [`web_url_spec`]).
pub fn web_url(origins: &Vec<String>, bind: &str, port: u16) -> (r: String)
    ensures
        r@ == web_url_spec(strs_of(origins@), bind@, port),
{
    let ghost ov = strs_of(origins@);
    let mut i: usize = 0;
    while i < origins.len()
        invariant
            i <= origins@.len(),
            ov == strs_of(origins@),
            first_real_origin(ov, i as int) == first_real_origin(ov, 0),
        decreases origins@.len() - i,
    {
        if !is_null(&origins[i]) {
            let mut o = chars_of(origins[i].as_str());
            let ghost full = o@;
            proof {
                assert(full == ov[i as int]);
                assert(!is_null_origin(ov[i as int]));
            }
            while o.len() > 0 && o[o.len() - 1] == '/'
                invariant
                    strip_slashes(o@) == strip_slashes(full),
                decreases o@.len(),
            {
                let ghost prev = o@;
                o.pop();
                proof {
                    assert(o@ =~= prev.drop_last());
                }
            }
            proof {
                assert(strip_slashes(o@) == o@);
            }
            let mut slash = chars_of("/");
            o.append(&mut slash);
            return string_of(&o);
        }
        i = i + 1;
    }
    let mut out = chars_of("http://");
    let mut host = host_for_url(bind);
    out.append(&mut host);
    let mut colon = chars_of(":");
    out.append(&mut colon);
    let mut digits = decimal_u16(port);
    out.append(&mut digits);
    let mut slash = chars_of("/");
    out.append(&mut slash);
    proof {
        assert(out@ =~= web_url_spec(ov, bind@, port));
    }
    string_of(&out)
}

/// The server's command line for serving the web UI (the token stays in
/// the configuration, off the command line).
pub open spec fn server_args_spec(port: u16, bind: Seq<char>, static_dir: Option<Seq<char>>) -> Seq<Seq<char>> {
    seq!["--headless"@, "--web"@, "--web-port"@, decimal(port as nat), "--web-bind"@, bind] + match static_dir {
        Some(d) => seq!["--web-static-dir"@, d],
        None => Seq::empty(),
    }
}

pub fn web_server_args(port: u16, bind: &str, static_dir: Option<&str>) -> (r: Vec<String>)
    ensures
        strs_of(r@) == server_args_spec(port, bind@, opt_view(static_dir)),
{
    let mut args: Vec<String> = vec![
        "--headless".to_owned(),
        "--web".to_owned(),
        "--web-port".to_owned(),
        string_of(&decimal_u16(port)),
        "--web-bind".to_owned(),
        bind.to_owned(),
    ];
    if let Some(d) = static_dir {
        args.push("--web-static-dir".to_owned());
        args.push(d.to_owned());
    }
    proof {
        assert(strs_of(args@) =~= server_args_spec(port, bind@, opt_view(static_dir)));
    }
    args
}

/// The remote gateway and the web UI cannot share a port.
pub fn ports_clash(remote_enabled: bool, remote_port: u16, web_port: u16) -> (r: bool)
    ensures
        r == (remote_enabled && remote_port == web_port),
{
    remote_enabled && remote_port == web_port
}

} // verus!
