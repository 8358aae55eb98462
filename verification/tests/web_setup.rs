use ciri::web_setup::{
    choose_web_token, hex_token, origin_problem, ports_clash, resolve_web_bind, web_server_args, web_url,
    OriginProblem, WebToken,
};

#[test]
fn token_precedence() {
    assert_eq!(choose_web_token(Some("  abc "), Some("env"), "cfg", true), WebToken::Flag("abc".into()));
    assert_eq!(choose_web_token(Some("   "), Some(" env "), "cfg", true), WebToken::Env("env".into()));
    assert_eq!(choose_web_token(None, Some(""), " cfg ", true), WebToken::Configured("cfg".into()));
    assert_eq!(choose_web_token(None, None, "cfg", false), WebToken::Generate);
}

#[test]
fn tokens_are_lower_hex() {
    assert_eq!(hex_token(&[0x0f, 0xa0, 0x00, 0xff]), "0fa000ff");
    assert_eq!(hex_token(&[0u8; 16]).len(), 32);
    assert_eq!(hex_token(&[]), "");
}

#[test]
fn bind_and_origin_checks() {
    assert_eq!(resolve_web_bind(Some("0.0.0.0".into()), "10.0.0.1"), "0.0.0.0");
    assert_eq!(resolve_web_bind(None, "10.0.0.1"), "10.0.0.1");
    assert_eq!(resolve_web_bind(None, ""), "127.0.0.1");
    assert_eq!(origin_problem(false, &vec![]), Some(OriginProblem::OpenBindWithoutAllowlist));
    assert_eq!(origin_problem(true, &vec![]), None);
    assert_eq!(origin_problem(true, &vec!["null".into()]), Some(OriginProblem::OnlyNullOrigin));
    assert_eq!(origin_problem(false, &vec!["null".into(), "https://x".into()]), None);
    assert!(ports_clash(true, 7891, 7891));
    assert!(!ports_clash(false, 7891, 7891));
    assert!(!ports_clash(true, 7890, 7891));
}

#[test]
fn url_prefers_allowlisted_origin() {
    assert_eq!(web_url(&vec!["null".into(), "http://localhost:7891//".into()], "0.0.0.0", 7891), "http://localhost:7891/");
    assert_eq!(web_url(&vec![], "0.0.0.0", 7891), "http://127.0.0.1:7891/");
    assert_eq!(web_url(&vec!["null".into()], "::", 80), "http://[::1]:80/");
    assert_eq!(web_url(&vec![], "fe80::1", 7891), "http://[fe80::1]:7891/");
    assert_eq!(web_url(&vec![], "[::1]", 7891), "http://[::1]:7891/");
    assert_eq!(web_url(&vec![], "192.168.1.5", 7891), "http://192.168.1.5:7891/");
}

#[test]
fn server_command_line() {
    assert_eq!(
        web_server_args(7891, "127.0.0.1", None),
        vec!["--headless", "--web", "--web-port", "7891", "--web-bind", "127.0.0.1"]
    );
    assert_eq!(
        web_server_args(80, "::", Some("/srv/web")),
        vec!["--headless", "--web", "--web-port", "80", "--web-bind", "::", "--web-static-dir", "/srv/web"]
    );
}
