use base64::Engine;
use ciri::tokens::{
    claude_tokens_from, codex_tokens_from, extract_chatgpt_account_id, ClaudeCredentialsFile, ClaudeOauth,
    CodexAuthFile, CodexTokens, JsonValue, TokenError,
};

#[test]
fn parses_claude_credentials_blob() {
    let parsed = ClaudeCredentialsFile {
        claude_ai_oauth: Some(ClaudeOauth { access_token: "sk-ant-oat01-foo".into() }),
    };
    let tokens = claude_tokens_from(parsed).unwrap();
    assert_eq!(tokens.access_token, "sk-ant-oat01-foo");
}

#[test]
fn rejects_claude_credentials_without_oauth_section() {
    let parsed = ClaudeCredentialsFile { claude_ai_oauth: None };
    assert_eq!(claude_tokens_from(parsed).unwrap_err(), TokenError::NoOauthSection);
}

#[test]
fn extract_account_id_handles_missing_claim_gracefully() {
    let payload = base64::engine::general_purpose::URL_SAFE_NO_PAD.encode(br#"{"sub":"u1"}"#);
    let jwt = format!("h.{payload}.s");
    assert_eq!(extract_chatgpt_account_id(&jwt), None);
}

#[test]
fn extract_account_id_decodes_claim() {
    let payload = base64::engine::general_purpose::URL_SAFE_NO_PAD
        .encode(br#"{"https://api.openai.com/auth":{"chatgpt_account_id":"acc-42"}}"#);
    let jwt = format!("h.{payload}.s");
    assert_eq!(extract_chatgpt_account_id(&jwt).as_deref(), Some("acc-42"));
}

#[test]
fn extract_account_id_needs_a_decodable_payload() {
    assert_eq!(extract_chatgpt_account_id("no-dots"), None);
    assert_eq!(extract_chatgpt_account_id("h.***.s"), None);
    // The raw claim JSON is not base64 and is not taken as it is.
    assert_eq!(
        extract_chatgpt_account_id(r#"h.{"https://api.openai.com/auth":{"chatgpt_account_id":"x"}}.s"#),
        None
    );
}

#[test]
fn codex_tokens_carry_account_id() {
    let payload = base64::engine::general_purpose::URL_SAFE_NO_PAD
        .encode(br#"{"https://api.openai.com/auth":{"chatgpt_account_id":"acc-7"}}"#);
    let parsed = CodexAuthFile {
        tokens: Some(CodexTokens { access_token: "at".into(), id_token: Some(format!("h.{payload}.s")) }),
    };
    let set = codex_tokens_from(parsed).unwrap();
    assert_eq!(set.access_token, "at");
    assert_eq!(set.chatgpt_account_id.as_deref(), Some("acc-7"));
    let parsed = CodexAuthFile { tokens: Some(CodexTokens { access_token: "at".into(), id_token: None }) };
    assert_eq!(codex_tokens_from(parsed).unwrap().chatgpt_account_id, None);
    assert_eq!(codex_tokens_from(CodexAuthFile { tokens: None }).unwrap_err(), TokenError::NoTokensSection);
    assert_eq!(TokenError::NoOauthSection.message(), "no claudeAiOauth section in credentials");
}

#[test]
fn extract_account_id_needs_a_json_payload() {
    let payload = base64::engine::general_purpose::URL_SAFE_NO_PAD.encode(b"not json {");
    assert_eq!(extract_chatgpt_account_id(&format!("h.{payload}.s")), None);
    // A JSON claim that is not a string gives no id either.
    let payload = base64::engine::general_purpose::URL_SAFE_NO_PAD
        .encode(br#"{"https://api.openai.com/auth":{"chatgpt_account_id":42}}"#);
    assert_eq!(extract_chatgpt_account_id(&format!("h.{payload}.s")), None);
}

#[test]
fn json_value_member_and_text() {
    let doc = JsonValue::Object(vec![
        ("a".to_string(), JsonValue::Str("x".to_string())),
        ("b".to_string(), JsonValue::Number("42".to_string())),
    ]);
    assert!(matches!(doc.get("a"), Some(JsonValue::Str(s)) if s == "x"));
    assert!(matches!(doc.get("b").and_then(|v| v.as_str()), None));
    assert!(doc.get("c").is_none());
    assert!(JsonValue::Null.get("a").is_none());
    assert_eq!(JsonValue::Str("y".to_string()).as_str().map(String::as_str), Some("y"));
}

#[test]
fn extract_account_id_reads_the_nested_claim_only() {
    // The id at the top level, outside the claim, is not taken.
    let payload = base64::engine::general_purpose::URL_SAFE_NO_PAD
        .encode(br#"{"chatgpt_account_id":"top","https://api.openai.com/auth":{"other":"x"}}"#);
    assert_eq!(extract_chatgpt_account_id(&format!("h.{payload}.s")), None);
    let payload = base64::engine::general_purpose::URL_SAFE_NO_PAD
        .encode(br#"{"z":1,"https://api.openai.com/auth":{"a":[1,2],"chatgpt_account_id":"acc-9"}}"#);
    assert_eq!(extract_chatgpt_account_id(&format!("h.{payload}.s")).as_deref(), Some("acc-9"));
}
