//! OAuth tokens of the two coding CLIs whose usage is shown: what the credential files
//! hold, and the ChatGPT account id carried in Codex's id token.

use base64::Engine;
use vstd::prelude::*;
use crate::text::{chars_of, split_from, split_items, string_of};
use crate::keymap::chars_eq;

verus! {

/// The `claudeAiOauth` section of the first CLI's credentials.
pub struct ClaudeOauth {
    pub access_token: String,
}

/// The first CLI's `.credentials.json` (or Keychain blob), as parsed.
pub struct ClaudeCredentialsFile {
    pub claude_ai_oauth: Option<ClaudeOauth>,
}

/// The `tokens` section of `~/.codex/auth.json`.
pub struct CodexTokens {
    pub access_token: String,
    pub id_token: Option<String>,
}

/// `~/.codex/auth.json`, as parsed.
pub struct CodexAuthFile {
    pub tokens: Option<CodexTokens>,
}

#[derive(Debug, Clone)]
pub struct ClaudeTokens {
    pub access_token: String,
}

#[derive(Debug, Clone)]
pub struct CodexTokenSet {
    pub access_token: String,
    pub chatgpt_account_id: Option<String>,
}

/// Why no token could be had from a parsed credentials file.
#[derive(Debug, Clone, Copy, PartialEq, Eq, Structural)]
pub enum TokenError {
    /// The credentials have no `claudeAiOauth` section.
    NoOauthSection,
    /// Codex's auth file has no `tokens` section (API-key mode).
    NoTokensSection,
}

/// The message shown for a token error.
pub open spec fn token_error_message(e: TokenError) -> Seq<char> {
    match e {
        TokenError::NoOauthSection => "no claudeAiOauth section in credentials"@,
        TokenError::NoTokensSection => "no tokens section in ~/.codex/auth.json (api-key mode?)"@,
    }
}

impl TokenError {
    /// The message shown for the error.
    pub fn message(&self) -> (r: &'static str)
        ensures
            r@ == token_error_message(*self),
    {
        match self {
            TokenError::NoOauthSection => "no claudeAiOauth section in credentials",
            TokenError::NoTokensSection => "no tokens section in ~/.codex/auth.json (api-key mode?)",
        }
    }
}

/// The bytes that URL-safe base64 without padding decodes `text` to, or
/// `None` where it is not such base64 (`base64`'s `URL_SAFE_NO_PAD`).
pub uninterp spec fn url_safe_no_pad_decoded(text: Seq<char>) -> Option<Seq<u8>>;

/// `base64::engine::general_purpose::URL_SAFE_NO_PAD.decode`, failures as
/// `None`.
#[verifier::external_body]
fn decode_url_safe_no_pad(text: &str) -> (r: Option<Vec<u8>>)
    ensures
        match r {
            None => url_safe_no_pad_decoded(text@) is None,
            Some(b) => url_safe_no_pad_decoded(text@) == Some(b@),
        },
{
    base64::engine::general_purpose::URL_SAFE_NO_PAD.decode(text).ok()
}

/// A JSON document as plain values, node for node as `serde_json` reads it.
#[derive(Debug)]
pub enum JsonValue {
    Null,
    Bool(bool),
    /// A number, as `serde_json` prints it.
    Number(String),
    Str(String),
    Array(Vec<JsonValue>),
    /// The members, each key once, in the order `serde_json`'s map keeps.
    Object(Vec<(String, JsonValue)>),
}

/// The first member of `entries`, from index `i` on, whose key is `key`.
pub open spec fn member_from(entries: Seq<(String, JsonValue)>, key: Seq<char>, i: int) -> Option<JsonValue>
    decreases entries.len() - i,
{
    if i < 0 || i >= entries.len() {
        None
    } else if entries[i].0@ == key {
        Some(entries[i].1)
    } else {
        member_from(entries, key, i + 1)
    }
}

/// The member `key` of `v` (`serde_json::Value::get` with a string key):
/// `None` where `v` is no object or has no such member.
pub open spec fn json_member(v: JsonValue, key: Seq<char>) -> Option<JsonValue> {
    match v {
        JsonValue::Object(entries) => member_from(entries@, key, 0),
        _ => None,
    }
}

impl JsonValue {
    /// The member `key` of this value, where it is an object that has one.
    pub fn get(&self, key: &str) -> (r: Option<&JsonValue>)
        ensures
            match r {
                None => json_member(*self, key@) is None,
                Some(m) => json_member(*self, key@) == Some(*m),
            },
    {
        match self {
            JsonValue::Object(entries) => {
                let k = chars_of(key);
                let mut i: usize = 0;
                while i < entries.len()
                    invariant
                        i <= entries@.len(),
                        k@ == key@,
                        json_member(*self, key@) == member_from(entries@, key@, 0),
                        member_from(entries@, key@, i as int) == member_from(entries@, key@, 0),
                    decreases entries@.len() - i,
                {
                    let name = chars_of(entries[i].0.as_str());
                    if chars_eq(&name, &k) {
                        proof {
                            assert(entries@[i as int].0@ == key@);
                            assert(member_from(entries@, key@, i as int) == Some(entries@[i as int].1));
                        }
                        return Some(&entries[i].1);
                    }
                    i = i + 1;
                }
                None
            },
            _ => None,
        }
    }

    /// The text of this value, where it is a JSON string
    /// (`serde_json::Value::as_str`).
    pub fn as_str(&self) -> (r: Option<&String>)
        ensures
            match r {
                None => !(*self is Str),
                Some(t) => *self == JsonValue::Str(*t),
            },
    {
        match self {
            JsonValue::Str(t) => Some(t),
            _ => None,
        }
    }
}

/// `serde_json::Value` made known to Verus as an opaque type, so that the
/// tree `serde_json` builds can be copied into a `JsonValue`.
#[verifier::external_type_specification]
#[verifier::external_body]
pub struct ExJsonValue(serde_json::Value);

/// The document `serde_json` reads `bytes` as
/// (`serde_json::from_slice::<serde_json::Value>`), copied node for node
/// into a `JsonValue`, or `None` where the bytes are no JSON document.
pub uninterp spec fn json_parsed(bytes: Seq<u8>) -> Option<JsonValue>;

/// `serde_json::from_slice::<serde_json::Value>`, the tree copied into a
/// `JsonValue`; failures as `None`.
#[verifier::external_body]
fn parse_json(bytes: &Vec<u8>) -> (r: Option<JsonValue>)
    ensures
        r == json_parsed(bytes@),
{
    serde_json::from_slice::<serde_json::Value>(bytes).ok().map(|v| json_tree(&v))
}

/// A `serde_json::Value` copied node for node into a `JsonValue` (numbers
/// as `serde_json` prints them, object members in the map's order); the
/// copy `parse_json` makes, whose contract states the result.
#[verifier::external_body]
fn json_tree(v: &serde_json::Value) -> JsonValue {
    match v {
        serde_json::Value::Null => JsonValue::Null,
        serde_json::Value::Bool(b) => JsonValue::Bool(*b),
        serde_json::Value::Number(n) => JsonValue::Number(n.to_string()),
        serde_json::Value::String(t) => JsonValue::Str(t.clone()),
        serde_json::Value::Array(a) => JsonValue::Array(a.iter().map(json_tree).collect()),
        serde_json::Value::Object(m) => JsonValue::Object(m.iter().map(|(k, x)| (k.clone(), json_tree(x))).collect()),
    }
}

/// The access token of parsed `claudeAiOauth` credentials.
pub fn claude_tokens_from(parsed: ClaudeCredentialsFile) -> (r: Result<ClaudeTokens, TokenError>)
    ensures
        match parsed.claude_ai_oauth {
            None => r == Err::<ClaudeTokens, TokenError>(TokenError::NoOauthSection),
            Some(o) => r matches Ok(t) && t.access_token@ == o.access_token@,
        },
{
    match parsed.claude_ai_oauth {
        None => Err(TokenError::NoOauthSection),
        Some(oauth) => Ok(ClaudeTokens { access_token: oauth.access_token }),
    }
}

/// The tokens of a parsed Codex auth file: the access token, and the
/// account id read from the id token where there is one.
pub fn codex_tokens_from(parsed: CodexAuthFile) -> (r: Result<CodexTokenSet, TokenError>)
    ensures
        match parsed.tokens {
            None => r == Err::<CodexTokenSet, TokenError>(TokenError::NoTokensSection),
            Some(t) => r matches Ok(set) && set.access_token@ == t.access_token@
                && opt_string_view(set.chatgpt_account_id) == match t.id_token {
                    None => None,
                    Some(jwt) => account_id_spec(jwt@),
                },
        },
{
    match parsed.tokens {
        None => Err(TokenError::NoTokensSection),
        Some(tokens) => {
            let chatgpt_account_id = match &tokens.id_token {
                None => None,
                Some(jwt) => extract_chatgpt_account_id(jwt.as_str()),
            };
            Ok(CodexTokenSet { access_token: tokens.access_token, chatgpt_account_id })
        },
    }
}

/// The claim that holds the ChatGPT account id.
pub open spec fn auth_claim() -> Seq<char> {
    "https://api.openai.com/auth"@
}

/// The account id member of that claim.
pub open spec fn account_id_member() -> Seq<char> {
    "chatgpt_account_id"@
}

/// The account id a JWT carries: its payload (second `.`-separated
/// segment) decoded from URL-safe base64 and read as JSON, then the string
/// `chatgpt_account_id` of the `https://api.openai.com/auth` claim; `None`
/// where any step finds nothing.
pub open spec fn account_id_spec(jwt: Seq<char>) -> Option<Seq<char>> {
    let parts = split_items(jwt, '.');
    if parts.len() < 2 {
        None
    } else {
        match url_safe_no_pad_decoded(parts[1]) {
            None => None,
            Some(payload) => match json_parsed(payload) {
                None => None,
                Some(doc) => match json_member(doc, auth_claim()) {
                    None => None,
                    Some(auth) => match json_member(auth, account_id_member()) {
                        Some(JsonValue::Str(id)) => Some(id@),
                        _ => None,
                    },
                },
            },
        }
    }
}

pub open spec fn opt_string_view(o: Option<String>) -> Option<Seq<char>> {
    match o {
        Some(s) => Some(s@),
        None => None,
    }
}

/// The `chatgpt_account_id` member of the `https://api.openai.com/auth`
/// claim in the payload (second `.`-separated segment) of a JWT; `None`
/// wherever something is missing or fails to decode.
pub fn extract_chatgpt_account_id(jwt: &str) -> (r: Option<String>)
    ensures
        opt_string_view(r) == account_id_spec(jwt@),
{
    let chars = chars_of(jwt);
    let parts = split_from(&chars, 0, '.');
    proof {
        assert(chars@.skip(0) =~= chars@);
    }
    if parts.len() < 2 {
        return None;
    }
    let payload_b64 = string_of(&parts[1]);
    let payload = match decode_url_safe_no_pad(payload_b64.as_str()) {
        None => {
            return None;
        },
        Some(p) => p,
    };
    let doc = match parse_json(&payload) {
        None => {
            return None;
        },
        Some(v) => v,
    };
    let auth = match doc.get("https://api.openai.com/auth") {
        None => {
            return None;
        },
        Some(v) => v,
    };
    let id = match auth.get("chatgpt_account_id") {
        None => {
            return None;
        },
        Some(v) => v,
    };
    match id.as_str() {
        None => None,
        Some(t) => Some(t.clone()),
    }
}

} // verus!
