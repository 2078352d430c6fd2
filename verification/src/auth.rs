//! Access control of the API: which requests pass, which are refused and
//! why, and when a token expires.
use vstd::prelude::*;
use crate::clock::now_secs;
use crate::text::{chars_of, matches_at_exec, seq_starts_with, str_starts_with, string_of, sub_chars};

verus! {

broadcast use vstd::string::group_string_axioms;

/// What a token states: who holds it and until when (Unix seconds).
#[derive(Debug)]
pub struct Claims {
    pub username: String,
    pub exp: i64,
}

/// The expiry (Unix seconds) of a token issued at `now` for `hours` hours.
pub fn token_expiry(now: i64, hours: i64) -> (r: i64)
    requires
        i64::MIN <= now + hours * 3600 <= i64::MAX,
    ensures
        r == now + hours * 3600,
{
    ((now as i128) + (hours as i128) * 3600) as i64
}

// ---------------------------------------------------------------------
// Tokens
// ---------------------------------------------------------------------

/// The token `jsonwebtoken::encode` makes for the claims `{"exp": exp,
/// "username": username}` with the default header (HS256) and the key
/// `secret`, or `None` when encoding fails.
pub uninterp spec fn spec_jwt_encode(username: Seq<char>, exp: i64, secret: Seq<char>) -> Option<Seq<char>>;

/// What a token states, read from its payload (the base64url JSON object
/// between its two dots): the text `username` and the integer `exp`, or
/// `None` when the token has no such payload.
pub uninterp spec fn spec_jwt_claims(token: Seq<char>) -> Option<(Seq<char>, i64)>;

/// `jsonwebtoken::encode` of the claims `username` and `exp` (as a
/// `serde_json::Map`) with `Header::default()` and
/// `EncodingKey::from_secret`: the result is named `spec_jwt_encode`, and
/// the token made states the claims it was made from.
#[verifier::external_body]
fn jwt_encode(username: &str, exp: i64, secret: &str) -> (r: Option<String>)
    ensures
        crate::model::opt_view(r) == spec_jwt_encode(username@, exp, secret@),
        r matches Some(t) ==> spec_jwt_claims(t@) == Some((username@, exp)),
{
    let mut m = serde_json::Map::new();
    m.insert("username".to_string(), serde_json::Value::from(username));
    m.insert("exp".to_string(), serde_json::Value::from(exp));
    let key = jsonwebtoken::EncodingKey::from_secret(secret.as_bytes());
    jsonwebtoken::encode(&jsonwebtoken::Header::default(), &m, &key).ok()
}

/// `jsonwebtoken::decode` into a `serde_json::Map` with
/// `DecodingKey::from_secret` and `Validation::default()`, then its
/// `username` text and `exp` integer. `jsonwebtoken` checks the signature
/// and, against its own reading of the clock, the expiry (60 seconds of
/// leeway), so nothing is named of which tokens pass; a token that passes
/// gives back what its payload states.
#[verifier::external_body]
fn jwt_decode(token: &str, secret: &str) -> (r: Option<(String, i64)>)
    ensures
        r matches Some((u, e)) ==> spec_jwt_claims(token@) == Some((u@, e)),
{
    let key = jsonwebtoken::DecodingKey::from_secret(secret.as_bytes());
    let data = jsonwebtoken::decode::<serde_json::Map<String, serde_json::Value>>(
        token,
        &key,
        &jsonwebtoken::Validation::default(),
    ).ok()?;
    let u = data.claims.get("username")?.as_str()?.to_string();
    Some((u, data.claims.get("exp")?.as_i64()?))
}

/// Issues a token for `username` at `now` (Unix seconds), valid for `hours`
/// hours: the token (see [`spec_jwt_encode`]) with its expiry, or `None`
/// when encoding fails. The token states `username` and that expiry.
pub fn issue_token(username: &str, secret: &str, now: i64, hours: i64) -> (r: Option<(String, i64)>)
    requires
        i64::MIN <= now + hours * 3600 <= i64::MAX,
    ensures
        match r {
            Some((t, e)) => e == now + hours * 3600 && spec_jwt_encode(username@, e, secret@) == Some(
                t@,
            ) && spec_jwt_claims(t@) == Some((username@, e)),
            None => spec_jwt_encode(username@, (now + hours * 3600) as i64, secret@) is None,
        },
{
    let exp = token_expiry(now, hours);
    match jwt_encode(username, exp, secret) {
        Some(t) => Some((t, exp)),
        None => None,
    }
}

/// Issues a token for `username`, valid for `expiry_hours` hours from the
/// current time (the issue time is `e - expiry_hours * 3600`, an `i64`):
/// see [`issue_token`]. `None` also when the expiry does not
/// fit in an `i64`.
pub fn generate_token(username: &str, secret: &str, expiry_hours: i64) -> (r: Option<(String, i64)>)
    ensures
        r matches Some((t, e)) ==> i64::MIN <= e - expiry_hours * 3600 <= i64::MAX && spec_jwt_encode(
            username@,
            e,
            secret@,
        ) == Some(t@) && spec_jwt_claims(t@) == Some((username@, e)),
{
    let now = now_secs();
    let expiry: i128 = (now as i128) + (expiry_hours as i128) * 3600;
    if expiry < i64::MIN as i128 || expiry > i64::MAX as i128 {
        return None;
    }
    issue_token(username, secret, now, expiry_hours)
}

/// The claims of a token as `jsonwebtoken` decoded them (see
/// [`jwt_decode`]): the user name and the expiry, when it accepted the
/// token.
pub fn claims_of(decoded: Option<(String, i64)>) -> (r: Option<Claims>)
    ensures
        match decoded {
            Some((u, e)) => r matches Some(c) && c.username@ == u@ && c.exp == e,
            None => r is None,
        },
{
    match decoded {
        Some((username, exp)) => Some(Claims { username, exp }),
        None => None,
    }
}

/// Validates a token signed with `secret`: its claims when `jsonwebtoken`
/// accepts its signature and expiry, `None` otherwise. Accepted claims are
/// what the token states.
pub fn validate_token(token: &str, secret: &str) -> (r: Option<Claims>)
    ensures
        r matches Some(c) ==> spec_jwt_claims(token@) == Some((c.username@, c.exp)),
{
    claims_of(jwt_decode(token, secret))
}

/// What the access check decides for a request.
#[derive(Debug)]
pub enum AuthDecision {
    /// The request goes on unchecked.
    Pass,
    /// The request is refused as unauthorized, with a message and a code.
    Reject { error: String, code: String },
    /// The request goes on if this bearer token is valid.
    Check { token: String },
}

/// The paths open without a token: login, logout and health.
pub open spec fn open_path(path: Seq<char>) -> bool {
    seq_starts_with(path, "/api/auth/login"@) || seq_starts_with(path, "/api/auth/logout"@)
        || seq_starts_with(path, "/api/health"@)
}

/// The decision for a request to `path` with the `Authorization` header
/// `header` (empty when absent or not text), when checking is `enabled`.
pub open spec fn auth_decision_of(enabled: bool, path: Seq<char>, header: Seq<char>) -> (
    int,
    Seq<char>,
    Seq<char>,
) {
    if !enabled || open_path(path) {
        (0, Seq::empty(), Seq::empty())
    } else if header.len() == 0 {
        (1, "未授权：缺少认证令牌"@, "AUTH_TOKEN_MISSING"@)
    } else if !seq_starts_with(header, "Bearer "@) {
        (1, "未授权：令牌格式错误"@, "AUTH_TOKEN_INVALID_FORMAT"@)
    } else {
        (2, header.skip(7), Seq::empty())
    }
}

/// The view of a decision: its kind (0 pass, 1 reject, 2 check) and its
/// texts.
pub open spec fn decision_view(d: AuthDecision) -> (int, Seq<char>, Seq<char>) {
    match d {
        AuthDecision::Pass => (0, Seq::empty(), Seq::empty()),
        AuthDecision::Reject { error, code } => (1, error@, code@),
        AuthDecision::Check { token } => (2, token@, Seq::empty()),
    }
}

/// Decides on a request (see [`auth_decision_of`]).
pub fn auth_gate(enabled: bool, path: &str, header: &str) -> (r: AuthDecision)
    ensures
        decision_view(r) == auth_decision_of(enabled, path@, header@),
{
    proof {
        reveal_strlit("Bearer ");
    }
    if !enabled || str_starts_with(path, "/api/auth/login") || str_starts_with(path, "/api/auth/logout")
        || str_starts_with(path, "/api/health") {
        return AuthDecision::Pass;
    }
    if header.is_empty() {
        return AuthDecision::Reject {
            error: "未授权：缺少认证令牌".to_owned(),
            code: "AUTH_TOKEN_MISSING".to_owned(),
        };
    }
    if !str_starts_with(header, "Bearer ") {
        return AuthDecision::Reject {
            error: "未授权：令牌格式错误".to_owned(),
            code: "AUTH_TOKEN_INVALID_FORMAT".to_owned(),
        };
    }
    let hv = chars_of(header);
    let t = sub_chars(hv.as_slice(), 7, hv.len());
    assert(t@ =~= header@.skip(7));
    AuthDecision::Check { token: string_of(t.as_slice()) }
}

/// The refusal for a token that is invalid or has expired: message and code.
pub fn invalid_token_rejection() -> (r: AuthDecision)
    ensures
        decision_view(r) == (1int, "未授权：令牌无效或已过期"@, "AUTH_TOKEN_INVALID"@),
{
    AuthDecision::Reject {
        error: "未授权：令牌无效或已过期".to_owned(),
        code: "AUTH_TOKEN_INVALID".to_owned(),
    }
}

} // verus!
