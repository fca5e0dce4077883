//! Microsoft identity sign-in (OAuth 2.0 device authorization grant,
//! RFC 8628) and token lifecycle: the scope set, the endpoints derived from
//! the configured authority, and the session rules. The network exchange
//! and the keychain are the shell's work; refresh tokens never touch the
//! webview, and only non-secret account metadata is written to disk.
use vstd::prelude::*;
use crate::config::AppConfig;
use crate::graph::{GraphError, Me};
use crate::text::{append_chars, chars_of, string_of};

pub mod token_store;

verus! {

/// Delegated Graph scopes. Strict set: deliberately no `Mail.ReadWrite`.
pub const SCOPES: [&'static str; 4] = [
    "https://graph.microsoft.com/Mail.Read",
    "https://graph.microsoft.com/Mail.Send",
    "https://graph.microsoft.com/User.Read",
    "offline_access",
];

#[derive(Debug, Clone)]
pub struct DeviceCodePrompt {
    pub user_code: String,
    pub verification_uri: String,
    pub expires_in_secs: u64,
}

#[derive(Debug, Clone)]
pub struct Account {
    pub upn: String,
    pub display_name: String,
}

#[derive(Debug)]
pub enum AuthError {
    NotConfigured,
    NeedsSignIn,
    NoRefreshToken,
    Store(String),
    State(String),
    OAuth(String),
    Graph(GraphError),
}

pub open spec fn auth_error_text(e: AuthError) -> Seq<char> {
    match e {
        AuthError::NotConfigured => "no client_id configured \u{2014} set it in config.json (see README)"@,
        AuthError::NeedsSignIn => "not signed in"@,
        AuthError::NoRefreshToken => "identity provider returned no refresh token (offline_access missing?)"@,
        AuthError::Store(m) => "keychain error: "@ + m@,
        AuthError::State(m) => "account state error: "@ + m@,
        AuthError::OAuth(m) => "auth request failed: "@ + m@,
        AuthError::Graph(g) => crate::graph::graph_error_text(g),
    }
}

impl AuthError {
    /// The error's text.
    pub fn message(&self) -> (r: String)
        ensures
            r@ == auth_error_text(*self),
    {
        match self {
            AuthError::NotConfigured => String::from_str(
                "no client_id configured \u{2014} set it in config.json (see README)",
            ),
            AuthError::NeedsSignIn => String::from_str("not signed in"),
            AuthError::NoRefreshToken => String::from_str(
                "identity provider returned no refresh token (offline_access missing?)",
            ),
            AuthError::Store(m) => prefixed("keychain error: ", m.as_str()),
            AuthError::State(m) => prefixed("account state error: ", m.as_str()),
            AuthError::OAuth(m) => prefixed("auth request failed: ", m.as_str()),
            AuthError::Graph(g) => g.message(),
        }
    }
}

fn prefixed(p: &str, m: &str) -> (r: String)
    ensures
        r@ == p@ + m@,
{
    let mut v = chars_of(p);
    append_chars(&mut v, chars_of(m).as_slice());
    string_of(v.as_slice())
}

/// The configured authority without trailing slashes.
pub open spec fn authority_base(a: Seq<char>) -> Seq<char>
    decreases a.len(),
{
    if a.len() > 0 && a.last() == '/' {
        authority_base(a.drop_last())
    } else {
        a
    }
}

/// The three OAuth endpoints of an authority.
#[derive(Debug)]
pub struct OAuthEndpoints {
    pub authorize: String,
    pub token: String,
    pub device_code: String,
}

/// The v2.0 endpoints under the configured authority; `NotConfigured`
/// while no client id is set.
pub fn oauth_endpoints(config: &AppConfig) -> (r: Result<OAuthEndpoints, AuthError>)
    ensures
        r is Err <==> config.client_id@.len() == 0,
        r is Err ==> r->Err_0 is NotConfigured,
        r matches Ok(e) ==> e.authorize@ == authority_base(config.authority@) + "/oauth2/v2.0/authorize"@
            && e.token@ == authority_base(config.authority@) + "/oauth2/v2.0/token"@ && e.device_code@
            == authority_base(config.authority@) + "/oauth2/v2.0/devicecode"@,
{
    if !config.is_configured() {
        return Err(AuthError::NotConfigured);
    }
    let a = chars_of(config.authority.as_str());
    let mut n = a.len();
    assert(a@.take(n as int) =~= a@);
    while n > 0 && a[n - 1] == '/'
        invariant
            n <= a@.len(),
            authority_base(a@) == authority_base(a@.take(n as int)),
        decreases n,
    {
        proof {
            assert(a@.take(n as int).drop_last() =~= a@.take(n - 1));
        }
        n = n - 1;
    }
    proof {
        assert(a@.take(n as int) == authority_base(a@.take(n as int)));
    }
    let base = crate::text::copy_range(a.as_slice(), 0, n);
    assert(base@ =~= a@.take(n as int));
    let mut au = base.clone();
    append_chars(&mut au, chars_of("/oauth2/v2.0/authorize").as_slice());
    let mut tk = base.clone();
    append_chars(&mut tk, chars_of("/oauth2/v2.0/token").as_slice());
    let mut dc = base;
    append_chars(&mut dc, chars_of("/oauth2/v2.0/devicecode").as_slice());
    Ok(OAuthEndpoints {
        authorize: string_of(au.as_slice()),
        token: string_of(tk.as_slice()),
        device_code: string_of(dc.as_slice()),
    })
}

/// The account recorded for a signed-in user: the display name, falling
/// back to the UPN when Graph has none.
pub fn account_from_me(me: Me) -> (r: Account)
    ensures
        r.upn@ == me.user_principal_name@,
        r.display_name@ == match me.display_name {
            Some(d) => d@,
            None => me.user_principal_name@,
        },
{
    let display_name = match me.display_name {
        Some(d) => d,
        None => me.user_principal_name.clone(),
    };
    Account { upn: me.user_principal_name, display_name }
}

/// Seconds a cached access token is kept: the IdP's `expires_in`, five
/// minutes when it gives none.
pub fn session_lifetime_secs(expires_in: Option<u64>) -> (r: u64)
    ensures
        r == match expires_in {
            Some(s) => s,
            None => 300,
        },
{
    match expires_in {
        Some(s) => s,
        None => 300,
    }
}

/// A cached access token is used only while more than a minute of its
/// lifetime remains.
pub fn session_is_fresh(remaining_ms: u64) -> (r: bool)
    ensures
        r == (remaining_ms > 60_000),
{
    remaining_ms > 60_000
}

/// What a failed refresh means: a rejected grant (revoked or expired
/// refresh token) asks for interactive sign-in; anything else is an OAuth
/// failure with the library's message.
pub fn refresh_error(invalid_grant: bool, message: String) -> (r: AuthError)
    ensures
        invalid_grant ==> r is NeedsSignIn,
        !invalid_grant ==> (r matches AuthError::OAuth(m) && m@ == message@),
{
    if invalid_grant {
        AuthError::NeedsSignIn
    } else {
        AuthError::OAuth(message)
    }
}

/// The refresh token to keep after a refresh: the IdP may rotate it, and
/// the newest always wins.
pub fn token_to_keep(stored: String, rotated: Option<String>) -> (r: String)
    ensures
        r@ == match rotated {
            Some(t) => t@,
            None => stored@,
        },
{
    match rotated {
        Some(t) => t,
        None => stored,
    }
}

} // verus!
