use spite_core::auth::token_store::{MemoryTokenStore, StoreError, TokenStore, KEYRING_SERVICE};
use spite_core::auth::{
    account_from_me, oauth_endpoints, refresh_error, session_is_fresh, session_lifetime_secs,
    token_to_keep, AuthError, SCOPES,
};
use spite_core::config::AppConfig;
use spite_core::graph::{GraphError, Me};

#[test]
fn strict_scopes_exclude_mail_readwrite() {
    assert!(SCOPES.iter().all(|s| !s.contains("Mail.ReadWrite")));
    assert!(SCOPES.contains(&"offline_access"));
    assert_eq!(SCOPES.len(), 4);
}

#[test]
fn round_trip_and_rotation() {
    let mut store = MemoryTokenStore::default();
    let upn = "user@example.com";
    assert_eq!(store.load_refresh_token(upn).unwrap(), None);

    store.save_refresh_token(upn, "rt-1").unwrap();
    assert_eq!(store.load_refresh_token(upn).unwrap().as_deref(), Some("rt-1"));

    // Rotation: a newer token replaces the stored one.
    store.save_refresh_token(upn, "rt-2").unwrap();
    assert_eq!(store.load_refresh_token(upn).unwrap().as_deref(), Some("rt-2"));

    store.delete_refresh_token(upn).unwrap();
    assert_eq!(store.load_refresh_token(upn).unwrap(), None);
    // Deleting a missing entry is not an error.
    store.delete_refresh_token(upn).unwrap();
}

#[test]
fn token_store_keeps_accounts_apart() {
    let mut store = MemoryTokenStore::default();
    store.save_refresh_token("a@x.com", "ta").unwrap();
    store.save_refresh_token("b@x.com", "tb").unwrap();
    store.delete_refresh_token("a@x.com").unwrap();
    assert_eq!(store.load_refresh_token("a@x.com").unwrap(), None);
    assert_eq!(store.load_refresh_token("b@x.com").unwrap().as_deref(), Some("tb"));
    assert_eq!(KEYRING_SERVICE, "com.minatolabs.spite");
    assert_eq!(StoreError::Backend("locked".into()).message(), "locked");
}

#[test]
fn unconfigured_client_id_is_rejected() {
    assert!(matches!(
        oauth_endpoints(&AppConfig::default()),
        Err(AuthError::NotConfigured)
    ));
}

#[test]
fn endpoints_follow_the_authority() {
    let mut c = AppConfig::default();
    c.client_id = "11111111-2222-3333-4444-555555555555".into();
    c.authority = "https://login.microsoftonline.com/common//".into();
    let e = oauth_endpoints(&c).unwrap();
    assert_eq!(e.authorize, "https://login.microsoftonline.com/common/oauth2/v2.0/authorize");
    assert_eq!(e.token, "https://login.microsoftonline.com/common/oauth2/v2.0/token");
    assert_eq!(e.device_code, "https://login.microsoftonline.com/common/oauth2/v2.0/devicecode");
}

#[test]
fn account_falls_back_to_upn_and_session_rules_hold() {
    let a = account_from_me(Me { display_name: None, user_principal_name: "u@x.com".into() });
    assert_eq!(a.display_name, "u@x.com");
    assert_eq!(a.upn, "u@x.com");
    let b = account_from_me(Me { display_name: Some("U".into()), user_principal_name: "u@x.com".into() });
    assert_eq!(b.display_name, "U");

    assert_eq!(session_lifetime_secs(None), 300);
    assert_eq!(session_lifetime_secs(Some(3599)), 3599);
    assert!(!session_is_fresh(60_000));
    assert!(session_is_fresh(60_001));
    assert!(matches!(refresh_error(true, "x".into()), AuthError::NeedsSignIn));
    assert!(matches!(refresh_error(false, "boom".into()), AuthError::OAuth(m) if m == "boom"));
    assert_eq!(token_to_keep("old".into(), Some("new".into())), "new");
    assert_eq!(token_to_keep("old".into(), None), "old");
}

#[test]
fn auth_error_texts() {
    assert_eq!(AuthError::NeedsSignIn.message(), "not signed in");
    assert_eq!(AuthError::Store("x".into()).message(), "keychain error: x");
    assert_eq!(AuthError::State("y".into()).message(), "account state error: y");
    assert_eq!(AuthError::OAuth("z".into()).message(), "auth request failed: z");
    assert!(AuthError::NotConfigured.message().contains("config.json"));
    assert!(AuthError::NoRefreshToken.message().contains("offline_access"));
    assert_eq!(
        AuthError::Graph(GraphError::Status { status: 403, body: "nope".into() }).message(),
        "graph returned 403: nope"
    );
    assert_eq!(GraphError::Http("reset".into()).message(), "graph request failed: reset");
}

#[test]
fn load_follows_the_latest_call_for_each_account() {
    let mut s = MemoryTokenStore::default();
    let u = "user@example.com";
    assert_eq!(s.load_refresh_token(u).unwrap(), None);
    s.save_refresh_token(u, "rt-1").unwrap();
    s.save_refresh_token("other@example.com", "x").unwrap();
    s.save_refresh_token(u, "rt-2").unwrap();
    assert_eq!(s.load_refresh_token(u).unwrap().as_deref(), Some("rt-2"));
    s.delete_refresh_token(u).unwrap();
    assert_eq!(s.load_refresh_token(u).unwrap(), None);
    assert!(s.delete_refresh_token(u).is_ok());
    assert_eq!(s.load_refresh_token("other@example.com").unwrap().as_deref(), Some("x"));
}
