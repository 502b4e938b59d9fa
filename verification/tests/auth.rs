use entmoot::auth::{sha256_hex, Acl, Authenticator, ConnectDenied};
use entmoot::config::{AclRule, AuthConfig, JwtConfig, Policy, UserCred};
use jsonwebtoken::{encode, Algorithm, EncodingKey, Header};
use serde_json::Value;

fn auth(allow_anon: bool) -> Authenticator {
    Authenticator::new(&AuthConfig {
        allow_anonymous: allow_anon,
        default_policy: Policy::Deny,
        users: vec![UserCred { name: "plc1".into(), password_sha256: sha256_hex("secret") }],
        jwt: None,
    })
}

fn sign(secret: &str, claims: Value) -> String {
    encode(&Header::new(Algorithm::HS256), &claims, &EncodingKey::from_secret(secret.as_bytes())).unwrap()
}

fn claims(text: &str) -> Value {
    serde_json::from_str(text).unwrap()
}

#[test]
fn password_auth() {
    let a = auth(false);
    assert_eq!(a.authenticate(Some(("plc1", "secret"))), Ok("plc1".into()));
    assert_eq!(a.authenticate(Some(("plc1", "wrong"))), Err(ConnectDenied::BadCredentials));
    assert_eq!(a.authenticate(Some(("ghost", "secret"))), Err(ConnectDenied::BadCredentials));
    assert_eq!(a.authenticate(None), Err(ConnectDenied::AnonymousNotAllowed));
    assert_eq!(auth(true).authenticate(None), Ok(String::new()));
}

fn jwt_auth() -> Authenticator {
    jwt_auth_for(Some("entmoot-test"), None)
}

fn jwt_auth_for(issuer: Option<&str>, audience: Option<&str>) -> Authenticator {
    Authenticator::new(&AuthConfig {
        allow_anonymous: false,
        default_policy: Policy::Deny,
        users: vec![UserCred { name: "plc1".into(), password_sha256: sha256_hex("secret") }],
        jwt: Some(JwtConfig {
            hmac_secret: "test-secret".into(),
            identity_claim: "sub".into(),
            issuer: issuer.map(|s| s.to_string()),
            audience: audience.map(|s| s.to_string()),
        }),
    })
}

#[test]
fn valid_jwt_authenticates_as_the_identity_claim() {
    let a = jwt_auth();
    let token = sign(
        "test-secret",
        claims(r#"{"sub": "gateway-7", "iss": "entmoot-test", "exp": 9999999999}"#),
    );
    assert_eq!(a.authenticate(Some(("anything", &token))), Ok("gateway-7".into()));
    // Empty username is fine too — the token carries the identity.
    assert_eq!(a.authenticate(Some(("", &token))), Ok("gateway-7".into()));
}

#[test]
fn jwt_is_only_tried_for_unknown_usernames() {
    let a = jwt_auth();
    let token = sign(
        "test-secret",
        claims(r#"{"sub": "gateway-7", "iss": "entmoot-test", "exp": 9999999999}"#),
    );
    // "plc1" is a known local user: its own password must match, a
    // valid token for someone else's identity must not let it in.
    assert_eq!(a.authenticate(Some(("plc1", &token))), Err(ConnectDenied::BadCredentials));
    assert_eq!(a.authenticate(Some(("plc1", "secret"))), Ok("plc1".into()));
}

#[test]
fn jwt_rejects_bad_signature_wrong_issuer_and_expired_tokens() {
    let a = jwt_auth();
    let wrong_secret = sign("nope", claims(r#"{"sub": "x", "iss": "entmoot-test", "exp": 9999999999}"#));
    assert_eq!(a.authenticate(Some(("u", &wrong_secret))), Err(ConnectDenied::BadCredentials));

    let wrong_issuer = sign("test-secret", claims(r#"{"sub": "x", "iss": "someone-else", "exp": 9999999999}"#));
    assert_eq!(a.authenticate(Some(("u", &wrong_issuer))), Err(ConnectDenied::BadCredentials));

    let expired = sign("test-secret", claims(r#"{"sub": "x", "iss": "entmoot-test", "exp": 1}"#));
    assert_eq!(a.authenticate(Some(("u", &expired))), Err(ConnectDenied::BadCredentials));

    let no_exp = sign("test-secret", claims(r#"{"sub": "x", "iss": "entmoot-test"}"#));
    assert_eq!(a.authenticate(Some(("u", &no_exp))), Err(ConnectDenied::BadCredentials));
}

#[test]
fn configured_issuer_and_audience_are_required_claims() {
    let a = jwt_auth_for(Some("entmoot-test"), Some("bus"));
    let full = sign(
        "test-secret",
        claims(r#"{"sub": "x", "iss": "entmoot-test", "aud": "bus", "exp": 9999999999}"#),
    );
    assert_eq!(a.authenticate(Some(("u", &full))), Ok("x".into()));
    let no_issuer = sign("test-secret", claims(r#"{"sub": "x", "aud": "bus", "exp": 9999999999}"#));
    assert_eq!(a.authenticate(Some(("u", &no_issuer))), Err(ConnectDenied::BadCredentials));
    let no_audience = sign("test-secret", claims(r#"{"sub": "x", "iss": "entmoot-test", "exp": 9999999999}"#));
    assert_eq!(a.authenticate(Some(("u", &no_audience))), Err(ConnectDenied::BadCredentials));
    let other_audience = sign(
        "test-secret",
        claims(r#"{"sub": "x", "iss": "entmoot-test", "aud": "else", "exp": 9999999999}"#),
    );
    assert_eq!(a.authenticate(Some(("u", &other_audience))), Err(ConnectDenied::BadCredentials));
}

#[test]
fn the_identity_claim_must_be_a_string() {
    let a = jwt_auth_for(None, None);
    let number = sign("test-secret", claims(r#"{"sub": 7, "exp": 9999999999}"#));
    assert_eq!(a.authenticate(Some(("u", &number))), Err(ConnectDenied::BadCredentials));
    let missing = sign("test-secret", claims(r#"{"name": "x", "exp": 9999999999}"#));
    assert_eq!(a.authenticate(Some(("u", &missing))), Err(ConnectDenied::BadCredentials));
    let quoted = sign("test-secret", claims(r#"{"sub": "a \"b\" é", "exp": 9999999999}"#));
    assert_eq!(a.authenticate(Some(("u", &quoted))), Ok("a \"b\" é".into()));
}

#[test]
fn without_jwt_configured_behavior_is_unchanged() {
    // No jwt: an unknown user is BadCredentials, not silently anonymous,
    // and an empty username with a non-empty password still falls
    // through to the plain anonymous check exactly as before this
    // feature existed.
    let a = auth(true);
    assert_eq!(a.authenticate(Some(("ghost", "whatever"))), Err(ConnectDenied::BadCredentials));
    assert_eq!(a.authenticate(Some(("", "whatever"))), Ok(String::new()));
}

#[test]
fn the_decision_follows_the_given_token_identity() {
    let a = jwt_auth();
    assert_eq!(a.decide(Some(("u", "t")), Some("gateway-7".into())), Ok("gateway-7".into()));
    assert_eq!(a.decide(Some(("u", "t")), None), Err(ConnectDenied::BadCredentials));
    assert_eq!(a.decide(Some(("plc1", "secret")), None), Ok("plc1".into()));
    assert_eq!(
        a.decide(Some(("plc1", "wrong")), Some("gateway-7".into())),
        Err(ConnectDenied::BadCredentials)
    );
    assert_eq!(a.decide(Some(("", "")), Some("gateway-7".into())), Err(ConnectDenied::AnonymousNotAllowed));
}

#[test]
fn sha256_hex_is_the_standard_digest() {
    assert_eq!(
        sha256_hex("abc"),
        "ba7816bf8f01cfea414140de5dae2223b00361a396177a9cb410ff61f20015ad"
    );
    assert_eq!(
        sha256_hex(""),
        "e3b0c44298fc1c149afbf4c8996fb92427ae41e4649b934ca495991b7852b855"
    );
}

#[test]
fn stored_hashes_may_be_in_upper_case_and_the_last_entry_counts() {
    let user = |name: &str, hash: String| UserCred { name: name.into(), password_sha256: hash };
    let a = Authenticator::new(&AuthConfig {
        allow_anonymous: false,
        default_policy: Policy::Deny,
        users: vec![
            user("ops", sha256_hex("old")),
            user("ops", sha256_hex("new").to_uppercase()),
        ],
        jwt: None,
    });
    assert_eq!(a.authenticate(Some(("ops", "new"))), Ok("ops".into()));
    assert_eq!(a.authenticate(Some(("ops", "old"))), Err(ConnectDenied::BadCredentials));
}

#[test]
fn acl_deny_by_default() {
    let acl = Acl::new(
        vec![AclRule {
            user: "plc1".into(),
            publish: vec!["plant/#".into()],
            subscribe: vec!["cmd/plc1/#".into()],
        }],
        Policy::Deny,
    );
    assert!(acl.may_publish("plc1", "plant/kiln1/temp"));
    assert!(!acl.may_publish("plc1", "cmd/plc2/reboot"));
    assert!(!acl.may_publish("other", "plant/kiln1/temp"));
    assert!(acl.may_subscribe("plc1", "cmd/plc1/+"));
    assert!(!acl.may_subscribe("plc1", "cmd/#"));
    assert!(!acl.may_subscribe("", "plant/#"));
}

#[test]
fn acl_wildcard_user_and_allow_policy() {
    let acl = Acl::new(
        vec![AclRule {
            user: "*".into(),
            publish: vec![],
            subscribe: vec!["status/#".into()],
        }],
        Policy::Deny,
    );
    assert!(acl.may_subscribe("", "status/+"));
    assert!(!acl.may_publish("", "status/x"));

    let open = Acl::new(vec![], Policy::Allow);
    assert!(open.may_publish("", "anything/at/all"));
    assert!(open.may_subscribe("", "#"));
}
