//! Authentication (who are you) and topic authorization (what may you touch).

use crate::config::{AclRule, AuthConfig, JwtConfig, Policy, UserCred};
use crate::strmap::StrMap;
use crate::text::{self, hex_text};
use crate::topic::{self, filter_covers, topic_matches};
use crate::topic_laws;
use vstd::prelude::*;
use vstd::string::*;

verus! {

/// The SHA-256 digest of some bytes, as `sha2` computes it.
pub uninterp spec fn sha256(data: Seq<u8>) -> Seq<u8>;

/// Calls `sha2::Sha256::digest`: the 32-byte digest is a function of the data alone.
#[verifier::external_body]
fn sha256_digest(data: &[u8]) -> (r: Vec<u8>)
    ensures
        r@ == sha256(data@),
        r@.len() == 32,
{
    <sha2::Sha256 as sha2::Digest>::digest(data).to_vec()
}

/// The hexadecimal SHA-256 digest of a text.
pub open spec fn digest_text(s: Seq<char>) -> Seq<char> {
    text::hex(sha256(vstd::utf8::encode_utf8(s)))
}

pub fn sha256_hex(s: &str) -> (r: String)
    ensures
        r@ == digest_text(s@),
        r@.len() == 64,
{
    let digest = sha256_digest(s.as_bytes());
    hex_text(digest.as_slice())
}

#[derive(Debug, Clone, Copy, PartialEq, Eq, Structural)]
pub enum ConnectDenied {
    BadCredentials,
    AnonymousNotAllowed,
}

/// An ASCII letter in lower case; any other character as it is.
pub open spec fn lower_char(c: char) -> char {
    if 'A' <= c && c <= 'Z' {
        (c as u32 + 32) as char
    } else {
        c
    }
}

/// A text with its ASCII letters in lower case.
pub open spec fn lowered(s: Seq<char>) -> Seq<char> {
    s.map_values(|c: char| lower_char(c))
}

fn lower_text(s: &str) -> (r: String)
    ensures
        r@ == lowered(s@),
{
    let chars = text::chars_of(s);
    let mut out = String::new();
    let mut i: usize = 0;
    while i < chars.len()
        invariant
            chars@ == s@,
            i <= chars.len(),
            out@ == lowered(s@.take(i as int)),
        decreases chars.len() - i,
    {
        let c = chars[i];
        let l = if 'A' <= c && c <= 'Z' {
            (c as u8 + 32) as char
        } else {
            c
        };
        out.push(l);
        assert(out@ =~= lowered(s@.take(i + 1)));
        i = i + 1;
    }
    assert(s@.take(i as int) =~= s@);
    out
}

/// The token settings of an authenticator, as plain text.
pub struct TokenRules {
    pub secret: Seq<char>,
    pub identity_claim: Seq<char>,
    pub issuer: Option<Seq<char>>,
    pub audience: Option<Seq<char>>,
}

/// The claims that a token must carry: always `exp`, and the configured ones.
pub open spec fn required_claims(rules: TokenRules) -> Seq<Seq<char>> {
    let base = seq!["exp"@];
    let with_issuer = if rules.issuer is Some {
        base.push("iss"@)
    } else {
        base
    };
    if rules.audience is Some {
        with_issuer.push("aud"@)
    } else {
        with_issuer
    }
}

/// The claims (as JSON text) that `jsonwebtoken` reads out of an HS256 token at some
/// time, if the token passes: signature under the secret, required claims, issuer,
/// audience and expiry.
pub uninterp spec fn token_claims(
    token: Seq<char>,
    secret: Seq<u8>,
    issuer: Option<Seq<char>>,
    audience: Option<Seq<char>>,
    required: Seq<Seq<char>>,
    now: nat,
) -> Option<Seq<char>>;

/// Calls `jsonwebtoken::decode` under a `Validation` for HS256 with the given issuer,
/// audience and required claims. What it accepts depends on its arguments and, by
/// the expiry check, on the clock that it reads: the result is the one of some time.
/// It is left unsaid which time that is. `decode` needs a system clock that is past
/// the first minute of 1970.
#[verifier::external_body]
fn decode_token(
    token: &str,
    secret: &[u8],
    issuer: &Option<String>,
    audience: &Option<String>,
    required: &Vec<String>,
) -> (r: Option<String>)
    ensures
        exists|now: nat|
            text::opt_string(r) == #[trigger] token_claims(
                token@,
                secret@,
                text::opt_string(*issuer),
                text::opt_string(*audience),
                text::texts(required@),
                now,
            ),
{
    let mut v = jsonwebtoken::Validation::new(jsonwebtoken::Algorithm::HS256);
    v.iss = issuer.clone().map(|i| std::iter::once(i).collect());
    v.aud = audience.clone().map(|a| std::iter::once(a).collect());
    v.set_required_spec_claims(required);
    let key = jsonwebtoken::DecodingKey::from_secret(secret);
    let data = jsonwebtoken::decode::<serde_json::Value>(token, &key, &v);
    data.ok().map(|d| d.claims.to_string())
}

/// The string under `key` in a JSON object; `None` where the text is no object, has
/// no such key, or holds no string under it.
pub uninterp spec fn json_string_member(json: Seq<char>, key: Seq<char>) -> Option<Seq<char>>;

/// Calls `serde_json::from_str`, `Value::get` and `Value::as_str`: which string stands
/// under the key depends on the two texts alone.
#[verifier::external_body]
fn string_member(json: &str, key: &str) -> (r: Option<String>)
    ensures
        text::opt_string(r) == json_string_member(json@, key@),
{
    let value: serde_json::Value = serde_json::from_str(json).ok()?;
    value.get(key)?.as_str().map(|s| s.to_string())
}

/// Reads the identity of a client out of a bearer token (HS256, static shared
/// secret).
struct JwtVerifier {
    secret: String,
    identity_claim: String,
    issuer: Option<String>,
    audience: Option<String>,
    required: Vec<String>,
}

/// The identity that a token gives its bearer at some time.
pub open spec fn token_identity(rules: TokenRules, token: Seq<char>, now: nat) -> Option<Seq<char>> {
    match token_claims(
        token,
        vstd::utf8::encode_utf8(rules.secret),
        rules.issuer,
        rules.audience,
        required_claims(rules),
        now,
    ) {
        Some(claims) => json_string_member(claims, rules.identity_claim),
        None => None,
    }
}

/// The token settings that a configuration asks for.
pub open spec fn rules_of(cfg: JwtConfig) -> TokenRules {
    TokenRules {
        secret: cfg.hmac_secret@,
        identity_claim: cfg.identity_claim@,
        issuer: text::opt_string(cfg.issuer),
        audience: text::opt_string(cfg.audience),
    }
}

impl JwtVerifier {
    spec fn rules(&self) -> TokenRules {
        TokenRules {
            secret: self.secret@,
            identity_claim: self.identity_claim@,
            issuer: text::opt_string(self.issuer),
            audience: text::opt_string(self.audience),
        }
    }

    spec fn wf(&self) -> bool {
        text::texts(self.required@) == required_claims(self.rules())
    }

    fn new(cfg: &JwtConfig) -> (r: Self)
        ensures
            r.wf(),
            r.rules() == rules_of(*cfg),
    {
        let mut required: Vec<String> = Vec::new();
        required.push("exp".to_owned());
        if cfg.issuer.is_some() {
            required.push("iss".to_owned());
        }
        if cfg.audience.is_some() {
            required.push("aud".to_owned());
        }
        let r = JwtVerifier {
            secret: cfg.hmac_secret.clone(),
            identity_claim: cfg.identity_claim.clone(),
            issuer: cfg.issuer.clone(),
            audience: cfg.audience.clone(),
            required,
        };
        assert(text::texts(r.required@) =~= required_claims(rules_of(*cfg)));
        r
    }

    /// `None` on any failure: bad signature, expired, wrong issuer or audience, or
    /// the identity claim missing or not a string.
    fn verify(&self, token: &str) -> (r: Option<String>)
        requires
            self.wf(),
        ensures
            exists|now: nat|
                text::opt_string(r) == #[trigger] token_identity(self.rules(), token@, now),
    {
        let claims = decode_token(
            token,
            self.secret.as_str().as_bytes(),
            &self.issuer,
            &self.audience,
            &self.required,
        );
        let ghost now = choose|now: nat|
            text::opt_string(claims) == #[trigger] token_claims(
                token@,
                vstd::utf8::encode_utf8(self.secret@),
                text::opt_string(self.issuer),
                text::opt_string(self.audience),
                text::texts(self.required@),
                now,
            );
        let r = match claims {
            Some(json) => string_member(json.as_str(), self.identity_claim.as_str()),
            None => None,
        };
        assert(text::opt_string(r) == token_identity(self.rules(), token@, now));
        r
    }
}

/// Verifies the credentials of a CONNECT.
pub struct Authenticator {
    users: StrMap<String>,
    allow_anonymous: bool,
    jwt: Option<JwtVerifier>,
}

/// What an authenticator goes by: the stored hash of each local user, whether
/// anonymous clients are let in, and the token settings.
pub struct AuthRules {
    pub users: Map<Seq<char>, Seq<char>>,
    pub allow_anonymous: bool,
    pub tokens: Option<TokenRules>,
}

/// The stored hash of each user: the last entry under a name counts.
pub open spec fn user_hashes(users: Seq<UserCred>) -> Map<Seq<char>, Seq<char>>
    decreases users.len(),
{
    if users.len() == 0 {
        Map::empty()
    } else {
        user_hashes(users.drop_last()).insert(
            users.last().name@,
            lowered(users.last().password_sha256@),
        )
    }
}

/// The rules that a configuration asks for.
pub open spec fn auth_rules(cfg: AuthConfig) -> AuthRules {
    AuthRules {
        users: user_hashes(cfg.users@),
        allow_anonymous: cfg.allow_anonymous,
        tokens: match cfg.jwt {
            Some(jwt) => Some(rules_of(jwt)),
            None => None,
        },
    }
}

/// A login as plain text.
pub open spec fn login_text(login: Option<(&str, &str)>) -> Option<(Seq<char>, Seq<char>)> {
    match login {
        Some((user, password)) => Some((user@, password@)),
        None => None,
    }
}

/// Whether the password of a login is tried as a token: token settings are
/// present, and the username is unknown or, with a password, empty.
pub open spec fn tries_token(rules: AuthRules, login: Option<(Seq<char>, Seq<char>)>) -> bool {
    match login {
        Some((user, password)) => rules.tokens is Some && (if user.len() > 0 {
            !rules.users.dom().contains(user)
        } else {
            password.len() > 0
        }),
        None => false,
    }
}

/// The identity that a login gets, where `token` is the identity that its password
/// gives as a token. The empty identity is "anonymous".
pub open spec fn auth_decision(
    rules: AuthRules,
    login: Option<(Seq<char>, Seq<char>)>,
    token: Option<Seq<char>>,
) -> Result<Seq<char>, ConnectDenied> {
    if tries_token(rules, login) {
        match token {
            Some(identity) => Ok(identity),
            None => Err(ConnectDenied::BadCredentials),
        }
    } else if login is Some && (login->0).0.len() > 0 {
        let (user, password) = login->0;
        if rules.users.dom().contains(user) && rules.users[user] == digest_text(password) {
            Ok(user)
        } else {
            Err(ConnectDenied::BadCredentials)
        }
    } else if rules.allow_anonymous {
        Ok(Seq::empty())
    } else {
        Err(ConnectDenied::AnonymousNotAllowed)
    }
}

/// An outcome as plain text.
pub open spec fn identity_text(r: Result<String, ConnectDenied>) -> Result<
    Seq<char>,
    ConnectDenied,
> {
    match r {
        Ok(identity) => Ok(identity@),
        Err(e) => Err(e),
    }
}

impl View for Authenticator {
    type V = AuthRules;

    closed spec fn view(&self) -> AuthRules {
        AuthRules {
            users: self.users@.map_values(|h: String| h@),
            allow_anonymous: self.allow_anonymous,
            tokens: match self.jwt {
                Some(jwt) => Some(jwt.rules()),
                None => None,
            },
        }
    }
}

impl Authenticator {
    #[verifier::type_invariant]
    spec fn inv(&self) -> bool {
        &&& self.users.wf()
        &&& (self.jwt matches Some(jwt) ==> jwt.wf())
    }

    pub fn new(cfg: &AuthConfig) -> (r: Self)
        ensures
            r@ == auth_rules(*cfg),
    {
        let mut users: StrMap<String> = StrMap::new();
        let mut i: usize = 0;
        assert(users@.map_values(|h: String| h@) =~= user_hashes(cfg.users@.take(0)));
        while i < cfg.users.len()
            invariant
                i <= cfg.users@.len(),
                users.wf(),
                users@.map_values(|h: String| h@) == user_hashes(cfg.users@.take(i as int)),
            decreases cfg.users.len() - i,
        {
            let ghost before = users@;
            let name = cfg.users[i].name.clone();
            let hash = lower_text(cfg.users[i].password_sha256.as_str());
            users.insert(name, hash);
            assert(cfg.users@.take(i + 1).drop_last() =~= cfg.users@.take(i as int));
            assert(users@.map_values(|h: String| h@) =~= before.map_values(
                |h: String| h@,
            ).insert(name@, hash@));
            i = i + 1;
        }
        assert(cfg.users@.take(i as int) =~= cfg.users@);
        let jwt = match &cfg.jwt {
            Some(jwt) => Some(JwtVerifier::new(jwt)),
            None => None,
        };
        Authenticator { users, allow_anonymous: cfg.allow_anonymous, jwt }
    }

    /// Returns the authenticated identity; the empty string is "anonymous".
    ///
    /// A token is tried only when the username does not match a known local user:
    /// one that does must authenticate against that user's own password.
    pub fn authenticate(&self, login: Option<(&str, &str)>) -> (r: Result<String, ConnectDenied>)
        ensures
            !tries_token(self@, login_text(login)) ==> identity_text(r) == auth_decision(
                self@,
                login_text(login),
                None,
            ),
            tries_token(self@, login_text(login)) ==> exists|now: nat|
                identity_text(r) == auth_decision(
                    self@,
                    login_text(login),
                    #[trigger] token_identity(self@.tokens->0, (login_text(login)->0).1, now),
                ),
    {
        proof {
            use_type_invariant(self);
        }
        let mut token: Option<String> = None;
        let ghost mut at: nat = 0;
        if let Some((user, password)) = login {
            if let Some(jwt) = &self.jwt {
                if self.token_applies(user, password) {
                    token = jwt.verify(password);
                    proof {
                        at = choose|now: nat|
                            text::opt_string(token) == #[trigger] token_identity(
                                jwt.rules(),
                                password@,
                                now,
                            );
                    }
                }
            }
        }
        proof {
            if tries_token(self@, login_text(login)) {
                assert(text::opt_string(token) == token_identity(
                    self@.tokens->0,
                    (login_text(login)->0).1,
                    at,
                ));
            }
        }
        self.decide(login, token)
    }

    /// Whether the password of a login is to be tried as a token.
    fn token_applies(&self, user: &str, password: &str) -> (r: bool)
        ensures
            r == tries_token(self@, Some((user@, password@))),
    {
        proof {
            use_type_invariant(self);
        }
        self.jwt.is_some() && (if user.is_empty() {
            !password.is_empty()
        } else {
            !self.users.contains(user)
        })
    }

    /// The outcome of a login, given the identity that its password gives as a
    /// token, if it is one that passes.
    pub fn decide(&self, login: Option<(&str, &str)>, token: Option<String>) -> (r: Result<
        String,
        ConnectDenied,
    >)
        ensures
            identity_text(r) == auth_decision(
                self@,
                login_text(login),
                text::opt_string(token),
            ),
    {
        proof {
            use_type_invariant(self);
        }
        match login {
            Some((user, password)) => {
                if self.token_applies(user, password) {
                    return match token {
                        Some(identity) => Ok(identity),
                        None => Err(ConnectDenied::BadCredentials),
                    };
                }
                if !user.is_empty() {
                    return match self.users.get(user) {
                        Some(stored) => {
                            let given = sha256_hex(password);
                            if *stored.as_str() == *given.as_str() {
                                Ok(user.to_owned())
                            } else {
                                Err(ConnectDenied::BadCredentials)
                            }
                        },
                        None => Err(ConnectDenied::BadCredentials),
                    };
                }
            },
            None => {},
        }
        if self.allow_anonymous {
            let r: Result<String, ConnectDenied> = Ok(String::new());
            assert(identity_text(r)->Ok_0 =~= Seq::<char>::empty());
            r
        } else {
            Err(ConnectDenied::AnonymousNotAllowed)
        }
    }
}

/// A local user gets in with that user's own password alone: whatever token the
/// password may be plays no part.
pub proof fn law_local_user_needs_own_password(
    rules: AuthRules,
    user: Seq<char>,
    password: Seq<char>,
    token: Option<Seq<char>>,
)
    requires
        user.len() > 0,
        rules.users.dom().contains(user),
    ensures
        !tries_token(rules, Some((user, password))),
        auth_decision(rules, Some((user, password)), token) == (if rules.users[user]
            == digest_text(password) {
            Ok(user)
        } else {
            Err(ConnectDenied::BadCredentials)
        }),
{
}

/// Without token settings no password is ever tried as a token: an unknown user is
/// refused, and an empty username goes by the anonymous setting.
pub proof fn law_without_token_settings(
    rules: AuthRules,
    user: Seq<char>,
    password: Seq<char>,
    token: Option<Seq<char>>,
)
    requires
        rules.tokens is None,
        !rules.users.dom().contains(user),
    ensures
        auth_decision(rules, Some((user, password)), token) == (if user.len() > 0 {
            Err(ConnectDenied::BadCredentials)
        } else {
            auth_decision(rules, None, token)
        }),
{
}

/// A login that names a user never ends as anonymous, unless a token says so.
pub proof fn law_named_login_is_not_anonymous(
    rules: AuthRules,
    user: Seq<char>,
    password: Seq<char>,
    token: Option<Seq<char>>,
)
    requires
        user.len() > 0,
        token != Some(Seq::<char>::empty()),
    ensures
        auth_decision(rules, Some((user, password)), token) != Ok::<Seq<char>, ConnectDenied>(
            Seq::empty(),
        ),
{
}

/// Hexadecimal text is in lower case.
proof fn lemma_hex_is_lower(bytes: Seq<u8>)
    ensures
        lowered(text::hex(bytes)) == text::hex(bytes),
{
    assert forall|i: int| 0 <= i < text::hex(bytes).len() implies lower_char(
        #[trigger] text::hex(bytes)[i],
    ) == text::hex(bytes)[i] by {
        let b = bytes[i / 2];
        let d = if i % 2 == 0 {
            (b / 16) as int
        } else {
            (b % 16) as int
        };
        assert(0 <= d < 16);
        assert(text::hex(bytes)[i] == text::digits()[d]);
    }
    assert(lowered(text::hex(bytes)) =~= text::hex(bytes));
}

/// A user configured last under a name with the hash of a password gets in with that
/// password, and with no other that hashes differently.
pub proof fn law_configured_password_authenticates(
    cfg: AuthConfig,
    i: int,
    password: Seq<char>,
    attempt: Seq<char>,
    token: Option<Seq<char>>,
)
    requires
        0 <= i < cfg.users@.len(),
        cfg.users@[i].name@.len() > 0,
        cfg.users@[i].password_sha256@ == digest_text(password),
        forall|j: int|
            i < j < cfg.users@.len() ==> (#[trigger] cfg.users@[j]).name@ != cfg.users@[i].name@,
    ensures
        auth_decision(auth_rules(cfg), Some((cfg.users@[i].name@, attempt)), token) == (if digest_text(
            attempt,
        ) == digest_text(password) {
            Ok(cfg.users@[i].name@)
        } else {
            Err(ConnectDenied::BadCredentials)
        }),
{
    lemma_last_entry_counts(cfg.users@, i);
    lemma_hex_is_lower(sha256(vstd::utf8::encode_utf8(password)));
}

proof fn lemma_last_entry_counts(users: Seq<UserCred>, i: int)
    requires
        0 <= i < users.len(),
        forall|j: int| i < j < users.len() ==> (#[trigger] users[j]).name@ != users[i].name@,
    ensures
        user_hashes(users).dom().contains(users[i].name@),
        user_hashes(users)[users[i].name@] == lowered(users[i].password_sha256@),
    decreases users.len(),
{
    if i < users.len() - 1 {
        assert(users.last() == users[users.len() - 1]);
        lemma_last_entry_counts(users.drop_last(), i);
    }
}

/// Topic grants per identity, and what holds where none applies.
pub struct Acl {
    rules: Vec<AclRule>,
    default_allow: bool,
}

impl View for Acl {
    type V = (Seq<AclRule>, bool);

    closed spec fn view(&self) -> (Seq<AclRule>, bool) {
        (self.rules@, self.default_allow)
    }
}

/// Whether a rule speaks of a user: by name, or as "*".
pub open spec fn applies(rule: AclRule, user: Seq<char>) -> bool {
    rule.user@ == "*"@ || rule.user@ == user
}

/// A rule that grants the user the right to publish on the topic.
pub open spec fn grants_publish(rule: AclRule, user: Seq<char>, topic: Seq<char>) -> bool {
    applies(rule, user) && exists|j: int|
        0 <= j < rule.publish@.len() && topic::filter_matches(
            (#[trigger] rule.publish@[j])@,
            topic,
        )
}

/// A rule that grants the user the right to subscribe to the filter.
pub open spec fn grants_subscribe(rule: AclRule, user: Seq<char>, filter: Seq<char>) -> bool {
    applies(rule, user) && exists|j: int|
        0 <= j < rule.subscribe@.len() && topic::covers((#[trigger] rule.subscribe@[j])@, filter)
}

pub open spec fn publish_allowed(
    acl: (Seq<AclRule>, bool),
    user: Seq<char>,
    topic: Seq<char>,
) -> bool {
    acl.1 || exists|i: int|
        0 <= i < acl.0.len() && grants_publish(#[trigger] acl.0[i], user, topic)
}

pub open spec fn subscribe_allowed(
    acl: (Seq<AclRule>, bool),
    user: Seq<char>,
    filter: Seq<char>,
) -> bool {
    acl.1 || exists|i: int|
        0 <= i < acl.0.len() && grants_subscribe(#[trigger] acl.0[i], user, filter)
}

fn rule_applies(rule: &AclRule, user: &str) -> (r: bool)
    ensures
        r == applies(*rule, user@),
{
    *rule.user.as_str() == *"*" || *rule.user.as_str() == *user
}

impl Acl {
    pub fn new(rules: Vec<AclRule>, policy: Policy) -> (r: Self)
        ensures
            r@ == (rules@, policy == Policy::Allow),
    {
        Acl { rules, default_allow: policy == Policy::Allow }
    }

    pub fn may_publish(&self, user: &str, topic_name: &str) -> (r: bool)
        ensures
            r == publish_allowed(self@, user@, topic_name@),
    {
        if self.default_allow {
            return true;
        }
        let mut i: usize = 0;
        while i < self.rules.len()
            invariant
                i <= self.rules@.len(),
                forall|k: int|
                    0 <= k < i ==> !grants_publish(
                        #[trigger] self.rules@[k],
                        user@,
                        topic_name@,
                    ),
            decreases self.rules.len() - i,
        {
            if rule_applies(&self.rules[i], user) && any_matches(
                &self.rules[i].publish,
                topic_name,
            ) {
                assert(grants_publish(self@.0[i as int], user@, topic_name@));
                return true;
            }
            i = i + 1;
        }
        false
    }

    pub fn may_subscribe(&self, user: &str, filter: &str) -> (r: bool)
        ensures
            r == subscribe_allowed(self@, user@, filter@),
    {
        if self.default_allow {
            return true;
        }
        let mut i: usize = 0;
        while i < self.rules.len()
            invariant
                i <= self.rules@.len(),
                forall|k: int|
                    0 <= k < i ==> !grants_subscribe(#[trigger] self.rules@[k], user@, filter@),
            decreases self.rules.len() - i,
        {
            if rule_applies(&self.rules[i], user) && any_covers(&self.rules[i].subscribe, filter) {
                assert(grants_subscribe(self@.0[i as int], user@, filter@));
                return true;
            }
            i = i + 1;
        }
        false
    }
}

/// Whether one of the filters matches the topic.
fn any_matches(filters: &Vec<String>, topic_name: &str) -> (r: bool)
    ensures
        r == exists|j: int|
            0 <= j < filters@.len() && topic::filter_matches(
                (#[trigger] filters@[j])@,
                topic_name@,
            ),
{
    let mut i: usize = 0;
    while i < filters.len()
        invariant
            i <= filters@.len(),
            forall|k: int|
                0 <= k < i ==> !topic::filter_matches((#[trigger] filters@[k])@, topic_name@),
        decreases filters.len() - i,
    {
        if topic_matches(filters[i].as_str(), topic_name) {
            return true;
        }
        i = i + 1;
    }
    false
}

/// Whether one of the filters covers the filter asked for.
fn any_covers(filters: &Vec<String>, filter: &str) -> (r: bool)
    ensures
        r == exists|j: int|
            0 <= j < filters@.len() && topic::covers((#[trigger] filters@[j])@, filter@),
{
    let mut i: usize = 0;
    while i < filters.len()
        invariant
            i <= filters@.len(),
            forall|k: int| 0 <= k < i ==> !topic::covers((#[trigger] filters@[k])@, filter@),
        decreases filters.len() - i,
    {
        if filter_covers(filters[i].as_str(), filter) {
            return true;
        }
        i = i + 1;
    }
    false
}

/// A granted subscription hands out nothing beyond the grants: under a deny policy
/// every topic that the filter matches is matched by a filter granted to the user.
pub proof fn law_granted_subscription_stays_within_grants(
    rules: Seq<AclRule>,
    user: Seq<char>,
    filter: Seq<char>,
    topic: Seq<char>,
)
    requires
        subscribe_allowed((rules, false), user, filter),
        topic::filter_matches(filter, topic),
    ensures
        exists|i: int, j: int|
            0 <= i < rules.len() && applies(rules[i], user) && 0 <= j < rules[i].subscribe@.len()
                && topic::filter_matches((#[trigger] rules[i].subscribe@[j])@, topic),
{
    let i = choose|i: int|
        0 <= i < rules.len() && grants_subscribe(#[trigger] rules[i], user, filter);
    let j = choose|j: int|
        0 <= j < rules[i].subscribe@.len() && topic::covers(
            (#[trigger] rules[i].subscribe@[j])@,
            filter,
        );
    topic_laws::law_coverage_sound(rules[i].subscribe@[j]@, filter, topic);
}

/// More rules never take a right away.
pub proof fn law_rules_only_add_rights(
    rules: Seq<AclRule>,
    more: Seq<AclRule>,
    allow: bool,
    user: Seq<char>,
    name: Seq<char>,
)
    ensures
        publish_allowed((rules, allow), user, name) ==> publish_allowed(
            (rules + more, allow),
            user,
            name,
        ),
        subscribe_allowed((rules, allow), user, name) ==> subscribe_allowed(
            (rules + more, allow),
            user,
            name,
        ),
{
    let all = rules + more;
    assert forall|i: int| 0 <= i < rules.len() implies #[trigger] rules[i] == all[i] by {}
    if publish_allowed((rules, allow), user, name) && !allow {
        let i = choose|i: int|
            0 <= i < rules.len() && grants_publish(#[trigger] rules[i], user, name);
        assert(grants_publish((all, allow).0[i], user, name));
    }
    if subscribe_allowed((rules, allow), user, name) && !allow {
        let i = choose|i: int|
            0 <= i < rules.len() && grants_subscribe(#[trigger] rules[i], user, name);
        assert(grants_subscribe((all, allow).0[i], user, name));
    }
}

/// Under a deny policy a user that no rule speaks of may do nothing.
pub proof fn law_deny_by_default(rules: Seq<AclRule>, user: Seq<char>, name: Seq<char>)
    requires
        forall|i: int| 0 <= i < rules.len() ==> !applies(#[trigger] rules[i], user),
    ensures
        !publish_allowed((rules, false), user, name),
        !subscribe_allowed((rules, false), user, name),
{
}

/// Under an allow policy everything is permitted, whatever the rules.
pub proof fn law_allow_policy_permits_all(rules: Seq<AclRule>, user: Seq<char>, name: Seq<char>)
    ensures
        publish_allowed((rules, true), user, name),
        subscribe_allowed((rules, true), user, name),
{
}

} // verus!
