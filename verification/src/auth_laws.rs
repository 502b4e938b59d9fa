//! Laws of authentication and authorization: who gets in under which identity, and which
//! rights the rules give, said of what the functions return.

use crate::auth::{self, Acl, Authenticator, ConnectDenied};
use crate::config::{AclRule, AuthConfig, Policy, UserCred};
use crate::text;
use crate::topic;
use vstd::prelude::*;
use vstd::string::*;

verus! {

/// A rule written for "*" grants its rights to every identity, and one written under the
/// user's own name to that user: where one of its publish filters matches the topic, the
/// publish is allowed, whatever the other rules and the default say.
pub proof fn law_rules_grant_publishes(
    acl: &Acl,
    user: &str,
    name: &str,
    r: bool,
    i: int,
    j: int,
)
    requires
        call_ensures(Acl::may_publish, (acl, user, name), r),
        0 <= i < acl@.0.len(),
        acl@.0[i].user@ == "*"@ || acl@.0[i].user@ == user@,
        0 <= j < acl@.0[i].publish@.len(),
        topic::filter_matches(acl@.0[i].publish@[j]@, name@),
    ensures
        r,
{
    assert(auth::grants_publish(acl@.0[i], user@, name@));
}

/// The same of subscriptions: where one of the subscribe filters of such a rule covers the
/// filter, the subscription is allowed.
pub proof fn law_rules_grant_subscriptions(
    acl: &Acl,
    user: &str,
    filter: &str,
    r: bool,
    i: int,
    j: int,
)
    requires
        call_ensures(Acl::may_subscribe, (acl, user, filter), r),
        0 <= i < acl@.0.len(),
        acl@.0[i].user@ == "*"@ || acl@.0[i].user@ == user@,
        0 <= j < acl@.0[i].subscribe@.len(),
        topic::covers(acl@.0[i].subscribe@[j]@, filter@),
    ensures
        r,
{
    assert(auth::grants_subscribe(acl@.0[i], user@, filter@));
}

/// Under a deny policy nothing is allowed but what a rule for "*" or for the user grants
/// by one of its own filters: publishes by the publish filters, subscriptions by the
/// subscribe filters.
pub proof fn law_only_rules_grant(
    acl: &Acl,
    user: &str,
    name: &str,
    publishes: bool,
    subscribes: bool,
)
    requires
        call_ensures(Acl::may_publish, (acl, user, name), publishes),
        call_ensures(Acl::may_subscribe, (acl, user, name), subscribes),
        !acl@.1,
    ensures
        publishes ==> exists|i: int, j: int|
            0 <= i < acl@.0.len() && (acl@.0[i].user@ == "*"@ || acl@.0[i].user@ == user@) && 0
                <= j < acl@.0[i].publish@.len() && topic::filter_matches(
                (#[trigger] acl@.0[i].publish@[j])@,
                name@,
            ),
        subscribes ==> exists|i: int, j: int|
            0 <= i < acl@.0.len() && (acl@.0[i].user@ == "*"@ || acl@.0[i].user@ == user@) && 0
                <= j < acl@.0[i].subscribe@.len() && topic::covers(
                (#[trigger] acl@.0[i].subscribe@[j])@,
                name@,
            ),
{
}

/// Under an allow policy everything is allowed; the policy and the rules of a
/// configuration are taken over as they are.
pub proof fn law_policies_are_taken_over(
    rules: Vec<AclRule>,
    policy: Policy,
    acl: Acl,
    user: &str,
    name: &str,
    publishes: bool,
    subscribes: bool,
)
    requires
        call_ensures(Acl::new, (rules, policy), acl),
        call_ensures(Acl::may_publish, (&acl, user, name), publishes),
        call_ensures(Acl::may_subscribe, (&acl, user, name), subscribes),
    ensures
        acl@.0 == rules@,
        policy is Allow ==> publishes && subscribes,
        policy is Deny ==> !acl@.1,
{
}

/// A client that names no user goes by the anonymous setting alone: with no login at all,
/// or with an empty username and either no password or no token settings.
pub proof fn law_anonymous_clients(
    a: &Authenticator,
    login: Option<(&str, &str)>,
    r: Result<String, ConnectDenied>,
)
    requires
        call_ensures(Authenticator::authenticate, (a, login), r),
        login matches Some((user, password)) ==> user@.len() == 0 && (password@.len() == 0
            || a@.tokens is None),
    ensures
        a@.allow_anonymous ==> (r matches Ok(identity) && identity@.len() == 0),
        !a@.allow_anonymous ==> r == Err::<String, ConnectDenied>(
            ConnectDenied::AnonymousNotAllowed,
        ),
{
}

/// A known user gets in, under that name, exactly with a password whose SHA-256 digest in
/// hexadecimal is the stored one; an unknown user is refused where there are no token
/// settings. The anonymous setting plays no part.
pub proof fn law_named_users(
    a: &Authenticator,
    user: &str,
    password: &str,
    r: Result<String, ConnectDenied>,
)
    requires
        call_ensures(Authenticator::authenticate, (a, Some((user, password))), r),
        user@.len() > 0,
    ensures
        a@.users.dom().contains(user@) && a@.users[user@] == text::hex(
            auth::sha256(vstd::utf8::encode_utf8(password@)),
        ) ==> (r matches Ok(identity) && identity@ == user@),
        a@.users.dom().contains(user@) && a@.users[user@] != text::hex(
            auth::sha256(vstd::utf8::encode_utf8(password@)),
        ) ==> r == Err::<String, ConnectDenied>(ConnectDenied::BadCredentials),
        !a@.users.dom().contains(user@) && a@.tokens is None ==> r == Err::<String, ConnectDenied>(
            ConnectDenied::BadCredentials,
        ),
{
}

/// With token settings, a login whose username is unknown, or empty beside a password,
/// stands or falls with its password as a token: it has to pass under the secret, with an
/// expiry and with the issuer and audience that are set, and the identity is the string
/// under the identity claim.
pub proof fn law_tokens_give_identities(
    a: &Authenticator,
    user: &str,
    password: &str,
    r: Result<String, ConnectDenied>,
    t: auth::TokenRules,
    required: Seq<Seq<char>>,
)
    requires
        call_ensures(Authenticator::authenticate, (a, Some((user, password))), r),
        a@.tokens == Some(t),
        user@.len() > 0 ==> !a@.users.dom().contains(user@),
        user@.len() == 0 ==> password@.len() > 0,
        t.issuer is None && t.audience is None ==> required == seq!["exp"@],
        t.issuer is Some && t.audience is None ==> required == seq!["exp"@, "iss"@],
        t.issuer is None && t.audience is Some ==> required == seq!["exp"@, "aud"@],
        t.issuer is Some && t.audience is Some ==> required == seq!["exp"@, "iss"@, "aud"@],
    ensures
        exists|now: nat|
            match #[trigger] auth::token_claims(
                password@,
                vstd::utf8::encode_utf8(t.secret),
                t.issuer,
                t.audience,
                required,
                now,
            ) {
                Some(claims) => match auth::json_string_member(claims, t.identity_claim) {
                    Some(id) => r matches Ok(identity) && identity@ == id,
                    None => r == Err::<String, ConnectDenied>(ConnectDenied::BadCredentials),
                },
                None => r == Err::<String, ConnectDenied>(ConnectDenied::BadCredentials),
            },
{
    assert(auth::required_claims(t) =~= required);
    let now = choose|now: nat|
        auth::identity_text(r) == auth::auth_decision(
            a@,
            auth::login_text(Some((user, password))),
            #[trigger] auth::token_identity(a@.tokens->0, password@, now),
        );
    let claims = auth::token_claims(
        password@,
        vstd::utf8::encode_utf8(t.secret),
        t.issuer,
        t.audience,
        required,
        now,
    );
    assert(claims is Some ==> auth::token_identity(t, password@, now)
        == auth::json_string_member(claims->0, t.identity_claim));
}

/// Given the outcome of the token, a login is decided alike: the token counts where the
/// username is unknown, or empty beside a password, and token settings are present.
pub proof fn law_token_outcomes_decide(
    a: &Authenticator,
    user: &str,
    password: &str,
    token: Option<String>,
    r: Result<String, ConnectDenied>,
)
    requires
        call_ensures(Authenticator::decide, (a, Some((user, password)), token), r),
        a@.tokens is Some,
        user@.len() > 0 ==> !a@.users.dom().contains(user@),
        user@.len() == 0 ==> password@.len() > 0,
    ensures
        token matches Some(id) ==> (r matches Ok(identity) && identity@ == id@),
        token is None ==> r == Err::<String, ConnectDenied>(ConnectDenied::BadCredentials),
{
}

/// The users of a configuration are those that an authenticator knows: under each name the
/// last entry counts, and its hash is read without regard to the case of ASCII letters.
pub proof fn law_configured_users_are_known(cfg: &AuthConfig, a: Authenticator, user: Seq<char>)
    requires
        call_ensures(Authenticator::new, (cfg,), a),
    ensures
        a@.users.dom().contains(user) <==> exists|i: int|
            0 <= i < cfg.users@.len() && (#[trigger] cfg.users@[i]).name@ == user,
        forall|i: int|
            0 <= i < cfg.users@.len() && (#[trigger] cfg.users@[i]).name@ == user && (forall|j: int|
                i < j < cfg.users@.len() ==> (#[trigger] cfg.users@[j]).name@ != user)
                ==> same_but_case(cfg.users@[i].password_sha256@, a@.users[user]),
        a@.allow_anonymous == cfg.allow_anonymous,
        cfg.jwt is None ==> a@.tokens is None,
        cfg.jwt matches Some(jwt) ==> {
            &&& a@.tokens matches Some(t)
            &&& t.secret == jwt.hmac_secret@
            &&& t.identity_claim == jwt.identity_claim@
            &&& t.issuer is Some <==> jwt.issuer is Some
            &&& jwt.issuer matches Some(issuer) ==> t.issuer == Some(issuer@)
            &&& t.audience is Some <==> jwt.audience is Some
            &&& jwt.audience matches Some(audience) ==> t.audience == Some(audience@)
        },
{
    lemma_users(cfg.users@, user);
}

/// Whether `low` is `s` with its ASCII capitals replaced by small letters.
pub open spec fn same_but_case(s: Seq<char>, low: Seq<char>) -> bool {
    &&& s.len() == low.len()
    &&& forall|k: int|
        0 <= k < s.len() ==> if 'A' <= #[trigger] s[k] && s[k] <= 'Z' {
            low[k] as u32 == s[k] as u32 + 32
        } else {
            low[k] == s[k]
        }
}

proof fn lemma_users(users: Seq<UserCred>, user: Seq<char>)
    ensures
        auth::user_hashes(users).dom().contains(user) <==> exists|i: int|
            0 <= i < users.len() && (#[trigger] users[i]).name@ == user,
        forall|i: int|
            0 <= i < users.len() && (#[trigger] users[i]).name@ == user && (forall|j: int|
                i < j < users.len() ==> (#[trigger] users[j]).name@ != user) ==> same_but_case(
                users[i].password_sha256@,
                auth::user_hashes(users)[user],
            ),
    decreases users.len(),
{
    if users.len() > 0 {
        let before = users.drop_last();
        lemma_users(before, user);
        assert(users.last() == users[users.len() - 1]);
        assert(forall|i: int| 0 <= i < before.len() ==> #[trigger] before[i] == users[i]);
        if users.last().name@ == user {
            let s = users.last().password_sha256@;
            let low = auth::user_hashes(users)[user];
            assert(low == auth::lowered(s));
            assert forall|k: int| 0 <= k < s.len() implies if 'A' <= #[trigger] s[k] && s[k]
                <= 'Z' {
                low[k] as u32 == s[k] as u32 + 32
            } else {
                low[k] == s[k]
            } by {
                assert(low[k] == auth::lower_char(s[k]));
            }
        } else if exists|i: int| 0 <= i < users.len() && (#[trigger] users[i]).name@ == user {
            let i = choose|i: int| 0 <= i < users.len() && (#[trigger] users[i]).name@ == user;
            assert(before[i].name@ == user);
        }
        assert forall|i: int|
            0 <= i < users.len() && (#[trigger] users[i]).name@ == user && (forall|j: int|
                i < j < users.len() ==> (#[trigger] users[j]).name@
                    != user) implies same_but_case(
            users[i].password_sha256@,
            auth::user_hashes(users)[user],
        ) by {
            if i < before.len() {
                assert(before[i].name@ == user);
                assert forall|j: int| i < j < before.len() implies (#[trigger] before[j]).name@
                    != user by {
                    assert(users[j].name@ != user);
                }
                assert(users[users.len() - 1].name@ != user);
            }
        }
    }
}

/// The digest of a password is written with two small hexadecimal digits per byte.
pub proof fn law_digests_are_hexadecimal(s: &str, r: String)
    requires
        call_ensures(auth::sha256_hex, (s,), r),
    ensures
        r@ == text::hex(auth::sha256(vstd::utf8::encode_utf8(s@))),
        r@.len() == 64,
{
}


/// The rights of a rule, said of the rules alone: one for "*" gives them to every user, one
/// for a user to that user, and no rule gives them to anybody else.
pub proof fn law_rights_of_one_rule(
    rule: AclRule,
    user: Seq<char>,
    name: Seq<char>,
    publishes: Seq<Seq<char>>,
    subscribes: Seq<Seq<char>>,
)
    requires
        publishes == text::texts(rule.publish@),
        subscribes == text::texts(rule.subscribe@),
    ensures
        auth::publish_allowed((seq![rule], false), user, name) <==> (rule.user@ == "*"@
            || rule.user@ == user) && exists|j: int|
            0 <= j < publishes.len() && topic::filter_matches(#[trigger] publishes[j], name),
        auth::subscribe_allowed((seq![rule], false), user, name) <==> (rule.user@ == "*"@
            || rule.user@ == user) && exists|j: int|
            0 <= j < subscribes.len() && topic::covers(#[trigger] subscribes[j], name),
{
    let rules = seq![rule];
    assert(rules[0] == rule);
    if auth::publish_allowed((rules, false), user, name) {
        let i = choose|i: int|
            0 <= i < rules.len() && auth::grants_publish(#[trigger] rules[i], user, name);
        assert(rules[i] == rule);
        let j = choose|j: int|
            0 <= j < rule.publish@.len() && topic::filter_matches(
                (#[trigger] rule.publish@[j])@,
                name,
            );
        assert(topic::filter_matches(publishes[j], name));
    }
    if (rule.user@ == "*"@ || rule.user@ == user) && exists|j: int|
        0 <= j < publishes.len() && topic::filter_matches(#[trigger] publishes[j], name) {
        let j = choose|j: int|
            0 <= j < publishes.len() && topic::filter_matches(#[trigger] publishes[j], name);
        assert(topic::filter_matches(rule.publish@[j]@, name));
        assert(auth::grants_publish((rules, false).0[0], user, name));
    }
    if auth::subscribe_allowed((rules, false), user, name) {
        let i = choose|i: int|
            0 <= i < rules.len() && auth::grants_subscribe(#[trigger] rules[i], user, name);
        assert(rules[i] == rule);
        let j = choose|j: int|
            0 <= j < rule.subscribe@.len() && topic::covers((#[trigger] rule.subscribe@[j])@, name);
        assert(topic::covers(subscribes[j], name));
    }
    if (rule.user@ == "*"@ || rule.user@ == user) && exists|j: int|
        0 <= j < subscribes.len() && topic::covers(#[trigger] subscribes[j], name) {
        let j = choose|j: int|
            0 <= j < subscribes.len() && topic::covers(#[trigger] subscribes[j], name);
        assert(topic::covers(rule.subscribe@[j]@, name));
        assert(auth::grants_subscribe((rules, false).0[0], user, name));
    }
}

} // verus!
