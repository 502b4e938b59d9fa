//! Laws of the way into the node, said of what each stage returns and leaves: which
//! CONNECT is let in and under what name, why another is refused, how it is counted, and
//! how churn, admission control and quotas judge.

use crate::admission::{self, ConnectAdmission};
use crate::auth::{self, ConnectDenied};
use crate::churn::{self, ChurnGuard};
use crate::clock::MAX_NANOS;
use crate::gate::{self, ClientEvent, ConnectOutcome, Gate, Refusal};
use crate::metrics::Metrics;
use crate::packet::{self, Connect, ConnectCode, Incoming};
use crate::policy::Policies;
use crate::quota::{self, IdentityConns, QuotaPolicy};
use crate::text;
use vstd::prelude::*;
use vstd::string::*;

verus! {

/// A CONNECT is let in exactly where every stage agrees: admission control has let it
/// pass, it has an identity, its client id does not flap, and its identity holds fewer
/// connections than its cap. It gets in under its own client id with the session that it
/// asks for, and under the identity that was found; one without a client id gets a name
/// made from the stamp, and a clean session.
pub proof fn law_who_is_let_in(
    gate: &mut Gate,
    policies: &Policies,
    counters: &mut Metrics,
    connect: &Connect,
    admitted: bool,
    identity: Result<String, ConnectDenied>,
    now: u128,
    peer: &str,
    stamp: u128,
    r: ConnectOutcome,
    name: Seq<char>,
)
    requires
        call_ensures(
            gate::judge_connect,
            (gate, policies, counters, connect, admitted, identity, now, peer, stamp),
            r,
        ),
        connect.client_id@.len() > 0 ==> name == connect.client_id@,
        connect.client_id@.len() == 0 ==> name == "entmoot-anon-"@ + text::decimal(stamp as nat),
        old(gate).conns.count(identity->Ok_0@) < usize::MAX,
    ensures
        r is Accepted <==> {
            &&& admitted
            &&& identity is Ok
            &&& churn::guarded_attempt(
                old(gate).churn.rules(),
                old(gate).churn@,
                name,
                now,
            ).1 is Admit
            &&& quota::cap(policies@.quota, identity->Ok_0@) matches Some(cap) ==> old(
                gate,
            ).conns.count(identity->Ok_0@) < cap
        },
        r matches ConnectOutcome::Accepted(entry) ==> {
            &&& entry.client_id@ == name
            &&& entry.identity@ == identity->Ok_0@
            &&& connect.client_id@.len() > 0 ==> entry.clean == connect.clean_session
            &&& connect.client_id@.len() == 0 ==> entry.clean
        },
{
}

/// The first stage that objects is the reason of a refusal: admission control, then the
/// credentials, then churn, then the quota. Wrong credentials are answered with "bad
/// username or password", an anonymous client that may not be one with "not authorized",
/// everything else with "service unavailable"; and only failed credentials are reported.
pub proof fn law_why_a_connect_is_refused(
    gate: &mut Gate,
    policies: &Policies,
    counters: &mut Metrics,
    connect: &Connect,
    admitted: bool,
    identity: Result<String, ConnectDenied>,
    now: u128,
    peer: &str,
    stamp: u128,
    r: ConnectOutcome,
    why: Refusal,
    event: Option<ClientEvent>,
    code: ConnectCode,
)
    requires
        call_ensures(
            gate::judge_connect,
            (gate, policies, counters, connect, admitted, identity, now, peer, stamp),
            r,
        ),
        r == ConnectOutcome::Refused(why, event),
        call_ensures(Refusal::code, (why,), code),
    ensures
        !admitted <==> why is Shed,
        admitted && identity is Err <==> why is Denied,
        why matches Refusal::Denied(denied) ==> identity == Err::<String, ConnectDenied>(denied),
        why is Quarantined ==> admitted && identity is Ok,
        why is OverQuota ==> admitted && identity is Ok,
        event is Some <==> why is Denied,
        event matches Some(e) ==> (connect.client_id@.len() > 0 ==> e.client_id@
            == connect.client_id@),
        why == Refusal::Denied(ConnectDenied::BadCredentials) <==> code
            == ConnectCode::BadUserNamePassword,
        why == Refusal::Denied(ConnectDenied::AnonymousNotAllowed) <==> code
            == ConnectCode::NotAuthorized,
        why is Shed || why is Quarantined || why is OverQuota <==> code
            == ConnectCode::ServiceUnavailable,
{
}

/// Every CONNECT is counted once, by what became of it, and only one that was let in takes
/// a connection of its identity; the churn history changes only for a CONNECT that has an
/// identity, and only under its own name.
pub proof fn law_connects_are_counted_once(
    gate: &mut Gate,
    policies: &Policies,
    counters: &mut Metrics,
    connect: &Connect,
    admitted: bool,
    identity: Result<String, ConnectDenied>,
    now: u128,
    peer: &str,
    stamp: u128,
    r: ConnectOutcome,
    other: Seq<char>,
)
    requires
        call_ensures(
            gate::judge_connect,
            (gate, policies, counters, connect, admitted, identity, now, peer, stamp),
            r,
        ),
        old(counters).connections_total < u64::MAX,
        old(counters).connect_shed_total < u64::MAX,
        old(counters).connect_refused_total < u64::MAX,
        old(counters).churn_quarantined_total < u64::MAX,
        old(counters).quota_refused_total < u64::MAX,
    ensures
        ({
            let one = |b: bool| if b {
                1int
            } else {
                0int
            };
            *final(counters) == (Metrics {
                connections_total: (old(counters).connections_total + one(
                    r is Accepted,
                )) as u64,
                connect_shed_total: (old(counters).connect_shed_total + one(
                    r matches ConnectOutcome::Refused(Refusal::Shed, _),
                )) as u64,
                connect_refused_total: (old(counters).connect_refused_total + one(
                    r matches ConnectOutcome::Refused(Refusal::Denied(_), _),
                )) as u64,
                churn_quarantined_total: (old(counters).churn_quarantined_total + one(
                    r matches ConnectOutcome::Refused(Refusal::Quarantined, _),
                )) as u64,
                quota_refused_total: (old(counters).quota_refused_total + one(
                    r matches ConnectOutcome::Refused(Refusal::OverQuota, _),
                )) as u64,
                ..*old(counters)
            })
        }),
        final(gate).conns.count(other) == old(gate).conns.count(other) + (if r is Accepted && other
            == identity->Ok_0@ {
            1int
        } else {
            0int
        }),
        !admitted || identity is Err ==> final(gate).churn@ == old(gate).churn@,
        connect.client_id@.len() > 0 && other != connect.client_id@ ==> churn::history_of(
            final(gate).churn@,
            other,
        ) == churn::history_of(old(gate).churn@, other),
{
}

/// A client with a certificate gets in, if at all, under the name in it, and is never
/// refused for its login. Without one, a client that names no user is refused as anonymous
/// or gets in without a name, as the setting is; and one that names a known user gets in
/// under that name or not at all.
pub proof fn law_identities_at_the_entrance(
    gate: &mut Gate,
    policies: &Policies,
    counters: &mut Metrics,
    connect: &Connect,
    certificate: Option<String>,
    peer: &str,
    stamp: u128,
    r: ConnectOutcome,
)
    requires
        call_ensures(
            gate::pass_gate,
            (gate, policies, counters, connect, certificate, peer, stamp),
            r,
        ),
    ensures
        certificate matches Some(cn) ==> {
            &&& r matches ConnectOutcome::Accepted(entry) ==> entry.identity@ == cn@
            &&& !(r matches ConnectOutcome::Refused(Refusal::Denied(_), _))
        },
        certificate is None && connect.login is None ==> {
            &&& r matches ConnectOutcome::Accepted(entry) ==> policies@.auth.allow_anonymous
                && entry.identity@.len() == 0
            &&& r matches ConnectOutcome::Refused(Refusal::Denied(why), _)
                ==> !policies@.auth.allow_anonymous && why is AnonymousNotAllowed
        },
        certificate is None && (connect.login matches Some(login) && login.username@.len() > 0
            && policies@.auth.users.dom().contains(login.username@)) ==> {
            let login = connect.login->0;
            let matches_hash = policies@.auth.users[login.username@] == text::hex(
                auth::sha256(vstd::utf8::encode_utf8(login.password@)),
            );
            &&& r matches ConnectOutcome::Accepted(entry) ==> matches_hash && entry.identity@
                == login.username@
            &&& r matches ConnectOutcome::Refused(Refusal::Denied(why), _) ==> !matches_hash
                && why is BadCredentials
        },
{
}

/// A connection has to begin with a CONNECT; whatever else comes first is handed back.
pub proof fn law_connections_begin_with_a_connect(p: Incoming, r: Result<Connect, Incoming>)
    requires
        call_ensures(gate::first_packet, (p,), r),
    ensures
        p matches Incoming::Connect(c) ==> r == Ok::<Connect, Incoming>(c),
        r is Ok <==> p is Connect,
        r matches Err(other) ==> other == p,
{
}

/// The events of a client go on the `$meta` key that names the node and the client.
pub proof fn law_event_keys(node: &str, client_id: &str, scope: &str, r: String)
    requires
        call_ensures(gate::event_keyexpr, (node, client_id, scope), r),
    ensures
        scope@.len() == 0 ==> r@ == "@meta/clients/"@ + node@ + "/"@ + client_id@,
        scope@.len() > 0 ==> r@ == scope@ + "/@meta/clients/"@ + node@ + "/"@ + client_id@,
{
    reveal_strlit("@meta");
    reveal_strlit("clients/");
    reveal_strlit("@meta/clients/");
    reveal_strlit("/@meta/clients/");
    let suffix = "clients/"@ + node@ + "/"@ + client_id@;
    if scope@.len() == 0 {
        assert(r@ =~= "@meta/clients/"@ + node@ + "/"@ + client_id@);
    } else {
        assert(r@ =~= scope@ + "/@meta/clients/"@ + node@ + "/"@ + client_id@);
    }
}

/// A client in quarantine is refused until its time has come and its history is left as
/// it is; at that time, and where nothing is known of it, it is let in and its history
/// begins with this connect. With a limit of 0 everyone is let in and nothing is kept.
pub proof fn law_quarantines_are_kept(
    guard: &mut ChurnGuard,
    client_id: &str,
    now: u128,
    r: churn::Verdict,
)
    requires
        call_ensures(ChurnGuard::admit_client_at, (guard, client_id, now), r),
    ensures
        ({
            let known = old(guard)@.dom().contains(client_id@);
            let h = old(guard)@[client_id@];
            let next = final(guard)@[client_id@];
            &&& old(guard).rules().max_reconnects == 0 ==> r is Admit && final(guard)@ == old(guard)@
            &&& old(guard).rules().max_reconnects > 0 ==> {
                &&& final(guard)@.dom().contains(client_id@)
                &&& known && (h.until matches Some(until) && now < until) ==> r is Quarantined
                    && next == h
                &&& !known || (h.until matches Some(until) && now >= until) ==> r is Admit
                    && next.until is None && next.connects =~= seq![now]
                &&& final(guard)@.remove(client_id@) =~= old(guard)@.remove(client_id@)
            }
        }),
{
}

/// A client that is not in quarantine is judged by its connects within the window, this
/// one included: those before `k` are older, those from `k` on are not. It is let in
/// where there are no more than the limit; one more and it is in quarantine for the
/// cooldown.
pub proof fn law_connects_in_the_window_decide(
    guard: &mut ChurnGuard,
    client_id: &str,
    now: u128,
    r: churn::Verdict,
    k: int,
)
    requires
        call_ensures(ChurnGuard::admit_client_at, (guard, client_id, now), r),
        old(guard).rules().max_reconnects > 0,
        old(guard).rules().cooldown <= MAX_NANOS,
        now <= MAX_NANOS,
        old(guard)@.dom().contains(client_id@),
        old(guard)@[client_id@].until is None,
        ({
            let connects = old(guard)@[client_id@].connects;
            &&& 0 <= k <= connects.len()
            &&& forall|i: int|
                0 <= i < k ==> now - #[trigger] connects[i] >= old(guard).rules().window
            &&& forall|i: int|
                k <= i < connects.len() ==> now - #[trigger] connects[i] < old(
                    guard,
                ).rules().window
            &&& forall|i: int| 0 <= i < connects.len() ==> #[trigger] connects[i] <= now
        }),
    ensures
        ({
            let connects = old(guard)@[client_id@].connects;
            let inside = connects.len() - k + 1;
            let next = final(guard)@[client_id@];
            &&& next.connects =~= connects.skip(k).push(now)
            &&& r is Admit <==> inside <= old(guard).rules().max_reconnects
            &&& r is Admit ==> next.until is None
            &&& r is Quarantined ==> (next.until matches Some(until) && until == now + old(
                guard,
            ).rules().cooldown)
        }),
{
    lemma_recent(old(guard)@[client_id@].connects, now, old(guard).rules().window, k);
}

proof fn lemma_recent(connects: Seq<u128>, now: u128, window: u128, k: int)
    requires
        0 <= k <= connects.len(),
        forall|i: int| 0 <= i < k ==> now - #[trigger] connects[i] >= window,
        forall|i: int| k <= i < connects.len() ==> now - #[trigger] connects[i] < window,
        forall|i: int| 0 <= i < connects.len() ==> #[trigger] connects[i] <= now,
    ensures
        churn::recent(connects, now, window) == connects.skip(k),
    decreases connects.len(),
{
    if k == 0 {
        assert(connects.skip(0) =~= connects);
        if connects.len() > 0 {
            assert(now - connects[0] < window);
        }
    } else {
        assert(now - connects[0] >= window);
        let rest = connects.skip(1);
        assert forall|i: int| 0 <= i < rest.len() implies #[trigger] rest[i] == connects[i
            + 1] by {}
        lemma_recent(rest, now, window, k - 1);
        assert(rest.skip(k - 1) =~= connects.skip(k));
    }
}

/// The times of a guard are those of its configuration, in nanoseconds; a duration of 0
/// seconds counts as one.
pub proof fn law_churn_settings(
    max_reconnects: u32,
    window_secs: u64,
    cooldown_secs: u64,
    guard: ChurnGuard,
)
    requires
        call_ensures(ChurnGuard::new, (max_reconnects, window_secs, cooldown_secs), guard),
    ensures
        guard.wf(),
        guard.rules().max_reconnects == max_reconnects,
        window_secs > 0 ==> guard.rules().window == window_secs * 1_000_000_000,
        window_secs == 0 ==> guard.rules().window == 1_000_000_000,
        cooldown_secs > 0 ==> guard.rules().cooldown == cooldown_secs * 1_000_000_000,
        cooldown_secs == 0 ==> guard.rules().cooldown == 1_000_000_000,
        guard@.dom() =~= Set::empty(),
{
}

/// A sweep keeps the history of a client exactly while its quarantine runs or, without
/// one, while its last connect is less than the idle time ago, and keeps it as it is.
pub proof fn law_what_a_churn_sweep_keeps(
    guard: &mut ChurnGuard,
    now: u128,
    idle_after: u128,
    client_id: Seq<char>,
)
    requires
        call_ensures(ChurnGuard::sweep_at, (guard, now, idle_after), ()),
        old(guard)@.dom().contains(client_id),
        old(guard)@[client_id].connects.len() > 0,
        old(guard)@[client_id].connects.last() <= now,
    ensures
        ({
            let h = old(guard)@[client_id];
            &&& h.until matches Some(until) ==> (final(guard)@.dom().contains(client_id) <==> now
                < until)
            &&& h.until is None ==> (final(guard)@.dom().contains(client_id) <==> now
                - h.connects.last() < idle_after)
            &&& final(guard)@.dom().contains(client_id) ==> final(guard)@[client_id] == h
        }),
        forall|c: Seq<char>| #[trigger]
            final(guard)@.dom().contains(c) ==> old(guard)@.dom().contains(c),
{
}

/// Admission control keeps to the configured rate, with the configured burst or, where
/// that is less, with one of the rate itself; a rate of 0 lets every CONNECT pass.
pub proof fn law_admission_settings(
    rate: u32,
    burst: u32,
    made: ConnectAdmission,
    admission: &mut ConnectAdmission,
    r: bool,
)
    requires
        call_ensures(ConnectAdmission::new, (rate, burst), made),
        call_ensures(ConnectAdmission::admit_connect, (admission,), r),
        *old(admission) == made,
    ensures
        rate == 0 ==> made@ is None && r,
        rate > 0 && burst >= rate ==> made@ == Some((rate, burst)),
        rate > 0 && burst < rate ==> made@ == Some((rate, rate)),
        final(admission)@ == made@,
{
}

/// An identity gets one connection more exactly while it holds fewer than its cap, and
/// then holds one more; a release gives one back. No other identity is touched.
pub proof fn law_connections_are_held_and_released(
    conns: &mut IdentityConns,
    identity: &str,
    limit: Option<usize>,
    r: bool,
    later: &mut IdentityConns,
    other: Seq<char>,
)
    requires
        call_ensures(IdentityConns::try_admit, (conns, identity, limit), r),
        call_ensures(IdentityConns::release, (later, identity), ()),
        old(conns).count(identity@) < usize::MAX,
        other != identity@,
    ensures
        limit matches Some(cap) ==> (r <==> old(conns).count(identity@) < cap),
        limit is None ==> r,
        r ==> final(conns).count(identity@) == old(conns).count(identity@) + 1,
        !r ==> final(conns).count(identity@) == old(conns).count(identity@),
        final(conns).count(other) == old(conns).count(other),
        old(later).count(identity@) > 0 ==> final(later).count(identity@) == old(later).count(
            identity@,
        ) - 1,
        old(later).count(identity@) == 0 ==> final(later).count(identity@) == 0,
        final(later).count(other) == old(later).count(other),
{
}

/// The cap of an identity is that of the first rule under its own name, or else of the
/// first rule for "*"; a cap of 0 is none.
pub proof fn law_caps(quota: &QuotaPolicy, identity: &str, r: Option<usize>, i: int)
    requires
        call_ensures(QuotaPolicy::max_connections_for, (quota, identity), r),
        0 <= i < quota@.len(),
        ({
            let own = exists|j: int|
                0 <= j < quota@.len() && (#[trigger] quota@[j]).user@ == identity@;
            let name = if own {
                identity@
            } else {
                "*"@
            };
            &&& quota@[i].user@ == name
            &&& forall|j: int| 0 <= j < i ==> (#[trigger] quota@[j]).user@ != name
        }),
    ensures
        quota@[i].max_connections == 0 ==> r is None,
        quota@[i].max_connections > 0 ==> r == Some(quota@[i].max_connections),
{
    if exists|j: int| 0 <= j < quota@.len() && (#[trigger] quota@[j]).user@ == identity@ {
        quota::law_own_rule_wins(quota@, identity@, i);
    } else {
        quota::law_wildcard_is_the_fallback(quota@, identity@, i);
    }
}


/// Without a certificate the login decides who a client is; with one its name does, even
/// where the login would be refused.
pub proof fn law_logins_decide_without_a_certificate(
    a: &auth::Authenticator,
    login: Option<(&str, &str)>,
    token: Option<String>,
    r: Result<String, ConnectDenied>,
    name: Seq<char>,
)
    requires
        call_ensures(auth::Authenticator::decide, (a, login, token), r),
    ensures
        ({
            let words = auth::login_text(login);
            let given = text::opt_string(token);
            &&& r matches Ok(identity) ==> gate::connect_identity(a@, words, None, given) == Ok::<
                Seq<char>,
                ConnectDenied,
            >(identity@)
            &&& r matches Err(why) ==> gate::connect_identity(a@, words, None, given) == Err::<
                Seq<char>,
                ConnectDenied,
            >(why)
            &&& gate::connect_identity(a@, words, Some(name), given) == Ok::<
                Seq<char>,
                ConnectDenied,
            >(name)
        }),
{
}

/// The event of failed credentials tells the client, where it has a name, the address, the
/// user that was named and the reason.
pub proof fn law_failed_logins_are_reported(
    gate: &mut Gate,
    policies: &Policies,
    counters: &mut Metrics,
    connect: &Connect,
    why: ConnectDenied,
    now: u128,
    peer: &str,
    stamp: u128,
    r: ConnectOutcome,
)
    requires
        call_ensures(
            gate::judge_connect,
            (
                gate,
                policies,
                counters,
                connect,
                true,
                Err::<String, ConnectDenied>(why),
                now,
                peer,
                stamp,
            ),
            r,
        ),
    ensures
        ({
            let user = match connect.login {
                Some(login) => login.username@,
                None => "<anonymous>"@,
            };
            let reason = if why is BadCredentials {
                "BadCredentials"@
            } else {
                "AnonymousNotAllowed"@
            };
            &&& r matches ConnectOutcome::Refused(Refusal::Denied(told), Some(event))
            &&& told == why
            &&& event.client_id@ == (if connect.client_id@.len() == 0 {
                "<unknown>"@
            } else {
                connect.client_id@
            })
            &&& event.text@ == "auth_fail addr="@ + peer@ + " user="@ + user + " reason="@ + reason
        }),
{
}

/// By its own clock a guard judges as it does at the time on that clock, and the clock
/// does not go back.
pub proof fn law_guards_go_by_their_clock(
    guard: &mut ChurnGuard,
    client_id: &str,
    r: churn::Verdict,
    twin: &mut ChurnGuard,
    now: u128,
    verdict: churn::Verdict,
)
    requires
        call_ensures(ChurnGuard::admit_client, (guard, client_id), r),
        call_ensures(ChurnGuard::admit_client_at, (twin, client_id, now), verdict),
        old(twin)@ == old(guard)@,
        old(twin).rules() == old(guard).rules(),
        now == final(guard).clock_reading(),
    ensures
        r == verdict,
        final(guard)@ == final(twin)@,
        old(guard).clock_reading() <= now <= MAX_NANOS,
{
}

/// A sweep by the guard's own clock drops what a sweep at that time drops; the idle time
/// is given in milliseconds.
pub proof fn law_sweeps_go_by_the_clock(
    guard: &mut ChurnGuard,
    idle_after_millis: u64,
    twin: &mut ChurnGuard,
    now: u128,
    idle_after: u128,
)
    requires
        call_ensures(ChurnGuard::sweep, (guard, idle_after_millis), ()),
        call_ensures(ChurnGuard::sweep_at, (twin, now, idle_after), ()),
        old(twin)@ == old(guard)@,
        now == final(guard).clock_reading(),
        idle_after == idle_after_millis * 1_000_000,
    ensures
        final(guard)@ == final(twin)@,
        old(guard).clock_reading() <= now,
{
}


/// A CONNECT is shed exactly where admission control says so by its limits and the time on
/// its clock, and never where there are no limits or none has passed under them yet.
pub proof fn law_the_entrance_obeys_admission_control(
    gate: &mut Gate,
    policies: &Policies,
    counters: &mut Metrics,
    connect: &Connect,
    certificate: Option<String>,
    peer: &str,
    stamp: u128,
    r: ConnectOutcome,
)
    requires
        call_ensures(
            gate::pass_gate,
            (gate, policies, counters, connect, certificate, peer, stamp),
            r,
        ),
    ensures
        exists|at: nat|
            {
                let (passes, next) = #[trigger] admission::judged(
                    old(gate).admission@,
                    old(gate).admission.due(),
                    at,
                );
                &&& passes <==> !(r matches ConnectOutcome::Refused(Refusal::Shed, _))
                &&& next == final(gate).admission.due()
            },
        old(gate).admission@ is None ==> !(r matches ConnectOutcome::Refused(Refusal::Shed, _)),
        (old(gate).admission@ matches Some((_, burst)) && burst > 0) && old(gate).admission.due()
            == 0 ==> !(r matches ConnectOutcome::Refused(Refusal::Shed, _)),
        final(gate).admission@ == old(gate).admission@,
{
    let luck = choose|luck: gate::Luck| #[trigger]
        gate::possible(*old(gate), *policies, *connect, text::opt_string(certificate), luck)
            && final(gate).churn.clock_reading() == luck.now && final(gate).admission.due()
            == admission::judged(old(gate).admission@, old(gate).admission.due(), luck.at).1
            && gate::connect_follows(
            *old(gate),
            *final(gate),
            *policies,
            *connect,
            luck.admitted,
            gate::connect_identity(
                policies@.auth,
                packet::login_fields(connect.login),
                text::opt_string(certificate),
                luck.token,
            ),
            luck.now,
            peer@,
            stamp,
            r,
        );
    assert(luck.admitted == admission::judged(
        old(gate).admission@,
        old(gate).admission.due(),
        luck.at,
    ).0);
    if let Some((rate, burst)) = old(gate).admission@ {
        if burst > 0 {
            let t = admission::interval(rate);
            assert(t * (burst - 1) >= 0) by (nonlinear_arith)
                requires
                    burst > 0,
                    t >= 0,
            ;
        }
    }
}

/// At the entrance, too, an unknown user gets in by a token alone: under the identity that the
/// password gives as one, where there are token settings, and else not at all.
pub proof fn law_unknown_users_at_the_entrance(
    gate: &mut Gate,
    policies: &Policies,
    counters: &mut Metrics,
    connect: &Connect,
    peer: &str,
    stamp: u128,
    r: ConnectOutcome,
    user: Seq<char>,
    password: Seq<char>,
)
    requires
        call_ensures(
            gate::pass_gate,
            (gate, policies, counters, connect, None::<String>, peer, stamp),
            r,
        ),
        connect.login matches Some(login) && login.username@ == user && login.password@ == password,
        user.len() > 0,
        !policies@.auth.users.dom().contains(user),
    ensures
        policies@.auth.tokens is None ==> !(r is Accepted),
        policies@.auth.tokens matches Some(t) ==> {
            &&& r matches ConnectOutcome::Accepted(entry) ==> exists|at: nat|
                #[trigger] auth::token_identity(t, password, at) == Some(entry.identity@)
            &&& r matches ConnectOutcome::Refused(Refusal::Denied(_), _) ==> exists|at: nat|
                #[trigger] auth::token_identity(t, password, at) is None
        },
{
}

/// An attempt is put down in the churn history of its client id wherever it gets as far as
/// the churn check, whether or not it is let in.
pub proof fn law_attempts_are_put_down(
    gate: &mut Gate,
    policies: &Policies,
    counters: &mut Metrics,
    connect: &Connect,
    identity: String,
    now: u128,
    peer: &str,
    stamp: u128,
    r: ConnectOutcome,
    guard: &mut ChurnGuard,
    name: &str,
    verdict: churn::Verdict,
)
    requires
        call_ensures(
            gate::judge_connect,
            (
                gate,
                policies,
                counters,
                connect,
                true,
                Ok::<String, ConnectDenied>(identity),
                now,
                peer,
                stamp,
            ),
            r,
        ),
        call_ensures(ChurnGuard::admit_client_at, (guard, name, now), verdict),
        connect.client_id@.len() > 0,
        name@ == connect.client_id@,
        old(guard)@ == old(gate).churn@,
        old(guard).rules() == old(gate).churn.rules(),
    ensures
        final(gate).churn@ == final(guard)@,
        verdict is Quarantined <==> (r matches ConnectOutcome::Refused(Refusal::Quarantined, _)),
{
}

} // verus!
