//! The way of a CONNECT into the node: admission, identity, client id, churn, quota.
//! Every refusal has its return code, its counter and, for failed authentication, an
//! event for the audit stream.

use crate::admission::{self, ConnectAdmission};
use crate::auth::{self, ConnectDenied};
use crate::churn::{self, ChurnGuard};
use crate::clock::MAX_NANOS;
use crate::metrics::{self, Metrics};
use crate::packet::{self, Connect, ConnectCode, Incoming};
use crate::policy::Policies;
use crate::quota::{self, IdentityConns};
use crate::text::{self, concat2, long_decimal_text};
use crate::topic::{self, meta_keyexpr, META_CHUNK};
use vstd::prelude::*;
use vstd::string::*;

verus! {

/// An event on the life of a client: its id, and what happened.
pub struct ClientEvent {
    pub client_id: String,
    pub text: String,
}

/// An event as plain text.
pub open spec fn event_text(e: Option<ClientEvent>) -> Option<(Seq<char>, Seq<char>)> {
    match e {
        Some(e) => Some((e.client_id@, e.text@)),
        None => None,
    }
}

/// The bus key of a client's events: `$meta/clients/<node>/<client>`.
pub open spec fn event_key(
    node: Seq<char>,
    client_id: Seq<char>,
    scope: Seq<char>,
) -> Seq<char> {
    topic::internal_key(META_CHUNK@, "clients/"@ + node + "/"@ + client_id, scope)
}

pub fn event_keyexpr(node: &str, client_id: &str, scope: &str) -> (r: String)
    ensures
        r@ == event_key(node@, client_id@, scope@),
{
    let mut suffix = "clients/".to_owned();
    suffix.append(node);
    suffix.append("/");
    suffix.append(client_id);
    meta_keyexpr(suffix.as_str(), scope)
}

/// Why a CONNECT is refused.
#[derive(Debug, Clone, Copy, PartialEq, Eq, Structural)]
pub enum Refusal {
    /// Too many CONNECTs arrive at once.
    Shed,
    /// The credentials do not do.
    Denied(ConnectDenied),
    /// This client id reconnects too often.
    Quarantined,
    /// This identity holds all the connections that it may.
    OverQuota,
}

/// The return code for a refusal.
pub open spec fn refusal_code(refusal: Refusal) -> ConnectCode {
    match refusal {
        Refusal::Denied(ConnectDenied::BadCredentials) => ConnectCode::BadUserNamePassword,
        Refusal::Denied(ConnectDenied::AnonymousNotAllowed) => ConnectCode::NotAuthorized,
        _ => ConnectCode::ServiceUnavailable,
    }
}

impl Refusal {
    /// The return code for the client.
    pub fn code(self) -> (r: ConnectCode)
        ensures
            r == refusal_code(self),
    {
        match self {
            Refusal::Denied(ConnectDenied::BadCredentials) => ConnectCode::BadUserNamePassword,
            Refusal::Denied(ConnectDenied::AnonymousNotAllowed) => ConnectCode::NotAuthorized,
            Refusal::Shed => ConnectCode::ServiceUnavailable,
            Refusal::Quarantined => ConnectCode::ServiceUnavailable,
            Refusal::OverQuota => ConnectCode::ServiceUnavailable,
        }
    }
}

/// A client that has been let in.
pub struct Entry {
    pub client_id: String,
    /// Authenticated username or certificate name; empty = anonymous.
    pub identity: String,
    pub clean: bool,
}

/// The CONNECT that a connection has to begin with (MQTT-3.1.0-1); any other packet is
/// handed back.
pub fn first_packet(p: Incoming) -> (r: Result<Connect, Incoming>)
    ensures
        match p {
            Incoming::Connect(c) => r == Ok::<Connect, Incoming>(c),
            _ => r == Err::<Connect, Incoming>(p),
        },
{
    match p {
        Incoming::Connect(c) => Ok(c),
        other => Err(other),
    }
}

/// What became of a CONNECT.
pub enum ConnectOutcome {
    Refused(Refusal, Option<ClientEvent>),
    Accepted(Entry),
}

/// The name and persistence of a session: an empty client id gets a generated name and
/// is forced clean (MQTT-3.1.3-7).
pub open spec fn session_name(client_id: Seq<char>, clean: bool, stamp: u128) -> (Seq<char>, bool) {
    if client_id.len() == 0 {
        ("entmoot-anon-"@ + text::decimal(stamp as nat), true)
    } else {
        (client_id, clean)
    }
}

pub open spec fn denied_name(denied: ConnectDenied) -> Seq<char> {
    match denied {
        ConnectDenied::BadCredentials => "BadCredentials"@,
        ConnectDenied::AnonymousNotAllowed => "AnonymousNotAllowed"@,
    }
}

/// The event of a failed authentication.
pub open spec fn auth_fail_event(
    client_id: Seq<char>,
    login: Option<(Seq<char>, Seq<char>)>,
    peer: Seq<char>,
    denied: ConnectDenied,
) -> (Seq<char>, Seq<char>) {
    let id = if client_id.len() == 0 {
        "<unknown>"@
    } else {
        client_id
    };
    let user = match login {
        Some((user, _)) => user,
        None => "<anonymous>"@,
    };
    (id, "auth_fail addr="@ + peer + " user="@ + user + " reason="@ + denied_name(denied))
}

/// The identity of a CONNECT: the name in its client certificate, or what its login
/// gives. `token` is the identity that the password gives as a token.
pub open spec fn connect_identity(
    rules: auth::AuthRules,
    login: Option<(Seq<char>, Seq<char>)>,
    certificate: Option<Seq<char>>,
    token: Option<Seq<char>>,
) -> Result<Seq<char>, ConnectDenied> {
    match certificate {
        Some(cn) => Ok(cn),
        None => auth::auth_decision(rules, login, token),
    }
}

/// Whether a CONNECT is let in, from what each stage says: the first that objects
/// decides.
pub open spec fn refusal(
    admitted: bool,
    identity: Result<Seq<char>, ConnectDenied>,
    churn: churn::Verdict,
    has_room: bool,
) -> Option<Refusal> {
    if !admitted {
        Some(Refusal::Shed)
    } else if identity is Err {
        Some(Refusal::Denied(identity->Err_0))
    } else if churn == churn::Verdict::Quarantined {
        Some(Refusal::Quarantined)
    } else if !has_room {
        Some(Refusal::OverQuota)
    } else {
        None
    }
}

/// The counters after a CONNECT.
pub open spec fn connect_metrics(m: Metrics, refusal: Option<Refusal>) -> Metrics {
    match refusal {
        Some(Refusal::Shed) => Metrics {
            connect_shed_total: metrics::bumped(m.connect_shed_total),
            ..m
        },
        Some(Refusal::Denied(_)) => Metrics {
            connect_refused_total: metrics::bumped(m.connect_refused_total),
            ..m
        },
        Some(Refusal::Quarantined) => Metrics {
            churn_quarantined_total: metrics::bumped(m.churn_quarantined_total),
            ..m
        },
        Some(Refusal::OverQuota) => Metrics {
            quota_refused_total: metrics::bumped(m.quota_refused_total),
            ..m
        },
        None => Metrics { connections_total: metrics::bumped(m.connections_total), ..m },
    }
}

/// What the stages of the entrance keep between CONNECTs.
pub struct Gate {
    pub admission: ConnectAdmission,
    pub churn: ChurnGuard,
    pub conns: IdentityConns,
}

impl Gate {
    pub open spec fn wf(&self) -> bool {
        self.churn.wf() && self.conns.wf()
    }
}

/// What was left to chance and time in a CONNECT: the time on the clock of admission
/// control, whether that let the CONNECT pass, the identity that its password gave as a
/// token, and the time of the churn check.
pub struct Luck {
    pub at: nat,
    pub admitted: bool,
    pub token: Option<Seq<char>>,
    pub now: u128,
}

/// Whether the outcome and the state after a CONNECT are what the rules say, given what
/// admission control and authentication have answered and the time of the churn check.
pub open spec fn connect_follows(
    before: Gate,
    after: Gate,
    policies: Policies,
    connect: Connect,
    admitted: bool,
    identity: Result<Seq<char>, ConnectDenied>,
    now: u128,
    peer: Seq<char>,
    stamp: u128,
    outcome: ConnectOutcome,
) -> bool {
    let (name, clean) = session_name(connect.client_id@, connect.clean_session, stamp);
    let (histories, churn) = churn::guarded_attempt(
        before.churn.rules(),
        before.churn@,
        name,
        now,
    );
    let has_room = quota::has_room(
        before.conns.count(identity->Ok_0),
        quota::cap(policies@.quota, identity->Ok_0),
    );
    let refused = refusal(admitted, identity, churn, has_room);
    &&& after.admission@ == before.admission@
    &&& after.churn.rules() == before.churn.rules()
    &&& after.churn@ == (if admitted && identity is Ok {
        histories
    } else {
        before.churn@
    })
    &&& forall|k: Seq<char>| #[trigger]
        after.conns.count(k) == before.conns.count(k) + (if refused is None && k
            == identity->Ok_0 {
            1nat
        } else {
            0nat
        })
    &&& match outcome {
        ConnectOutcome::Refused(r, event) => refused == Some(r) && event_text(event) == (match r {
            Refusal::Denied(denied) => Some(
                auth_fail_event(
                    connect.client_id@,
                    packet::login_fields(connect.login),
                    peer,
                    denied,
                ),
            ),
            _ => None,
        }),
        ConnectOutcome::Accepted(entry) => refused is None && entry.client_id@ == name
            && entry.clean == clean && identity == Ok::<Seq<char>, ConnectDenied>(
            entry.identity@,
        ),
    }
}

/// The refusal in an outcome.
pub open spec fn outcome_refusal(outcome: ConnectOutcome) -> Option<Refusal> {
    match outcome {
        ConnectOutcome::Refused(r, _) => Some(r),
        ConnectOutcome::Accepted(_) => None,
    }
}

/// Whether chance and time can have fallen out so: admission control lets pass by its
/// limits and the time on its clock; a token is judged as at some time; and the clock of
/// the churn check does not go back.
pub open spec fn possible(
    gate: Gate,
    policies: Policies,
    connect: Connect,
    certificate: Option<Seq<char>>,
    luck: Luck,
) -> bool {
    let login = packet::login_fields(connect.login);
    &&& gate.churn.clock_reading() <= luck.now <= MAX_NANOS
    &&& luck.admitted == admission::judged(gate.admission@, gate.admission.due(), luck.at).0
    &&& (luck.admitted && certificate is None && auth::tries_token(policies@.auth, login)
        ==> exists|at: nat|
        luck.token == #[trigger] auth::token_identity(policies@.auth.tokens->0, (login->0).1, at))
}

/// Takes a CONNECT through the entrance. `certificate` is the name in the client certificate,
/// `stamp` a number to make a name for a client without one.
pub fn pass_gate(
    gate: &mut Gate,
    policies: &Policies,
    counters: &mut Metrics,
    connect: &Connect,
    certificate: Option<String>,
    peer: &str,
    stamp: u128,
) -> (r: ConnectOutcome)
    requires
        old(gate).wf(),
    ensures
        final(gate).wf(),
        *final(counters) == connect_metrics(*old(counters), outcome_refusal(r)),
        exists|luck: Luck| #[trigger]
            possible(
                *old(gate),
                *policies,
                *connect,
                text::opt_string(certificate),
                luck,
            ) && final(gate).churn.clock_reading() == luck.now && final(gate).admission.due()
                == admission::judged(old(gate).admission@, old(gate).admission.due(), luck.at).1
                && connect_follows(
                *old(gate),
                *final(gate),
                *policies,
                *connect,
                luck.admitted,
                connect_identity(
                    policies@.auth,
                    packet::login_fields(connect.login),
                    text::opt_string(certificate),
                    luck.token,
                ),
                luck.now,
                peer@,
                stamp,
                r,
            ),
{
    let ghost cert = text::opt_string(certificate);
    let ghost login_text = packet::login_fields(connect.login);
    let ghost mut token: Option<Seq<char>> = None;
    let admitted = gate.admission.admit_connect();
    let ghost at = choose|at: nat|
        (admitted, gate.admission.due()) == #[trigger] admission::judged(
            old(gate).admission@,
            old(gate).admission.due(),
            at,
        );
    let identity: Result<String, ConnectDenied> = match certificate {
        Some(cn) => Ok(cn),
        None => if admitted {
            let login = match &connect.login {
                Some(l) => Some((l.username.as_str(), l.password.as_str())),
                None => None,
            };
            let answer = policies.auth.authenticate(login);
            proof {
                assert(auth::login_text(login) == login_text);
                if auth::tries_token(policies@.auth, login_text) {
                    let at = choose|at: nat|
                        auth::identity_text(answer) == auth::auth_decision(
                            policies.auth@,
                            login_text,
                            #[trigger] auth::token_identity(
                                policies.auth@.tokens->0,
                                (login_text->0).1,
                                at,
                            ),
                        );
                    token = auth::token_identity(
                        policies@.auth.tokens->0,
                        (login_text->0).1,
                        at,
                    );
                }
            }
            answer
        } else {
            Err(ConnectDenied::AnonymousNotAllowed)
        },
    };
    let now = gate.churn.clock_nanos();
    let r = judge_connect(
        gate,
        policies,
        counters,
        connect,
        admitted,
        identity,
        now,
        peer,
        stamp,
    );
    proof {
        let luck = Luck { at, admitted, token, now };
        assert(possible(*old(gate), *policies, *connect, cert, luck));
        if admitted {
            assert(auth::identity_text(identity) == connect_identity(
                policies@.auth,
                login_text,
                cert,
                token,
            ));
        }
    }
    r
}

/// Takes a CONNECT through the entrance, given the answers of admission control and of
/// authentication, and the time. What authentication has answered is of no account
/// where admission control has refused.
pub fn judge_connect(
    gate: &mut Gate,
    policies: &Policies,
    counters: &mut Metrics,
    connect: &Connect,
    admitted: bool,
    identity: Result<String, ConnectDenied>,
    now: u128,
    peer: &str,
    stamp: u128,
) -> (r: ConnectOutcome)
    requires
        old(gate).wf(),
        now <= MAX_NANOS,
    ensures
        final(gate).wf(),
        *final(counters) == connect_metrics(*old(counters), outcome_refusal(r)),
        final(gate).admission == old(gate).admission,
        final(gate).churn.clock_reading() == old(gate).churn.clock_reading(),
        connect_follows(
            *old(gate),
            *final(gate),
            *policies,
            *connect,
            admitted,
            auth::identity_text(identity),
            now,
            peer@,
            stamp,
            r,
        ),
{
    if !admitted {
        Metrics::bump(&mut counters.connect_shed_total);
        return ConnectOutcome::Refused(Refusal::Shed, None);
    }
    let identity = match identity {
        Ok(identity) => identity,
        Err(denied) => {
            Metrics::bump(&mut counters.connect_refused_total);
            let event = denied_event(connect, peer, denied);
            return ConnectOutcome::Refused(Refusal::Denied(denied), Some(event));
        },
    };
    let (client_id, clean) = name_session(connect, stamp);
    let churn = gate.churn.admit_client_at(client_id.as_str(), now);
    if churn == churn::Verdict::Quarantined {
        Metrics::bump(&mut counters.churn_quarantined_total);
        return ConnectOutcome::Refused(Refusal::Quarantined, None);
    }
    let limit = policies.quota.max_connections_for(identity.as_str());
    if !gate.conns.try_admit(identity.as_str(), limit) {
        Metrics::bump(&mut counters.quota_refused_total);
        return ConnectOutcome::Refused(Refusal::OverQuota, None);
    }
    Metrics::bump(&mut counters.connections_total);
    ConnectOutcome::Accepted(Entry { client_id, identity, clean })
}

/// The name and persistence of the session that a CONNECT asks for.
fn name_session(connect: &Connect, stamp: u128) -> (r: (String, bool))
    ensures
        (r.0@, r.1) == session_name(connect.client_id@, connect.clean_session, stamp),
{
    if connect.client_id.as_str().is_empty() {
        (concat2("entmoot-anon-", long_decimal_text(stamp).as_str()), true)
    } else {
        (connect.client_id.clone(), connect.clean_session)
    }
}

/// The event of a failed authentication.
fn denied_event(connect: &Connect, peer: &str, denied: ConnectDenied) -> (r: ClientEvent)
    ensures
        (r.client_id@, r.text@) == auth_fail_event(
            connect.client_id@,
            packet::login_fields(connect.login),
            peer@,
            denied,
        ),
{
    let client_id = if connect.client_id.as_str().is_empty() {
        "<unknown>".to_owned()
    } else {
        connect.client_id.clone()
    };
    let user = match &connect.login {
        Some(l) => l.username.as_str(),
        None => "<anonymous>",
    };
    let mut text = "auth_fail addr=".to_owned();
    text.append(peer);
    text.append(" user=");
    text.append(user);
    text.append(" reason=");
    text.append(
        match denied {
            ConnectDenied::BadCredentials => "BadCredentials",
            ConnectDenied::AnonymousNotAllowed => "AnonymousNotAllowed",
        },
    );
    ClientEvent { client_id, text }
}

/// The name in a client certificate is the identity, whatever the login says.
pub proof fn law_certificate_overrides_login(
    rules: auth::AuthRules,
    login: Option<(Seq<char>, Seq<char>)>,
    name: Seq<char>,
    token: Option<Seq<char>>,
)
    ensures
        connect_identity(rules, login, Some(name), token) == Ok::<Seq<char>, ConnectDenied>(name),
{
}

/// A CONNECT that admission control sheds is not looked at further: whatever its
/// credentials, it is refused with "service unavailable", and neither the churn
/// histories nor the connection counts change.
pub proof fn law_shed_connect_changes_nothing(
    before: Gate,
    after: Gate,
    policies: Policies,
    connect: Connect,
    identity: Result<Seq<char>, ConnectDenied>,
    now: u128,
    peer: Seq<char>,
    stamp: u128,
    outcome: ConnectOutcome,
    other: Seq<char>,
)
    requires
        connect_follows(
            before,
            after,
            policies,
            connect,
            false,
            identity,
            now,
            peer,
            stamp,
            outcome,
        ),
    ensures
        outcome_refusal(outcome) == Some(Refusal::Shed),
        refusal_code(Refusal::Shed) == ConnectCode::ServiceUnavailable,
        after.churn@ == before.churn@,
        after.conns.count(other) == before.conns.count(other),
{
}

/// No refused CONNECT takes a connection slot; an accepted one takes one slot of its own
/// identity, which had room for it.
pub proof fn law_only_accepted_connects_take_a_slot(
    before: Gate,
    after: Gate,
    policies: Policies,
    connect: Connect,
    admitted: bool,
    identity: Result<Seq<char>, ConnectDenied>,
    now: u128,
    peer: Seq<char>,
    stamp: u128,
    outcome: ConnectOutcome,
    other: Seq<char>,
)
    requires
        connect_follows(
            before,
            after,
            policies,
            connect,
            admitted,
            identity,
            now,
            peer,
            stamp,
            outcome,
        ),
    ensures
        match outcome {
            ConnectOutcome::Refused(_, _) => after.conns.count(other) == before.conns.count(other),
            ConnectOutcome::Accepted(entry) => {
                &&& admitted
                &&& identity == Ok::<Seq<char>, ConnectDenied>(entry.identity@)
                &&& after.conns.count(entry.identity@) == before.conns.count(entry.identity@) + 1
                &&& quota::cap(policies@.quota, entry.identity@) matches Some(cap)
                    ==> after.conns.count(entry.identity@) <= cap
                &&& other != entry.identity@ ==> after.conns.count(other) == before.conns.count(
                    other,
                )
            },
        },
{
}

/// A client without an id of its own never gets a persistent session.
pub proof fn law_unnamed_clients_are_clean(clean: bool, stamp: u128)
    ensures
        session_name(Seq::empty(), clean, stamp).1,
        session_name(Seq::empty(), clean, stamp).0.len() > 0,
{
    reveal_strlit("entmoot-anon-");
}

} // verus!
