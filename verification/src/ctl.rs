//! Mesh-wide force-disconnect.
//!
//! A client id lives on one node's connection at a time, but a control process does not
//! know which. So disconnection is a broadcast query on one key: every node is asked, and
//! the one that holds a live connection for the client kicks it and replies.

use crate::http::{self, lossy_text};
use crate::registry::{self, SessionRegistry};
use crate::session::{self, KICK_REQUESTED};
use crate::text::{self, concat2, concat3, strip_text};
use crate::topic;
use crate::topic_laws;
use vstd::prelude::*;
use vstd::string::*;

verus! {

pub const CTL_DISCONNECT_CHUNK: &'static str = "@ctl/disconnect";

/// Seconds to wait for a reply before no node is taken to hold the client.
pub const DEFAULT_TIMEOUT_SECS: u64 = 3;

/// The key of force-disconnect queries.
pub fn keyexpr(scope: &str) -> (r: String)
    ensures
        r@ == topic::scoped_key(scope@, CTL_DISCONNECT_CHUNK@),
{
    if scope.is_empty() {
        CTL_DISCONNECT_CHUNK.to_owned()
    } else {
        let r = concat3(scope, "/", CTL_DISCONNECT_CHUNK);
        proof {
            reveal_strlit("/");
            assert("/"@ =~= seq!['/']);
        }
        r
    }
}

/// The query for a client: the key, and the client id as a parameter.
pub open spec fn query_text(scope: Seq<char>, client_id: Seq<char>) -> Seq<char> {
    topic::scoped_key(scope, CTL_DISCONNECT_CHUNK@) + "?client="@ + client_id
}

pub fn selector(scope: &str, client_id: &str) -> (r: String)
    ensures
        r@ == query_text(scope@, client_id@),
{
    let key = keyexpr(scope);
    concat3(key.as_str(), "?client=", client_id)
}

/// The reply of the node that has kicked a client.
pub open spec fn kicked_text(node: Seq<char>) -> Seq<char> {
    "kicked node="@ + node
}

/// Answers a query for a client: the connection to be kicked and the reply, where this
/// node holds the client. A query without a client, or for one that is held elsewhere,
/// gets no answer.
pub fn answer(registry: &mut SessionRegistry, client_id: Option<&str>, node: &str) -> (r: Option<
    (u64, String),
>)
    requires
        old(registry).wf(),
    ensures
        final(registry).wf(),
        final(registry).rules() == old(registry).rules(),
        ({
            let before = old(registry)@;
            let held = client_id matches Some(id) && before.clients.dom().contains(id@)
                && before.all[before.clients[id@]].kick is Some;
            let h = before.clients[client_id->0@];
            if held {
                &&& final(registry)@ == registry::updated(
                    before,
                    h,
                    session::kicked(before.all[h], KICK_REQUESTED@),
                )
                &&& r matches Some((conn, reply)) && before.all[h].kick == Some(conn) && reply@
                    == kicked_text(node@)
            } else {
                final(registry)@ == before && r is None
            }
        }),
{
    let id = match client_id {
        Some(id) => id,
        None => {
            return None;
        },
    };
    match registry.kick(id) {
        Some(conn) => Some((conn, concat2("kicked node=", node))),
        None => {
            proof {
                let before = old(registry)@;
                if before.clients.dom().contains(id@) {
                    old(registry).lemma_coherent();
                    assert(registry@.all =~= before.all);
                }
            }
            None
        },
    }
}

/// Outcome of a mesh-wide disconnect request.
#[derive(Debug, Clone, PartialEq, Eq)]
pub enum DisconnectOutcome {
    /// `node` is the id of the node that held the live connection and kicked it.
    Kicked { node: String },
    /// No node in the mesh holds a live connection for this client id.
    NotFound,
}

/// The node that a reply names: what follows the usual opening, or all of it.
pub open spec fn replying_node(reply: Seq<char>) -> Seq<char> {
    match text::after_prefix(reply, "kicked node="@) {
        Some(node) => node,
        None => reply,
    }
}

/// What a disconnect request comes to, given the first reply, if there was one.
pub fn outcome(reply: Option<&[u8]>) -> (r: DisconnectOutcome)
    ensures
        match reply {
            Some(bytes) => r matches DisconnectOutcome::Kicked { node } && node@ == replying_node(
                http::lossy(bytes@),
            ) && (vstd::utf8::valid_utf8(bytes@) ==> node@ == replying_node(
                vstd::utf8::decode_utf8(bytes@),
            )),
            None => r is NotFound,
        },
{
    match reply {
        Some(bytes) => {
            let body = lossy_text(bytes);
            let node = match strip_text(body.as_str(), "kicked node=") {
                Some(node) => node.to_owned(),
                None => body.clone(),
            };
            DisconnectOutcome::Kicked { node }
        },
        None => DisconnectOutcome::NotFound,
    }
}

/// An outcome in words.
pub open spec fn report_text(client_id: Seq<char>, outcome: DisconnectOutcome) -> Seq<char> {
    match outcome {
        DisconnectOutcome::Kicked { node } => "kicked: client "@ + text::quoted(client_id)
            + " was connected to node "@ + text::quoted(node@),
        DisconnectOutcome::NotFound => {
            "not found: no node in the mesh currently holds client "@ + text::quoted(client_id)
        },
    }
}

pub fn report(client_id: &str, outcome: &DisconnectOutcome) -> (r: String)
    ensures
        r@ == report_text(client_id@, *outcome),
{
    let client = text::quote(client_id);
    match outcome {
        DisconnectOutcome::Kicked { node } => {
            let mut out = "kicked: client ".to_owned();
            out.append(client.as_str());
            out.append(" was connected to node ");
            out.append(text::quote(node.as_str()).as_str());
            out
        },
        DisconnectOutcome::NotFound => concat2(
            "not found: no node in the mesh currently holds client ",
            client.as_str(),
        ),
    }
}

/// The requester reads the name of the node that has replied.
pub proof fn law_reply_names_the_node(node: Seq<char>)
    ensures
        replying_node(kicked_text(node)) == node,
        replying_node(
            vstd::utf8::decode_utf8(vstd::utf8::encode_utf8(kicked_text(node))),
        ) == node,
{
    let opening = "kicked node="@;
    let reply = kicked_text(node);
    assert(reply.take(opening.len() as int) =~= opening);
    assert(reply.skip(opening.len() as int) =~= node);
    vstd::utf8::encode_utf8_decode_utf8(reply);
}

/// No client can publish on the control key.
pub proof fn law_control_key_cannot_be_forged(name: Seq<char>, scope: Seq<char>)
    requires
        topic::topic_key(name, scope) is Ok,
    ensures
        topic::topic_key(name, scope)->Ok_0 != topic::scoped_key(scope, CTL_DISCONNECT_CHUNK@),
{
    reveal_strlit("@ctl/disconnect");
    let chunk = seq!['@', 'c', 't', 'l'];
    let suffix = CTL_DISCONNECT_CHUNK@.skip(5);
    assert(CTL_DISCONNECT_CHUNK@ =~= chunk + seq!['/'] + suffix);
    topic_laws::law_topics_cannot_forge(name, chunk, suffix, scope);
}

} // verus!
