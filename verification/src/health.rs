//! Health endpoint: `/healthz` says that the process runs, `/readyz` that the bus
//! session is open and the listeners are bound.

use crate::http::{self, lossy_text, path_of, response};
use vstd::prelude::*;
use vstd::string::*;

verus! {

pub const CONTENT_TYPE: &'static str = "text/plain; charset=utf-8";

/// The body of a ready reply.
pub open spec fn ready_text(node: Seq<char>, zid: Seq<char>) -> Seq<char> {
    "ready node="@ + node + " zid="@ + zid + "\n"@
}

/// The whole reply to a request for a path.
pub open spec fn reply_text(path: Seq<char>, node: Seq<char>, zid: Seq<char>) -> Seq<char> {
    if path == "/healthz"@ {
        http::response_text("200 OK"@, CONTENT_TYPE@, "ok\n"@)
    } else if path == "/readyz"@ {
        http::response_text("200 OK"@, CONTENT_TYPE@, ready_text(node, zid))
    } else {
        http::response_text("404 Not Found"@, CONTENT_TYPE@, "not found\n"@)
    }
}

/// The reply to a request for `path` from the node `node` with the bus id `zid`.
pub fn reply(path: &str, node: &str, zid: &str) -> (r: String)
    ensures
        r@ == reply_text(path@, node@, zid@),
{
    if *path == *"/healthz" {
        response("200 OK", CONTENT_TYPE, "ok\n")
    } else if *path == *"/readyz" {
        let mut body = "ready node=".to_owned();
        body.append(node);
        body.append(" zid=");
        body.append(zid);
        body.append("\n");
        response("200 OK", CONTENT_TYPE, body.as_str())
    } else {
        response("404 Not Found", CONTENT_TYPE, "not found\n")
    }
}

/// The reply to the bytes of a request.
pub fn respond(request: &[u8], node: &str, zid: &str) -> (r: String)
    ensures
        r@ == reply_text(http::request_path(http::lossy(request@)), node@, zid@),
        vstd::utf8::valid_utf8(request@) ==> r@ == reply_text(
            http::request_path(vstd::utf8::decode_utf8(request@)),
            node@,
            zid@,
        ),
{
    let text = lossy_text(request);
    let path = path_of(text.as_str());
    reply(path.as_str(), node, zid)
}

} // verus!
