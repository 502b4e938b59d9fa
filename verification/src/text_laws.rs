//! Laws of the texts that a node writes and reads: numbers, hexadecimal digits, the paths
//! of HTTP requests and the names in bus endpoints.

use crate::config;
use crate::ctl::{self, DisconnectOutcome};
use crate::health;
use crate::http;
use crate::text;
use vstd::prelude::*;
use vstd::string::*;

verus! {

/// The number that decimal digits stand for.
pub open spec fn decimal_value(s: Seq<char>) -> int
    decreases s.len(),
{
    if s.len() == 0 {
        0
    } else {
        10 * decimal_value(s.drop_last()) + (s.last() as u32 - '0' as u32)
    }
}

proof fn lemma_decimal(n: nat)
    ensures
        decimal_value(text::decimal(n)) == n,
        text::decimal(n).len() > 0,
        forall|i: int|
            0 <= i < text::decimal(n).len() ==> '0' <= #[trigger] text::decimal(n)[i]
                && text::decimal(n)[i] <= '9',
        n > 0 ==> text::decimal(n)[0] != '0',
        n == 0 ==> text::decimal(n).len() == 1,
    decreases n,
{
    if n < 10 {
        let s = text::decimal(n);
        assert(s =~= seq![text::digits()[n as int]]);
        assert(s.drop_last() =~= Seq::empty());
        assert(decimal_value(Seq::empty()) == 0);
    } else {
        lemma_decimal(n / 10);
        let d = text::digits()[(n % 10) as int];
        let s = text::decimal(n);
        assert(s == text::decimal(n / 10).push(d));
        assert(s.drop_last() =~= text::decimal(n / 10));
        assert forall|i: int| 0 <= i < s.len() implies '0' <= #[trigger] s[i] && s[i] <= '9' by {
            if i < s.len() - 1 {
                assert(s[i] == text::decimal(n / 10)[i]);
            }
        }
        assert(s[0] == text::decimal(n / 10)[0]);
    }
}

/// A number is written in decimal digits that stand for it, without leading zeros.
pub proof fn law_decimals_stand_for_their_numbers(n: u64, r: String, m: u128, long: String)
    requires
        call_ensures(text::decimal_text, (n,), r),
        call_ensures(text::long_decimal_text, (m,), long),
    ensures
        decimal_value(r@) == n,
        n > 0 ==> r@[0] != '0',
        n == 0 ==> r@.len() == 1,
        forall|i: int| 0 <= i < r@.len() ==> '0' <= #[trigger] r@[i] && r@[i] <= '9',
        decimal_value(long@) == m,
        m > 0 ==> long@[0] != '0',
{
    lemma_decimal(n as nat);
    lemma_decimal(m as nat);
}

/// The number that a small hexadecimal digit stands for.
pub open spec fn hex_value(c: char) -> int {
    if '0' <= c && c <= '9' {
        c as u32 - '0' as u32
    } else {
        10 + (c as u32 - 'a' as u32)
    }
}

/// Every byte is written as two small hexadecimal digits, the higher first.
pub proof fn law_hexadecimal_stands_for_the_bytes(bytes: &[u8], r: String, i: int)
    requires
        call_ensures(text::hex_text, (bytes,), r),
        0 <= i < bytes@.len(),
    ensures
        r@.len() == 2 * bytes@.len(),
        16 * hex_value(r@[2 * i]) + hex_value(r@[2 * i + 1]) == bytes@[i],
        ('0' <= r@[2 * i] && r@[2 * i] <= '9') || ('a' <= r@[2 * i] && r@[2 * i] <= 'f'),
        ('0' <= r@[2 * i + 1] && r@[2 * i + 1] <= '9') || ('a' <= r@[2 * i + 1] && r@[2 * i + 1]
            <= 'f'),
{
    let b = bytes@[i];
    assert((2 * i) / 2 == i && (2 * i) % 2 == 0);
    assert((2 * i + 1) / 2 == i && (2 * i + 1) % 2 == 1);
    let high = (b / 16) as int;
    let low = (b % 16) as int;
    assert(r@[2 * i] == text::digits()[high]);
    assert(r@[2 * i + 1] == text::digits()[low]);
    lemma_digit(high);
    lemma_digit(low);
}

proof fn lemma_digit(d: int)
    requires
        0 <= d < 16,
    ensures
        hex_value(text::digits()[d]) == d,
        ('0' <= text::digits()[d] && text::digits()[d] <= '9') || ('a' <= text::digits()[d]
            && text::digits()[d] <= 'f'),
{
}

/// The first piece of a text that begins without the separator goes on to the first
/// separator after that.
proof fn lemma_first_piece(p: Seq<char>, rest: Seq<char>, sep: char)
    requires
        !p.contains(sep),
    ensures
        text::split(p + rest, sep)[0] == p + text::split(rest, sep)[0],
        text::split(p + rest, sep).len() == text::split(rest, sep).len(),
    decreases rest.len(),
{
    text::lemma_split_nonempty(rest, sep);
    if rest.len() == 0 {
        assert(p + rest =~= p);
        text::lemma_split_whole(p, sep);
        assert(p + Seq::<char>::empty() =~= p);
    } else {
        let d = rest.drop_last();
        lemma_first_piece(p, d, sep);
        text::lemma_split_nonempty(d, sep);
        assert((p + rest).drop_last() =~= p + d);
        assert((p + rest).last() == rest.last());
        let a = text::split(p + d, sep);
        let b = text::split(d, sep);
        if rest.last() != sep && a.len() == 1 {
            assert(text::split(p + rest, sep)[0] == a.last().push(rest.last()));
            assert(text::split(rest, sep)[0] == b.last().push(rest.last()));
            assert(a.last().push(rest.last()) =~= p + b.last().push(rest.last()));
        }
    }
}

/// A text of one word.
pub open spec fn is_word(s: Seq<char>) -> bool {
    s.len() > 0 && forall|i: int| 0 <= i < s.len() ==> !http::is_space(#[trigger] s[i])
}

proof fn lemma_one_word(s: Seq<char>)
    requires
        is_word(s),
    ensures
        http::words(s) == seq![s],
    decreases s.len(),
{
    let d = s.drop_last();
    assert(!http::is_space(s[s.len() - 1]));
    if d.len() == 0 {
        assert(http::words(d) =~= Seq::empty());
        assert(s =~= seq![s.last()]);
        assert(http::words(s) =~= seq![s]);
    } else {
        assert forall|i: int| 0 <= i < d.len() implies !http::is_space(#[trigger] d[i]) by {
            assert(d[i] == s[i]);
        }
        lemma_one_word(d);
        assert(d.push(s.last()) =~= s);
        assert(d.last() == s[s.len() - 2]);
        assert(http::in_word(d));
        assert(http::words(s) =~= seq![s]);
    }
}

/// After a space the words are those before it and those after it.
proof fn lemma_words_after_space(s: Seq<char>, rest: Seq<char>)
    requires
        s.len() > 0,
        http::is_space(s.last()),
    ensures
        http::words(s + rest) == http::words(s) + http::words(rest),
    decreases rest.len(),
{
    if rest.len() == 0 {
        assert(s + rest =~= s);
        assert(http::words(s) + http::words(rest) =~= http::words(s));
    } else {
        let d = rest.drop_last();
        let c = rest.last();
        lemma_words_after_space(s, d);
        assert((s + rest).drop_last() =~= s + d);
        assert((s + rest).last() == c);
        assert(http::in_word(s + d) == http::in_word(d)) by {
            if d.len() > 0 {
                assert((s + d).last() == d.last());
            } else {
                assert(s + d =~= s);
            }
        }
        if !http::is_space(c) && http::in_word(d) {
            lemma_in_word(d);
            let a = http::words(s + d);
            let b = http::words(d);
            assert(a.last() == b.last());
            assert(http::words(s + rest) =~= http::words(s) + http::words(rest));
        } else {
            assert(http::words(s + rest) =~= http::words(s) + http::words(rest));
        }
    }
}

proof fn lemma_in_word(s: Seq<char>)
    requires
        http::in_word(s),
    ensures
        http::words(s).len() > 0,
    decreases s.len(),
{
    if http::in_word(s.drop_last()) {
        lemma_in_word(s.drop_last());
    }
}

/// Of a request whose first line begins with two words the second is the path, whatever
/// follows; a request of a single word, or of none, asks for "/".
pub proof fn law_request_paths(
    request: &str,
    r: String,
    method: Seq<char>,
    path: Seq<char>,
    rest: Seq<char>,
)
    requires
        call_ensures(http::path_of, (request,), r),
        is_word(method),
        is_word(path),
        request@ == method + seq![' '] + path + seq![' '] + rest || request@ == method + seq![' ']
            + path || request@ == method || request@.len() == 0,
    ensures
        request@ == method || request@.len() == 0 ==> r@ == "/"@,
        request@ != method && request@.len() > 0 ==> r@ == path,
{
    let q = request@;
    assert forall|w: Seq<char>| is_word(w) implies !#[trigger] w.contains('\n') by {
        if w.contains('\n') {
            let i = choose|i: int| 0 <= i < w.len() && w[i] == '\n';
            assert(!http::is_space(w[i]));
        }
    }
    if q.len() == 0 {
        assert(text::split(q, '\n')[0] =~= Seq::empty());
        assert(http::words(Seq::empty()) =~= Seq::empty());
    } else if q == method {
        text::lemma_split_whole(method, '\n');
        assert(text::split(q, '\n')[0] == method);
        lemma_one_word(method);
    } else {
        let start = method + seq![' '] + path;
        let line = text::split(q, '\n')[0];
        assert(!start.contains('\n')) by {
            if start.contains('\n') {
                let i = choose|i: int| 0 <= i < start.len() && start[i] == '\n';
                if i < method.len() {
                    assert(method[i] == '\n');
                    assert(method.contains('\n'));
                } else if i > method.len() {
                    assert(path[i - method.len() - 1] == '\n');
                    assert(path.contains('\n'));
                }
            }
        }
        let first = method + seq![' '];
        assert(http::words(first) == seq![method]) by {
            lemma_one_word(method);
            assert(first.drop_last() =~= method);
        }
        lemma_one_word(path);
        if q == start {
            text::lemma_split_whole(q, '\n');
            lemma_words_after_space(first, path);
            assert(first + path =~= q);
            assert(http::words(q)[1] == path);
        } else {
            let tail = seq![' '] + rest;
            assert(q =~= start + tail);
            lemma_first_piece(start, tail, '\n');
            lemma_first_piece(seq![' '], rest, '\n');
            let more = text::split(rest, '\n')[0];
            assert(line =~= first + (path + seq![' '] + more));
            lemma_words_after_space(first, path + seq![' '] + more);
            let second = path + seq![' '];
            assert(path + seq![' '] + more =~= second + more);
            lemma_words_after_space(second, more);
            assert(http::words(second) == seq![path]) by {
                assert(second.drop_last() =~= path);
            }
            assert(http::words(line)[1] == path);
        }
    }
}

/// A response is a status line, the three headers with the length of the body in bytes,
/// and the body.
pub proof fn law_responses(status: &str, content_type: &str, body: &str, r: String, n: nat)
    requires
        call_ensures(http::response, (status, content_type, body), r),
        n == vstd::utf8::encode_utf8(body@).len(),
    ensures
        r@ == "HTTP/1.1 "@ + status@ + "\r\nContent-Type: "@ + content_type@
            + "\r\nContent-Length: "@ + text::decimal(n) + "\r\nConnection: close\r\n\r\n"@ + body@,
        decimal_value(text::decimal(n)) == n,
{
    lemma_decimal(n);
}

/// `/healthz` is answered with "ok", `/readyz` with the node and its bus id, and every
/// other path is not found.
pub proof fn law_health_replies(
    path: &str,
    node: &str,
    zid: &str,
    r: String,
    ok: String,
    readiness: &str,
    ready: String,
    missing: String,
)
    requires
        call_ensures(health::reply, (path, node, zid), r),
        call_ensures(http::response, ("200 OK", health::CONTENT_TYPE, "ok\n"), ok),
        readiness@ == "ready node="@ + node@ + " zid="@ + zid@ + "\n"@,
        call_ensures(http::response, ("200 OK", health::CONTENT_TYPE, readiness), ready),
        call_ensures(
            http::response,
            ("404 Not Found", health::CONTENT_TYPE, "not found\n"),
            missing,
        ),
    ensures
        path@ == "/healthz"@ ==> r@ == ok@,
        path@ == "/readyz"@ ==> r@ == ready@,
        path@ != "/healthz"@ && path@ != "/readyz"@ ==> r@ == missing@,
{
    reveal_strlit("/healthz");
    reveal_strlit("/readyz");
    if path@ == "/readyz"@ {
        assert(path@[1] == 'r');
    }
}

/// A request that is valid UTF-8 is answered by the path in it.
pub proof fn law_requests_are_answered_by_their_path(
    request: &[u8],
    node: &str,
    zid: &str,
    r: String,
    words: &str,
    path: String,
)
    requires
        call_ensures(health::respond, (request, node, zid), r),
        request@ == vstd::utf8::encode_utf8(words@),
        call_ensures(http::path_of, (words,), path),
    ensures
        r@ == health::reply_text(path@, node@, zid@),
{
    vstd::utf8::encode_utf8_valid_utf8(words@);
    vstd::utf8::encode_utf8_decode_utf8(words@);
}

/// The endpoint of the ordinal-0 node names a node exactly where its host, up to the first
/// `.` or `:`, is the node's id; a scheme before the first `/` plays no part.
pub proof fn law_which_endpoints_name_a_node(
    endpoint: &str,
    id: &str,
    r: bool,
    scheme: Seq<char>,
    label: Seq<char>,
    tail: Seq<char>,
)
    requires
        call_ensures(config::is_peer_zero_self, (endpoint, id), r),
        endpoint@ == scheme + seq!['/'] + label + tail,
        !scheme.contains('/'),
        !label.contains(':'),
        !label.contains('.'),
        tail.len() == 0 || tail[0] == '.' || tail[0] == ':',
    ensures
        r <==> label == id@,
{
    let s = endpoint@;
    let host = label + tail;
    assert(s =~= scheme.push('/') + host);
    text::lemma_split_concat(scheme, host, '/');
    text::lemma_split_whole(scheme, '/');
    assert(text::split(s, '/')[0] == scheme);
    assert(s.contains('/')) by {
        assert(s[scheme.len() as int] == '/');
    }
    assert(config::after_first(s, '/') =~= host);
    lemma_host_label(label, tail);
}

/// The label of a host: what stands before the first `.` or `:`.
proof fn lemma_host_label(label: Seq<char>, tail: Seq<char>)
    requires
        !label.contains(':'),
        !label.contains('.'),
        tail.len() == 0 || tail[0] == '.' || tail[0] == ':',
    ensures
        text::split(text::split(label + tail, ':')[0], '.')[0] == label,
{
    let host = label + tail;
    lemma_first_piece(label, tail, ':');
    let before_port = text::split(host, ':')[0];
    let t = text::split(tail, ':')[0];
    assert(before_port == label + t);
    if tail.len() > 0 && tail[0] == '.' {
        let more = tail.skip(1);
        assert(tail =~= seq!['.'] + more);
        lemma_first_piece(seq!['.'], more, ':');
        let u = text::split(more, ':')[0];
        assert(before_port =~= label.push('.') + u);
        text::lemma_split_concat(label, u, '.');
        text::lemma_split_whole(label, '.');
        assert(text::split(before_port, '.')[0] == label);
    } else {
        if tail.len() > 0 {
            let more = tail.skip(1);
            let none = Seq::<char>::empty();
            assert(tail =~= none.push(':') + more);
            text::lemma_split_concat(none, more, ':');
            assert(text::split(none, ':') =~= seq![none]);
            assert(t == none);
        } else {
            assert(tail =~= Seq::<char>::empty());
            assert(t =~= Seq::<char>::empty());
        }
        assert(before_port =~= label);
        text::lemma_split_whole(label, '.');
    }
}

/// The query for a client names the control key inside the scope and the client; the reply
/// to it, read by the requester, names the node.
pub proof fn law_disconnect_queries(
    scope: &str,
    client_id: &str,
    key: String,
    selector: String,
    reply: Option<&[u8]>,
    outcome: DisconnectOutcome,
    node: Seq<char>,
)
    requires
        call_ensures(ctl::keyexpr, (scope,), key),
        call_ensures(ctl::selector, (scope, client_id), selector),
        call_ensures(ctl::outcome, (reply,), outcome),
        reply matches Some(bytes) ==> bytes@ == vstd::utf8::encode_utf8("kicked node="@ + node),
    ensures
        scope@.len() == 0 ==> key@ == "@ctl/disconnect"@,
        scope@.len() > 0 ==> key@ == scope@ + seq!['/'] + "@ctl/disconnect"@,
        selector@ == key@ + "?client="@ + client_id@,
        reply is None ==> outcome is NotFound,
        reply is Some ==> (outcome matches DisconnectOutcome::Kicked { node: named } && named@
            == node),
{
    if let Some(bytes) = reply {
        vstd::utf8::encode_utf8_valid_utf8("kicked node="@ + node);
        vstd::utf8::encode_utf8_decode_utf8("kicked node="@ + node);
        ctl::law_reply_names_the_node(node);
    }
}


/// Words are parted by the characters that Unicode counts as white space, and by no others.
pub proof fn law_white_space(s: &str, r: Vec<String>, c: char)
    requires
        call_ensures(http::split_words, (s,), r),
        s@ == seq![c],
    ensures
        ({
            let u = c as u32;
            r@.len() == 0 <==> (9 <= u <= 13 || u == 32 || u == 0x85 || u == 0xA0 || u == 0x1680
                || 0x2000 <= u <= 0x200A || u == 0x2028 || u == 0x2029 || u == 0x202F || u == 0x205F
                || u == 0x3000)
        }),
{
    assert(s@.drop_last() =~= Seq::empty());
    assert(http::words(Seq::empty()) =~= Seq::empty());
    assert(text::texts(r@).len() == r@.len());
}

/// A text without white space is one word; the words of a text are those before a space
/// and those after it.
pub proof fn law_words(
    whole: &str,
    r: Vec<String>,
    before: &str,
    a: Vec<String>,
    after: &str,
    b: Vec<String>,
    word: &str,
    one: Vec<String>,
)
    requires
        call_ensures(http::split_words, (whole,), r),
        call_ensures(http::split_words, (before,), a),
        call_ensures(http::split_words, (after,), b),
        call_ensures(http::split_words, (word,), one),
        whole@ == before@ + seq![' '] + after@,
        is_word(word@),
    ensures
        text::texts(r@) == text::texts(a@) + text::texts(b@),
        text::texts(one@) == seq![word@],
{
    let first = before@ + seq![' '];
    lemma_words_after_space(first, after@);
    assert(first.drop_last() =~= before@);
    lemma_one_word(word@);
}

/// A reply that names no node in the usual way is taken as the name itself.
pub proof fn law_other_replies(reply: &[u8], words: Seq<char>, r: DisconnectOutcome)
    requires
        call_ensures(ctl::outcome, (Some(reply),), r),
        reply@ == vstd::utf8::encode_utf8(words),
        !("kicked node="@.len() <= words.len() && words.take("kicked node="@.len() as int)
            == "kicked node="@),
    ensures
        r matches DisconnectOutcome::Kicked { node } && node@ == words,
{
    vstd::utf8::encode_utf8_valid_utf8(words);
    vstd::utf8::encode_utf8_decode_utf8(words);
}

/// Text that is put together keeps its parts in order; a prefix that is taken off leaves
/// the rest, and only what begins with it has it.
pub proof fn law_prefixes(s: &str, p: &str, r: Option<&str>, c: char, has: bool, first: Option<char>)
    requires
        call_ensures(text::strip_text, (s, p), r),
        call_ensures(text::has_char, (s, c), has),
        call_ensures(text::first_char, (s,), first),
    ensures
        r matches Some(rest) ==> p@ + rest@ == s@,
        r is None ==> forall|rest: Seq<char>| #[trigger] (p@ + rest) != s@,
        has <==> exists|i: int| 0 <= i < s@.len() && #[trigger] s@[i] == c,
        s@.len() == 0 <==> first is None,
        first matches Some(x) ==> x == s@[0],
{
    if let Some(rest) = r {
        assert(p@ + rest@ =~= s@) by {
            assert forall|k: int| 0 <= k < p@.len() implies p@[k] == s@[k] by {
                assert(s@.take(p@.len() as int)[k] == s@[k]);
            }
        }
    } else {
        assert forall|rest: Seq<char>| #[trigger] (p@ + rest) != s@ by {
            if p@ + rest == s@ {
                assert(s@.take(p@.len() as int) =~= p@);
            }
        }
    }
    if has {
        let i = choose|i: int| 0 <= i < s@.len() && s@[i] == c;
        assert(s@[i] == c);
    }
}


/// An endpoint without a scheme names a node by the same rule.
pub proof fn law_endpoints_without_a_scheme(
    endpoint: &str,
    id: &str,
    r: bool,
    label: Seq<char>,
    tail: Seq<char>,
)
    requires
        call_ensures(config::is_peer_zero_self, (endpoint, id), r),
        endpoint@ == label + tail,
        !endpoint@.contains('/'),
        !label.contains(':'),
        !label.contains('.'),
        tail.len() == 0 || tail[0] == '.' || tail[0] == ':',
    ensures
        r <==> label == id@,
{
    lemma_host_label(label, tail);
}

} // verus!
