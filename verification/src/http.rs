//! The two plain-text HTTP endpoints share one kind of response: a status line, three
//! headers and the body, after which the connection closes.

use crate::text::{self, decimal_text};
use vstd::prelude::*;
use vstd::string::*;

verus! {

/// A whole response; the length counts the bytes of the body.
pub open spec fn response_text(
    status: Seq<char>,
    content_type: Seq<char>,
    body: Seq<char>,
) -> Seq<char> {
    "HTTP/1.1 "@ + status + "\r\nContent-Type: "@ + content_type + "\r\nContent-Length: "@
        + text::decimal(vstd::utf8::encode_utf8(body).len()) + "\r\nConnection: close\r\n\r\n"@ + body
}

pub fn response(status: &str, content_type: &str, body: &str) -> (r: String)
    ensures
        r@ == response_text(status@, content_type@, body@),
{
    let length: usize = body.as_bytes().len();
    let mut out = "HTTP/1.1 ".to_owned();
    out.append(status);
    out.append("\r\nContent-Type: ");
    out.append(content_type);
    out.append("\r\nContent-Length: ");
    out.append(decimal_text(length as u64).as_str());
    out.append("\r\nConnection: close\r\n\r\n");
    out.append(body);
    out
}

/// What `String::from_utf8_lossy` reads out of bytes.
pub uninterp spec fn lossy(bytes: Seq<u8>) -> Seq<char>;

/// Calls `String::from_utf8_lossy`: valid UTF-8 is read as it is; the text put in the
/// place of invalid parts depends on the bytes alone.
#[verifier::external_body]
pub(crate) fn lossy_text(bytes: &[u8]) -> (r: String)
    ensures
        r@ == lossy(bytes@),
        vstd::utf8::valid_utf8(bytes@) ==> r@ == vstd::utf8::decode_utf8(bytes@),
{
    String::from_utf8_lossy(bytes).into_owned()
}

/// The characters with the Unicode `White_Space` property.
pub open spec fn is_space(c: char) -> bool {
    let u = c as u32;
    ('\t' <= c && c <= '\r') || c == ' ' || u == 0x85 || u == 0xA0 || u == 0x1680 || (0x2000 <= u
        && u <= 0x200A) || u == 0x2028 || u == 0x2029 || u == 0x202F || u == 0x205F || u == 0x3000
}

fn space(c: char) -> (r: bool)
    ensures
        r == is_space(c),
{
    let u: u32 = c as u32;
    ('\t' <= c && c <= '\r') || c == ' ' || u == 0x85 || u == 0xA0 || u == 0x1680 || (0x2000 <= u
        && u <= 0x200A) || u == 0x2028 || u == 0x2029 || u == 0x202F || u == 0x205F || u == 0x3000
}

/// The words of a text: its longest runs without white space.
pub open spec fn words(s: Seq<char>) -> Seq<Seq<char>>
    decreases s.len(),
{
    if s.len() == 0 {
        Seq::empty()
    } else {
        let before = words(s.drop_last());
        let c = s.last();
        if is_space(c) {
            before
        } else if in_word(s.drop_last()) {
            before.drop_last().push(before.last().push(c))
        } else {
            before.push(seq![c])
        }
    }
}

/// Whether a text ends inside a word.
pub open spec fn in_word(s: Seq<char>) -> bool {
    s.len() > 0 && !is_space(s.last())
}

proof fn lemma_in_word(s: Seq<char>)
    requires
        in_word(s),
    ensures
        words(s).len() > 0,
    decreases s.len(),
{
    if in_word(s.drop_last()) {
        lemma_in_word(s.drop_last());
    }
}

pub fn split_words(s: &str) -> (r: Vec<String>)
    ensures
        text::texts(r@) == words(s@),
{
    let chars = text::chars_of(s);
    let mut out: Vec<String> = Vec::new();
    let mut inside = false;
    let mut i: usize = 0;
    assert(text::texts(out@) =~= words(s@.take(0)));
    while i < chars.len()
        invariant
            chars@ == s@,
            i <= chars@.len(),
            inside == in_word(s@.take(i as int)),
            text::texts(out@) == words(s@.take(i as int)),
        decreases chars.len() - i,
    {
        let c = chars[i];
        let ghost done = s@.take(i as int);
        let ghost next = s@.take(i + 1);
        let ghost before = text::texts(out@);
        assert(next.drop_last() =~= done);
        assert(next.last() == c);
        if space(c) {
            inside = false;
        } else if inside {
            proof {
                lemma_in_word(done);
            }
            let last = out.pop();
            if let Some(mut word) = last {
                assert(text::texts(out@) =~= before.drop_last());
                assert(word@ == before.last());
                word.push(c);
                out.push(word);
                assert(text::texts(out@) =~= before.drop_last().push(before.last().push(c)));
            }
        } else {
            let mut word = String::new();
            word.push(c);
            assert(word@ =~= seq![c]);
            out.push(word);
            assert(text::texts(out@) =~= before.push(seq![c]));
            inside = true;
        }
        i = i + 1;
    }
    assert(s@.take(i as int) =~= s@);
    out
}

/// The path that a request asks for: the second word of its first line, or "/".
pub open spec fn request_path(request: Seq<char>) -> Seq<char> {
    let line = words(text::split(request, '\n')[0]);
    if line.len() > 1 {
        line[1]
    } else {
        "/"@
    }
}

pub fn path_of(request: &str) -> (r: String)
    ensures
        r@ == request_path(request@),
{
    let lines = text::split_on(request, '\n');
    proof {
        text::lemma_split_nonempty(request@, '\n');
    }
    let line = split_words(lines[0].as_str());
    assert(text::texts(lines@)[0] == lines@[0]@);
    if line.len() > 1 {
        assert(text::texts(line@)[1] == line@[1]@);
        line[1].clone()
    } else {
        "/".to_owned()
    }
}

} // verus!
