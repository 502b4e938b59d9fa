//! Length-prefixed chunks: the encoding of the files that a node keeps. A chunk is its
//! length in four bytes, most significant first, and then its bytes.

use vstd::prelude::*;

verus! {

/// Four bytes, most significant first.
pub open spec fn be32(n: nat) -> Seq<u8> {
    seq![
        ((n / 16777216) % 256) as u8,
        ((n / 65536) % 256) as u8,
        ((n / 256) % 256) as u8,
        (n % 256) as u8,
    ]
}

/// The number that four bytes stand for.
pub open spec fn be32_value(b: Seq<u8>) -> nat {
    (b[0] as nat) * 16777216 + (b[1] as nat) * 65536 + (b[2] as nat) * 256 + (b[3] as nat)
}

/// Four bytes hold any number below 2^32.
pub proof fn lemma_be32(n: nat)
    requires
        n <= u32::MAX,
    ensures
        be32(n).len() == 4,
        be32_value(be32(n)) == n,
{
    assert((n / 16777216) % 256 == n / 16777216);
    assert(n / 65536 == (n / 16777216) * 256 + (n / 65536) % 256);
    assert(n / 256 == (n / 65536) * 256 + (n / 256) % 256);
    assert(n == (n / 256) * 256 + n % 256);
}

/// Eight bytes, most significant first.
pub open spec fn be64(n: u64) -> Seq<u8> {
    be32((n / 4294967296) as nat) + be32((n % 4294967296) as nat)
}

/// The number that eight bytes stand for.
pub open spec fn be64_value(b: Seq<u8>) -> nat {
    be32_value(b.take(4)) * 4294967296 + be32_value(b.skip(4))
}

/// Eight bytes hold any 64-bit number.
pub proof fn lemma_be64(n: u64)
    ensures
        be64(n).len() == 8,
        be64_value(be64(n)) == n,
{
    lemma_be32((n / 4294967296) as nat);
    lemma_be32((n % 4294967296) as nat);
    assert(be64(n).take(4) =~= be32((n / 4294967296) as nat));
    assert(be64(n).skip(4) =~= be32((n % 4294967296) as nat));
}

/// A chunk as it is written; of the length only 32 bits are kept.
pub open spec fn chunk(bytes: Seq<u8>) -> Seq<u8> {
    be32(bytes.len() % 4294967296) + bytes
}

/// The first chunk of some bytes and what follows it; `None` where they end too early.
pub open spec fn first_chunk(s: Seq<u8>) -> Option<(Seq<u8>, Seq<u8>)> {
    if s.len() < 4 {
        None
    } else {
        let n = be32_value(s.take(4));
        if s.len() - 4 < n {
            None
        } else {
            Some((s.subrange(4, 4 + n as int), s.skip(4 + n as int)))
        }
    }
}

/// A chunk is read back as it was written, whatever follows it.
pub proof fn law_chunk_round_trip(bytes: Seq<u8>, rest: Seq<u8>)
    requires
        bytes.len() <= u32::MAX,
    ensures
        first_chunk(chunk(bytes) + rest) == Some((bytes, rest)),
{
    let n = bytes.len();
    lemma_be32(n);
    assert(n % 4294967296 == n);
    let s = chunk(bytes) + rest;
    assert(s.take(4) =~= be32(n));
    assert(s.subrange(4, 4 + n as int) =~= bytes);
    assert(s.skip(4 + n as int) =~= rest);
}

/// Appends four bytes of a number.
fn put_be32(out: &mut Vec<u8>, n: u32)
    ensures
        final(out)@ == old(out)@ + be32(n as nat),
{
    out.push(((n / 16777216) % 256) as u8);
    out.push(((n / 65536) % 256) as u8);
    out.push(((n / 256) % 256) as u8);
    out.push((n % 256) as u8);
    assert(out@ =~= old(out)@ + be32(n as nat));
}

/// Appends eight bytes of a number.
pub fn put_be64(out: &mut Vec<u8>, n: u64)
    ensures
        final(out)@ == old(out)@ + be64(n),
{
    put_be32(out, (n / 4294967296) as u32);
    put_be32(out, (n % 4294967296) as u32);
    assert(out@ =~= old(out)@ + be64(n));
}

/// Appends bytes.
pub fn put_bytes(out: &mut Vec<u8>, bytes: &[u8])
    ensures
        final(out)@ == old(out)@ + bytes@,
{
    let mut i: usize = 0;
    while i < bytes.len()
        invariant
            i <= bytes@.len(),
            out@ == old(out)@ + bytes@.take(i as int),
        decreases bytes.len() - i,
    {
        out.push(bytes[i]);
        assert(out@ =~= old(out)@ + bytes@.take(i + 1));
        i = i + 1;
    }
    assert(bytes@.take(i as int) =~= bytes@);
}

/// Appends a chunk.
pub fn put_chunk(out: &mut Vec<u8>, bytes: &[u8])
    ensures
        final(out)@ == old(out)@ + chunk(bytes@),
{
    let n: u64 = bytes.len() as u64 % 4294967296;
    put_be32(out, n as u32);
    put_bytes(out, bytes);
    assert(out@ =~= old(out)@ + chunk(bytes@));
}

/// The number in four bytes.
fn get_be32(s: &[u8], at: usize) -> (r: u32)
    requires
        at + 4 <= s@.len(),
    ensures
        r == be32_value(s@.subrange(at as int, at + 4)),
{
    let b0: u64 = s[at] as u64;
    let b1: u64 = s[at + 1] as u64;
    let b2: u64 = s[at + 2] as u64;
    let b3: u64 = s[at + 3] as u64;
    let v: u64 = b0 * 16777216 + b1 * 65536 + b2 * 256 + b3;
    v as u32
}

/// The number in eight bytes.
pub fn get_be64(s: &[u8], at: usize) -> (r: u64)
    requires
        at + 8 <= s@.len(),
    ensures
        r == be64_value(s@.subrange(at as int, at + 8)),
{
    assert(at + 8 <= s.len());
    let hi = get_be32(s, at);
    let lo = get_be32(s, at + 4);
    assert(s@.subrange(at as int, at + 8).take(4) =~= s@.subrange(at as int, at + 4));
    assert(s@.subrange(at as int, at + 8).skip(4) =~= s@.subrange(at + 4, at + 8));
    hi as u64 * 4294967296 + lo as u64
}

/// A copy of part of some bytes.
pub fn copy_range(s: &[u8], from: usize, to: usize) -> (r: Vec<u8>)
    requires
        from <= to <= s@.len(),
    ensures
        r@ == s@.subrange(from as int, to as int),
{
    let mut out: Vec<u8> = Vec::new();
    let mut i: usize = from;
    while i < to
        invariant
            from <= i <= to <= s@.len(),
            out@ == s@.subrange(from as int, i as int),
        decreases to - i,
    {
        out.push(s[i]);
        assert(s@.subrange(from as int, i + 1) =~= s@.subrange(from as int, i as int).push(
            s@[i as int],
        ));
        i = i + 1;
    }
    out
}

/// Reads the chunk that starts at `at`; hands back its bytes and where it ends.
pub fn read_chunk(s: &[u8], at: usize) -> (r: Option<(Vec<u8>, usize)>)
    requires
        at <= s@.len(),
    ensures
        match r {
            Some((bytes, next)) => next <= s@.len() && at + 4 <= next && first_chunk(
                s@.skip(at as int),
            ) == Some((bytes@, s@.skip(next as int))),
            None => first_chunk(s@.skip(at as int)) is None,
        },
{
    let left: usize = s.len() - at;
    if left < 4 {
        return None;
    }
    let n = get_be32(s, at);
    assert(s@.skip(at as int).take(4) =~= s@.subrange(at as int, at + 4));
    if ((left - 4) as u64) < n as u64 {
        return None;
    }
    let start: usize = at + 4;
    let end: usize = start + n as usize;
    let bytes = copy_range(s, start, end);
    assert(s@.skip(at as int).subrange(4, 4 + n) =~= s@.subrange(start as int, end as int));
    assert(s@.skip(at as int).skip(4 + n) =~= s@.skip(end as int));
    Some((bytes, end))
}

/// Whether bytes begin with a magic number, and what follows it.
pub open spec fn after_magic(s: Seq<u8>, magic: Seq<u8>) -> Option<Seq<u8>> {
    if magic.len() <= s.len() && s.take(magic.len() as int) == magic {
        Some(s.skip(magic.len() as int))
    } else {
        None
    }
}

/// Whether bytes begin with a magic number.
pub fn has_magic(s: &[u8], magic: &[u8]) -> (r: bool)
    ensures
        r == (after_magic(s@, magic@) is Some),
{
    if s.len() < magic.len() {
        return false;
    }
    let mut i: usize = 0;
    while i < magic.len()
        invariant
            i <= magic@.len() <= s@.len(),
            forall|k: int| 0 <= k < i ==> s@[k] == magic@[k],
        decreases magic.len() - i,
    {
        if s[i] != magic[i] {
            assert(s@.take(magic@.len() as int)[i as int] != magic@[i as int]);
            return false;
        }
        i = i + 1;
    }
    assert(s@.take(magic@.len() as int) =~= magic@);
    true
}

/// Calls `String::from_utf8`: a text exactly for valid UTF-8, and then the one that the
/// bytes encode.
#[verifier::external_body]
pub(crate) fn utf8_text(bytes: Vec<u8>) -> (r: Option<String>)
    ensures
        match r {
            Some(s) => vstd::utf8::valid_utf8(bytes@) && s@ == vstd::utf8::decode_utf8(bytes@),
            None => !vstd::utf8::valid_utf8(bytes@),
        },
{
    String::from_utf8(bytes).ok()
}

/// Pairs of a text and bytes as plain values.
pub open spec fn pairs(v: Seq<(String, Vec<u8>)>) -> Seq<(Seq<char>, Seq<u8>)> {
    v.map_values(|p: (String, Vec<u8>)| (p.0@, p.1@))
}

/// Pairs as they are written: a chunk for the text and a chunk for the bytes of each.
pub open spec fn pairs_bytes(list: Seq<(Seq<char>, Seq<u8>)>) -> Seq<u8>
    decreases list.len(),
{
    if list.len() == 0 {
        Seq::empty()
    } else {
        chunk(vstd::utf8::encode_utf8(list[0].0)) + chunk(list[0].1) + pairs_bytes(list.skip(1))
    }
}

/// The texts and bytes of pairs fit the length fields of their chunks.
pub open spec fn pairs_fit(list: Seq<(Seq<char>, Seq<u8>)>) -> bool {
    forall|i: int|
        0 <= i < list.len() ==> vstd::utf8::encode_utf8((#[trigger] list[i]).0).len() <= u32::MAX
            && list[i].1.len() <= u32::MAX
}

/// The first pair of some bytes, its text not yet decoded, and what follows it.
pub open spec fn first_pair(s: Seq<u8>) -> Option<(Seq<u8>, Seq<u8>, Seq<u8>)> {
    match first_chunk(s) {
        None => None,
        Some((t, after_text)) => match first_chunk(after_text) {
            None => None,
            Some((v, rest)) => Some((t, v, rest)),
        },
    }
}

/// The first pair is read back as it was written.
pub proof fn lemma_first_pair(list: Seq<(Seq<char>, Seq<u8>)>)
    requires
        list.len() > 0,
        pairs_fit(list),
    ensures
        first_chunk(pairs_bytes(list)) == Some(
            (
                vstd::utf8::encode_utf8(list[0].0),
                chunk(list[0].1) + pairs_bytes(list.skip(1)),
            ),
        ),
        first_pair(pairs_bytes(list)) == Some(
            (vstd::utf8::encode_utf8(list[0].0), list[0].1, pairs_bytes(list.skip(1))),
        ),
        vstd::utf8::valid_utf8(vstd::utf8::encode_utf8(list[0].0)),
        vstd::utf8::decode_utf8(vstd::utf8::encode_utf8(list[0].0)) == list[0].0,
        pairs_bytes(list).len() > pairs_bytes(list.skip(1)).len(),
        pairs_fit(list.skip(1)),
{
    let name = list[0].0;
    let t = vstd::utf8::encode_utf8(name);
    let tail = list.skip(1);
    let rest = pairs_bytes(tail);
    assert(t.len() <= u32::MAX && list[0].1.len() <= u32::MAX);
    assert(pairs_bytes(list) =~= chunk(t) + (chunk(list[0].1) + rest));
    law_chunk_round_trip(t, chunk(list[0].1) + rest);
    law_chunk_round_trip(list[0].1, rest);
    assert(vstd::utf8::valid_utf8(t) && vstd::utf8::decode_utf8(t) == name) by {
        vstd::utf8::encode_utf8_valid_utf8(name);
        vstd::utf8::encode_utf8_decode_utf8(name);
    }
    assert forall|i: int| 0 <= i < tail.len() implies vstd::utf8::encode_utf8(
        (#[trigger] tail[i]).0,
    ).len() <= u32::MAX && tail[i].1.len() <= u32::MAX by {
        assert(tail[i] == list[i + 1]);
    }
}

/// Appends a pair.
pub fn put_pair(out: &mut Vec<u8>, name: &str, value: &[u8])
    ensures
        final(out)@ == old(out)@ + (chunk(vstd::utf8::encode_utf8(name@)) + chunk(value@)),
{
    put_chunk(out, name.as_bytes());
    put_chunk(out, value);
    assert(out@ =~= old(out)@ + (chunk(vstd::utf8::encode_utf8(name@)) + chunk(value@)));
}

/// One pair more.
pub proof fn lemma_pairs_step(list: Seq<(Seq<char>, Seq<u8>)>, i: int)
    requires
        0 <= i < list.len(),
    ensures
        pairs_bytes(list.skip(i)) == chunk(vstd::utf8::encode_utf8(list[i].0)) + chunk(list[i].1)
            + pairs_bytes(list.skip(i + 1)),
{
    assert(list.skip(i)[0] == list[i]);
    assert(list.skip(i).skip(1) =~= list.skip(i + 1));
}

/// Texts with different bytes are different: UTF-8 determines the text.
pub proof fn lemma_utf8_injective(a: Seq<char>, b: Seq<char>)
    requires
        vstd::utf8::encode_utf8(a) == vstd::utf8::encode_utf8(b),
    ensures
        a == b,
{
    vstd::utf8::encode_utf8_decode_utf8(a);
    vstd::utf8::encode_utf8_decode_utf8(b);
}

} // verus!
