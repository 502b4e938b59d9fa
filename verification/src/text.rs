//! Text primitives: splitting and joining, prefixes, decimal and hexadecimal
//! rendering. Everything is stated over the character sequence of a string.

use vstd::prelude::*;
use vstd::string::*;

verus! {

/// `str` equality compares the characters.
pub assume_specification[ <str as PartialEq<str>>::eq ](a: &str, b: &str) -> (r: bool)
    ensures
        r == (a@ == b@),
;

/// `String::push` appends one character.
pub assume_specification[ String::push ](s: &mut String, c: char)
    ensures
        final(s)@ == old(s)@.push(c),
;

/// The pieces of `s` between occurrences of `sep`; always at least one piece.
pub open spec fn split(s: Seq<char>, sep: char) -> Seq<Seq<char>>
    decreases s.len(),
{
    if s.len() == 0 {
        seq![Seq::empty()]
    } else {
        let head = split(s.drop_last(), sep);
        if s.last() == sep {
            head.push(Seq::empty())
        } else {
            head.update(head.len() - 1, head.last().push(s.last()))
        }
    }
}

/// The pieces glued back together with `sep` between them.
pub open spec fn join(parts: Seq<Seq<char>>, sep: char) -> Seq<char>
    decreases parts.len(),
{
    if parts.len() == 0 {
        Seq::empty()
    } else if parts.len() == 1 {
        parts[0]
    } else {
        join(parts.drop_last(), sep).push(sep) + parts.last()
    }
}

/// The character sequences of a list of strings.
pub open spec fn texts(v: Seq<String>) -> Seq<Seq<char>> {
    Seq::new(v.len(), |i: int| v[i]@)
}

pub proof fn lemma_split_nonempty(s: Seq<char>, sep: char)
    ensures
        split(s, sep).len() >= 1,
    decreases s.len(),
{
    if s.len() > 0 {
        lemma_split_nonempty(s.drop_last(), sep);
    }
}

/// Copies the characters of `s` into a vector.
pub fn chars_of(s: &str) -> (r: Vec<char>)
    ensures
        r@ == s@,
{
    let mut out: Vec<char> = Vec::new();
    for c in it: s.chars()
        invariant
            out@ == s@.take(it.index() as int),
            it.seq() == s@,
    {
        out.push(c);
        assert(s@.take(it.index() + 1) =~= s@.take(it.index() as int).push(c));
    }
    assert(s@.take(s@.len() as int) =~= s@);
    out
}

/// Splits `s` at every `sep`.
pub fn split_on(s: &str, sep: char) -> (r: Vec<String>)
    ensures
        texts(r@) == split(s@, sep),
        r@.len() >= 1,
{
    let chars = chars_of(s);
    let mut out: Vec<String> = Vec::new();
    let mut cur = String::new();
    let mut i: usize = 0;
    assert(s@.take(0) =~= Seq::empty());
    assert(texts(out@).push(cur@) =~= seq![Seq::<char>::empty()]);
    while i < chars.len()
        invariant
            chars@ == s@,
            i <= chars.len(),
            texts(out@).push(cur@) == split(s@.take(i as int), sep),
        decreases chars.len() - i,
    {
        let c = chars[i];
        let ghost before = texts(out@).push(cur@);
        assert(s@.take(i + 1).drop_last() =~= s@.take(i as int));
        assert(s@.take(i + 1).last() == c);
        if c == sep {
            out.push(cur);
            cur = String::new();
            assert(texts(out@).push(cur@) =~= before.push(Seq::empty()));
        } else {
            cur.push(c);
            assert(texts(out@).push(cur@) =~= before.update(before.len() - 1, before.last().push(c)));
        }
        i = i + 1;
    }
    assert(s@.take(s@.len() as int) =~= s@);
    let ghost before = texts(out@).push(cur@);
    out.push(cur);
    assert(texts(out@) =~= before);
    out
}

/// No piece of a split holds the separator.
pub proof fn lemma_split_pieces(s: Seq<char>, sep: char)
    ensures
        split(s, sep).len() >= 1,
        forall|i: int| 0 <= i < split(s, sep).len() ==> !(#[trigger] split(s, sep)[i]).contains(sep),
    decreases s.len(),
{
    if s.len() > 0 {
        lemma_split_pieces(s.drop_last(), sep);
        let head = split(s.drop_last(), sep);
        assert forall|i: int| 0 <= i < split(s, sep).len() implies !(#[trigger] split(
            s,
            sep,
        )[i]).contains(sep) by {
            if s.last() != sep && i == head.len() - 1 {
                let piece = head.last().push(s.last());
                assert(split(s, sep)[i] == piece);
                assert forall|k: int| 0 <= k < piece.len() implies piece[k] != sep by {
                    if k < head.last().len() {
                        assert(piece[k] == head.last()[k]);
                        assert(!head[i].contains(sep));
                    }
                }
            }
        }
    }
}

/// Joining the pieces of a split gives the text back.
pub proof fn lemma_join_split(s: Seq<char>, sep: char)
    ensures
        join(split(s, sep), sep) == s,
    decreases s.len(),
{
    if s.len() > 0 {
        lemma_join_split(s.drop_last(), sep);
        lemma_split_nonempty(s.drop_last(), sep);
        let head = split(s.drop_last(), sep);
        let all = split(s, sep);
        if s.last() == sep {
            assert(all.drop_last() =~= head);
            assert(join(all, sep) =~= s);
        } else {
            if head.len() == 1 {
                assert(join(all, sep) =~= s);
            } else {
                assert(all.drop_last() =~= head.drop_last());
                assert(all.last() =~= head.last().push(s.last()));
                assert(s.drop_last() == join(head.drop_last(), sep).push(sep) + head.last());
                assert(join(all, sep) =~= s.drop_last().push(s.last()));
                assert(s.drop_last().push(s.last()) =~= s);
            }
        }
    } else {
        assert(join(split(s, sep), sep) =~= s);
    }
}

/// Splitting distributes over a separator.
pub proof fn lemma_split_concat(a: Seq<char>, b: Seq<char>, sep: char)
    ensures
        split(a.push(sep) + b, sep) == split(a, sep) + split(b, sep),
    decreases b.len(),
{
    let whole = a.push(sep) + b;
    lemma_split_nonempty(a, sep);
    if b.len() == 0 {
        assert(whole =~= a.push(sep));
        assert(a.push(sep).drop_last() =~= a);
        assert(split(whole, sep) =~= split(a, sep) + split(b, sep));
    } else {
        lemma_split_concat(a, b.drop_last(), sep);
        lemma_split_nonempty(b.drop_last(), sep);
        assert(whole.drop_last() =~= a.push(sep) + b.drop_last());
        assert(whole.last() == b.last());
        assert(split(whole, sep) =~= split(a, sep) + split(b, sep));
    }
}

/// A text without the separator is its own only piece.
pub proof fn lemma_split_whole(s: Seq<char>, sep: char)
    requires
        !s.contains(sep),
    ensures
        split(s, sep) == seq![s],
    decreases s.len(),
{
    if s.len() > 0 {
        assert(s.contains(s.last()));
        assert forall|k: int| 0 <= k < s.drop_last().len() implies s.drop_last()[k] != sep by {
            assert(s.contains(s[k]));
        }
        lemma_split_whole(s.drop_last(), sep);
        assert(s.drop_last().push(s.last()) =~= s);
        assert(split(s, sep) =~= seq![s]);
    } else {
        assert(s =~= Seq::empty());
    }
}

/// Splitting what was joined gives the pieces back, when none holds the separator.
pub proof fn lemma_split_join(parts: Seq<Seq<char>>, sep: char)
    requires
        parts.len() >= 1,
        forall|i: int| 0 <= i < parts.len() ==> !(#[trigger] parts[i]).contains(sep),
    ensures
        split(join(parts, sep), sep) == parts,
    decreases parts.len(),
{
    if parts.len() == 1 {
        lemma_split_whole(parts[0], sep);
        assert(parts =~= seq![parts[0]]);
    } else {
        let head = parts.drop_last();
        assert forall|i: int| 0 <= i < head.len() implies !(#[trigger] head[i]).contains(sep) by {
            assert(head[i] == parts[i]);
        }
        lemma_split_join(head, sep);
        lemma_split_whole(parts.last(), sep);
        lemma_split_concat(join(head, sep), parts.last(), sep);
        assert(head + seq![parts.last()] =~= parts);
    }
}

/// Glues the parts together with `sep` between them.
pub fn join_with(parts: &Vec<String>, sep: char) -> (r: String)
    ensures
        r@ == join(texts(parts@), sep),
{
    let mut out = String::new();
    let mut i: usize = 0;
    while i < parts.len()
        invariant
            i <= parts.len(),
            out@ == join(texts(parts@).take(i as int), sep),
        decreases parts.len() - i,
    {
        let ghost all = texts(parts@);
        assert(all.take(i + 1).drop_last() =~= all.take(i as int));
        if i > 0 {
            out.push(sep);
        }
        out.append(parts[i].as_str());
        assert(out@ =~= join(all.take(i + 1), sep));
        i = i + 1;
    }
    assert(texts(parts@).take(parts@.len() as int) =~= texts(parts@));
    out
}

/// `a` followed by `b`.
pub fn concat2(a: &str, b: &str) -> (r: String)
    ensures
        r@ == a@ + b@,
{
    let mut out = a.to_owned();
    out.append(b);
    out
}

/// `a`, `b` and `c` in a row.
pub fn concat3(a: &str, b: &str, c: &str) -> (r: String)
    ensures
        r@ == a@ + b@ + c@,
{
    let mut out = a.to_owned();
    out.append(b);
    out.append(c);
    out
}

pub open spec fn is_prefix(p: Seq<char>, s: Seq<char>) -> bool {
    p.len() <= s.len() && s.take(p.len() as int) == p
}

/// What follows the prefix `p` of `s`; `None` when `s` does not begin with `p`.
pub open spec fn after_prefix(s: Seq<char>, p: Seq<char>) -> Option<Seq<char>> {
    if is_prefix(p, s) {
        Some(s.skip(p.len() as int))
    } else {
        None
    }
}

/// The view of an optional string slice.
pub open spec fn opt_text(o: Option<&str>) -> Option<Seq<char>> {
    match o {
        Some(s) => Some(s@),
        None => None,
    }
}

/// The view of an optional string.
pub open spec fn opt_string(o: Option<String>) -> Option<Seq<char>> {
    match o {
        Some(s) => Some(s@),
        None => None,
    }
}

pub fn strip_text<'a>(s: &'a str, p: &str) -> (r: Option<&'a str>)
    ensures
        opt_text(r) == after_prefix(s@, p@),
{
    let sc = chars_of(s);
    let pc = chars_of(p);
    if pc.len() > sc.len() {
        return None;
    }
    let mut i: usize = 0;
    while i < pc.len()
        invariant
            sc@ == s@,
            pc@ == p@,
            i <= pc.len() <= sc.len(),
            forall|k: int| 0 <= k < i ==> s@[k] == p@[k],
        decreases pc.len() - i,
    {
        if sc[i] != pc[i] {
            assert(s@.take(p@.len() as int)[i as int] != p@[i as int]);
            return None;
        }
        i = i + 1;
    }
    assert(s@.take(p@.len() as int) =~= p@);
    let rest = s.substring_char(pc.len(), sc.len());
    assert(rest@ =~= s@.skip(p@.len() as int));
    Some(rest)
}

/// Does `s` hold the character `c`?
pub fn has_char(s: &str, c: char) -> (r: bool)
    ensures
        r == s@.contains(c),
{
    let sc = chars_of(s);
    let mut i: usize = 0;
    while i < sc.len()
        invariant
            sc@ == s@,
            i <= sc.len(),
            forall|k: int| 0 <= k < i ==> s@[k] != c,
        decreases sc.len() - i,
    {
        if sc[i] == c {
            assert(s@[i as int] == c);
            return true;
        }
        i = i + 1;
    }
    false
}

/// The first character of `s`, if there is one.
pub fn first_char(s: &str) -> (r: Option<char>)
    ensures
        r == (if s@.len() == 0 { None } else { Some(s@[0]) }),
{
    if s.is_empty() {
        None
    } else {
        Some(s.get_char(0))
    }
}

/// The digits of the hexadecimal and decimal systems.
pub open spec fn digits() -> Seq<char> {
    seq!['0', '1', '2', '3', '4', '5', '6', '7', '8', '9', 'a', 'b', 'c', 'd', 'e', 'f']
}

pub fn digit_char(d: u8) -> (c: char)
    requires
        d < 16,
    ensures
        c == digits()[d as int],
{
    let table: [char; 16] = [
        '0', '1', '2', '3', '4', '5', '6', '7', '8', '9', 'a', 'b', 'c', 'd', 'e', 'f',
    ];
    table[d as usize]
}

/// Decimal notation without leading zeros.
pub open spec fn decimal(n: nat) -> Seq<char>
    decreases n,
{
    if n < 10 {
        seq![digits()[n as int]]
    } else {
        decimal(n / 10).push(digits()[(n % 10) as int])
    }
}

pub fn decimal_text(n: u64) -> (r: String)
    ensures
        r@ == decimal(n as nat),
{
    long_decimal_text(n as u128)
}

pub fn long_decimal_text(n: u128) -> (r: String)
    ensures
        r@ == decimal(n as nat),
    decreases n,
{
    if n < 10 {
        let mut out = String::new();
        out.push(digit_char(n as u8));
        assert(out@ =~= decimal(n as nat));
        out
    } else {
        let mut out = long_decimal_text(n / 10);
        out.push(digit_char((n % 10) as u8));
        out
    }
}

/// Two lower-case hexadecimal digits per byte.
pub open spec fn hex(bytes: Seq<u8>) -> Seq<char> {
    Seq::new(
        2 * bytes.len(),
        |i: int|
            if i % 2 == 0 {
                digits()[(bytes[i / 2] / 16) as int]
            } else {
                digits()[(bytes[i / 2] % 16) as int]
            },
    )
}

pub fn hex_text(bytes: &[u8]) -> (r: String)
    ensures
        r@ == hex(bytes@),
{
    let mut out = String::new();
    let mut i: usize = 0;
    while i < bytes.len()
        invariant
            i <= bytes.len(),
            out@ == hex(bytes@.take(i as int)),
        decreases bytes.len() - i,
    {
        let b = bytes[i];
        out.push(digit_char(b / 16));
        out.push(digit_char(b % 16));
        assert(out@ =~= hex(bytes@.take(i + 1)));
        i = i + 1;
    }
    assert(bytes@.take(bytes@.len() as int) =~= bytes@);
    assert(out@ =~= hex(bytes@));
    out
}

/// The hexadecimal rendering determines the bytes.
pub proof fn law_hex_injective(a: Seq<u8>, b: Seq<u8>)
    requires
        hex(a) == hex(b),
    ensures
        a == b,
{
    assert(hex(a).len() == 2 * a.len() && hex(b).len() == 2 * b.len());
    assert forall|i: int| 0 <= i < a.len() implies a[i] == b[i] by {
        assert((2 * i) / 2 == i && (2 * i) % 2 == 0);
        assert((2 * i + 1) / 2 == i && (2 * i + 1) % 2 == 1);
        assert(hex(a)[2 * i] == digits()[(a[i] / 16) as int]);
        assert(hex(b)[2 * i] == digits()[(b[i] / 16) as int]);
        assert(hex(a)[2 * i + 1] == digits()[(a[i] % 16) as int]);
        assert(hex(b)[2 * i + 1] == digits()[(b[i] % 16) as int]);
        lemma_digits_distinct((a[i] / 16) as int, (b[i] / 16) as int);
        lemma_digits_distinct((a[i] % 16) as int, (b[i] % 16) as int);
    }
    assert(a =~= b);
}

proof fn lemma_digits_distinct(i: int, j: int)
    requires
        0 <= i < 16,
        0 <= j < 16,
        digits()[i] == digits()[j],
    ensures
        i == j,
{
}

/// Text between double quotes with its special characters escaped, as Rust writes a
/// string for debugging.
pub uninterp spec fn quoted(text: Seq<char>) -> Seq<char>;

/// Calls `format!` with `{:?}` on a string: the rendering is a function of the text.
#[verifier::external_body]
pub(crate) fn quote(text: &str) -> (r: String)
    ensures
        r@ == quoted(text@),
{
    format!("{text:?}")
}

/// A character between single quotes, escaped if special, as Rust writes it for
/// debugging.
pub uninterp spec fn quoted_char(c: char) -> Seq<char>;

/// Calls `format!` with `{:?}` on a character: the rendering is a function of it.
#[verifier::external_body]
pub(crate) fn quote_char(c: char) -> (r: String)
    ensures
        r@ == quoted_char(c),
{
    format!("{c:?}")
}

} // verus!
