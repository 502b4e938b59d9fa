//! MQTT topic <-> bus key-expression mapping.
//!
//! MQTT `+` maps to `*`, MQTT `#` to `**`. Beyond the MQTT rules, empty levels,
//! leading or trailing `/`, and the characters `* $ ? #` inside names are
//! rejected: they are key-expression syntax. The blessed `$` names are a leading
//! `$SYS` level (node stats) and a leading `$meta` level (companion messages and
//! client events), both in subscription filters only.

use crate::text::{self, chars_of, concat3, first_char, has_char, join_with, split_on, strip_text};
use std::borrow::Cow;
use vstd::prelude::*;
use vstd::string::*;

verus! {

#[derive(Debug, PartialEq, Eq)]
pub enum TopicError {
    /// The topic is empty.
    Empty,
    /// The topic has an empty level (leading, trailing or doubled `/`).
    EmptyLevel,
    /// A wildcard in a publish topic.
    WildcardInTopic(char),
    /// `#` before the final level of a filter.
    HashNotLast,
    /// A wildcard that shares its level with other characters.
    PartialWildcard(String),
    /// A character that is key-expression syntax.
    ReservedChar(char),
}

/// What a [`TopicError`] says.
pub enum TopicFault {
    Empty,
    EmptyLevel,
    WildcardInTopic(char),
    HashNotLast,
    PartialWildcard(Seq<char>),
    ReservedChar(char),
}

impl View for TopicError {
    type V = TopicFault;

    open spec fn view(&self) -> TopicFault {
        match self {
            TopicError::Empty => TopicFault::Empty,
            TopicError::EmptyLevel => TopicFault::EmptyLevel,
            TopicError::WildcardInTopic(c) => TopicFault::WildcardInTopic(*c),
            TopicError::HashNotLast => TopicFault::HashNotLast,
            TopicError::PartialWildcard(l) => TopicFault::PartialWildcard(l@),
            TopicError::ReservedChar(c) => TopicFault::ReservedChar(*c),
        }
    }
}

/// A fault in words.
pub open spec fn fault_text(fault: TopicFault) -> Seq<char> {
    match fault {
        TopicFault::Empty => "topic is empty"@,
        TopicFault::EmptyLevel => "topic has an empty level (leading/trailing or doubled '/')"@,
        TopicFault::WildcardInTopic(c) => "wildcard '"@ + seq![c]
            + "' is not allowed in a publish topic"@,
        TopicFault::HashNotLast => "'#' must be the final level of a filter"@,
        TopicFault::PartialWildcard(level) => "wildcard must occupy a whole level (got "@
            + text::quoted(level) + ")"@,
        TopicFault::ReservedChar(c) => "character "@ + text::quoted_char(c)
            + " is reserved zenoh syntax and not allowed"@,
    }
}

impl TopicError {
    /// The fault in words.
    pub fn message(&self) -> (r: String)
        ensures
            r@ == fault_text(self@),
    {
        match self {
            TopicError::Empty => "topic is empty".to_owned(),
            TopicError::EmptyLevel => {
                "topic has an empty level (leading/trailing or doubled '/')".to_owned()
            },
            TopicError::WildcardInTopic(c) => {
                let mut name = String::new();
                name.push(*c);
                assert(name@ =~= seq![*c]);
                concat3("wildcard '", name.as_str(), "' is not allowed in a publish topic")
            },
            TopicError::HashNotLast => "'#' must be the final level of a filter".to_owned(),
            TopicError::PartialWildcard(level) => concat3(
                "wildcard must occupy a whole level (got ",
                text::quote(level.as_str()).as_str(),
                ")",
            ),
            TopicError::ReservedChar(c) => concat3(
                "character ",
                text::quote_char(*c).as_str(),
                " is reserved zenoh syntax and not allowed",
            ),
        }
    }
}

/// The view of a mapping result.
pub open spec fn mapped(r: Result<String, TopicError>) -> Result<Seq<char>, TopicFault> {
    match r {
        Ok(k) => Ok(k@),
        Err(e) => Err(e@),
    }
}

/// Internal keyspace for the mesh-wide retained-message store. The chunk starts
/// with `@`, so client topics, whose levels may not, can never observe or forge it.
pub const RETAINED_CHUNK: &'static str = "@retained";

/// The `$SYS` topic space: node stats, subscribe-only for clients.
pub const SYS_PREFIX: &'static str = "$SYS";

pub const SYS_CHUNK: &'static str = "@sys";

/// The `$meta` topic space: staleness companions and client events,
/// subscribe-only for clients.
pub const META_PREFIX: &'static str = "$meta";

pub const META_CHUNK: &'static str = "@meta";

/// The levels of a topic or filter.
pub open spec fn levels_of(s: Seq<char>) -> Seq<Seq<char>> {
    text::split(s, '/')
}

pub open spec fn is_reserved(c: char) -> bool {
    c == '*' || c == '$' || c == '?'
}

/// The first reserved character of a level.
pub open spec fn first_reserved(level: Seq<char>) -> Option<char>
    decreases level.len(),
{
    if level.len() == 0 {
        None
    } else {
        match first_reserved(level.drop_last()) {
            Some(c) => Some(c),
            None => if is_reserved(level.last()) {
                Some(level.last())
            } else {
                None
            },
        }
    }
}

/// What is wrong with the characters of a level, if anything: a leading `@`
/// marks a verbatim chunk, and `* $ ?` are key-expression syntax.
pub open spec fn level_fault(level: Seq<char>) -> Option<TopicFault> {
    if level.len() > 0 && level[0] == '@' {
        Some(TopicFault::ReservedChar('@'))
    } else {
        match first_reserved(level) {
            Some(c) => Some(TopicFault::ReservedChar(c)),
            None => None,
        }
    }
}

/// What is wrong with the shape of a topic or filter, if anything.
pub open spec fn shape_fault(s: Seq<char>) -> Option<TopicFault> {
    if s.len() == 0 {
        Some(TopicFault::Empty)
    } else if exists|i: int| 0 <= i < levels_of(s).len() && (#[trigger] levels_of(s)[i]).len() == 0 {
        Some(TopicFault::EmptyLevel)
    } else {
        None
    }
}

/// What is wrong with one level of a publish topic, if anything.
pub open spec fn publish_level_fault(level: Seq<char>) -> Option<TopicFault> {
    if level.contains('+') {
        Some(TopicFault::WildcardInTopic('+'))
    } else if level.contains('#') {
        Some(TopicFault::WildcardInTopic('#'))
    } else {
        level_fault(level)
    }
}

/// The fault of the first faulty level.
pub open spec fn publish_levels_fault(levels: Seq<Seq<char>>) -> Option<TopicFault>
    decreases levels.len(),
{
    if levels.len() == 0 {
        None
    } else {
        match publish_levels_fault(levels.drop_last()) {
            Some(e) => Some(e),
            None => publish_level_fault(levels.last()),
        }
    }
}

/// What is wrong with a publish topic, if anything.
pub open spec fn topic_fault(topic: Seq<char>) -> Option<TopicFault> {
    match shape_fault(topic) {
        Some(e) => Some(e),
        None => publish_levels_fault(levels_of(topic)),
    }
}

/// A key inside the namespace `scope`; the empty scope is no namespace.
pub open spec fn scoped_key(scope: Seq<char>, key: Seq<char>) -> Seq<char> {
    if scope.len() == 0 {
        key
    } else {
        scope + seq!['/'] + key
    }
}

/// The key of a publish topic: the topic itself, inside the scope.
pub open spec fn topic_key(topic: Seq<char>, scope: Seq<char>) -> Result<Seq<char>, TopicFault> {
    match topic_fault(topic) {
        Some(e) => Err(e),
        None => Ok(scoped_key(scope, topic)),
    }
}

/// The chunk that level `i` of a filter maps to; `last` is the index of its final level.
pub open spec fn filter_chunk(level: Seq<char>, i: int, last: int) -> Result<
    Seq<char>,
    TopicFault,
> {
    if i == 0 && level == SYS_PREFIX@ {
        Ok(SYS_CHUNK@)
    } else if i == 0 && level == META_PREFIX@ {
        Ok(META_CHUNK@)
    } else if level == "+"@ {
        Ok("*"@)
    } else if level == "#"@ {
        if i != last {
            Err(TopicFault::HashNotLast)
        } else {
            Ok("**"@)
        }
    } else if level.contains('+') || level.contains('#') {
        Err(TopicFault::PartialWildcard(level))
    } else {
        match level_fault(level) {
            Some(e) => Err(e),
            None => Ok(level),
        }
    }
}

/// The chunks of the first `n` levels of a filter, or the fault of the first faulty one.
pub open spec fn filter_chunks(levels: Seq<Seq<char>>, n: int) -> Result<
    Seq<Seq<char>>,
    TopicFault,
>
    decreases n,
{
    if n <= 0 {
        Ok(Seq::empty())
    } else {
        match filter_chunks(levels, n - 1) {
            Err(e) => Err(e),
            Ok(head) => match filter_chunk(levels[n - 1], n - 1, levels.len() - 1) {
                Err(e) => Err(e),
                Ok(chunk) => Ok(head.push(chunk)),
            },
        }
    }
}

/// The key expression of a subscription filter.
pub open spec fn filter_key(filter: Seq<char>, scope: Seq<char>) -> Result<Seq<char>, TopicFault> {
    match shape_fault(filter) {
        Some(e) => Err(e),
        None => {
            let levels = levels_of(filter);
            match filter_chunks(levels, levels.len() as int) {
                Err(e) => Err(e),
                Ok(chunks) => Ok(scoped_key(scope, text::join(chunks, '/'))),
            }
        },
    }
}

/// A key without its scope; `None` when it lies outside.
pub open spec fn unscoped(key: Seq<char>, scope: Seq<char>) -> Option<Seq<char>> {
    if scope.len() == 0 {
        Some(key)
    } else {
        match text::after_prefix(key, scope) {
            Some(rest) => text::after_prefix(rest, seq!['/']),
            None => None,
        }
    }
}

/// The topic that an incoming key surfaces as: `@sys` keys as `$SYS/...`, `@meta`
/// keys as `$meta/...`, no other `@` keyspace at all, everything else verbatim.
pub open spec fn key_topic(key: Seq<char>, scope: Seq<char>) -> Option<Seq<char>> {
    match unscoped(key, scope) {
        None => None,
        Some(rest) => match text::after_prefix(rest, SYS_CHUNK@) {
            Some(tail) => match text::after_prefix(tail, seq!['/']) {
                Some(sys) => Some(SYS_PREFIX@ + seq!['/'] + sys),
                None => None,
            },
            None => match text::after_prefix(rest, META_CHUNK@) {
                Some(tail) => match text::after_prefix(tail, seq!['/']) {
                    Some(meta) => Some(META_PREFIX@ + seq!['/'] + meta),
                    None => None,
                },
                None => if rest.len() > 0 && rest[0] == '@' {
                    None
                } else {
                    Some(rest)
                },
            },
        },
    }
}

/// Does a filter match a topic, level by level? `#` matches whatever follows,
/// and the parent level too; `+` matches one level; a literal matches itself.
pub open spec fn levels_match(f: Seq<Seq<char>>, t: Seq<Seq<char>>) -> bool
    decreases f.len(),
{
    if f.len() == 0 {
        t.len() == 0
    } else if f[0] == "#"@ {
        true
    } else if t.len() == 0 {
        false
    } else {
        (f[0] == "+"@ || f[0] == t[0]) && levels_match(f.skip(1), t.skip(1))
    }
}

/// The topics that a filter stands for.
pub open spec fn filter_matches(filter: Seq<char>, topic: Seq<char>) -> bool {
    levels_match(levels_of(filter), levels_of(topic))
}

/// Does `o` cover `i`, level by level? Conservative: a literal covers only itself,
/// and `+` does not cover `#`.
pub open spec fn levels_cover(o: Seq<Seq<char>>, i: Seq<Seq<char>>) -> bool
    decreases o.len(),
{
    if o.len() == 0 {
        i.len() == 0
    } else if o[0] == "#"@ {
        true
    } else if i.len() == 0 {
        false
    } else if o[0] == "+"@ {
        i[0] != "#"@ && levels_cover(o.skip(1), i.skip(1))
    } else {
        o[0] == i[0] && levels_cover(o.skip(1), i.skip(1))
    }
}

/// Is the filter `inner` covered by the filter `outer`?
pub open spec fn covers(outer: Seq<char>, inner: Seq<char>) -> bool {
    levels_cover(levels_of(outer), levels_of(inner))
}

/// A key in one of the internal keyspaces.
pub open spec fn internal_key(chunk: Seq<char>, suffix: Seq<char>, scope: Seq<char>) -> Seq<char> {
    scoped_key(scope, chunk + seq!['/'] + suffix)
}

/// The topic that a key of the retained keyspace belongs to.
pub open spec fn retained_topic(key: Seq<char>, scope: Seq<char>) -> Option<Seq<char>> {
    match unscoped(key, scope) {
        None => None,
        Some(rest) => match text::after_prefix(rest, RETAINED_CHUNK@) {
            None => None,
            Some(tail) => text::after_prefix(tail, seq!['/']),
        },
    }
}

fn check_level_chars(level: &str) -> (r: Result<(), TopicError>)
    ensures
        match r {
            Ok(_) => level_fault(level@) is None,
            Err(e) => level_fault(level@) == Some(e@),
        },
{
    let chars = chars_of(level);
    if chars.len() > 0 && chars[0] == '@' {
        return Err(TopicError::ReservedChar('@'));
    }
    let mut i: usize = 0;
    while i < chars.len()
        invariant
            chars@ == level@,
            i <= chars.len(),
            level@.len() > 0 ==> level@[0] != '@',
            first_reserved(level@.take(i as int)) is None,
        decreases chars.len() - i,
    {
        let c = chars[i];
        assert(level@.take(i + 1).drop_last() =~= level@.take(i as int));
        assert(level@.take(i + 1).last() == c);
        if c == '*' || c == '$' || c == '?' {
            proof {
                lemma_first_reserved_prefix(level@, i + 1);
            }
            return Err(TopicError::ReservedChar(c));
        }
        i = i + 1;
    }
    assert(level@.take(level@.len() as int) =~= level@);
    Ok(())
}

proof fn lemma_first_reserved_prefix(level: Seq<char>, n: int)
    requires
        0 <= n <= level.len(),
        first_reserved(level.take(n)) is Some,
    ensures
        first_reserved(level) == first_reserved(level.take(n)),
    decreases level.len(),
{
    if n < level.len() {
        assert(level.drop_last().take(n) =~= level.take(n));
        lemma_first_reserved_prefix(level.drop_last(), n);
    } else {
        assert(level.take(n) =~= level);
    }
}

fn levels(s: &str) -> (r: Result<Vec<String>, TopicError>)
    ensures
        match r {
            Ok(parts) => shape_fault(s@) is None && text::texts(parts@) == levels_of(s@)
                && parts@.len() >= 1,
            Err(e) => shape_fault(s@) == Some(e@),
        },
{
    if s.is_empty() {
        return Err(TopicError::Empty);
    }
    let parts = split_on(s, '/');
    let mut i: usize = 0;
    while i < parts.len()
        invariant
            i <= parts.len(),
            text::texts(parts@) == levels_of(s@),
            s@.len() > 0,
            forall|k: int| 0 <= k < i ==> (#[trigger] levels_of(s@)[k]).len() > 0,
        decreases parts.len() - i,
    {
        assert(levels_of(s@)[i as int] == parts@[i as int]@);
        if parts[i].as_str().is_empty() {
            return Err(TopicError::EmptyLevel);
        }
        i = i + 1;
    }
    Ok(parts)
}

fn scoped(scope: &str, ke: String) -> (r: String)
    ensures
        r@ == scoped_key(scope@, ke@),
{
    if scope.is_empty() {
        ke
    } else {
        let mut out = scope.to_owned();
        out.push('/');
        out.append(ke.as_str());
        assert(out@ =~= scope@ + seq!['/'] + ke@);
        out
    }
}

/// Maps a concrete publish topic (no wildcards allowed) to a key expression.
pub fn topic_to_keyexpr(topic: &str, scope: &str) -> (r: Result<String, TopicError>)
    ensures
        mapped(r) == topic_key(topic@, scope@),
{
    let parts = match levels(topic) {
        Ok(parts) => parts,
        Err(e) => {
            return Err(e);
        },
    };
    let mut i: usize = 0;
    while i < parts.len()
        invariant
            i <= parts.len(),
            shape_fault(topic@) is None,
            text::texts(parts@) == levels_of(topic@),
            publish_levels_fault(levels_of(topic@).take(i as int)) is None,
        decreases parts.len() - i,
    {
        let level = parts[i].as_str();
        proof {
            let ls = levels_of(topic@);
            assert(ls[i as int] == level@);
            assert(ls.take(i + 1).drop_last() =~= ls.take(i as int));
            assert(ls.take(i + 1).last() == level@);
            if publish_level_fault(level@) is Some {
                lemma_publish_fault_prefix(ls, i + 1);
            }
        }
        if has_char(level, '+') {
            return Err(TopicError::WildcardInTopic('+'));
        }
        if has_char(level, '#') {
            return Err(TopicError::WildcardInTopic('#'));
        }
        match check_level_chars(level) {
            Ok(_) => {},
            Err(e) => {
                return Err(e);
            },
        }
        i = i + 1;
    }
    assert(levels_of(topic@).take(parts@.len() as int) =~= levels_of(topic@));
    proof {
        text::lemma_join_split(topic@, '/');
    }
    Ok(scoped(scope, join_with(&parts, '/')))
}

proof fn lemma_publish_fault_prefix(levels: Seq<Seq<char>>, n: int)
    requires
        0 <= n <= levels.len(),
        publish_levels_fault(levels.take(n)) is Some,
    ensures
        publish_levels_fault(levels) == publish_levels_fault(levels.take(n)),
    decreases levels.len(),
{
    if n < levels.len() {
        assert(levels.drop_last().take(n) =~= levels.take(n));
        lemma_publish_fault_prefix(levels.drop_last(), n);
    } else {
        assert(levels.take(n) =~= levels);
    }
}

proof fn lemma_filter_fault_prefix(levels: Seq<Seq<char>>, n: int, m: int)
    requires
        0 <= n <= m,
        filter_chunks(levels, n) is Err,
    ensures
        filter_chunks(levels, m) == filter_chunks(levels, n),
    decreases m - n,
{
    if n < m {
        lemma_filter_fault_prefix(levels, n, m - 1);
    }
}

/// Maps an MQTT subscription filter (may contain `+` and `#`) to a key expression.
///
/// A filter whose first level is exactly `$SYS` or `$meta` maps onto an internal
/// keyspace. Its chunk is verbatim, so `#` and `+` filters can never match it,
/// which is what MQTT-4.7.2-1 requires of topics that begin with `$`.
pub fn filter_to_keyexpr(filter: &str, scope: &str) -> (r: Result<String, TopicError>)
    ensures
        mapped(r) == filter_key(filter@, scope@),
{
    let parts = match levels(filter) {
        Ok(parts) => parts,
        Err(e) => {
            return Err(e);
        },
    };
    let last: usize = parts.len() - 1;
    let mut out: Vec<String> = Vec::new();
    let mut i: usize = 0;
    assert(text::texts(out@) =~= Seq::empty());
    while i < parts.len()
        invariant
            i <= parts.len(),
            last == parts.len() - 1,
            shape_fault(filter@) is None,
            text::texts(parts@) == levels_of(filter@),
            filter_chunks(levels_of(filter@), i as int) == Ok::<Seq<Seq<char>>, TopicFault>(
                text::texts(out@),
            ),
        decreases parts.len() - i,
    {
        let level = parts[i].as_str();
        let ghost ls = levels_of(filter@);
        let ghost done = text::texts(out@);
        assert(ls[i as int] == level@);
        proof {
            if filter_chunks(ls, i + 1) is Err {
                lemma_filter_fault_prefix(ls, i + 1, ls.len() as int);
            }
        }
        if i == 0 && *level == *SYS_PREFIX {
            out.push(SYS_CHUNK.to_owned());
        } else if i == 0 && *level == *META_PREFIX {
            out.push(META_CHUNK.to_owned());
        } else if *level == *"+" {
            out.push("*".to_owned());
        } else if *level == *"#" {
            if i != last {
                return Err(TopicError::HashNotLast);
            }
            out.push("**".to_owned());
        } else if has_char(level, '+') || has_char(level, '#') {
            return Err(TopicError::PartialWildcard(level.to_owned()));
        } else {
            match check_level_chars(level) {
                Ok(_) => {},
                Err(e) => {
                    return Err(e);
                },
            }
            out.push(level.to_owned());
        }
        assert(text::texts(out@) =~= done.push(out@.last()@));
        i = i + 1;
    }
    Ok(scoped(scope, join_with(&out, '/')))
}

fn strip_scope<'a>(ke: &'a str, scope: &str) -> (r: Option<&'a str>)
    ensures
        text::opt_text(r) == unscoped(ke@, scope@),
{
    if scope.is_empty() {
        return Some(ke);
    }
    match strip_text(ke, scope) {
        Some(rest) => strip_slash(rest),
        None => None,
    }
}

/// What follows a leading `/`.
fn strip_slash<'a>(s: &'a str) -> (r: Option<&'a str>)
    ensures
        text::opt_text(r) == text::after_prefix(s@, seq!['/']),
{
    proof {
        reveal_strlit("/");
        assert("/"@ =~= seq!['/']);
    }
    strip_text(s, "/")
}

/// Maps the key of an incoming sample back to an MQTT topic. Keys in the `@sys`
/// and `@meta` keyspaces surface as `$SYS/...` and `$meta/...`; other internal `@`
/// keyspaces never surface as client topics.
pub fn keyexpr_to_topic<'a>(ke: &'a str, scope: &str) -> (r: Option<Cow<'a, str>>)
    ensures
        match r {
            Some(t) => key_topic(ke@, scope@) == Some(t@),
            None => key_topic(ke@, scope@) is None,
        },
{
    let rest = match strip_scope(ke, scope) {
        Some(rest) => rest,
        None => {
            return None;
        },
    };
    match strip_text(rest, SYS_CHUNK) {
        Some(tail) => {
            return match strip_slash(tail) {
                Some(sys) => Some(Cow::Owned(under(SYS_PREFIX, sys))),
                None => None,
            };
        },
        None => {},
    }
    match strip_text(rest, META_CHUNK) {
        Some(tail) => {
            return match strip_slash(tail) {
                Some(meta) => Some(Cow::Owned(under(META_PREFIX, meta))),
                None => None,
            };
        },
        None => {},
    }
    match first_char(rest) {
        Some('@') => None,
        _ => Some(Cow::Borrowed(rest)),
    }
}

/// `root/rest`.
fn under(root: &str, rest: &str) -> (r: String)
    ensures
        r@ == root@ + seq!['/'] + rest@,
{
    let mut out = root.to_owned();
    out.push('/');
    out.append(rest);
    assert(out@ =~= root@ + seq!['/'] + rest@);
    out
}

/// Does an MQTT filter match a concrete topic? Both are assumed validated.
pub fn topic_matches(filter: &str, topic_name: &str) -> (r: bool)
    ensures
        r == filter_matches(filter@, topic_name@),
{
    let f = split_on(filter, '/');
    let t = split_on(topic_name, '/');
    let ghost fs = levels_of(filter@);
    let ghost ts = levels_of(topic_name@);
    let mut i: usize = 0;
    assert(fs.skip(0) =~= fs && ts.skip(0) =~= ts);
    while i < f.len()
        invariant
            i <= f.len(),
            i <= t.len(),
            fs == levels_of(filter@),
            ts == levels_of(topic_name@),
            text::texts(f@) == fs,
            text::texts(t@) == ts,
            filter_matches(filter@, topic_name@) == levels_match(fs.skip(i as int), ts.skip(i as int)),
        decreases f.len() - i,
    {
        let level = f[i].as_str();
        assert(fs.skip(i as int)[0] == level@);
        assert(fs.skip(i as int).skip(1) =~= fs.skip(i + 1));
        if *level == *"#" {
            return true;
        }
        if i >= t.len() {
            return false;
        }
        assert(ts.skip(i as int)[0] == t@[i as int]@);
        assert(ts.skip(i as int).skip(1) =~= ts.skip(i + 1));
        if !(*level == *"+") && !(*level == *t[i].as_str()) {
            return false;
        }
        i = i + 1;
    }
    f.len() == t.len()
}

/// Is every topic matched by `inner` also matched by `outer`? Used for ACLs: a
/// requested subscription filter must be covered by a granted one.
/// Conservative: literals only cover identical literals.
pub fn filter_covers(outer: &str, inner: &str) -> (r: bool)
    ensures
        r == covers(outer@, inner@),
{
    let o = split_on(outer, '/');
    let n = split_on(inner, '/');
    let ghost os = levels_of(outer@);
    let ghost ns = levels_of(inner@);
    let mut i: usize = 0;
    assert(os.skip(0) =~= os && ns.skip(0) =~= ns);
    while i < o.len()
        invariant
            i <= o.len(),
            i <= n.len(),
            os == levels_of(outer@),
            ns == levels_of(inner@),
            text::texts(o@) == os,
            text::texts(n@) == ns,
            covers(outer@, inner@) == levels_cover(os.skip(i as int), ns.skip(i as int)),
        decreases o.len() - i,
    {
        let outer_level = o[i].as_str();
        assert(os.skip(i as int)[0] == outer_level@);
        assert(os.skip(i as int).skip(1) =~= os.skip(i + 1));
        if *outer_level == *"#" {
            return true;
        }
        if i >= n.len() {
            return false;
        }
        let inner_level = n[i].as_str();
        assert(ns.skip(i as int)[0] == inner_level@);
        assert(ns.skip(i as int).skip(1) =~= ns.skip(i + 1));
        if *outer_level == *"+" {
            if *inner_level == *"#" {
                return false;
            }
        } else if !(*outer_level == *inner_level) {
            return false;
        }
        i = i + 1;
    }
    n.len() == o.len()
}

/// The key under which the retained copy of `topic_name` is stored.
pub fn retained_keyexpr(topic_name: &str, scope: &str) -> (r: String)
    ensures
        r@ == internal_key(RETAINED_CHUNK@, topic_name@, scope@),
{
    scoped(scope, under(RETAINED_CHUNK, topic_name))
}

/// The filter that covers the whole retained keyspace.
pub fn retained_filter(scope: &str) -> (r: String)
    ensures
        r@ == internal_key(RETAINED_CHUNK@, "**"@, scope@),
{
    scoped(scope, under(RETAINED_CHUNK, "**"))
}

/// Recovers the MQTT topic from a key of the retained keyspace.
pub fn retained_keyexpr_to_topic<'a>(ke: &'a str, scope: &str) -> (r: Option<&'a str>)
    ensures
        text::opt_text(r) == retained_topic(ke@, scope@),
{
    match strip_scope(ke, scope) {
        None => None,
        Some(rest) => match strip_text(rest, RETAINED_CHUNK) {
            None => None,
            Some(tail) => strip_slash(tail),
        },
    }
}

/// The key on which the node publishes the `$SYS/<suffix>` topic.
pub fn sys_keyexpr(suffix: &str, scope: &str) -> (r: String)
    ensures
        r@ == internal_key(SYS_CHUNK@, suffix@, scope@),
{
    scoped(scope, under(SYS_CHUNK, suffix))
}

/// The key on which the node publishes the `$meta/<suffix>` topic.
pub fn meta_keyexpr(suffix: &str, scope: &str) -> (r: String)
    ensures
        r@ == internal_key(META_CHUNK@, suffix@, scope@),
{
    scoped(scope, under(META_CHUNK, suffix))
}

} // verus!
