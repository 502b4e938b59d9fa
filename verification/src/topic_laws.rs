//! Laws of the topic mapping: what is published comes back, the internal
//! keyspaces can be neither forged nor observed, filter coverage is sound, and the
//! bus routes by key expression exactly as filters match topics.

use crate::text;
use crate::topic::{self, TopicFault, META_CHUNK, META_PREFIX, RETAINED_CHUNK, SYS_CHUNK, SYS_PREFIX};
use vstd::prelude::*;

verus! {

/// Taking the scope off a scoped key gives the key back.
pub proof fn law_scope_round_trip(key: Seq<char>, scope: Seq<char>)
    ensures
        topic::unscoped(topic::scoped_key(scope, key), scope) == Some(key),
{
    if scope.len() > 0 {
        let whole = scope + seq!['/'] + key;
        assert(whole.take(scope.len() as int) =~= scope);
        let rest = whole.skip(scope.len() as int);
        assert(rest =~= seq!['/'] + key);
        assert(rest.take(1) =~= seq!['/']);
        assert(rest.skip(1) =~= key);
    }
}

proof fn lemma_no_publish_fault(levels: Seq<Seq<char>>, i: int)
    requires
        topic::publish_levels_fault(levels) is None,
        0 <= i < levels.len(),
    ensures
        topic::publish_level_fault(levels[i]) is None,
    decreases levels.len(),
{
    if i < levels.len() - 1 {
        lemma_no_publish_fault(levels.drop_last(), i);
        assert(levels.drop_last()[i] == levels[i]);
    }
}

proof fn lemma_no_reserved(level: Seq<char>, k: int)
    requires
        topic::first_reserved(level) is None,
        0 <= k < level.len(),
    ensures
        level[k] != '*' && level[k] != '$' && level[k] != '?',
    decreases level.len(),
{
    if k < level.len() - 1 {
        lemma_no_reserved(level.drop_last(), k);
        assert(level.drop_last()[k] == level[k]);
    }
}

/// A text begins with its first piece.
proof fn lemma_first_piece(s: Seq<char>, sep: char)
    ensures
        text::split(s, sep).len() >= 1,
        text::is_prefix(text::split(s, sep)[0], s),
    decreases s.len(),
{
    text::lemma_split_nonempty(s, sep);
    if s.len() > 0 {
        let d = s.drop_last();
        lemma_first_piece(d, sep);
        let head = text::split(d, sep);
        if s.last() != sep && head.len() == 1 {
            lemma_single_piece(d, sep);
            assert(text::split(s, sep)[0] =~= s);
            assert(s.take(s.len() as int) =~= s);
        } else {
            let p = text::split(s, sep)[0];
            assert(p == head[0]);
            assert(s.take(p.len() as int) =~= d.take(p.len() as int));
        }
    } else {
        assert(s.take(0) =~= text::split(s, sep)[0]);
    }
}

proof fn lemma_single_piece(s: Seq<char>, sep: char)
    requires
        text::split(s, sep).len() == 1,
    ensures
        text::split(s, sep)[0] == s,
    decreases s.len(),
{
    if s.len() > 0 {
        text::lemma_split_nonempty(s.drop_last(), sep);
        assert(s.last() != sep);
        lemma_single_piece(s.drop_last(), sep);
        assert(s.drop_last().push(s.last()) =~= s);
    } else {
        assert(text::split(s, sep)[0] =~= s);
    }
}

/// A joined text begins with its first part.
proof fn lemma_join_first(parts: Seq<Seq<char>>, sep: char)
    requires
        parts.len() >= 1,
    ensures
        text::is_prefix(parts[0], text::join(parts, sep)),
    decreases parts.len(),
{
    let whole = text::join(parts, sep);
    let n = parts[0].len() as int;
    if parts.len() > 1 {
        let head = parts.drop_last();
        lemma_join_first(head, sep);
        assert(head[0] == parts[0]);
        assert(whole.take(n) =~= text::join(head, sep).take(n));
    } else {
        assert(whole.take(n) =~= parts[0]);
    }
}

/// A valid publish topic is not empty and does not begin with `@`, nor does any level.
proof fn lemma_valid_topic(topic: Seq<char>)
    requires
        topic::topic_fault(topic) is None,
    ensures
        topic.len() > 0,
        topic[0] != '@',
        forall|i: int|
            0 <= i < topic::levels_of(topic).len() ==> (#[trigger] topic::levels_of(topic)[i]).len() > 0
                && topic::publish_level_fault(topic::levels_of(topic)[i]) is None,
{
    let ls = topic::levels_of(topic);
    assert forall|i: int| 0 <= i < ls.len() implies (#[trigger] ls[i]).len() > 0
        && topic::publish_level_fault(ls[i]) is None by {
        lemma_no_publish_fault(ls, i);
    }
    lemma_first_piece(topic, '/');
    assert(ls[0].len() > 0);
    assert(topic.take(ls[0].len() as int)[0] == topic[0]);
}

/// Every topic that may be published comes back unchanged from its key.
pub proof fn law_topic_round_trip(topic: Seq<char>, scope: Seq<char>)
    requires
        topic::topic_key(topic, scope) is Ok,
    ensures
        topic::key_topic(topic::topic_key(topic, scope)->Ok_0, scope) == Some(topic),
{
    lemma_valid_topic(topic);
    law_scope_round_trip(topic, scope);
    lemma_not_internal(topic);
}

/// A text that does not begin with `@` lies in no internal keyspace.
proof fn lemma_not_internal(rest: Seq<char>)
    requires
        rest.len() > 0,
        rest[0] != '@',
    ensures
        text::after_prefix(rest, SYS_CHUNK@) is None,
        text::after_prefix(rest, META_CHUNK@) is None,
        text::after_prefix(rest, RETAINED_CHUNK@) is None,
{
    reveal_strlit("@sys");
    reveal_strlit("@meta");
    reveal_strlit("@retained");
    if text::is_prefix(SYS_CHUNK@, rest) {
        assert(rest.take(4)[0] == rest[0]);
    }
    if text::is_prefix(META_CHUNK@, rest) {
        assert(rest.take(5)[0] == rest[0]);
    }
    if text::is_prefix(RETAINED_CHUNK@, rest) {
        assert(rest.take(9)[0] == rest[0]);
    }
}

/// Two topics that may be published have different keys unless they are the same.
pub proof fn law_topic_keys_distinct(a: Seq<char>, b: Seq<char>, scope: Seq<char>)
    requires
        topic::topic_key(a, scope) is Ok,
        topic::topic_key(b, scope) is Ok,
        topic::topic_key(a, scope) == topic::topic_key(b, scope),
    ensures
        a == b,
{
    law_topic_round_trip(a, scope);
    law_topic_round_trip(b, scope);
}

/// The retained key of a topic gives the topic back.
pub proof fn law_retained_round_trip(topic: Seq<char>, scope: Seq<char>)
    ensures
        topic::retained_topic(topic::internal_key(RETAINED_CHUNK@, topic, scope), scope) == Some(topic),
{
    let rest = RETAINED_CHUNK@ + seq!['/'] + topic;
    law_scope_round_trip(rest, scope);
    lemma_after_chunk(RETAINED_CHUNK@, topic);
}

proof fn lemma_after_chunk(chunk: Seq<char>, suffix: Seq<char>)
    ensures
        text::after_prefix(chunk + seq!['/'] + suffix, chunk) == Some(seq!['/'] + suffix),
        text::after_prefix(seq!['/'] + suffix, seq!['/']) == Some(suffix),
{
    let rest = chunk + seq!['/'] + suffix;
    assert(rest.take(chunk.len() as int) =~= chunk);
    assert(rest.skip(chunk.len() as int) =~= seq!['/'] + suffix);
    assert((seq!['/'] + suffix).take(1) =~= seq!['/']);
    assert((seq!['/'] + suffix).skip(1) =~= suffix);
}

/// The retained keyspace never surfaces as a client topic.
pub proof fn law_retained_keys_hidden(topic: Seq<char>, scope: Seq<char>)
    ensures
        topic::key_topic(topic::internal_key(RETAINED_CHUNK@, topic, scope), scope) is None,
{
    let rest = RETAINED_CHUNK@ + seq!['/'] + topic;
    law_scope_round_trip(rest, scope);
    reveal_strlit("@sys");
    reveal_strlit("@meta");
    reveal_strlit("@retained");
    if text::is_prefix(SYS_CHUNK@, rest) {
        assert(rest.take(4)[1] == rest[1]);
    }
    if text::is_prefix(META_CHUNK@, rest) {
        assert(rest.take(5)[1] == rest[1]);
    }
    assert(rest[0] == '@');
}

/// A key of the `@sys` keyspace surfaces as the `$SYS` topic of the same suffix.
pub proof fn law_sys_round_trip(suffix: Seq<char>, scope: Seq<char>)
    ensures
        topic::key_topic(topic::internal_key(SYS_CHUNK@, suffix, scope), scope) == Some(
            SYS_PREFIX@ + seq!['/'] + suffix,
        ),
{
    law_scope_round_trip(SYS_CHUNK@ + seq!['/'] + suffix, scope);
    lemma_after_chunk(SYS_CHUNK@, suffix);
}

/// A key of the `@meta` keyspace surfaces as the `$meta` topic of the same suffix.
pub proof fn law_meta_round_trip(suffix: Seq<char>, scope: Seq<char>)
    ensures
        topic::key_topic(topic::internal_key(META_CHUNK@, suffix, scope), scope) == Some(
            META_PREFIX@ + seq!['/'] + suffix,
        ),
{
    let rest = META_CHUNK@ + seq!['/'] + suffix;
    law_scope_round_trip(rest, scope);
    lemma_after_chunk(META_CHUNK@, suffix);
    reveal_strlit("@sys");
    reveal_strlit("@meta");
    if text::is_prefix(SYS_CHUNK@, rest) {
        assert(rest.take(4)[1] == rest[1]);
    }
}

/// No publish topic maps into a keyspace whose chunk begins with `@`: the retained
/// store, the `$SYS` and `$meta` spaces and the control channel cannot be forged.
pub proof fn law_topics_cannot_forge(
    topic: Seq<char>,
    chunk: Seq<char>,
    suffix: Seq<char>,
    scope: Seq<char>,
)
    requires
        topic::topic_key(topic, scope) is Ok,
        chunk.len() > 0,
        chunk[0] == '@',
    ensures
        topic::topic_key(topic, scope)->Ok_0 != topic::internal_key(chunk, suffix, scope),
        topic::retained_topic(topic::topic_key(topic, scope)->Ok_0, scope) is None,
{
    lemma_valid_topic(topic);
    law_scope_round_trip(topic, scope);
    law_scope_round_trip(chunk + seq!['/'] + suffix, scope);
    lemma_not_internal(topic);
    assert((chunk + seq!['/'] + suffix)[0] == '@');
}

proof fn lemma_filter_chunks_each(levels: Seq<Seq<char>>, n: int, i: int)
    requires
        topic::filter_chunks(levels, n) is Ok,
        0 <= i < n,
    ensures
        topic::filter_chunks(levels, n)->Ok_0.len() == n,
        topic::filter_chunk(levels[i], i, levels.len() - 1) == Ok::<Seq<char>, TopicFault>(
            topic::filter_chunks(levels, n)->Ok_0[i],
        ),
    decreases n,
{
    if n > 1 {
        if i < n - 1 {
            lemma_filter_chunks_each(levels, n - 1, i);
        } else {
            lemma_filter_chunks_each(levels, n - 1, 0);
        }
    } else {
        assert(topic::filter_chunks(levels, 0) == Ok::<Seq<Seq<char>>, TopicFault>(Seq::empty()));
    }
}

/// Whether a filter asks for one of the `$` spaces, by its first level.
pub open spec fn asks_internal(filter: Seq<char>) -> bool {
    topic::levels_of(filter)[0] == SYS_PREFIX@ || topic::levels_of(filter)[0] == META_PREFIX@
}

/// A filter reaches an `@` keyspace only if its first level is `$SYS` or `$meta`
/// (so `#` and `+` never see those spaces), and no filter reaches the retained one.
pub proof fn law_filters_cannot_observe(filter: Seq<char>, scope: Seq<char>)
    requires
        topic::filter_key(filter, scope) is Ok,
    ensures
        ({
            let key = topic::filter_key(filter, scope)->Ok_0;
            &&& topic::unscoped(key, scope) is Some
            &&& topic::unscoped(key, scope)->Some_0.len() > 0
            &&& (topic::unscoped(key, scope)->Some_0[0] == '@') == asks_internal(filter)
            &&& topic::retained_topic(key, scope) is None
        }),
{
    reveal_strlit("@sys");
    reveal_strlit("@meta");
    reveal_strlit("@retained");
    reveal_strlit("*");
    reveal_strlit("**");
    reveal_strlit("+");
    reveal_strlit("#");
    reveal_strlit("$SYS");
    reveal_strlit("$meta");
    let ls = topic::levels_of(filter);
    text::lemma_split_nonempty(filter, '/');
    let n = ls.len() as int;
    let chunks = topic::filter_chunks(ls, n)->Ok_0;
    lemma_filter_chunks_each(ls, n, 0);
    let first = chunks[0];
    let rest = text::join(chunks, '/');
    law_scope_round_trip(rest, scope);
    lemma_join_first(chunks, '/');
    assert(ls[0].len() > 0);
    assert(first.len() > 0);
    assert(rest.take(first.len() as int)[0] == rest[0]);
    if asks_internal(filter) {
        assert(rest.take(first.len() as int)[1] == rest[1]);
        if text::is_prefix(RETAINED_CHUNK@, rest) {
            assert(rest.take(9)[1] == rest[1]);
        }
    } else {
        lemma_not_internal(rest);
    }
}

proof fn lemma_cover_sound(
    o: Seq<Seq<char>>,
    i: Seq<Seq<char>>,
    t: Seq<Seq<char>>,
)
    requires
        topic::levels_cover(o, i),
        topic::levels_match(i, t),
    ensures
        topic::levels_match(o, t),
    decreases o.len(),
{
    reveal_strlit("+");
    reveal_strlit("#");
    if o.len() > 0 && o[0] != "#"@ {
        lemma_cover_sound(o.skip(1), i.skip(1), t.skip(1));
    }
}

/// Coverage is sound: every topic that `inner` matches, `outer` matches too.
pub proof fn law_coverage_sound(outer: Seq<char>, inner: Seq<char>, topic: Seq<char>)
    requires
        topic::covers(outer, inner),
        topic::filter_matches(inner, topic),
    ensures
        topic::filter_matches(outer, topic),
{
    lemma_cover_sound(topic::levels_of(outer), topic::levels_of(inner), topic::levels_of(topic));
}

proof fn lemma_cover_reflexive(f: Seq<Seq<char>>)
    ensures
        topic::levels_cover(f, f),
    decreases f.len(),
{
    reveal_strlit("+");
    reveal_strlit("#");
    if f.len() > 0 {
        lemma_cover_reflexive(f.skip(1));
        if f[0] == "+"@ {
            assert(f[0][0] == '+');
        }
    }
}

/// Every filter covers itself.
pub proof fn law_coverage_reflexive(filter: Seq<char>)
    ensures
        topic::covers(filter, filter),
{
    lemma_cover_reflexive(topic::levels_of(filter));
}

proof fn lemma_cover_transitive(a: Seq<Seq<char>>, b: Seq<Seq<char>>, c: Seq<Seq<char>>)
    requires
        topic::levels_cover(a, b),
        topic::levels_cover(b, c),
    ensures
        topic::levels_cover(a, c),
    decreases a.len(),
{
    reveal_strlit("+");
    reveal_strlit("#");
    if a.len() > 0 && a[0] != "#"@ {
        lemma_cover_transitive(a.skip(1), b.skip(1), c.skip(1));
    }
}

/// Coverage is transitive.
pub proof fn law_coverage_transitive(a: Seq<char>, b: Seq<char>, c: Seq<char>)
    requires
        topic::covers(a, b),
        topic::covers(b, c),
    ensures
        topic::covers(a, c),
{
    lemma_cover_transitive(topic::levels_of(a), topic::levels_of(b), topic::levels_of(c));
}

/// A chunk that no wildcard of the bus matches.
pub open spec fn is_verbatim(chunk: Seq<char>) -> bool {
    chunk.len() > 0 && chunk[0] == '@'
}

/// The key-expression language of the bus: `*` stands for one chunk, `**` for any
/// number of chunks, neither for a verbatim chunk; anything else stands for itself.
pub open spec fn chunks_match(p: Seq<Seq<char>>, k: Seq<Seq<char>>) -> bool
    decreases p.len() + k.len(),
{
    if p.len() == 0 {
        k.len() == 0
    } else if p[0] == "**"@ {
        chunks_match(p.skip(1), k) || (k.len() > 0 && !is_verbatim(k[0]) && chunks_match(
            p,
            k.skip(1),
        ))
    } else {
        k.len() > 0 && (p[0] == k[0] || (p[0] == "*"@ && !is_verbatim(k[0]))) && chunks_match(
            p.skip(1),
            k.skip(1),
        )
    }
}

/// Does the key expression `pattern` match the key `key`?
pub open spec fn key_matches(pattern: Seq<char>, key: Seq<char>) -> bool {
    chunks_match(text::split(pattern, '/'), text::split(key, '/'))
}

proof fn lemma_double_star(k: Seq<Seq<char>>)
    requires
        forall|i: int| 0 <= i < k.len() ==> !is_verbatim(#[trigger] k[i]),
    ensures
        chunks_match(seq!["**"@], k),
    decreases k.len(),
{
    let p = seq!["**"@];
    assert(p.skip(1) =~= Seq::empty());
    if k.len() == 0 {
        assert(chunks_match(p.skip(1), k));
    } else {
        assert forall|i: int| 0 <= i < k.skip(1).len() implies !is_verbatim(
            #[trigger] k.skip(1)[i],
        ) by {
            assert(k.skip(1)[i] == k[i + 1]);
        }
        lemma_double_star(k.skip(1));
    }
}

/// The suffix of a filter from level `j` on, against a suffix of a valid topic.
proof fn lemma_suffix_agrees(
    f: Seq<Seq<char>>,
    chunks: Seq<Seq<char>>,
    j: int,
    t: Seq<Seq<char>>,
)
    requires
        0 <= j <= f.len(),
        topic::filter_chunks(f, f.len() as int) == Ok::<Seq<Seq<char>>, TopicFault>(chunks),
        f.len() > 0 ==> chunks.len() == f.len(),
        forall|i: int|
            0 <= i < f.len() ==> topic::filter_chunk(#[trigger] f[i], i, f.len() - 1) == Ok::<
                Seq<char>,
                TopicFault,
            >(chunks[i]),
        forall|i: int| 0 <= i < f.len() ==> (#[trigger] f[i]).len() > 0,
        forall|i: int|
            0 <= i < t.len() ==> topic::publish_level_fault(#[trigger] t[i]) is None && t[i].len() > 0,
    ensures
        topic::levels_match(f.skip(j), t) == chunks_match(chunks.skip(j), t),
    decreases f.len() - j,
{
    if j < f.len() {
        reveal_strlit("@sys");
        reveal_strlit("@meta");
        reveal_strlit("*");
        reveal_strlit("**");
        reveal_strlit("+");
        reveal_strlit("#");
        reveal_strlit("$SYS");
        reveal_strlit("$meta");
        let level = f[j];
        assert(topic::filter_chunk(level, j, f.len() - 1) == Ok::<Seq<char>, TopicFault>(chunks[j]));
        assert(f.skip(j)[0] == level);
        assert(chunks.skip(j)[0] == chunks[j]);
        assert(f.skip(j).skip(1) =~= f.skip(j + 1));
        assert(chunks.skip(j).skip(1) =~= chunks.skip(j + 1));
        if level == "#"@ {
            assert(chunks.skip(j) =~= seq!["**"@]);
            lemma_double_star(t);
        } else {
            if t.len() > 0 {
                assert(topic::publish_level_fault(t[0]) is None && t[0].len() > 0);
                assert forall|i: int| 0 <= i < t.skip(1).len() implies topic::publish_level_fault(
                    #[trigger] t.skip(1)[i],
                ) is None && t.skip(1)[i].len() > 0 by {
                    assert(t.skip(1)[i] == t[i + 1]);
                }
                lemma_suffix_agrees(f, chunks, j + 1, t.skip(1));
                lemma_no_reserved(t[0], 0);
            }
            if topic::level_fault(level) is None {
                lemma_no_reserved(level, 0);
            }
            if level == "+"@ {
                assert(level[0] == '+');
            }
            assert(chunks[j] != "**"@);
        }
    } else {
        assert(f.skip(j) =~= Seq::empty());
        assert(chunks.skip(j) =~= Seq::empty());
    }
}

proof fn lemma_common_prefix(s: Seq<Seq<char>>, p: Seq<Seq<char>>, k: Seq<Seq<char>>)
    requires
        forall|i: int| 0 <= i < s.len() ==> #[trigger] s[i] != "**"@,
    ensures
        chunks_match(s + p, s + k) == chunks_match(p, k),
    decreases s.len(),
{
    if s.len() == 0 {
        assert(s + p =~= p);
        assert(s + k =~= k);
    } else {
        assert((s + p).skip(1) =~= s.skip(1) + p);
        assert((s + k).skip(1) =~= s.skip(1) + k);
        assert((s + p)[0] == s[0]);
        assert forall|i: int| 0 <= i < s.skip(1).len() implies #[trigger] s.skip(1)[i] != "**"@ by {
            assert(s.skip(1)[i] == s[i + 1]);
        }
        lemma_common_prefix(s.skip(1), p, k);
    }
}

proof fn lemma_split_scoped(scope: Seq<char>, key: Seq<char>)
    ensures
        scope.len() > 0 ==> text::split(topic::scoped_key(scope, key), '/') == text::split(scope, '/') + text::split(
            key,
            '/',
        ),
{
    if scope.len() > 0 {
        text::lemma_split_concat(scope, key, '/');
        assert(scope.push('/') + key =~= scope + seq!['/'] + key);
    }
}

/// The chunks of a filter that maps to a key: one for each level, none with a `/`.
proof fn lemma_filter_pieces(filter: Seq<char>, scope: Seq<char>) -> (chunks: Seq<Seq<char>>)
    requires
        topic::filter_key(filter, scope) is Ok,
    ensures
        ({
            let f = topic::levels_of(filter);
            let rest = text::join(chunks, '/');
            &&& f.len() > 0
            &&& chunks.len() == f.len()
            &&& topic::filter_chunks(f, f.len() as int) == Ok::<Seq<Seq<char>>, TopicFault>(chunks)
            &&& forall|i: int| 0 <= i < f.len() ==> (#[trigger] f[i]).len() > 0
            &&& forall|i: int|
                0 <= i < f.len() ==> topic::filter_chunk(#[trigger] f[i], i, f.len() - 1) == Ok::<
                    Seq<char>,
                    TopicFault,
                >(chunks[i])
            &&& topic::filter_key(filter, scope) == Ok::<Seq<char>, TopicFault>(
                topic::scoped_key(scope, rest),
            )
            &&& text::split(rest, '/') == chunks
        }),
{
    let f = topic::levels_of(filter);
    let n = f.len() as int;
    text::lemma_split_pieces(filter, '/');
    let chunks = topic::filter_chunks(f, n)->Ok_0;
    lemma_filter_chunks_each(f, n, 0);
    reveal_strlit("@sys");
    reveal_strlit("@meta");
    reveal_strlit("*");
    reveal_strlit("**");
    assert forall|i: int| 0 <= i < n implies topic::filter_chunk(#[trigger] f[i], i, n - 1) == Ok::<
        Seq<char>,
        TopicFault,
    >(chunks[i]) by {
        lemma_filter_chunks_each(f, n, i);
    }
    assert forall|i: int| 0 <= i < chunks.len() implies !(#[trigger] chunks[i]).contains('/') by {
        lemma_filter_chunks_each(f, n, i);
        assert(!f[i].contains('/'));
    }
    text::lemma_split_join(chunks, '/');
    chunks
}

/// Keys under one scope match as they do without it.
proof fn lemma_scope_is_common(scope: Seq<char>, pattern: Seq<char>, key: Seq<char>)
    requires
        plain_scope(scope),
    ensures
        key_matches(topic::scoped_key(scope, pattern), topic::scoped_key(scope, key)) == key_matches(
            pattern,
            key,
        ),
{
    lemma_split_scoped(scope, pattern);
    lemma_split_scoped(scope, key);
    if scope.len() > 0 {
        lemma_common_prefix(
            text::split(scope, '/'),
            text::split(pattern, '/'),
            text::split(key, '/'),
        );
    }
}

/// A scope without a `**` chunk.
pub open spec fn plain_scope(scope: Seq<char>) -> bool {
    scope.len() > 0 ==> forall|i: int|
        0 <= i < text::split(scope, '/').len() ==> #[trigger] text::split(scope, '/')[i] != "**"@
}

/// The bus delivers by key expression exactly what the filter asks for: a filter
/// matches a topic if and only if its key expression matches the topic's key.
/// A scope with a `**` chunk of its own is left out.
pub proof fn law_routing_agrees(filter: Seq<char>, topic: Seq<char>, scope: Seq<char>)
    requires
        topic::filter_key(filter, scope) is Ok,
        topic::topic_key(topic, scope) is Ok,
        plain_scope(scope),
    ensures
        key_matches(topic::filter_key(filter, scope)->Ok_0, topic::topic_key(topic, scope)->Ok_0)
            == topic::filter_matches(filter, topic),
{
    let f = topic::levels_of(filter);
    let t = topic::levels_of(topic);
    let chunks = lemma_filter_pieces(filter, scope);
    lemma_valid_topic(topic);
    lemma_suffix_agrees(f, chunks, 0, t);
    assert(f.skip(0) =~= f);
    assert(chunks.skip(0) =~= chunks);
    lemma_scope_is_common(scope, text::join(chunks, '/'), topic);
}

/// The levels of a text below a root.
proof fn lemma_split_below(root: Seq<char>, rest: Seq<char>)
    requires
        !root.contains('/'),
    ensures
        text::split(root + seq!['/'] + rest, '/') == seq![root] + text::split(rest, '/'),
{
    text::lemma_split_concat(root, rest, '/');
    text::lemma_split_whole(root, '/');
    assert(root.push('/') + rest =~= root + seq!['/'] + rest);
}

/// The bus never delivers from an internal keyspace to a subscription, except from the
/// one that the subscription names by its first level: `#` and `+` see no `@` keyspace
/// (MQTT-4.7.2-1), and nothing sees the retained store or the control channel.
pub proof fn law_internal_keys_are_hidden(
    filter: Seq<char>,
    chunk: Seq<char>,
    suffix: Seq<char>,
    scope: Seq<char>,
)
    requires
        topic::filter_key(filter, scope) is Ok,
        chunk.len() > 0,
        chunk[0] == '@',
        !chunk.contains('/'),
        plain_scope(scope),
        key_matches(
            topic::filter_key(filter, scope)->Ok_0,
            topic::internal_key(chunk, suffix, scope),
        ),
    ensures
        ({
            let first = topic::levels_of(filter)[0];
            ||| first == SYS_PREFIX@ && chunk == SYS_CHUNK@
            ||| first == META_PREFIX@ && chunk == META_CHUNK@
        }),
        chunk != RETAINED_CHUNK@,
{
    reveal_strlit("@sys");
    reveal_strlit("@meta");
    reveal_strlit("@retained");
    reveal_strlit("*");
    reveal_strlit("**");
    reveal_strlit("#");
    let f = topic::levels_of(filter);
    let chunks = lemma_filter_pieces(filter, scope);
    let key = chunk + seq!['/'] + suffix;
    lemma_scope_is_common(scope, text::join(chunks, '/'), key);
    lemma_split_below(chunk, suffix);
    let k = text::split(key, '/');
    assert(k[0] == chunk);
    assert(chunks_match(chunks, k));
    assert(topic::filter_chunk(f[0], 0, f.len() - 1) == Ok::<Seq<char>, TopicFault>(chunks[0]));
    if chunks[0] == "**"@ {
        assert("**"@[0] == '*' && "**"@.len() == 2 && "*"@.len() == 1 && "@sys"@[0] == '@'
            && "@meta"@[0] == '@');
        if f[0] != "#"@ {
            lemma_no_reserved(f[0], 0);
        }
        assert(chunks.skip(1) =~= Seq::empty());
        assert(chunks_match(chunks.skip(1), k));
    }
    assert(chunks[0] == chunk);
}

/// A subscription below `$SYS` or `$meta` gets from the bus exactly what its filter asks
/// for of the node's own messages there.
pub proof fn law_internal_routing_agrees(
    filter: Seq<char>,
    root: Seq<char>,
    chunk: Seq<char>,
    suffix: Seq<char>,
    scope: Seq<char>,
)
    requires
        topic::filter_key(filter, scope) is Ok,
        topic::topic_fault(suffix) is None,
        (root == SYS_PREFIX@ && chunk == SYS_CHUNK@) || (root == META_PREFIX@ && chunk
            == META_CHUNK@),
        topic::levels_of(filter)[0] == root,
        plain_scope(scope),
    ensures
        key_matches(
            topic::filter_key(filter, scope)->Ok_0,
            topic::internal_key(chunk, suffix, scope),
        ) == topic::filter_matches(filter, root + seq!['/'] + suffix),
{
    reveal_strlit("@sys");
    reveal_strlit("@meta");
    reveal_strlit("$SYS");
    reveal_strlit("$meta");
    reveal_strlit("*");
    reveal_strlit("**");
    reveal_strlit("+");
    reveal_strlit("#");
    let f = topic::levels_of(filter);
    let t = topic::levels_of(suffix);
    let chunks = lemma_filter_pieces(filter, scope);
    let key = chunk + seq!['/'] + suffix;
    lemma_scope_is_common(scope, text::join(chunks, '/'), key);
    lemma_split_below(chunk, suffix);
    lemma_split_below(root, suffix);
    lemma_valid_topic(suffix);
    lemma_suffix_agrees(f, chunks, 1, t);
    assert(topic::filter_chunk(f[0], 0, f.len() - 1) == Ok::<Seq<char>, TopicFault>(chunks[0]));
    assert(chunks[0] == chunk);
    assert(root[0] == '$');
    assert("+"@[0] == '+' && "#"@[0] == '#' && "*"@[0] == '*' && "**"@[0] == '*');
    assert((seq![chunk] + t).skip(1) =~= t);
    assert((seq![root] + t).skip(1) =~= t);
}

} // verus!
