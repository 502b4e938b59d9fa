//! Laws of topic names: which texts are topics and filters, character by character, what
//! keys they get, and which topics and filters a filter stands for, level by level.

use crate::text;
use crate::topic::{self, TopicError, TopicFault};
use crate::topic_laws;
use std::borrow::Cow;
use vstd::prelude::*;
use vstd::string::*;

verus! {

/// Whether a text has an empty level: it begins or ends with `/`, or has two in a row.
pub open spec fn has_empty_level(s: Seq<char>) -> bool {
    s[0] == '/' || s.last() == '/' || exists|k: int|
        0 <= k < s.len() - 1 && #[trigger] s[k] == '/' && s[k + 1] == '/'
}

/// Whether a level of a text begins with a character.
pub open spec fn has_level_from(s: Seq<char>, c: char) -> bool {
    (s.len() > 0 && s[0] == c) || exists|k: int|
        0 <= k < s.len() - 1 && #[trigger] s[k] == '/' && s[k + 1] == c
}

/// Whether a text can be published on: it is not empty, has no empty level, holds none of
/// `+ # * $ ?`, and none of its levels begins with `@`.
pub open spec fn is_plain_name(s: Seq<char>) -> bool {
    &&& s.len() > 0
    &&& !has_empty_level(s)
    &&& !s.contains('+') && !s.contains('#')
    &&& !s.contains('*') && !s.contains('$') && !s.contains('?')
    &&& !has_level_from(s, '@')
}

/// The levels of a text and its characters: other characters than `/` are those of the
/// levels, and where levels begin and end is said by `/`.
proof fn lemma_levels(s: Seq<char>, c: char)
    requires
        c != '/',
    ensures
        ({
            let ls = topic::levels_of(s);
            let n = ls.len() as int;
            &&& n >= 1
            &&& s.contains(c) <==> exists|i: int| 0 <= i < n && (#[trigger] ls[i]).contains(c)
            &&& ls[n - 1].len() == 0 <==> s.len() == 0 || s.last() == '/'
            &&& (exists|i: int| 0 <= i < n - 1 && (#[trigger] ls[i]).len() == 0) <==> ((s.len() > 0
                && s[0] == '/') || exists|k: int|
                0 <= k < s.len() - 1 && #[trigger] s[k] == '/' && s[k + 1] == '/')
            &&& (exists|i: int| 0 <= i < n && (#[trigger] ls[i]).len() > 0 && ls[i][0] == c)
                <==> has_level_from(s, c)
        }),
    decreases s.len(),
{
    let ls = topic::levels_of(s);
    let n = ls.len() as int;
    if s.len() == 0 {
        assert(ls =~= seq![Seq::<char>::empty()]);
    } else {
        let d = s.drop_last();
        let x = s.last();
        let ds = topic::levels_of(d);
        let m = ds.len() as int;
        lemma_levels(d, c);
        assert forall|k: int| 0 <= k < d.len() implies #[trigger] d[k] == s[k] by {}
        if x == '/' {
            assert(ls == ds.push(Seq::empty()));
            assert forall|i: int| 0 <= i < m implies #[trigger] ls[i] == ds[i] by {}
            lemma_contains_last(s, c);
            // The characters.
            if s.contains(c) {
                let i = choose|i: int| 0 <= i < m && (#[trigger] ds[i]).contains(c);
                assert(ls[i].contains(c));
            }
            if exists|i: int| 0 <= i < n && (#[trigger] ls[i]).contains(c) {
                let i = choose|i: int| 0 <= i < n && (#[trigger] ls[i]).contains(c);
                assert(ds[i].contains(c));
            }
            // Empty levels before the last.
            if exists|i: int| 0 <= i < n - 1 && (#[trigger] ls[i]).len() == 0 {
                let i = choose|i: int| 0 <= i < n - 1 && (#[trigger] ls[i]).len() == 0;
                if i == m - 1 {
                    if d.len() > 0 {
                        assert(s[d.len() - 1] == '/' && s[d.len() - 1 + 1] == '/');
                    }
                } else {
                    assert(ds[i].len() == 0);
                    if d[0] != '/' {
                        let k = choose|k: int|
                            0 <= k < d.len() - 1 && #[trigger] d[k] == '/' && d[k + 1] == '/';
                        assert(s[k] == '/' && s[k + 1] == '/');
                    }
                }
            }
            if s[0] == '/' || exists|k: int|
                0 <= k < s.len() - 1 && #[trigger] s[k] == '/' && s[k + 1] == '/' {
                if d.len() == 0 {
                    assert(ls[m - 1].len() == 0);
                } else if s[0] == '/' {
                    assert(d[0] == '/');
                    let i = choose|i: int| 0 <= i < m - 1 && (#[trigger] ds[i]).len() == 0;
                    assert(ls[i].len() == 0);
                } else {
                    let k = choose|k: int|
                        0 <= k < s.len() - 1 && #[trigger] s[k] == '/' && s[k + 1] == '/';
                    if k == s.len() - 2 {
                        assert(d.last() == '/');
                        assert(ls[m - 1].len() == 0);
                    } else {
                        assert(d[k] == '/' && d[k + 1] == '/');
                        let i = choose|i: int| 0 <= i < m - 1 && (#[trigger] ds[i]).len() == 0;
                        assert(ls[i].len() == 0);
                    }
                }
            }
            // The first characters.
            if exists|i: int| 0 <= i < n && (#[trigger] ls[i]).len() > 0 && ls[i][0] == c {
                let i = choose|i: int| 0 <= i < n && (#[trigger] ls[i]).len() > 0 && ls[i][0] == c;
                assert(ds[i].len() > 0 && ds[i][0] == c);
                if d[0] != c {
                    let k = choose|k: int|
                        0 <= k < d.len() - 1 && #[trigger] d[k] == '/' && d[k + 1] == c;
                    assert(s[k] == '/' && s[k + 1] == c);
                }
            }
            if has_level_from(s, c) {
                if s[0] != c {
                    let k = choose|k: int|
                        0 <= k < s.len() - 1 && #[trigger] s[k] == '/' && s[k + 1] == c;
                    assert(d[k] == '/' && d[k + 1] == c);
                }
                let i = choose|i: int| 0 <= i < m && (#[trigger] ds[i]).len() > 0 && ds[i][0] == c;
                assert(ls[i].len() > 0 && ls[i][0] == c);
            }
        } else {
            assert(ls == ds.update(m - 1, ds.last().push(x)));
            assert(ls[m - 1] == ds[m - 1].push(x));
            assert forall|i: int| 0 <= i < m - 1 implies #[trigger] ls[i] == ds[i] by {}
            lemma_contains_last(s, c);
            lemma_contains_last(ls[m - 1], c);
            assert(ls[m - 1].drop_last() =~= ds[m - 1]);
            // The characters.
            if s.contains(c) {
                if d.contains(c) {
                    let i = choose|i: int| 0 <= i < m && (#[trigger] ds[i]).contains(c);
                    assert(ls[i].contains(c));
                } else {
                    assert(ls[m - 1].contains(c));
                }
            }
            if exists|i: int| 0 <= i < n && (#[trigger] ls[i]).contains(c) {
                let i = choose|i: int| 0 <= i < n && (#[trigger] ls[i]).contains(c);
                if i < m - 1 {
                    assert(ds[i].contains(c));
                } else if x != c {
                    assert(ds[m - 1].contains(c));
                }
            }
            // Empty levels before the last.
            if exists|i: int| 0 <= i < n - 1 && (#[trigger] ls[i]).len() == 0 {
                let i = choose|i: int| 0 <= i < n - 1 && (#[trigger] ls[i]).len() == 0;
                assert(ds[i].len() == 0);
                if d[0] != '/' {
                    let k = choose|k: int|
                        0 <= k < d.len() - 1 && #[trigger] d[k] == '/' && d[k + 1] == '/';
                    assert(s[k] == '/' && s[k + 1] == '/');
                }
            }
            if s[0] == '/' || exists|k: int|
                0 <= k < s.len() - 1 && #[trigger] s[k] == '/' && s[k + 1] == '/' {
                if s[0] == '/' {
                    assert(d[0] == '/');
                } else {
                    let k = choose|k: int|
                        0 <= k < s.len() - 1 && #[trigger] s[k] == '/' && s[k + 1] == '/';
                    assert(d[k] == '/' && d[k + 1] == '/');
                }
                let i = choose|i: int| 0 <= i < m - 1 && (#[trigger] ds[i]).len() == 0;
                assert(ls[i].len() == 0);
            }
            // The first characters.
            if exists|i: int| 0 <= i < n && (#[trigger] ls[i]).len() > 0 && ls[i][0] == c {
                let i = choose|i: int| 0 <= i < n && (#[trigger] ls[i]).len() > 0 && ls[i][0] == c;
                if i == m - 1 && ds[m - 1].len() == 0 {
                    assert(x == c);
                    if d.len() > 0 {
                        assert(s[d.len() - 1] == '/' && s[d.len() - 1 + 1] == c);
                    }
                } else {
                    assert(ds[i].len() > 0 && ds[i][0] == c);
                    if d[0] != c {
                        let k = choose|k: int|
                            0 <= k < d.len() - 1 && #[trigger] d[k] == '/' && d[k + 1] == c;
                        assert(s[k] == '/' && s[k + 1] == c);
                    }
                }
            }
            if has_level_from(s, c) {
                if has_level_from(d, c) {
                    let i = choose|i: int|
                        0 <= i < m && (#[trigger] ds[i]).len() > 0 && ds[i][0] == c;
                    assert(ls[i].len() > 0 && ls[i][0] == c);
                } else {
                    assert(x == c && (d.len() == 0 || d.last() == '/')) by {
                        if d.len() > 0 {
                            assert(s[0] == d[0]);
                            let k = choose|k: int|
                                0 <= k < s.len() - 1 && #[trigger] s[k] == '/' && s[k + 1] == c;
                            if k < s.len() - 2 {
                                assert(d[k] == '/' && d[k + 1] == c);
                            }
                        }
                    }
                    assert(ls[m - 1].len() > 0 && ls[m - 1][0] == c);
                }
            }
        }
    }
}

/// A character is in a text where it is the last or among those before.
proof fn lemma_contains_last(s: Seq<char>, c: char)
    requires
        s.len() > 0,
    ensures
        s.contains(c) <==> s.drop_last().contains(c) || s.last() == c,
{
    if s.contains(c) {
        let i = choose|i: int| 0 <= i < s.len() && s[i] == c;
        if i < s.len() - 1 {
            assert(s.drop_last()[i] == c);
        }
    }
    if s.drop_last().contains(c) {
        let i = choose|i: int| 0 <= i < s.drop_last().len() && s.drop_last()[i] == c;
        assert(s[i] == c);
    }
    assert(s[s.len() - 1] == s.last());
}

/// The first reserved character of a level is one of its characters, if it has any.
proof fn lemma_reserved(level: Seq<char>)
    ensures
        topic::first_reserved(level) is None <==> !level.contains('*') && !level.contains('$')
            && !level.contains('?'),
        topic::first_reserved(level) matches Some(c) ==> (c == '*' || c == '$' || c == '?')
            && level.contains(c),
    decreases level.len(),
{
    if level.len() > 0 {
        lemma_reserved(level.drop_last());
        lemma_contains_last(level, '*');
        lemma_contains_last(level, '$');
        lemma_contains_last(level, '?');
    }
}

/// The fault of the levels of a publish topic is the fault of one of them, if any.
proof fn lemma_publish_fault(levels: Seq<Seq<char>>)
    ensures
        topic::publish_levels_fault(levels) is None <==> forall|i: int|
            0 <= i < levels.len() ==> topic::publish_level_fault(#[trigger] levels[i]) is None,
        topic::publish_levels_fault(levels) is Some ==> exists|i: int|
            0 <= i < levels.len() && topic::publish_level_fault(#[trigger] levels[i])
                == topic::publish_levels_fault(levels),
    decreases levels.len(),
{
    if levels.len() > 0 {
        let d = levels.drop_last();
        lemma_publish_fault(d);
        assert forall|i: int| 0 <= i < d.len() implies #[trigger] d[i] == levels[i] by {}
        assert(levels[levels.len() - 1] == levels.last());
        if topic::publish_levels_fault(d) is Some {
            let i = choose|i: int|
                0 <= i < d.len() && topic::publish_level_fault(#[trigger] d[i])
                    == topic::publish_levels_fault(d);
            assert(topic::publish_level_fault(levels[i]) == topic::publish_levels_fault(levels));
        } else {
            assert forall|i: int| 0 <= i < d.len() implies topic::publish_level_fault(
                #[trigger] levels[i],
            ) is None by {
                assert(topic::publish_level_fault(d[i]) is None);
            }
        }
    }
}

/// Whether a text has a shape fault is said by its characters.
proof fn lemma_shape(s: Seq<char>)
    ensures
        topic::shape_fault(s) == Some(TopicFault::Empty) <==> s.len() == 0,
        topic::shape_fault(s) == Some(TopicFault::EmptyLevel) <==> s.len() > 0 && has_empty_level(s),
        topic::shape_fault(s) is None <==> s.len() > 0 && !has_empty_level(s),
{
    let ls = topic::levels_of(s);
    let n = ls.len() as int;
    lemma_levels(s, '@');
    if s.len() > 0 {
        if exists|i: int| 0 <= i < n && (#[trigger] ls[i]).len() == 0 {
            let i = choose|i: int| 0 <= i < n && (#[trigger] ls[i]).len() == 0;
            assert(i < n - 1 || s.last() == '/');
        }
        if has_empty_level(s) {
            if s.last() == '/' {
                assert(ls[n - 1].len() == 0);
            } else {
                let i = choose|i: int| 0 <= i < n - 1 && (#[trigger] ls[i]).len() == 0;
                assert(ls[i].len() == 0);
            }
        }
    }
}

/// A text gets a key to publish on exactly where it is a plain name, whatever else it
/// holds, and the key is the text itself, behind the scope and a `/` where there is a
/// scope. An empty text and an empty level are told as such; every other fault is one of
/// the characters that it names.
pub proof fn law_which_topics_are_valid(name: &str, scope: &str, r: Result<String, TopicError>)
    requires
        call_ensures(topic::topic_to_keyexpr, (name, scope), r),
    ensures
        r is Ok <==> is_plain_name(name@),
        r matches Ok(key) ==> key@ == (if scope@.len() == 0 {
            name@
        } else {
            scope@ + seq!['/'] + name@
        }),
        r == Err::<String, TopicError>(TopicError::Empty) <==> name@.len() == 0,
        r == Err::<String, TopicError>(TopicError::EmptyLevel) <==> name@.len() > 0
            && has_empty_level(name@),
        r matches Err(TopicError::WildcardInTopic(c)) ==> (c == '+' || c == '#') && name@.contains(
            c,
        ),
        r matches Err(TopicError::ReservedChar(c)) ==> ((c == '*' || c == '$' || c == '?')
            && name@.contains(c)) || (c == '@' && has_level_from(name@, '@')),
        r matches Err(e) ==> !(e is HashNotLast) && !(e is PartialWildcard),
{
    let s = name@;
    let ls = topic::levels_of(s);
    lemma_shape(s);
    lemma_publish_fault(ls);
    lemma_levels(s, '+');
    lemma_levels(s, '#');
    lemma_levels(s, '*');
    lemma_levels(s, '$');
    lemma_levels(s, '?');
    lemma_levels(s, '@');
    assert forall|i: int| 0 <= i < ls.len() implies (topic::publish_level_fault(#[trigger] ls[i])
        is None <==> !ls[i].contains('+') && !ls[i].contains('#') && !ls[i].contains('*')
        && !ls[i].contains('$') && !ls[i].contains('?') && !(ls[i].len() > 0 && ls[i][0]
        == '@')) by {
        lemma_reserved(ls[i]);
    }
    if topic::shape_fault(s) is None {
        if topic::publish_levels_fault(ls) is Some {
            let i = choose|i: int|
                0 <= i < ls.len() && topic::publish_level_fault(#[trigger] ls[i])
                    == topic::publish_levels_fault(ls);
            lemma_reserved(ls[i]);
            assert(ls[i].contains('+') || ls[i].contains('#') || ls[i].contains('*')
                || ls[i].contains('$') || ls[i].contains('?') || (ls[i].len() > 0 && ls[i][0]
                == '@'));
        } else {
            assert forall|i: int| 0 <= i < ls.len() implies !(#[trigger] ls[i]).contains('+')
                && !ls[i].contains('#') && !ls[i].contains('*') && !ls[i].contains('$')
                && !ls[i].contains('?') && !(ls[i].len() > 0 && ls[i][0] == '@') by {
                assert(topic::publish_level_fault(ls[i]) is None);
            }
        }
    }
}

/// Whether level `i` of a filter, of `n` in all, can stand there: `$SYS` or `$meta` first,
/// `+` anywhere, `#` last, and else a level of a plain name.
pub open spec fn is_filter_level(level: Seq<char>, i: int, n: int) -> bool {
    ||| i == 0 && (level == "$SYS"@ || level == "$meta"@)
    ||| level == "+"@
    ||| level == "#"@ && i == n - 1
    ||| !level.contains('+') && !level.contains('#') && !level.contains('*') && !level.contains(
        '$',
    ) && !level.contains('?') && !(level.len() > 0 && level[0] == '@')
}

/// The chunk of a key that stands for level `i` of a filter.
pub open spec fn is_chunk_for(chunk: Seq<char>, level: Seq<char>, i: int) -> bool {
    if i == 0 && level == "$SYS"@ {
        chunk == "@sys"@
    } else if i == 0 && level == "$meta"@ {
        chunk == "@meta"@
    } else if level == "+"@ {
        chunk == "*"@
    } else if level == "#"@ {
        chunk == "**"@
    } else {
        chunk == level
    }
}

proof fn lemma_filter_level(level: Seq<char>, i: int, n: int)
    requires
        0 <= i < n,
    ensures
        topic::filter_chunk(level, i, n - 1) is Ok <==> is_filter_level(level, i, n),
        topic::filter_chunk(level, i, n - 1) matches Ok(chunk) ==> is_chunk_for(chunk, level, i),
{
    lemma_reserved(level);
    reveal_strlit("+");
    reveal_strlit("#");
    assert("+"@ =~= seq!['+'] && "#"@ =~= seq!['#']);
    if level == "#"@ {
        assert(level[0] == '#');
        assert(level.contains('#'));
        assert(level != "+"@);
    }
    reveal_strlit("$SYS");
    reveal_strlit("$meta");
}

proof fn lemma_filter_chunks(levels: Seq<Seq<char>>, m: int)
    requires
        0 <= m <= levels.len(),
    ensures
        topic::filter_chunks(levels, m) is Ok <==> forall|i: int|
            0 <= i < m ==> is_filter_level(#[trigger] levels[i], i, levels.len() as int),
        topic::filter_chunks(levels, m) matches Ok(chunks) ==> chunks.len() == m && forall|i: int|
            0 <= i < m ==> is_chunk_for(#[trigger] chunks[i], levels[i], i),
    decreases m,
{
    if m > 0 {
        lemma_filter_chunks(levels, m - 1);
        lemma_filter_level(levels[m - 1], m - 1, levels.len() as int);
        if let Ok(head) = topic::filter_chunks(levels, m - 1) {
            assert(topic::filter_chunks(levels, m) is Ok <==> is_filter_level(
                levels[m - 1],
                m - 1,
                levels.len() as int,
            ));
            if let Ok(chunks) = topic::filter_chunks(levels, m) {
                assert forall|i: int| 0 <= i < m implies is_chunk_for(
                    #[trigger] chunks[i],
                    levels[i],
                    i,
                ) by {
                    if i < m - 1 {
                        assert(chunks[i] == head[i]);
                    }
                }
            }
        }
    }
}

/// A text gets a key to subscribe to exactly where it is not empty, has no empty level,
/// and every level of it can stand where it stands; the key has, behind the scope, one
/// chunk for each level in their order.
pub proof fn law_which_filters_are_valid(filter: &str, scope: &str, r: Result<String, TopicError>)
    requires
        call_ensures(topic::filter_to_keyexpr, (filter, scope), r),
    ensures
        ({
            let ls = topic::levels_of(filter@);
            &&& r is Ok <==> (filter@.len() > 0 && !has_empty_level(filter@) && forall|i: int|
                0 <= i < ls.len() ==> is_filter_level(#[trigger] ls[i], i, ls.len() as int))
            &&& r matches Ok(key) ==> exists|chunks: Seq<Seq<char>>|
                {
                    &&& chunks.len() == ls.len()
                    &&& key@ == (if scope@.len() == 0 {
                        #[trigger] text::join(chunks, '/')
                    } else {
                        scope@ + seq!['/'] + text::join(chunks, '/')
                    })
                    &&& forall|i: int|
                        0 <= i < ls.len() ==> is_chunk_for(#[trigger] chunks[i], ls[i], i)
                }
        }),
        r == Err::<String, TopicError>(TopicError::Empty) <==> filter@.len() == 0,
        r == Err::<String, TopicError>(TopicError::EmptyLevel) <==> filter@.len() > 0
            && has_empty_level(filter@),
{
    let ls = topic::levels_of(filter@);
    let n = ls.len() as int;
    lemma_shape(filter@);
    lemma_filter_chunks(ls, n);
    lemma_chunk_faults(ls, n);
    if let Ok(chunks) = topic::filter_chunks(ls, n) {
        assert(text::join(chunks, '/') == text::join(chunks, '/'));
    }
}

proof fn lemma_chunk_faults(levels: Seq<Seq<char>>, m: int)
    ensures
        topic::filter_chunks(levels, m) matches Err(e) ==> !(e is Empty) && !(e is EmptyLevel),
    decreases m,
{
    if m > 0 {
        lemma_chunk_faults(levels, m - 1);
    }
}

/// Whether a level can stand in a plain name.
pub open spec fn is_plain_level(level: Seq<char>) -> bool {
    !level.contains('+') && !level.contains('#') && !level.contains('*') && !level.contains('$')
        && !level.contains('?') && !(level.len() > 0 && level[0] == '@')
}

/// Of the faulty levels of a publish topic the first is told, and of its faults a `+`
/// before a `#`, before a leading `@`, before the first of `* $ ?`.
pub proof fn law_first_fault_of_a_topic_is_told(
    name: &str,
    scope: &str,
    r: Result<String, TopicError>,
    i: int,
    k: int,
)
    requires
        call_ensures(topic::topic_to_keyexpr, (name, scope), r),
        name@.len() > 0,
        !has_empty_level(name@),
        0 <= i < topic::levels_of(name@).len(),
        !is_plain_level(topic::levels_of(name@)[i]),
        forall|j: int| 0 <= j < i ==> is_plain_level(#[trigger] topic::levels_of(name@)[j]),
    ensures
        ({
            let level = topic::levels_of(name@)[i];
            let wild = level.contains('+') || level.contains('#');
            &&& level.contains('+') ==> r == Err::<String, TopicError>(
                TopicError::WildcardInTopic('+'),
            )
            &&& !level.contains('+') && level.contains('#') ==> r == Err::<String, TopicError>(
                TopicError::WildcardInTopic('#'),
            )
            &&& !wild && level[0] == '@' ==> r == Err::<String, TopicError>(
                TopicError::ReservedChar('@'),
            )
            &&& !wild && level[0] != '@' && is_first_syntax(level, k) ==> r == Err::<
                String,
                TopicError,
            >(TopicError::ReservedChar(level[k]))
        }),
{
    let ls = topic::levels_of(name@);
    lemma_shape(name@);
    lemma_reserved(ls[i]);
    lemma_levels(name@, '@');
    assert forall|j: int| 0 <= j < i implies topic::publish_level_fault(#[trigger] ls[j]) is None by {
        lemma_reserved(ls[j]);
        assert(is_plain_level(ls[j]));
    }
    lemma_first_publish_fault(ls, i);
    if is_first_syntax(ls[i], k) {
        lemma_first_syntax(ls[i], k);
    }
    assert(ls[i].len() > 0) by {
        if ls[i].len() == 0 {
            assert(topic::shape_fault(name@) is Some);
        }
    }
}

/// Whether the character at `k` is the first of `* $ ?` in a level.
pub open spec fn is_first_syntax(level: Seq<char>, k: int) -> bool {
    &&& 0 <= k < level.len()
    &&& level[k] == '*' || level[k] == '$' || level[k] == '?'
    &&& forall|j: int|
        0 <= j < k ==> #[trigger] level[j] != '*' && level[j] != '$' && level[j] != '?'
}

proof fn lemma_first_syntax(level: Seq<char>, k: int)
    requires
        is_first_syntax(level, k),
    ensures
        topic::first_reserved(level) == Some(level[k]),
    decreases level.len(),
{
    let d = level.drop_last();
    assert forall|j: int| 0 <= j < d.len() implies #[trigger] d[j] == level[j] by {}
    if k < d.len() {
        assert(is_first_syntax(d, k)) by {
            assert forall|j: int| 0 <= j < k implies #[trigger] d[j] != '*' && d[j] != '$' && d[j]
                != '?' by {
                assert(level[j] != '*');
            }
        }
        lemma_first_syntax(d, k);
    } else {
        lemma_reserved(d);
        if topic::first_reserved(d) is Some {
            let c = topic::first_reserved(d)->0;
            let j = choose|j: int| 0 <= j < d.len() && d[j] == c;
            assert(level[j] == c);
        }
    }
}

proof fn lemma_first_publish_fault(levels: Seq<Seq<char>>, i: int)
    requires
        0 <= i < levels.len(),
        topic::publish_level_fault(levels[i]) is Some,
        forall|j: int| 0 <= j < i ==> topic::publish_level_fault(#[trigger] levels[j]) is None,
    ensures
        topic::publish_levels_fault(levels) == topic::publish_level_fault(levels[i]),
    decreases levels.len(),
{
    let d = levels.drop_last();
    assert forall|j: int| 0 <= j < d.len() implies #[trigger] d[j] == levels[j] by {}
    if i < d.len() {
        assert forall|j: int| 0 <= j < i implies topic::publish_level_fault(#[trigger] d[j])
            is None by {
            assert(topic::publish_level_fault(levels[j]) is None);
        }
        lemma_first_publish_fault(d, i);
    } else {
        lemma_publish_fault(d);
        assert forall|j: int| 0 <= j < d.len() implies topic::publish_level_fault(#[trigger] d[j])
            is None by {
            assert(topic::publish_level_fault(levels[j]) is None);
        }
    }
}

/// Of the levels of a filter that cannot stand where they stand the first is told: a `#`
/// that is not last, a wildcard beside other characters, a leading `@`, or the first of
/// `* $ ?`.
pub proof fn law_first_fault_of_a_filter_is_told(
    filter: &str,
    scope: &str,
    r: Result<String, TopicError>,
    i: int,
    k: int,
)
    requires
        call_ensures(topic::filter_to_keyexpr, (filter, scope), r),
        filter@.len() > 0,
        !has_empty_level(filter@),
        0 <= i < topic::levels_of(filter@).len(),
        !is_filter_level(
            topic::levels_of(filter@)[i],
            i,
            topic::levels_of(filter@).len() as int,
        ),
        forall|j: int|
            0 <= j < i ==> is_filter_level(
                #[trigger] topic::levels_of(filter@)[j],
                j,
                topic::levels_of(filter@).len() as int,
            ),
    ensures
        ({
            let level = topic::levels_of(filter@)[i];
            let wild = level.contains('+') || level.contains('#');
            &&& level == "#"@ ==> r == Err::<String, TopicError>(TopicError::HashNotLast)
            &&& wild && level != "#"@ ==> (r matches Err(TopicError::PartialWildcard(l)) && l@
                == level)
            &&& !wild && level[0] == '@' ==> r == Err::<String, TopicError>(
                TopicError::ReservedChar('@'),
            )
            &&& !wild && level[0] != '@' && is_first_syntax(level, k) ==> r == Err::<
                String,
                TopicError,
            >(TopicError::ReservedChar(level[k]))
        }),
{
    let ls = topic::levels_of(filter@);
    let n = ls.len() as int;
    let level = ls[i];
    lemma_shape(filter@);
    lemma_levels(filter@, '@');
    lemma_filter_chunks(ls, i);
    lemma_filter_level(level, i, n);
    lemma_chunk_fault_stays(ls, i + 1, n);
    assert(topic::filter_chunks(ls, i + 1) == Err::<Seq<Seq<char>>, TopicFault>(
        topic::filter_chunk(level, i, n - 1)->Err_0,
    ));
    reveal_strlit("+");
    reveal_strlit("#");
    if level == "#"@ {
        assert(level[0] == '#');
        assert(level.contains('#'));
    }
    if is_first_syntax(level, k) {
        lemma_first_syntax(level, k);
    }
    assert(level.len() > 0) by {
        if level.len() == 0 {
            assert(topic::shape_fault(filter@) is Some);
        }
    }
}

proof fn lemma_chunk_fault_stays(levels: Seq<Seq<char>>, m: int, n: int)
    requires
        0 <= m <= n,
    ensures
        topic::filter_chunks(levels, m) is Err ==> topic::filter_chunks(levels, n)
            == topic::filter_chunks(levels, m),
    decreases n - m,
{
    if m < n {
        lemma_chunk_fault_stays(levels, m, n - 1);
    }
}

/// A filter without `#` matches exactly the topics with as many levels, where every level
/// of the filter is `+` or the very level of the topic.
pub proof fn law_filters_match_level_by_level(filter: &str, name: &str, r: bool)
    requires
        call_ensures(topic::topic_matches, (filter, name), r),
        forall|i: int|
            0 <= i < topic::levels_of(filter@).len() ==> #[trigger] topic::levels_of(filter@)[i]
                != "#"@,
    ensures
        ({
            let f = topic::levels_of(filter@);
            let t = topic::levels_of(name@);
            r <==> f.len() == t.len() && forall|i: int|
                0 <= i < f.len() ==> #[trigger] f[i] == "+"@ || f[i] == t[i]
        }),
{
    lemma_match(topic::levels_of(filter@), topic::levels_of(name@));
}

/// A filter with `#` at level `h`, its first, matches exactly the topics with at least `h`
/// levels that match before it: whatever follows, and the parent level too.
pub proof fn law_hash_matches_the_rest(filter: &str, name: &str, r: bool, h: int)
    requires
        call_ensures(topic::topic_matches, (filter, name), r),
        0 <= h < topic::levels_of(filter@).len(),
        topic::levels_of(filter@)[h] == "#"@,
        forall|i: int| 0 <= i < h ==> #[trigger] topic::levels_of(filter@)[i] != "#"@,
    ensures
        ({
            let f = topic::levels_of(filter@);
            let t = topic::levels_of(name@);
            r <==> h <= t.len() && forall|i: int|
                0 <= i < h ==> #[trigger] f[i] == "+"@ || f[i] == t[i]
        }),
{
    lemma_match_hash(topic::levels_of(filter@), topic::levels_of(name@), h);
}

proof fn lemma_match(f: Seq<Seq<char>>, t: Seq<Seq<char>>)
    requires
        forall|i: int| 0 <= i < f.len() ==> #[trigger] f[i] != "#"@,
    ensures
        topic::levels_match(f, t) <==> f.len() == t.len() && forall|i: int|
            0 <= i < f.len() ==> #[trigger] f[i] == "+"@ || f[i] == t[i],
    decreases f.len(),
{
    if f.len() > 0 && t.len() > 0 {
        let (g, u) = (f.skip(1), t.skip(1));
        assert forall|i: int| 0 <= i < g.len() implies #[trigger] g[i] != "#"@ by {
            assert(g[i] == f[i + 1]);
        }
        lemma_match(g, u);
        if topic::levels_match(f, t) {
            assert forall|i: int| 0 <= i < f.len() implies #[trigger] f[i] == "+"@ || f[i]
                == t[i] by {
                if i > 0 {
                    assert(g[i - 1] == f[i] && u[i - 1] == t[i]);
                }
            }
        }
        if f.len() == t.len() && forall|i: int|
            0 <= i < f.len() ==> #[trigger] f[i] == "+"@ || f[i] == t[i] {
            assert forall|i: int| 0 <= i < g.len() implies #[trigger] g[i] == "+"@ || g[i]
                == u[i] by {
                assert(g[i] == f[i + 1] && u[i] == t[i + 1]);
            }
        }
    }
}

proof fn lemma_match_hash(f: Seq<Seq<char>>, t: Seq<Seq<char>>, h: int)
    requires
        0 <= h < f.len(),
        f[h] == "#"@,
        forall|i: int| 0 <= i < h ==> #[trigger] f[i] != "#"@,
    ensures
        topic::levels_match(f, t) <==> h <= t.len() && forall|i: int|
            0 <= i < h ==> #[trigger] f[i] == "+"@ || f[i] == t[i],
    decreases f.len(),
{
    if h > 0 && t.len() > 0 {
        let (g, u) = (f.skip(1), t.skip(1));
        assert forall|i: int| 0 <= i < h - 1 implies #[trigger] g[i] != "#"@ by {
            assert(g[i] == f[i + 1]);
        }
        assert(g[h - 1] == f[h]);
        lemma_match_hash(g, u, h - 1);
        if topic::levels_match(f, t) {
            assert forall|i: int| 0 <= i < h implies #[trigger] f[i] == "+"@ || f[i] == t[i] by {
                if i > 0 {
                    assert(g[i - 1] == f[i] && u[i - 1] == t[i]);
                }
            }
        }
        if h <= t.len() && forall|i: int|
            0 <= i < h ==> #[trigger] f[i] == "+"@ || f[i] == t[i] {
            assert forall|i: int| 0 <= i < h - 1 implies #[trigger] g[i] == "+"@ || g[i]
                == u[i] by {
                assert(g[i] == f[i + 1] && u[i] == t[i + 1]);
            }
        }
    }
}

/// A filter without `#` covers exactly the filters with as many levels, where every level
/// of it is the very level of the other, or a `+` over anything but `#`.
pub proof fn law_filters_cover_level_by_level(outer: &str, inner: &str, r: bool)
    requires
        call_ensures(topic::filter_covers, (outer, inner), r),
        forall|i: int|
            0 <= i < topic::levels_of(outer@).len() ==> #[trigger] topic::levels_of(outer@)[i]
                != "#"@,
    ensures
        ({
            let o = topic::levels_of(outer@);
            let n = topic::levels_of(inner@);
            r <==> o.len() == n.len() && forall|i: int|
                0 <= i < o.len() ==> #[trigger] o[i] == n[i] || (o[i] == "+"@ && n[i] != "#"@)
        }),
{
    lemma_cover(topic::levels_of(outer@), topic::levels_of(inner@));
}

/// A filter with `#` at level `h`, its first, covers exactly the filters with at least `h`
/// levels that it covers before it, whatever follows.
pub proof fn law_hash_covers_the_rest(outer: &str, inner: &str, r: bool, h: int)
    requires
        call_ensures(topic::filter_covers, (outer, inner), r),
        0 <= h < topic::levels_of(outer@).len(),
        topic::levels_of(outer@)[h] == "#"@,
        forall|i: int| 0 <= i < h ==> #[trigger] topic::levels_of(outer@)[i] != "#"@,
    ensures
        ({
            let o = topic::levels_of(outer@);
            let n = topic::levels_of(inner@);
            r <==> h <= n.len() && forall|i: int|
                0 <= i < h ==> #[trigger] o[i] == n[i] || (o[i] == "+"@ && n[i] != "#"@)
        }),
{
    lemma_cover_hash(topic::levels_of(outer@), topic::levels_of(inner@), h);
}

proof fn lemma_cover(o: Seq<Seq<char>>, n: Seq<Seq<char>>)
    requires
        forall|i: int| 0 <= i < o.len() ==> #[trigger] o[i] != "#"@,
    ensures
        topic::levels_cover(o, n) <==> o.len() == n.len() && forall|i: int|
            0 <= i < o.len() ==> #[trigger] o[i] == n[i] || (o[i] == "+"@ && n[i] != "#"@),
    decreases o.len(),
{
    if o.len() > 0 && n.len() > 0 {
        let (p, m) = (o.skip(1), n.skip(1));
        assert forall|i: int| 0 <= i < p.len() implies #[trigger] p[i] != "#"@ by {
            assert(p[i] == o[i + 1]);
        }
        lemma_cover(p, m);
        if topic::levels_cover(o, n) {
            assert forall|i: int| 0 <= i < o.len() implies #[trigger] o[i] == n[i] || (o[i]
                == "+"@ && n[i] != "#"@) by {
                if i > 0 {
                    assert(p[i - 1] == o[i] && m[i - 1] == n[i]);
                }
            }
        }
        if o.len() == n.len() && forall|i: int|
            0 <= i < o.len() ==> #[trigger] o[i] == n[i] || (o[i] == "+"@ && n[i] != "#"@) {
            assert forall|i: int| 0 <= i < p.len() implies #[trigger] p[i] == m[i] || (p[i]
                == "+"@ && m[i] != "#"@) by {
                assert(p[i] == o[i + 1] && m[i] == n[i + 1]);
            }
            assert(o[0] != "#"@);
            assert(o[0] == n[0] || (o[0] == "+"@ && n[0] != "#"@));
        }
    }
}

proof fn lemma_cover_hash(o: Seq<Seq<char>>, n: Seq<Seq<char>>, h: int)
    requires
        0 <= h < o.len(),
        o[h] == "#"@,
        forall|i: int| 0 <= i < h ==> #[trigger] o[i] != "#"@,
    ensures
        topic::levels_cover(o, n) <==> h <= n.len() && forall|i: int|
            0 <= i < h ==> #[trigger] o[i] == n[i] || (o[i] == "+"@ && n[i] != "#"@),
    decreases o.len(),
{
    if h > 0 && n.len() > 0 {
        let (p, m) = (o.skip(1), n.skip(1));
        assert forall|i: int| 0 <= i < h - 1 implies #[trigger] p[i] != "#"@ by {
            assert(p[i] == o[i + 1]);
        }
        assert(p[h - 1] == o[h]);
        lemma_cover_hash(p, m, h - 1);
        if topic::levels_cover(o, n) {
            assert forall|i: int| 0 <= i < h implies #[trigger] o[i] == n[i] || (o[i] == "+"@
                && n[i] != "#"@) by {
                if i > 0 {
                    assert(p[i - 1] == o[i] && m[i - 1] == n[i]);
                }
            }
        }
        if h <= n.len() && forall|i: int|
            0 <= i < h ==> #[trigger] o[i] == n[i] || (o[i] == "+"@ && n[i] != "#"@) {
            assert forall|i: int| 0 <= i < h - 1 implies #[trigger] p[i] == m[i] || (p[i]
                == "+"@ && m[i] != "#"@) by {
                assert(p[i] == o[i + 1] && m[i] == n[i + 1]);
            }
            assert(o[0] == n[0] || (o[0] == "+"@ && n[0] != "#"@));
        }
    }
}

/// Levels are what stands between the `/` of a text: put together again they are the
/// text, and none of them holds a `/`.
pub proof fn law_levels_make_up_the_text(s: &str, r: Vec<String>)
    requires
        call_ensures(text::split_on, (s, '/'), r),
    ensures
        text::texts(r@) == topic::levels_of(s@),
        text::join(topic::levels_of(s@), '/') == s@,
        forall|i: int| 0 <= i < r@.len() ==> !(#[trigger] r@[i])@.contains('/'),
{
    text::lemma_join_split(s@, '/');
    text::lemma_split_pieces(s@, '/');
    assert forall|i: int| 0 <= i < r@.len() implies !(#[trigger] r@[i])@.contains('/') by {
        assert(text::texts(r@)[i] == r@[i]@);
    }
}

/// A key surfaces as a topic only inside the scope; there, one that begins with no `@` is
/// the topic itself, and of the others only those of node stats and of companion messages
/// surface, under `$SYS` and `$meta`.
pub proof fn law_which_keys_surface<'a>(key: &'a str, scope: &str, r: Option<Cow<'a, str>>)
    requires
        call_ensures(topic::keyexpr_to_topic, (key, scope), r),
    ensures
        ({
            let inside = if scope@.len() == 0 {
                seq![]
            } else {
                scope@ + seq!['/']
            };
            let rest = key@.skip(inside.len() as int);
            let within = inside.len() <= key@.len() && key@.take(inside.len() as int) == inside;
            &&& !within ==> r is None
            &&& within && (rest.len() == 0 || rest[0] != '@') ==> (r matches Some(t) && t@ == rest)
            &&& within && rest.len() > 0 && rest[0] == '@' ==> {
                r matches Some(t) ==> (exists|tail: Seq<char>| #[trigger]
                    ("@sys/"@ + tail) == rest && t@ == "$SYS/"@ + tail) || (exists|
                    tail: Seq<char>,
                | #[trigger] ("@meta/"@ + tail) == rest && t@ == "$meta/"@ + tail)
            }
        }),
{
    reveal_strlit("@sys");
    reveal_strlit("@meta");
    reveal_strlit("@sys/");
    reveal_strlit("@meta/");
    reveal_strlit("$SYS");
    reveal_strlit("$meta");
    reveal_strlit("$SYS/");
    reveal_strlit("$meta/");
    let inside: Seq<char> = if scope@.len() == 0 {
        seq![]
    } else {
        scope@ + seq!['/']
    };
    lemma_unscoped(key@, scope@);
    let rest = key@.skip(inside.len() as int);
    let within = inside.len() <= key@.len() && key@.take(inside.len() as int) == inside;
    if within {
        assert(topic::unscoped(key@, scope@) == Some(rest));
        if rest.len() == 0 || rest[0] != '@' {
            if text::is_prefix("@sys"@, rest) {
                assert(rest.take(4)[0] == rest[0]);
            }
            if text::is_prefix("@meta"@, rest) {
                assert(rest.take(5)[0] == rest[0]);
            }
        } else if let Some(t) = r {
            if text::is_prefix("@sys"@, rest) {
                let tail = rest.skip(4).skip(1);
                assert(rest.skip(4).take(1)[0] == rest[4]);
                assert("@sys/"@ + tail =~= rest) by {
                    assert forall|k: int| 0 <= k < 4 implies rest[k] == "@sys"@[k] by {
                        assert(rest.take(4)[k] == rest[k]);
                    }
                }
                assert(t@ =~= "$SYS/"@ + tail);
            } else {
                let tail = rest.skip(5).skip(1);
                assert(rest.skip(5).take(1)[0] == rest[5]);
                assert("@meta/"@ + tail =~= rest) by {
                    assert forall|k: int| 0 <= k < 5 implies rest[k] == "@meta"@[k] by {
                        assert(rest.take(5)[k] == rest[k]);
                    }
                }
                assert(t@ =~= "$meta/"@ + tail);
            }
        }
    }
}

/// A key lies inside a scope where it begins with the scope and a `/`.
proof fn lemma_unscoped(key: Seq<char>, scope: Seq<char>)
    ensures
        ({
            let inside: Seq<char> = if scope.len() == 0 {
                seq![]
            } else {
                scope + seq!['/']
            };
            let within = inside.len() <= key.len() && key.take(inside.len() as int) == inside;
            topic::unscoped(key, scope) == (if within {
                Some(key.skip(inside.len() as int))
            } else {
                None
            })
        }),
{
    let inside: Seq<char> = if scope.len() == 0 {
        seq![]
    } else {
        scope + seq!['/']
    };
    if scope.len() == 0 {
        assert(key.take(0) =~= inside);
        assert(key.skip(0) =~= key);
    } else {
        let n = scope.len() as int;
        if text::is_prefix(scope, key) {
            let rest = key.skip(n);
            if text::is_prefix(seq!['/'], rest) {
                assert(rest.take(1)[0] == key[n]);
                assert(key.take(n + 1) =~= inside) by {
                    assert forall|k: int| 0 <= k < n implies key[k] == scope[k] by {
                        assert(key.take(n)[k] == key[k]);
                    }
                }
                assert(rest.skip(1) =~= key.skip(n + 1));
            } else if n + 1 <= key.len() && key.take(n + 1) == inside {
                assert(inside[n] == key[n]);
                assert(rest.take(1) =~= seq!['/']);
            }
        } else if n + 1 <= key.len() && key.take(n + 1) == inside {
            assert(key.take(n) =~= scope) by {
                assert forall|k: int| 0 <= k < n implies key[k] == scope[k] by {
                    assert(key.take(n + 1)[k] == inside[k]);
                }
            }
        }
    }
}

/// The internal keys of a node are told apart by their first chunk and lie inside the
/// scope; the retained key of a topic, and no other key, belongs to it.
pub proof fn law_internal_keys(
    name: &str,
    scope: &str,
    retained: String,
    sys: String,
    meta: String,
    key: &str,
    owner: Option<&str>,
)
    requires
        call_ensures(topic::retained_keyexpr, (name, scope), retained),
        call_ensures(topic::sys_keyexpr, (name, scope), sys),
        call_ensures(topic::meta_keyexpr, (name, scope), meta),
        call_ensures(topic::retained_keyexpr_to_topic, (key, scope), owner),
    ensures
        ({
            let inside: Seq<char> = if scope@.len() == 0 {
                seq![]
            } else {
                scope@ + seq!['/']
            };
            &&& retained@ == inside + "@retained/"@ + name@
            &&& sys@ == inside + "@sys/"@ + name@
            &&& meta@ == inside + "@meta/"@ + name@
            &&& (owner matches Some(t) && t@ == name@) <==> key@ == retained@
        }),
{
    reveal_strlit("@retained");
    reveal_strlit("@sys");
    reveal_strlit("@meta");
    reveal_strlit("@retained/");
    reveal_strlit("@sys/");
    reveal_strlit("@meta/");
    let inside: Seq<char> = if scope@.len() == 0 {
        seq![]
    } else {
        scope@ + seq!['/']
    };
    assert(retained@ =~= inside + "@retained/"@ + name@);
    assert(sys@ =~= inside + "@sys/"@ + name@);
    assert(meta@ =~= inside + "@meta/"@ + name@);
    topic_laws::law_retained_round_trip(name@, scope@);
    lemma_unscoped(key@, scope@);
    if let Some(t) = owner {
        let rest = key@.skip(inside.len() as int);
        assert(topic::unscoped(key@, scope@) == Some(rest));
        assert forall|k: int| 0 <= k < 9 implies rest[k] == "@retained"@[k] by {
            assert(rest.take(9)[k] == rest[k]);
        }
        assert(rest.skip(9).take(1)[0] == rest[9]);
        assert(rest =~= "@retained/"@ + t@);
        assert(key@ =~= inside + "@retained/"@ + t@) by {
            assert forall|k: int| 0 <= k < inside.len() implies key@[k] == inside[k] by {
                assert(key@.take(inside.len() as int)[k] == key@[k]);
            }
            assert forall|k: int| inside.len() <= k < key@.len() implies key@[k] == rest[k
                - inside.len()] by {}
        }
    }
}


/// What is wrong with a name, in words.
pub proof fn law_faults_in_words(e: &TopicError, r: String)
    requires
        call_ensures(TopicError::message, (e,), r),
    ensures
        e is Empty ==> r@ == "topic is empty"@,
        e is EmptyLevel ==> r@ == "topic has an empty level (leading/trailing or doubled '/')"@,
        *e matches TopicError::WildcardInTopic(c) ==> r@ == "wildcard '"@ + seq![c]
            + "' is not allowed in a publish topic"@,
        e is HashNotLast ==> r@ == "'#' must be the final level of a filter"@,
        *e matches TopicError::PartialWildcard(level) ==> r@
            == "wildcard must occupy a whole level (got "@ + text::quoted(level@) + ")"@,
        *e matches TopicError::ReservedChar(c) ==> r@ == "character "@ + text::quoted_char(c)
            + " is reserved zenoh syntax and not allowed"@,
{
}

/// The filter for all retained messages stands for every key that is a retained key of the
/// same scope.
pub proof fn law_the_retained_filter(scope: &str, r: String)
    requires
        call_ensures(topic::retained_filter, (scope,), r),
    ensures
        scope@.len() == 0 ==> r@ == "@retained/**"@,
        scope@.len() > 0 ==> r@ == scope@ + "/@retained/**"@,
{
    reveal_strlit("@retained");
    reveal_strlit("**");
    reveal_strlit("@retained/**");
    reveal_strlit("/@retained/**");
    if scope@.len() == 0 {
        assert(r@ =~= "@retained/**"@);
    } else {
        assert(r@ =~= scope@ + "/@retained/**"@);
    }
}

} // verus!
