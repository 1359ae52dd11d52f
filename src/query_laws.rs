//! What holds of every store and every query: round trips, replacement,
//! wildcard aggregation and refusal.
use vstd::prelude::*;
use crate::topic::{
    Path, agrees, fixed_part, is_hash, is_least, is_multi, is_plus, least, lemma_least_is,
    lemma_least_exists, lemma_least_none, matched_labels, seg_matches, valid_pattern,
};
use crate::topicdb::{DBRequest, DBResult, RequestError, query, serve};

verus! {

/// A topic with no wildcard: no segment is `+` and none holds `#`.
pub open spec fn plain(p: Path) -> bool {
    forall|i: int| 0 <= i < p.len() ==> !is_plus(#[trigger] p[i]) && !p[i].contains('#')
}

/// The labels of the stored topics whose first segments are `pre`.
pub open spec fn labels_below(m: Map<Path, u16>, pre: Path) -> Set<u16> {
    Set::new(
        |l: u16|
            exists|k: Path|
                #[trigger] m.contains_key(k) && k.len() >= pre.len() && k.subrange(0, pre.len() as int) == pre
                    && m[k] == l,
    )
}

/// The labels of the stored three-segment topics that start with `a` and end with `b`.
pub open spec fn labels_between(m: Map<Path, u16>, a: Seq<char>, b: Seq<char>) -> Set<u16> {
    Set::new(
        |l: u16| exists|k: Path| #[trigger] m.contains_key(k) && k.len() == 3 && k[0] == a && k[2] == b && m[k] == l,
    )
}

/// The answer that the least element of a set of labels gives.
pub open spec fn answer(o: Option<u16>) -> DBResult {
    match o {
        Some(l) => DBResult::Found(l),
        None => DBResult::NoMatch,
    }
}

/// `least` of a non-empty set names its least element.
proof fn lemma_least_names_least(s: Set<u16>)
    ensures
        forall|l: u16| #[trigger] s.contains(l) ==> (least(s) matches Some(b) && is_least(s, b)),
{
    assert forall|l: u16| #[trigger] s.contains(l) implies (least(s) matches Some(b) && is_least(s, b)) by {
        lemma_least_exists(s, l);
    }
}

proof fn lemma_hash_holds_hash(x: Seq<char>)
    requires
        is_hash(x),
    ensures
        x.contains('#'),
{
    assert(x[0] == '#');
}

/// A plain topic is a valid pattern that matches itself alone.
proof fn lemma_plain_matches(p: Path, k: Path)
    requires
        plain(p),
    ensures
        valid_pattern(p),
        !is_multi(p),
        crate::topic::matches_pattern(p, k) <==> k == p,
{
    if p.len() > 0 && is_hash(p.last()) {
        lemma_hash_holds_hash(p.last());
        assert(p.last().contains('#'));
        assert(p[p.len() - 1].contains('#'));
    }
    assert(fixed_part(p) == p);
    if crate::topic::matches_pattern(p, k) {
        assert forall|i: int| 0 <= i < p.len() implies k[i] == p[i] by {
            assert(seg_matches(p[i], k[i]));
        }
        assert(k =~= p);
    }
    if k == p {
        assert forall|i: int| 0 <= i < p.len() implies seg_matches(p[i], #[trigger] k[i]) by {}
    }
}

/// Right after a label is stored at a plain topic, querying that topic gives
/// that label.
pub proof fn insert_then_get(m: Map<Path, u16>, t: Path, l: u16)
    requires
        plain(t),
    ensures
        query(m.insert(t, l), t) == DBResult::Found(l),
{
    let m2 = m.insert(t, l);
    let ml = matched_labels(m2, t);
    lemma_plain_matches(t, t);
    assert(m2.contains_key(t) && crate::topic::matches_pattern(t, t) && m2[t] == l);
    assert(ml.contains(l));
    assert forall|x: u16| #[trigger] ml.contains(x) implies l <= x by {
        let k = choose|k: Path| #[trigger] m2.contains_key(k) && crate::topic::matches_pattern(t, k) && m2[k] == x;
        lemma_plain_matches(t, k);
    }
    lemma_least_is(ml, l);
}

/// A later label stored at the same plain topic replaces the earlier one.
pub proof fn insert_replaces(m: Map<Path, u16>, t: Path, l1: u16, l2: u16)
    requires
        plain(t),
    ensures
        query(m.insert(t, l1).insert(t, l2), t) == DBResult::Found(l2),
{
    assert(m.insert(t, l1).insert(t, l2) =~= m.insert(t, l2));
    insert_then_get(m, t, l2);
}

/// A plain topic that was never stored matches nothing.
pub proof fn get_unstored(m: Map<Path, u16>, t: Path)
    requires
        plain(t),
        !m.contains_key(t),
    ensures
        query(m, t) == DBResult::NoMatch,
{
    let ml = matched_labels(m, t);
    lemma_plain_matches(t, t);
    assert forall|x: u16| !ml.contains(x) by {
        if ml.contains(x) {
            let k = choose|k: Path| #[trigger] m.contains_key(k) && crate::topic::matches_pattern(t, k) && m[k] == x;
            lemma_plain_matches(t, k);
        }
    }
    lemma_least_none(ml);
}

/// A plain prefix followed by `#` answers the least label stored at the prefix
/// or below it, and `NoMatch` when there is none; with no prefix, the least
/// label of the whole store.
pub proof fn multi_level_least(m: Map<Path, u16>, pre: Path)
    requires
        plain(pre),
    ensures
        query(m, pre.push(seq!['#'])) == answer(least(labels_below(m, pre))),
        forall|l: u16| #[trigger] labels_below(m, pre).contains(l) ==> (query(m, pre.push(seq!['#'])) matches DBResult::Found(b) && is_least(labels_below(m, pre), b)),
{
    let p = pre.push(seq!['#']);
    let n = pre.len() as int;
    assert(is_hash(p.last()));
    assert(valid_pattern(p)) by {
        assert forall|i: int| 0 <= i < p.len() && #[trigger] p[i].contains('#') implies i == p.len() - 1 && is_hash(
            p[i],
        ) by {
            if i < n {
                assert(p[i] == pre[i]);
            }
        }
    }
    assert(fixed_part(p) =~= pre);
    let ml = matched_labels(m, p);
    let lb = labels_below(m, pre);
    assert forall|k: Path| k.len() >= n implies (crate::topic::matches_pattern(p, k) <==> k.subrange(0, n) == pre) by {
        if crate::topic::matches_pattern(p, k) {
            assert forall|i: int| 0 <= i < n implies #[trigger] k.subrange(0, n)[i] == pre[i] by {
                assert(seg_matches(pre[i], k[i]));
            }
            assert(k.subrange(0, n) =~= pre);
        }
        if k.subrange(0, n) == pre {
            assert forall|i: int| 0 <= i < n implies seg_matches(pre[i], #[trigger] k[i]) by {
                assert(k.subrange(0, n)[i] == k[i]);
            }
            assert(agrees(pre, k, n));
        }
    }
    assert(ml =~= lb) by {
        assert forall|x: u16| ml.contains(x) <==> lb.contains(x) by {
            if ml.contains(x) {
                let k = choose|k: Path| #[trigger] m.contains_key(k) && crate::topic::matches_pattern(p, k) && m[k] == x;
            }
            if lb.contains(x) {
                let k = choose|k: Path|
                    #[trigger] m.contains_key(k) && k.len() >= n && k.subrange(0, n) == pre && m[k] == x;
                assert(crate::topic::matches_pattern(p, k));
            }
        }
    }
    lemma_least_names_least(lb);
}

/// `a/+/b` with plain `a` and `b` matches exactly the stored three-segment
/// topics from `a` to `b`: `+` stands for one segment, never none or two.
pub proof fn single_level_exact(m: Map<Path, u16>, a: Seq<char>, b: Seq<char>)
    requires
        plain(seq![a]),
        plain(seq![b]),
    ensures
        query(m, seq![a, seq!['+'], b]) == answer(least(labels_between(m, a, b))),
        forall|l: u16| #[trigger] labels_between(m, a, b).contains(l) ==> (query(m, seq![a, seq!['+'], b]) matches DBResult::Found(x) && is_least(labels_between(m, a, b), x)),
{
    let p = seq![a, seq!['+'], b];
    assert(seq![a][0] == a && seq![b][0] == b);
    assert(!seq!['+'].contains('#')) by {
        if seq!['+'].contains('#') {
            let i = choose|i: int| 0 <= i < 1 && seq!['+'][i] == '#';
        }
    }
    if is_hash(b) {
        lemma_hash_holds_hash(b);
    }
    assert(valid_pattern(p));
    assert(!is_multi(p));
    assert(fixed_part(p) == p);
    let ml = matched_labels(m, p);
    let lb = labels_between(m, a, b);
    assert(ml =~= lb) by {
        assert forall|x: u16| ml.contains(x) <==> lb.contains(x) by {
            if ml.contains(x) {
                let k = choose|k: Path| #[trigger] m.contains_key(k) && crate::topic::matches_pattern(p, k) && m[k] == x;
                assert(seg_matches(p[0], k[0]) && seg_matches(p[2], k[2]));
            }
            if lb.contains(x) {
                let k = choose|k: Path| #[trigger] m.contains_key(k) && k.len() == 3 && k[0] == a && k[2] == b && m[k] == x;
                assert(is_plus(p[1]));
                assert forall|i: int| 0 <= i < 3 implies seg_matches(p[i], #[trigger] k[i]) by {}
                assert(crate::topic::matches_pattern(p, k));
            }
        }
    }
    lemma_least_names_least(lb);
}

/// A `#` anywhere but as the whole last segment gets the query refused.
pub proof fn misplaced_hash_denied(m: Map<Path, u16>, p: Path, i: int)
    requires
        0 <= i < p.len(),
        p[i].contains('#'),
        i < p.len() - 1 || !is_hash(p[i]),
    ensures
        query(m, p) == DBResult::Denied(RequestError::InvalidTopic),
{
}

/// Served in turn, an insert of a label at a plain topic and then a get of
/// that topic answer that label.
pub proof fn serve_insert_then_get(m: Map<Path, u16>, t: String, l: u16)
    requires
        plain(crate::topic::segments_of(t@)),
    ensures
        serve(serve(m, DBRequest::Insert(t, l)).0, DBRequest::Get(t)).1 == Some(DBResult::Found(l)),
{
    insert_then_get(m, crate::topic::segments_of(t@), l);
}

} // verus!
