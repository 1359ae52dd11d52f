//! Topics and subscription patterns as sequences of segments, and what a
//! pattern query over a store of topic labels answers.
use vstd::prelude::*;

verus! {

/// A topic as the sequence of its `/`-separated segments.
pub type Path = Seq<Seq<char>>;

/// The segments of a topic string: every `/` ends one segment and starts the
/// next, so empty segments are kept and there is always at least one segment.
pub open spec fn segments_of(s: Seq<char>) -> Path
    decreases s.len(),
{
    if s.len() == 0 {
        seq![Seq::<char>::empty()]
    } else {
        let init = segments_of(s.drop_last());
        if s.last() == '/' {
            init.push(Seq::<char>::empty())
        } else {
            init.update(init.len() - 1, init.last().push(s.last()))
        }
    }
}

/// The views of a sequence of strings.
pub open spec fn views_of(v: Seq<String>) -> Path {
    v.map_values(|s: String| s@)
}

/// The single-level wildcard segment `+`.
pub open spec fn is_plus(seg: Seq<char>) -> bool {
    seg == seq!['+']
}

/// The multi-level wildcard segment `#`.
pub open spec fn is_hash(seg: Seq<char>) -> bool {
    seg == seq!['#']
}

/// A pattern is valid when `#` occurs only as the whole of its last segment.
pub open spec fn valid_pattern(p: Path) -> bool {
    forall|i: int| 0 <= i < p.len() && #[trigger] p[i].contains('#') ==> i == p.len() - 1 && is_hash(p[i])
}

/// Whether the pattern ends in the multi-level wildcard.
pub open spec fn is_multi(p: Path) -> bool {
    p.len() > 0 && is_hash(p.last())
}

/// The segments of a pattern that are matched position by position.
pub open spec fn fixed_part(p: Path) -> Path {
    if is_multi(p) {
        p.drop_last()
    } else {
        p
    }
}

/// One pattern segment matches one topic segment.
pub open spec fn seg_matches(pat: Seq<char>, seg: Seq<char>) -> bool {
    is_plus(pat) || pat == seg
}

/// The first `n` segments of `k` match those of `q`.
pub open spec fn agrees(q: Path, k: Path, n: int) -> bool {
    forall|i: int| 0 <= i < n ==> seg_matches(q[i], #[trigger] k[i])
}

/// Topic `k` matches pattern `p`: a trailing `#` matches any number of further
/// segments, `+` matches exactly one segment, and any other segment only itself.
pub open spec fn matches_pattern(p: Path, k: Path) -> bool {
    let q = fixed_part(p);
    &&& if is_multi(p) { k.len() >= q.len() } else { k.len() == q.len() }
    &&& agrees(q, k, q.len() as int)
}

/// The labels of the stored topics that match `p`.
pub open spec fn matched_labels(m: Map<Path, u16>, p: Path) -> Set<u16> {
    Set::new(|l: u16| exists|k: Path| #[trigger] m.contains_key(k) && matches_pattern(p, k) && m[k] == l)
}

/// `b` is the least element of `s`.
pub open spec fn is_least(s: Set<u16>, b: u16) -> bool {
    s.contains(b) && forall|x: u16| #[trigger] s.contains(x) ==> b <= x
}

/// The least element of a set of labels, if it has any.
pub open spec fn least(s: Set<u16>) -> Option<u16> {
    if exists|l: u16| s.contains(l) {
        Some(choose|l: u16| is_least(s, l))
    } else {
        None
    }
}

/// A least element is the one `least` names.
pub proof fn lemma_least_is(s: Set<u16>, b: u16)
    requires
        is_least(s, b),
    ensures
        least(s) == Some(b),
{
    let c = choose|l: u16| is_least(s, l);
    assert(is_least(s, c));
}

/// An empty set has no least element.
pub proof fn lemma_least_none(s: Set<u16>)
    requires
        forall|x: u16| !s.contains(x),
    ensures
        least(s) is None,
{
}

/// Every non-empty set of labels has a least element.
pub proof fn lemma_least_exists(s: Set<u16>, a: u16)
    requires
        s.contains(a),
    ensures
        exists|b: u16| is_least(s, b),
    decreases a,
{
    if exists|x: u16| s.contains(x) && x < a {
        let x = choose|x: u16| s.contains(x) && x < a;
        lemma_least_exists(s, x);
    } else {
        assert(is_least(s, a));
    }
}

} // verus!
