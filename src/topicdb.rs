//! The topic-label store: exact and wildcard lookups over a trie of topic
//! segments, answering with the least matching label.
use vstd::prelude::*;
use vstd::slice::slice_subrange;
use crate::Label;
use crate::topic::{
    Path, agrees, fixed_part, is_hash, is_multi, is_plus, least, lemma_least_is,
    lemma_least_none, matched_labels, matches_pattern, segments_of, seg_matches, valid_pattern, views_of,
};
use crate::trie::{
    LabelTrie, TrieNode, node_children, node_entries, node_get, node_value, node_values, subtrie,
    trie_entries, trie_insert, trie_new, trie_root,
};

verus! {

/// Why a query was refused.
#[derive(PartialEq, Eq, Structural, Debug, Clone, Copy)]
pub enum RequestError {
    InvalidTopic,
}

/// The answer to a query.
#[derive(PartialEq, Eq, Structural, Debug, Clone, Copy)]
pub enum DBResult {
    /// No stored topic matches.
    NoMatch,
    /// The least label among the matching topics.
    Found(Label),
    /// The query was refused.
    Denied(RequestError),
}

impl From<Option<Label>> for DBResult {
    fn from(opt: Option<Label>) -> (r: Self) {
        match opt {
            Some(value) => DBResult::Found(value),
            None => DBResult::NoMatch,
        }
    }
}

impl vstd::std_specs::convert::FromSpecImpl<Option<Label>> for DBResult {
    open spec fn obeys_from_spec() -> bool {
        true
    }

    open spec fn from_spec(opt: Option<Label>) -> DBResult {
        match opt {
            Some(value) => DBResult::Found(value),
            None => DBResult::NoMatch,
        }
    }
}

/// The answer a store holding `m` gives to the query with segments `p`: a
/// refusal for an invalid pattern, else the least label among the matching
/// topics, if any.
pub open spec fn query(m: Map<Path, u16>, p: Path) -> DBResult {
    if !valid_pattern(p) {
        DBResult::Denied(RequestError::InvalidTopic)
    } else {
        match least(matched_labels(m, p)) {
            Some(l) => DBResult::Found(l),
            None => DBResult::NoMatch,
        }
    }
}

/// Relies on `str::split`: the pieces of the topic between `/` separators.
#[verifier::external_body]
fn split_on_slash(topic: &str) -> (r: Vec<String>)
    ensures
        views_of(r@) == segments_of(topic@),
{
    topic.split('/').map(String::from).collect()
}

/// Whether the character occurs in the string.
fn contains_char(s: &str, c: char) -> (r: bool)
    ensures
        r == s@.contains(c),
{
    broadcast use vstd::string::axiom_spec_iter;

    let mut found = false;
    for x in it: s.chars()
        invariant
            it.seq() == s@,
            found == (exists|i: int| 0 <= i < it.index() && s@[i] == c),
    {
        if x == c {
            found = true;
        }
    }
    found
}

/// Whether a segment is the single-level wildcard.
fn is_plus_segment(seg: &String) -> (r: bool)
    ensures
        r == is_plus(seg@),
{
    let plus = "+".to_owned();
    proof {
        reveal_strlit("+");
        assert("+"@ =~= seq!['+']);
    }
    seg.eq(&plus)
}

/// Whether a segment is the multi-level wildcard.
fn is_hash_segment(seg: &String) -> (r: bool)
    ensures
        r == is_hash(seg@),
{
    let hash = "#".to_owned();
    proof {
        reveal_strlit("#");
        assert("#"@ =~= seq!['#']);
    }
    seg.eq(&hash)
}

/// Walks a pattern in runs: each `+` alone, and each maximal stretch of other
/// segments together.
pub struct SequenceIterator<'a> {
    data: &'a [String],
    index: usize,
}

impl<'a> SequenceIterator<'a> {
    /// The segments being walked.
    pub closed spec fn data(&self) -> Seq<String> {
        self.data@
    }

    /// Where the next run starts.
    pub closed spec fn index(&self) -> int {
        self.index as int
    }

    /// An iterator at the start of `data`.
    pub fn new(data: &'a [String]) -> (r: Self)
        ensures
            r.data() == data@,
            r.index() == 0,
    {
        SequenceIterator { data, index: 0 }
    }

    /// The next run: a lone `+`, or the longest stretch without `+`.
    pub fn next(&mut self) -> (r: Option<&'a [String]>)
        ensures
            final(self).data() == old(self).data(),
            match r {
                None => old(self).index() >= old(self).data().len() && final(self).index()
                    == old(self).index(),
                Some(run) => {
                    let d = old(self).data();
                    let i = old(self).index();
                    let e = final(self).index();
                    &&& i < e <= d.len()
                    &&& run@ == d.subrange(i, e)
                    &&& is_plus(d[i]@) ==> e == i + 1
                    &&& !is_plus(d[i]@) ==> (forall|t: int| i <= t < e ==> !is_plus(#[trigger] d[t]@))
                        && (e == d.len() || is_plus(d[e]@))
                },
            },
    {
        if self.index >= self.data.len() {
            return None;
        }
        if is_plus_segment(&self.data[self.index]) {
            let start = self.index;
            self.index = self.index + 1;
            return Some(slice_subrange(self.data, start, self.index));
        }
        let start = self.index;
        let mut end = self.index;
        while end < self.data.len() && !is_plus_segment(&self.data[end])
            invariant
                start <= end <= self.data@.len(),
                start == old(self).index,
                self.data == old(self).data,
                forall|t: int| start <= t < end ==> !is_plus(#[trigger] self.data@[t]@),
            decreases self.data@.len() - end,
        {
            end = end + 1;
        }
        self.index = end;
        Some(slice_subrange(self.data, start, end))
    }
}

/// A store of topic labels.
pub struct TopicDB {
    trie: LabelTrie,
}

impl View for TopicDB {
    type V = Map<Path, u16>;

    /// Each stored topic, as its segments, mapped to its label.
    closed spec fn view(&self) -> Map<Path, u16> {
        trie_entries(self.trie)
    }
}

impl TopicDB {
    /// An empty store.
    pub fn new() -> (r: Self)
        ensures
            r@ == Map::<Path, u16>::empty(),
    {
        let r = TopicDB { trie: trie_new() };
        proof {
            assert(r@ =~= Map::<Path, u16>::empty());
        }
        r
    }

    /// The segments of a topic, empty ones included.
    fn split_topic(topic: &str) -> (r: Vec<String>)
        ensures
            views_of(r@) == segments_of(topic@),
    {
        split_on_slash(topic)
    }

    /// Binds `label` to `topic`, replacing any earlier label there, and returns
    /// the label it replaced.
    pub fn insert(&mut self, topic: &str, label: Label) -> (r: Option<Label>)
        ensures
            final(self)@ == old(self)@.insert(segments_of(topic@), label),
            r == (if old(self)@.contains_key(segments_of(topic@)) {
                Some(old(self)@[segments_of(topic@)])
            } else {
                None
            }),
    {
        let keys = Self::split_topic(topic);
        trie_insert(&mut self.trie, &keys, label)
    }
}

/// Whether `#` occurs only as the whole last segment.
fn check_pattern(segs: &Vec<String>) -> (r: bool)
    ensures
        r == valid_pattern(views_of(segs@)),
{
    let n = segs.len();
    let mut i: usize = 0;
    while i < n
        invariant
            n == segs@.len(),
            i <= n,
            forall|t: int|
                0 <= t < i && #[trigger] views_of(segs@)[t].contains('#') ==> t == n - 1 && is_hash(
                    views_of(segs@)[t],
                ),
        decreases n - i,
    {
        if contains_char(segs[i].as_str(), '#') && !(i + 1 == n && is_hash_segment(&segs[i])) {
            assert(views_of(segs@)[i as int] == segs@[i as int]@);
            return false;
        }
        assert(views_of(segs@)[i as int] == segs@[i as int]@);
        i = i + 1;
    }
    true
}


/// Topic `k` is stored and its first `j` segments match those of `q`.
spec fn candidate(m: Map<Path, u16>, q: Path, j: int, k: Path) -> bool {
    m.contains_key(k) && k.len() >= j && agrees(q, k, j)
}

/// Node `n` holds what lies below some stored prefix of length `j` that matches `q`.
spec fn sound_node(m: Map<Path, u16>, q: Path, j: int, n: TrieNode) -> bool {
    exists|pre: Path| pre.len() == j && agrees(q, pre, j) && #[trigger] subtrie(m, pre) == node_entries(n)
}

/// Some node of `ns` in `[lo, hi)` holds exactly `e`.
spec fn has_node(ns: Seq<TrieNode>, lo: int, hi: int, e: Map<Path, u16>) -> bool {
    exists|i: int| lo <= i < hi && #[trigger] node_entries(ns[i]) == e
}

/// After the first `j` segments of `q`, the nodes `ns` are exactly what is
/// reached: each one is below a matching prefix, and each matching stored
/// topic lies below one of them.
spec fn frontier(m: Map<Path, u16>, q: Path, j: int, ns: Seq<TrieNode>) -> bool {
    &&& forall|i: int| 0 <= i < ns.len() ==> sound_node(m, q, j, #[trigger] ns[i])
    &&& forall|k: Path|
        #[trigger] candidate(m, q, j, k) ==> has_node(ns, 0, ns.len() as int, subtrie(m, k.subrange(0, j)))
}

proof fn lemma_subtrie_compose(m: Map<Path, u16>, a: Path, b: Path)
    ensures
        subtrie(subtrie(m, a), b) == subtrie(m, a + b),
{
    assert forall|s: Path| #![auto] (a + b) + s == a + (b + s) by {
        assert((a + b) + s =~= a + (b + s));
    }
    assert(subtrie(subtrie(m, a), b) =~= subtrie(m, a + b));
}

proof fn lemma_subtrie_empty(m: Map<Path, u16>)
    ensures
        subtrie(m, Seq::empty()) == m,
{
    assert forall|s: Path| #![auto] Seq::<Seq<char>>::empty() + s == s by {
        assert(Seq::<Seq<char>>::empty() + s =~= s);
    }
    assert(subtrie(m, Seq::empty()) =~= m);
}

proof fn lemma_split_at(k: Path, j: int)
    requires
        0 <= j <= k.len(),
    ensures
        k.subrange(0, j) + k.subrange(j, k.len() as int) == k,
{
    assert(k.subrange(0, j) + k.subrange(j, k.len() as int) =~= k);
}

/// Steps the frontier over a `+`: every child of every node.
fn plus_step<'a>(
    nodes: &Vec<TrieNode<'a>>,
    Ghost(m): Ghost<Map<Path, u16>>,
    Ghost(q): Ghost<Path>,
    Ghost(j): Ghost<int>,
) -> (r: Vec<TrieNode<'a>>)
    requires
        0 <= j < q.len(),
        is_plus(q[j]),
        frontier(m, q, j, nodes@),
    ensures
        frontier(m, q, j + 1, r@),
{
    let mut out: Vec<TrieNode<'a>> = Vec::new();
    let mut w: usize = 0;
    while w < nodes.len()
        invariant
            0 <= j < q.len(),
            is_plus(q[j]),
            frontier(m, q, j, nodes@),
            w <= nodes@.len(),
            forall|i: int| 0 <= i < out@.len() ==> sound_node(m, q, j + 1, #[trigger] out@[i]),
            forall|k: Path|
                #[trigger] candidate(m, q, j + 1, k) && has_node(nodes@, 0, w as int, subtrie(m, k.subrange(0, j)))
                    ==> has_node(out@, 0, out@.len() as int, subtrie(m, k.subrange(0, j + 1))),
        decreases nodes@.len() - w,
    {
        let mut kids = node_children(&nodes[w]);
        let ghost old_out = out@;
        let ghost kv = kids@;
        let ghost nw = nodes@[w as int];
        out.append(&mut kids);
        proof {
            assert(out@ == old_out + kv);
            assert(sound_node(m, q, j, nw));
            let pre = choose|pre: Path| pre.len() == j && agrees(q, pre, j) && #[trigger] subtrie(m, pre) == node_entries(nw);
            assert forall|i: int| 0 <= i < out@.len() implies sound_node(m, q, j + 1, #[trigger] out@[i]) by {
                if i >= old_out.len() {
                    let ci = i - old_out.len();
                    assert(out@[i] == kv[ci]);
                    let seg = choose|seg: Seq<char>| node_entries(kv[ci]) == #[trigger] subtrie(node_entries(nw), seq![seg]);
                    lemma_subtrie_compose(m, pre, seq![seg]);
                    let p2 = pre + seq![seg];
                    assert(agrees(q, p2, j + 1)) by {
                        assert forall|t: int| 0 <= t < j + 1 implies seg_matches(q[t], #[trigger] p2[t]) by {
                            if t < j {
                                assert(p2[t] == pre[t]);
                            }
                        }
                    }
                    assert(subtrie(m, p2) == node_entries(out@[i]));
                } else {
                    assert(out@[i] == old_out[i]);
                }
            }
            assert forall|k: Path|
                #[trigger] candidate(m, q, j + 1, k) && has_node(nodes@, 0, w + 1, subtrie(m, k.subrange(0, j)))
                    implies has_node(out@, 0, out@.len() as int, subtrie(m, k.subrange(0, j + 1))) by {
                let i = choose|i: int| 0 <= i < w + 1 && #[trigger] node_entries(nodes@[i]) == subtrie(m, k.subrange(0, j));
                if i < w {
                    assert(has_node(nodes@, 0, w as int, subtrie(m, k.subrange(0, j))));
                    let o = choose|o: int| 0 <= o < old_out.len() && #[trigger] node_entries(old_out[o]) == subtrie(m, k.subrange(0, j + 1));
                    assert(out@[o] == old_out[o]);
                } else {
                    let a = k.subrange(0, j);
                    let s = k.subrange(j, k.len() as int);
                    lemma_split_at(k, j);
                    assert(node_entries(nw).contains_key(s));
                    assert(s.len() > 0);
                    let ci = choose|ci: int| 0 <= ci < kv.len() && node_entries(kv[ci]) == subtrie(node_entries(nw), seq![s[0]]);
                    lemma_subtrie_compose(m, a, seq![s[0]]);
                    assert(a + seq![s[0]] =~= k.subrange(0, j + 1));
                    assert(out@[old_out.len() + ci] == kv[ci]);
                    assert(node_entries(out@[old_out.len() + ci]) == subtrie(m, k.subrange(0, j + 1)));
                }
            }
        }
        w = w + 1;
    }
    proof {
        assert forall|k: Path| #[trigger] candidate(m, q, j + 1, k) implies has_node(
            out@,
            0,
            out@.len() as int,
            subtrie(m, k.subrange(0, j + 1)),
        ) by {
            assert(agrees(q, k, j)) by {
                assert forall|t: int| 0 <= t < j implies seg_matches(q[t], #[trigger] k[t]) by {
                    assert(seg_matches(q[t], k[t]));
                }
            }
            assert(candidate(m, q, j, k));
        }
    }
    out
}


/// Steps the frontier over a run of literal segments: the node reached along
/// the run from each node, where there is one.
fn literal_step<'a>(
    nodes: &Vec<TrieNode<'a>>,
    run: &[String],
    Ghost(m): Ghost<Map<Path, u16>>,
    Ghost(q): Ghost<Path>,
    Ghost(j): Ghost<int>,
) -> (r: Vec<TrieNode<'a>>)
    requires
        0 <= j,
        j + run@.len() <= q.len(),
        views_of(run@) == q.subrange(j, j + run@.len()),
        forall|t: int| j <= t < j + run@.len() ==> !is_plus(#[trigger] q[t]),
        frontier(m, q, j, nodes@),
    ensures
        frontier(m, q, j + run@.len(), r@),
{
    let ghost e = j + run@.len();
    let ghost rv = views_of(run@);
    let mut out: Vec<TrieNode<'a>> = Vec::new();
    let mut w: usize = 0;
    while w < nodes.len()
        invariant
            0 <= j,
            e == j + run@.len(),
            rv == views_of(run@),
            e <= q.len(),
            rv == q.subrange(j, e),
            forall|t: int| j <= t < e ==> !is_plus(#[trigger] q[t]),
            frontier(m, q, j, nodes@),
            w <= nodes@.len(),
            forall|i: int| 0 <= i < out@.len() ==> sound_node(m, q, e, #[trigger] out@[i]),
            forall|k: Path|
                #[trigger] candidate(m, q, e, k) && has_node(nodes@, 0, w as int, subtrie(m, k.subrange(0, j)))
                    ==> has_node(out@, 0, out@.len() as int, subtrie(m, k.subrange(0, e))),
        decreases nodes@.len() - w,
    {
        let ghost old_out = out@;
        let ghost nw = nodes@[w as int];
        let found = node_get(&nodes[w], run);
        let ghost got = found;
        match found {
            Some(c) => {
                out.push(c);
            },
            None => {},
        }
        proof {
            assert(sound_node(m, q, j, nw));
            let pre = choose|pre: Path| pre.len() == j && agrees(q, pre, j) && #[trigger] subtrie(m, pre) == node_entries(nw);
            if let Some(c) = got {
                lemma_subtrie_compose(m, pre, rv);
                let p2 = pre + rv;
                assert(agrees(q, p2, e)) by {
                    assert forall|t: int| 0 <= t < e implies seg_matches(q[t], #[trigger] p2[t]) by {
                        if t < j {
                            assert(p2[t] == pre[t]);
                        } else {
                            assert(p2[t] == rv[t - j]);
                            assert(q.subrange(j, e)[t - j] == q[t]);
                        }
                    }
                }
                assert(subtrie(m, p2) == node_entries(c));
                assert(sound_node(m, q, e, c));
            }
            assert forall|i: int| 0 <= i < out@.len() implies sound_node(m, q, e, #[trigger] out@[i]) by {
                if i < old_out.len() {
                    assert(out@[i] == old_out[i]);
                }
            }
            assert forall|k: Path|
                #[trigger] candidate(m, q, e, k) && has_node(nodes@, 0, w + 1, subtrie(m, k.subrange(0, j)))
                    implies has_node(out@, 0, out@.len() as int, subtrie(m, k.subrange(0, e))) by {
                let i = choose|i: int| 0 <= i < w + 1 && #[trigger] node_entries(nodes@[i]) == subtrie(m, k.subrange(0, j));
                if i < w {
                    assert(has_node(nodes@, 0, w as int, subtrie(m, k.subrange(0, j))));
                    let o = choose|o: int| 0 <= o < old_out.len() && #[trigger] node_entries(old_out[o]) == subtrie(m, k.subrange(0, e));
                    assert(out@[o] == old_out[o]);
                } else {
                    let a = k.subrange(0, j);
                    let s = k.subrange(e, k.len() as int);
                    assert(k.subrange(j, e) =~= rv) by {
                        assert forall|t: int| 0 <= t < e - j implies #[trigger] k.subrange(j, e)[t] == rv[t] by {
                            assert(seg_matches(q[j + t], k[j + t]));
                            assert(q.subrange(j, e)[t] == q[j + t]);
                        }
                    }
                    assert(a + (rv + s) =~= k);
                    assert(a + rv =~= k.subrange(0, e));
                    assert(node_entries(nw).contains_key(rv + s));
                    lemma_subtrie_compose(m, a, rv);
                    let c = got.unwrap();
                    assert(out@[old_out.len() as int] == c);
                    assert(node_entries(out@[old_out.len() as int]) == subtrie(m, k.subrange(0, e)));
                }
            }
        }
        w = w + 1;
    }
    proof {
        assert forall|k: Path| #[trigger] candidate(m, q, e, k) implies has_node(
            out@,
            0,
            out@.len() as int,
            subtrie(m, k.subrange(0, e)),
        ) by {
            assert(agrees(q, k, j)) by {
                assert forall|t: int| 0 <= t < j implies seg_matches(q[t], #[trigger] k[t]) by {
                    assert(seg_matches(q[t], k[t]));
                }
            }
            assert(candidate(m, q, j, k));
        }
    }
    out
}


/// Walks the fixed part of a pattern from the root, run by run.
fn walk<'a>(root: TrieNode<'a>, fixed: &[String], Ghost(m): Ghost<Map<Path, u16>>) -> (r: Vec<
    TrieNode<'a>,
>)
    requires
        node_entries(root) == m,
    ensures
        frontier(m, views_of(fixed@), fixed@.len() as int, r@),
{
    let ghost q = views_of(fixed@);
    let mut nodes: Vec<TrieNode<'a>> = Vec::new();
    nodes.push(root);
    proof {
        lemma_subtrie_empty(m);
        assert(sound_node(m, q, 0, nodes@[0]));
        assert forall|k: Path| #[trigger] candidate(m, q, 0, k) implies has_node(
            nodes@,
            0,
            nodes@.len() as int,
            subtrie(m, k.subrange(0, 0)),
        ) by {
            assert(k.subrange(0, 0) =~= Seq::<Seq<char>>::empty());
            assert(node_entries(nodes@[0]) == subtrie(m, k.subrange(0, 0)));
        }
    }
    let mut it = SequenceIterator::new(fixed);
    loop
        invariant
            it.data() == fixed@,
            0 <= it.index() <= fixed@.len(),
            q == views_of(fixed@),
            frontier(m, q, it.index(), nodes@),
        ensures
            frontier(m, q, fixed@.len() as int, nodes@),
        decreases fixed@.len() - it.index(),
    {
        let ghost j = it.index();
        match it.next() {
            None => {
                break;
            },
            Some(run) => {
                proof {
                    let e = it.index();
                    assert(views_of(run@) =~= q.subrange(j, e));
                    assert(fixed@[j]@ == q[j]);
                }
                if run.len() == 1 && is_plus_segment(&run[0]) {
                    proof {
                        assert(run@[0] == fixed@[j]);
                    }
                    nodes = plus_step(&nodes, Ghost(m), Ghost(q), Ghost(j));
                } else {
                    proof {
                        assert forall|t: int| j <= t < j + run@.len() implies !is_plus(#[trigger] q[t]) by {
                            assert(q[t] == fixed@[t]@);
                        }
                    }
                    nodes = literal_step(&nodes, run, Ghost(m), Ghost(q), Ghost(j));
                }
            },
        }
    }
    nodes
}

/// `n` holds a label at `s`: anywhere at or below it when `whole`, else at
/// the node itself.
spec fn label_at(n: TrieNode, s: Path, whole: bool) -> bool {
    node_entries(n).contains_key(s) && (whole || s.len() == 0)
}

/// `r` is the least label held by the nodes `ns` in the sense of `label_at`,
/// or none when they hold none.
spec fn least_post(ns: Seq<TrieNode>, whole: bool, r: Option<u16>) -> bool {
    match r {
        None => forall|i: int, s: Path| 0 <= i < ns.len() ==> !#[trigger] label_at(ns[i], s, whole),
        Some(b) => {
            &&& exists|i: int, s: Path|
                0 <= i < ns.len() && #[trigger] label_at(ns[i], s, whole) && node_entries(ns[i])[s] == b
            &&& forall|i: int, s: Path|
                0 <= i < ns.len() && #[trigger] label_at(ns[i], s, whole) ==> b <= node_entries(ns[i])[s]
        },
    }
}

/// The least of some labels, if there are any.
fn least_of(vals: &Vec<u16>) -> (r: Option<u16>)
    ensures
        match r {
            None => vals@.len() == 0,
            Some(b) => (exists|i: int| 0 <= i < vals@.len() && vals@[i] == b) && forall|i: int|
                0 <= i < vals@.len() ==> b <= #[trigger] vals@[i],
        },
{
    let mut best: Option<u16> = None;
    let mut i: usize = 0;
    while i < vals.len()
        invariant
            i <= vals@.len(),
            match best {
                None => i == 0,
                Some(b) => (exists|t: int| 0 <= t < i && vals@[t] == b) && forall|t: int|
                    0 <= t < i ==> b <= #[trigger] vals@[t],
            },
        decreases vals@.len() - i,
    {
        let v = vals[i];
        best = match best {
            None => Some(v),
            Some(b) => if v < b { Some(v) } else { Some(b) },
        };
        i = i + 1;
    }
    best
}

/// The least label anywhere at or below a node.
fn get_min(n: &TrieNode) -> (r: Option<u16>)
    ensures
        least_post(seq![*n], true, r),
{
    let vals = node_values(n);
    let r = least_of(&vals);
    proof {
        let ns = seq![*n];
        match r {
            None => {
                assert forall|i: int, s: Path| 0 <= i < ns.len() implies !#[trigger] label_at(ns[i], s, true) by {
                    if node_entries(*n).contains_key(s) {
                        let t = choose|t: int| 0 <= t < vals@.len() && vals@[t] == node_entries(*n)[s];
                    }
                }
            },
            Some(b) => {
                let t = choose|t: int| 0 <= t < vals@.len() && vals@[t] == b;
                assert(0 <= t < vals@.len() && vals@[t] == vals@[t]);
                let s = choose|s: Path| #[trigger] node_entries(*n).contains_key(s) && node_entries(*n)[s] == vals@[t];
                assert(label_at(ns[0], s, true));
                assert forall|i: int, s2: Path| 0 <= i < ns.len() && #[trigger] label_at(ns[i], s2, true) implies b
                    <= node_entries(ns[i])[s2] by {
                    let t2 = choose|t2: int| 0 <= t2 < vals@.len() && vals@[t2] == node_entries(*n)[s2];
                }
            },
        }
    }
    r
}

/// The label held at a node itself.
fn get_value(n: &TrieNode) -> (r: Option<u16>)
    ensures
        least_post(seq![*n], false, r),
{
    let r = node_value(n);
    proof {
        let ns = seq![*n];
        let e = Seq::<Seq<char>>::empty();
        assert forall|s: Path| s.len() == 0 implies s == e by {
            assert(s =~= e);
        }
        if r is Some {
            assert(label_at(ns[0], e, false));
        }
    }
    r
}

/// The least label held by any of the nodes.
fn least_over(nodes: &Vec<TrieNode>, whole: bool) -> (r: Option<u16>)
    ensures
        least_post(nodes@, whole, r),
{
    let mut best: Option<u16> = None;
    let mut w: usize = 0;
    while w < nodes.len()
        invariant
            w <= nodes@.len(),
            least_post(nodes@.subrange(0, w as int), whole, best),
        decreases nodes@.len() - w,
    {
        let here = if whole { get_min(&nodes[w]) } else { get_value(&nodes[w]) };
        let ghost old_best = best;
        best = match (best, here) {
            (None, h) => h,
            (Some(b), None) => Some(b),
            (Some(b), Some(h)) => if h < b { Some(h) } else { Some(b) },
        };
        proof {
            let prev = nodes@.subrange(0, w as int);
            let cur = nodes@.subrange(0, w + 1);
            let one = seq![nodes@[w as int]];
            assert forall|i: int| 0 <= i < w implies #[trigger] cur[i] == prev[i] by {}
            assert(cur[w as int] == one[0]);
            assert forall|i: int, s: Path| 0 <= i < cur.len() && #[trigger] label_at(cur[i], s, whole) implies (
            if i < w { label_at(prev[i], s, whole) } else { label_at(one[0], s, whole) }) by {}
            match best {
                None => {
                    assert forall|i: int, s: Path| 0 <= i < cur.len() implies !#[trigger] label_at(cur[i], s, whole) by {
                        if i < w {
                            assert(!label_at(prev[i], s, whole));
                        } else {
                            assert(!label_at(one[0], s, whole));
                        }
                    }
                },
                Some(b) => {
                    if here == Some(b) {
                        let (i, s) = choose|i: int, s: Path| 0 <= i < one.len() && #[trigger] label_at(one[i], s, whole) && node_entries(one[i])[s] == b;
                        assert(label_at(cur[w as int], s, whole));
                    } else {
                        let (i, s) = choose|i: int, s: Path| 0 <= i < prev.len() && #[trigger] label_at(prev[i], s, whole) && node_entries(prev[i])[s] == b;
                        assert(label_at(cur[i], s, whole));
                    }
                    assert forall|i: int, s: Path| 0 <= i < cur.len() && #[trigger] label_at(cur[i], s, whole) implies b
                        <= node_entries(cur[i])[s] by {
                        if i < w {
                            assert(label_at(prev[i], s, whole));
                        } else {
                            assert(label_at(one[0], s, whole));
                        }
                    }
                },
            }
        }
        w = w + 1;
    }
    proof {
        assert(nodes@.subrange(0, w as int) =~= nodes@);
    }
    best
}


/// A topic has at least one segment.
proof fn lemma_segments_nonempty(s: Seq<char>)
    ensures
        segments_of(s).len() >= 1,
    decreases s.len(),
{
    if s.len() > 0 {
        lemma_segments_nonempty(s.drop_last());
    }
}

/// The least label held by the final frontier of a valid pattern is the least
/// label among the stored topics that match it.
proof fn lemma_frontier_answer(m: Map<Path, u16>, p: Path, ns: Seq<TrieNode>, best: Option<u16>)
    requires
        frontier(m, fixed_part(p), fixed_part(p).len() as int, ns),
        least_post(ns, is_multi(p), best),
    ensures
        least(matched_labels(m, p)) == best,
{
    let q = fixed_part(p);
    let n = q.len() as int;
    let whole = is_multi(p);
    let ml = matched_labels(m, p);
    assert forall|k: Path| m.contains_key(k) && matches_pattern(p, k) implies exists|i: int, s: Path|
        0 <= i < ns.len() && #[trigger] label_at(ns[i], s, whole) && node_entries(ns[i])[s] == m[k] by {
        assert(candidate(m, q, n, k));
        let i = choose|i: int| 0 <= i < ns.len() && #[trigger] node_entries(ns[i]) == subtrie(m, k.subrange(0, n));
        let s = k.subrange(n, k.len() as int);
        lemma_split_at(k, n);
        assert(label_at(ns[i], s, whole));
    }
    assert forall|i: int, s: Path| 0 <= i < ns.len() && #[trigger] label_at(ns[i], s, whole) implies ml.contains(
        node_entries(ns[i])[s],
    ) by {
        assert(sound_node(m, q, n, ns[i]));
        let pre = choose|pre: Path| pre.len() == n && agrees(q, pre, n) && #[trigger] subtrie(m, pre) == node_entries(ns[i]);
        let k = pre + s;
        assert(agrees(q, k, n)) by {
            assert forall|t: int| 0 <= t < n implies seg_matches(q[t], #[trigger] k[t]) by {
                assert(k[t] == pre[t]);
            }
        }
        assert(m.contains_key(k) && matches_pattern(p, k) && m[k] == node_entries(ns[i])[s]);
    }
    match best {
        None => {
            assert forall|x: u16| !ml.contains(x) by {
                if ml.contains(x) {
                    let k = choose|k: Path| #[trigger] m.contains_key(k) && matches_pattern(p, k) && m[k] == x;
                }
            }
            lemma_least_none(ml);
        },
        Some(b) => {
            let (i, s) = choose|i: int, s: Path|
                0 <= i < ns.len() && #[trigger] label_at(ns[i], s, whole) && node_entries(ns[i])[s] == b;
            assert(ml.contains(b));
            assert forall|x: u16| #[trigger] ml.contains(x) implies b <= x by {
                let k = choose|k: Path| #[trigger] m.contains_key(k) && matches_pattern(p, k) && m[k] == x;
            }
            lemma_least_is(ml, b);
        },
    }
}

impl TopicDB {
    /// Answers a query: `Denied(InvalidTopic)` when `#` stands anywhere but as
    /// the whole last segment, else the least label among the stored topics
    /// that the pattern matches (`+` matching one segment, a trailing `#` any
    /// number), or `NoMatch` when none does.
    pub fn get(&self, topic: &str) -> (r: DBResult)
        ensures
            r == query(self@, segments_of(topic@)),
    {
        let segs = Self::split_topic(topic);
        let ghost p = views_of(segs@);
        if !check_pattern(&segs) {
            return DBResult::Denied(RequestError::InvalidTopic);
        }
        proof {
            lemma_segments_nonempty(topic@);
        }
        let n = segs.len();
        let wildcard = is_hash_segment(&segs[n - 1]);
        let fixed_len = if wildcard { n - 1 } else { n };
        let fixed = slice_subrange(segs.as_slice(), 0, fixed_len);
        proof {
            assert(p.last() == segs@[n - 1]@);
            assert(views_of(fixed@) =~= fixed_part(p));
        }
        let root = trie_root(&self.trie);
        let nodes = walk(root, fixed, Ghost(self@));
        let best = least_over(&nodes, wildcard);
        proof {
            lemma_frontier_answer(self@, p, nodes@, best);
        }
        DBResult::from(best)
    }
}


/// A request to the store's owner: read a pattern, or bind a label.
pub enum DBRequest {
    Get(String),
    Insert(String, Label),
}

/// What serving `req` on a store holding `m` leaves behind and answers.
pub open spec fn serve(m: Map<Path, u16>, req: DBRequest) -> (Map<Path, u16>, Option<DBResult>) {
    match req {
        DBRequest::Get(topic) => (m, Some(query(m, segments_of(topic@)))),
        DBRequest::Insert(topic, label) => (m.insert(segments_of(topic@), label), None),
    }
}

impl TopicDB {
    /// Serves one request: an insert changes the store and has no answer, a
    /// get leaves it as it is and answers the query.
    pub fn handle(&mut self, req: DBRequest) -> (r: Option<DBResult>)
        ensures
            (final(self)@, r) == serve(old(self)@, req),
    {
        match req {
            DBRequest::Insert(topic, label) => {
                self.insert(topic.as_str(), label);
                None
            },
            DBRequest::Get(topic) => Some(self.get(topic.as_str())),
        }
    }
}

} // verus!
