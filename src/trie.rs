//! The sequence trie that stores topic labels, seen through what it holds.
use vstd::prelude::*;
use sequence_trie::SequenceTrie;
use crate::topic::{Path, views_of};

verus! {

/// A trie keyed by topic segments and holding labels.
#[verifier::external_body]
pub struct LabelTrie {
    trie: SequenceTrie<String, u16>,
}

/// A borrowed node of a `LabelTrie`: the root or one below it.
#[verifier::external_body]
pub struct TrieNode<'a> {
    node: &'a SequenceTrie<String, u16>,
}

/// What a trie holds: each key, as the views of its fragments, mapped to its value.
pub uninterp spec fn trie_entries(t: LabelTrie) -> Map<Path, u16>;

/// What a node holds, keyed relative to the node.
pub uninterp spec fn node_entries(n: TrieNode) -> Map<Path, u16>;

/// The entries below `pre`, keyed by what follows `pre`.
pub open spec fn subtrie(m: Map<Path, u16>, pre: Path) -> Map<Path, u16> {
    Map::new(|s: Path| m.contains_key(pre + s), |s: Path| m[pre + s])
}

/// Relies on `SequenceTrie::new`: a trie with no entries.
#[verifier::external_body]
pub(crate) fn trie_new() -> (r: LabelTrie)
    ensures
        trie_entries(r).dom().is_empty(),
{
    LabelTrie { trie: SequenceTrie::new() }
}

/// Relies on `SequenceTrie::insert`: sets the value at `key`, returning the one
/// it replaced.
#[verifier::external_body]
pub(crate) fn trie_insert(t: &mut LabelTrie, key: &Vec<String>, value: u16) -> (r: Option<u16>)
    ensures
        trie_entries(*final(t)) == trie_entries(*old(t)).insert(views_of(key@), value),
        r == (if trie_entries(*old(t)).contains_key(views_of(key@)) {
            Some(trie_entries(*old(t))[views_of(key@)])
        } else {
            None
        }),
{
    t.trie.insert(key.iter(), value)
}

/// Relies on a `SequenceTrie` being its own root node: borrowed as a node, it
/// holds every entry of the trie.
#[verifier::external_body]
pub(crate) fn trie_root<'a>(t: &'a LabelTrie) -> (r: TrieNode<'a>)
    ensures
        node_entries(r) == trie_entries(*t),
{
    TrieNode { node: &t.trie }
}

/// Relies on `SequenceTrie::value`: the value held at the node itself.
#[verifier::external_body]
pub(crate) fn node_value(n: &TrieNode) -> (r: Option<u16>)
    ensures
        r == (if node_entries(*n).contains_key(Seq::empty()) {
            Some(node_entries(*n)[Seq::empty()])
        } else {
            None
        }),
{
    n.node.value().copied()
}

/// Relies on `SequenceTrie::get_node`: the node reached along `key`; there is
/// none exactly when no entry lies at or below `key`.
#[verifier::external_body]
pub(crate) fn node_get<'a>(n: &TrieNode<'a>, key: &[String]) -> (r: Option<TrieNode<'a>>)
    ensures
        match r {
            Some(c) => node_entries(c) == subtrie(node_entries(*n), views_of(key@)),
            None => forall|s: Path| !#[trigger] node_entries(*n).contains_key(views_of(key@) + s),
        },
{
    n.node.get_node(key.iter()).map(|node| TrieNode { node })
}

/// Relies on `SequenceTrie::children`: the nodes one fragment below, each entry
/// of length one or more lying below one of them.
#[verifier::external_body]
pub(crate) fn node_children<'a>(n: &TrieNode<'a>) -> (r: Vec<TrieNode<'a>>)
    ensures
        forall|i: int|
            #![trigger r[i]]
            0 <= i < r.len() ==> exists|seg: Seq<char>|
                node_entries(r[i]) == #[trigger] subtrie(node_entries(*n), seq![seg]),
        forall|s: Path|
            #[trigger] node_entries(*n).contains_key(s) && s.len() > 0 ==> exists|i: int|
                0 <= i < r.len() && node_entries(r[i]) == subtrie(node_entries(*n), seq![s[0]]),
{
    n.node.children().into_iter().map(|node| TrieNode { node }).collect()
}

/// Relies on `SequenceTrie::values`: every value held at the node or below it.
#[verifier::external_body]
pub(crate) fn node_values(n: &TrieNode) -> (r: Vec<u16>)
    ensures
        forall|i: int|
            #![trigger r[i]]
            0 <= i < r.len() ==> exists|s: Path|
                #[trigger] node_entries(*n).contains_key(s) && node_entries(*n)[s] == r[i],
        forall|s: Path|
            #[trigger] node_entries(*n).contains_key(s) ==> exists|i: int|
                0 <= i < r.len() && r[i] == node_entries(*n)[s],
{
    n.node.values().copied().collect()
}

} // verus!
