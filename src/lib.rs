//! Trust overlay for a publish/subscribe fabric: signed message envelopes and a
//! hierarchical topic-label store answering wildcard queries.
use vstd::prelude::*;

pub mod counter;
pub mod envelope;
pub mod protocol;
pub mod topic;
pub mod trie;
pub mod topicdb;
pub mod query_laws;

verus! {

/// A security label; a smaller label is a stricter class.
pub type Label = u16;

} // verus!
