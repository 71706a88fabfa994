//! Life-linked maps: keyed collections of proxy nodes that one owner holds.

use crate::registry::NodeId;
use vstd::prelude::*;

verus! {

/// Key of a proxy in a life-linked map: the peer that the proxy stands for,
/// or the field of that peer.
#[derive(Clone, Copy, Debug, PartialEq, Eq, Structural)]
pub enum AliasKey {
    Peer(NodeId),
    PeerField(NodeId),
}

/// A keyed collection of proxy nodes. The owner of the map holds each proxy:
/// a proxy exists for as long as its entry does.
pub struct LifeLinkedNodeMap {
    pub entries: Vec<(AliasKey, NodeId)>,
}

/// Whether `entries` holds something under `key`.
pub open spec fn has_key(entries: Seq<(AliasKey, NodeId)>, key: AliasKey) -> bool {
    exists|i: int| 0 <= i < entries.len() && (#[trigger] entries[i]).0 == key
}

/// A position of `key` in `entries`.
pub open spec fn position(entries: Seq<(AliasKey, NodeId)>, key: AliasKey) -> int {
    choose|i: int| 0 <= i < entries.len() && (#[trigger] entries[i]).0 == key
}

/// What `entries` says as a map.
pub open spec fn as_map(entries: Seq<(AliasKey, NodeId)>) -> Map<AliasKey, NodeId> {
    Map::new(|k: AliasKey| has_key(entries, k), |k: AliasKey| entries[position(entries, k)].1)
}

/// No key occurs twice in `entries`.
pub open spec fn distinct_keys(entries: Seq<(AliasKey, NodeId)>) -> bool {
    forall|i: int, j: int|
        0 <= i < j < entries.len() ==> (#[trigger] entries[i]).0 != (#[trigger] entries[j]).0
}

impl View for LifeLinkedNodeMap {
    type V = Map<AliasKey, NodeId>;

    open spec fn view(&self) -> Map<AliasKey, NodeId> {
        as_map(self.entries@)
    }
}

impl LifeLinkedNodeMap {
    /// No key is held twice.
    pub open spec fn wf(&self) -> bool {
        distinct_keys(self.entries@)
    }

    /// A map that holds nothing.
    pub fn new() -> (m: LifeLinkedNodeMap)
        ensures
            m.wf(),
            m@ == Map::<AliasKey, NodeId>::empty(),
    {
        let m = LifeLinkedNodeMap { entries: Vec::new() };
        assert(m@ =~= Map::<AliasKey, NodeId>::empty());
        m
    }

    /// Whether no key is held twice.
    pub fn is_wf(&self) -> (b: bool)
        ensures
            b == self.wf(),
    {
        let mut i: usize = 0;
        while i < self.entries.len()
            invariant
                i <= self.entries.len(),
                forall|a: int, b: int|
                    0 <= a < b < i ==> (#[trigger] self.entries@[a]).0 != (
                    #[trigger] self.entries@[b]).0,
            decreases self.entries.len() - i,
        {
            let mut j: usize = 0;
            while j < i
                invariant
                    j <= i < self.entries.len(),
                    forall|a: int|
                        0 <= a < j ==> (#[trigger] self.entries@[a]).0 != self.entries@[i as int].0,
                decreases i - j,
            {
                if self.entries[j].0 == self.entries[i].0 {
                    return false;
                }
                j += 1;
            }
            i += 1;
        }
        true
    }

    /// Where `key` stands in the entries, if it is there.
    fn find(&self, key: AliasKey) -> (at: Option<usize>)
        requires
            self.wf(),
        ensures
            match at {
                Some(i) => i < self.entries@.len() && self.entries@[i as int].0 == key
                    && self@.contains_key(key) && self@[key] == self.entries@[i as int].1,
                None => !self@.contains_key(key) && forall|j: int|
                    0 <= j < self.entries@.len() ==> (#[trigger] self.entries@[j]).0 != key,
            },
    {
        let mut i: usize = 0;
        while i < self.entries.len()
            invariant
                self.wf(),
                i <= self.entries.len(),
                forall|j: int| 0 <= j < i ==> (#[trigger] self.entries@[j]).0 != key,
            decreases self.entries.len() - i,
        {
            if self.entries[i].0 == key {
                proof {
                    lemma_entry(self.entries@, i as int);
                }
                return Some(i);
            }
            i += 1;
        }
        None
    }

    /// The proxy held under `key`, if there is one.
    pub fn get(&self, key: AliasKey) -> (r: Option<NodeId>)
        requires
            self.wf(),
        ensures
            r == (if self@.contains_key(key) {
                Some(self@[key])
            } else {
                None
            }),
    {
        match self.find(key) {
            Some(i) => Some(self.entries[i].1),
            None => None,
        }
    }

    /// Holds `node` under `key`, in place of what was held there.
    pub fn add(&mut self, key: AliasKey, node: NodeId)
        requires
            old(self).wf(),
        ensures
            final(self).wf(),
            final(self)@ == old(self)@.insert(key, node),
    {
        match self.find(key) {
            Some(i) => {
                self.entries[i] = (key, node);
                proof {
                    lemma_update(old(self).entries@, i as int, node);
                    assert(self.entries@ =~= old(self).entries@.update(i as int, (key, node)));
                }
            },
            None => {
                self.entries.push((key, node));
                proof {
                    lemma_push(old(self).entries@, key, node);
                }
            },
        }
    }

    /// Lets go of what is held under `key` and returns it.
    pub fn remove(&mut self, key: AliasKey) -> (r: Option<NodeId>)
        requires
            old(self).wf(),
        ensures
            final(self).wf(),
            final(self)@ == old(self)@.remove(key),
            r == (if old(self)@.contains_key(key) {
                Some(old(self)@[key])
            } else {
                None
            }),
    {
        match self.find(key) {
            Some(i) => {
                let held = self.entries.remove(i);
                proof {
                    lemma_remove(old(self).entries@, i as int);
                }
                Some(held.1)
            },
            None => {
                assert(self@ =~= old(self)@.remove(key));
                None
            },
        }
    }
}

/// In entries with distinct keys, each entry is what the map says of its key.
pub proof fn lemma_entry(entries: Seq<(AliasKey, NodeId)>, i: int)
    requires
        distinct_keys(entries),
        0 <= i < entries.len(),
    ensures
        as_map(entries).contains_key(entries[i].0),
        as_map(entries)[entries[i].0] == entries[i].1,
{
    let k = entries[i].0;
    assert(has_key(entries, k));
    let p = position(entries, k);
    assert(p == i) by {
        if p < i {
            assert(entries[p].0 != entries[i].0);
        } else if i < p {
            assert(entries[i].0 != entries[p].0);
        }
    }
}

/// Every key of the map stands at some position of the entries.
pub proof fn lemma_key_position(entries: Seq<(AliasKey, NodeId)>, key: AliasKey)
    requires
        distinct_keys(entries),
        as_map(entries).contains_key(key),
    ensures
        0 <= position(entries, key) < entries.len(),
        entries[position(entries, key)] == (key, as_map(entries)[key]),
{
}

/// Adding an entry under a new key is inserting into the map.
proof fn lemma_push(entries: Seq<(AliasKey, NodeId)>, key: AliasKey, node: NodeId)
    requires
        distinct_keys(entries),
        !has_key(entries, key),
    ensures
        distinct_keys(entries.push((key, node))),
        as_map(entries.push((key, node))) == as_map(entries).insert(key, node),
{
    let after = entries.push((key, node));
    assert(distinct_keys(after)) by {
        assert forall|i: int, j: int| 0 <= i < j < after.len() implies (#[trigger] after[i]).0 != (
        #[trigger] after[j]).0 by {
            if j == entries.len() {
                assert(entries[i].0 != key);
            } else {
                assert(entries[i].0 != entries[j].0);
            }
        }
    }
    assert forall|k: AliasKey| #[trigger]
        as_map(after).contains_key(k) <==> as_map(entries).insert(key, node).contains_key(k) by {
        if has_key(entries, k) {
            let i = position(entries, k);
            assert(after[i].0 == k);
        }
        if k == key {
            assert(after[after.len() - 1].0 == k);
        }
        if has_key(after, k) && k != key {
            let i = position(after, k);
            assert(entries[i].0 == k);
        }
    }
    assert forall|k: AliasKey| #[trigger]
        as_map(after).contains_key(k) implies as_map(after)[k] == as_map(entries).insert(
        key,
        node,
    )[k] by {
        let i = position(after, k);
        lemma_entry(after, i);
        if k != key {
            assert(entries[i].0 == k);
            lemma_entry(entries, i);
        }
    }
    assert(as_map(after) =~= as_map(entries).insert(key, node));
}

/// Replacing the node of an entry is inserting into the map.
proof fn lemma_update(entries: Seq<(AliasKey, NodeId)>, at: int, node: NodeId)
    requires
        distinct_keys(entries),
        0 <= at < entries.len(),
    ensures
        distinct_keys(entries.update(at, (entries[at].0, node))),
        as_map(entries.update(at, (entries[at].0, node))) == as_map(entries).insert(
            entries[at].0,
            node,
        ),
{
    let key = entries[at].0;
    let after = entries.update(at, (key, node));
    assert(distinct_keys(after)) by {
        assert forall|i: int, j: int| 0 <= i < j < after.len() implies (#[trigger] after[i]).0 != (
        #[trigger] after[j]).0 by {
            assert(entries[i].0 != entries[j].0);
        }
    }
    assert forall|k: AliasKey| #[trigger]
        as_map(after).contains_key(k) <==> as_map(entries).insert(key, node).contains_key(k) by {
        if has_key(entries, k) {
            let i = position(entries, k);
            assert(after[i].0 == k);
        }
        if k == key {
            assert(after[at].0 == k);
        }
        if has_key(after, k) {
            let i = position(after, k);
            assert(entries[i].0 == k);
        }
    }
    assert forall|k: AliasKey| #[trigger]
        as_map(after).contains_key(k) implies as_map(after)[k] == as_map(entries).insert(
        key,
        node,
    )[k] by {
        let i = position(after, k);
        lemma_entry(after, i);
        assert(entries[i].0 == k);
        lemma_entry(entries, i);
    }
    assert(as_map(after) =~= as_map(entries).insert(key, node));
}

/// Taking an entry out is removing its key from the map.
proof fn lemma_remove(entries: Seq<(AliasKey, NodeId)>, at: int)
    requires
        distinct_keys(entries),
        0 <= at < entries.len(),
    ensures
        distinct_keys(entries.remove(at)),
        as_map(entries.remove(at)) == as_map(entries).remove(entries[at].0),
{
    let key = entries[at].0;
    let after = entries.remove(at);
    assert(distinct_keys(after)) by {
        assert forall|i: int, j: int| 0 <= i < j < after.len() implies (#[trigger] after[i]).0 != (
        #[trigger] after[j]).0 by {
            let oi = if i < at { i } else { i + 1 };
            let oj = if j < at { j } else { j + 1 };
            assert(entries[oi].0 != entries[oj].0);
        }
    }
    assert forall|k: AliasKey| #[trigger]
        as_map(after).contains_key(k) <==> as_map(entries).remove(key).contains_key(k) by {
        if has_key(entries, k) && k != key {
            let i = position(entries, k);
            if i < at {
                assert(after[i].0 == k);
            } else {
                assert(after[i - 1].0 == k);
            }
        }
        if has_key(after, k) {
            let i = position(after, k);
            let oi = if i < at { i } else { i + 1 };
            assert(entries[oi].0 == k);
            if k == key {
                if oi < at {
                    assert(entries[oi].0 != entries[at].0);
                } else {
                    assert(entries[at].0 != entries[oi].0);
                }
            }
        }
    }
    assert forall|k: AliasKey| #[trigger]
        as_map(after).contains_key(k) implies as_map(after)[k] == as_map(entries).remove(key)[k] by {
        let i = position(after, k);
        lemma_entry(after, i);
        let oi = if i < at { i } else { i + 1 };
        assert(entries[oi].0 == k);
        lemma_entry(entries, oi);
    }
    assert(as_map(after) =~= as_map(entries).remove(key));
}

} // verus!
