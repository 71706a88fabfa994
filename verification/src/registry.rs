//! Weak-tracked registries: sets of non-owning references to live objects.

use vstd::prelude::*;

verus! {

/// Identifier of a node. An identifier is handed out once and never reused,
/// so a stale reference can be told from a live one.
pub type NodeId = usize;

/// The owner of the referents: it alone knows which of them are still alive.
pub trait Lifetimes {
    /// Whether the object behind `id` exists.
    spec fn alive(&self, id: NodeId) -> bool;

    /// Whether the object behind `id` exists.
    fn is_alive(&self, id: NodeId) -> (b: bool)
        ensures
            b == self.alive(id),
    ;
}

/// A set of weak references, in the order in which they were added.
///
/// A registry never keeps its referents alive. Entries whose referent is gone
/// may linger until they are removed; reading skips them.
pub struct Registry {
    pub entries: Vec<NodeId>,
}

impl View for Registry {
    type V = Set<NodeId>;

    open spec fn view(&self) -> Set<NodeId> {
        self.entries@.to_set()
    }
}

/// `entries` without `id`, in order.
pub open spec fn without(entries: Seq<NodeId>, id: NodeId) -> Seq<NodeId> {
    entries.filter(|x: NodeId| x != id)
}

/// `ids` with `id` added at the end, unless it is there already.
pub open spec fn registered(ids: Seq<NodeId>, id: NodeId) -> Seq<NodeId> {
    if ids.to_set().contains(id) {
        ids
    } else {
        ids.push(id)
    }
}

/// The members of `entries` whose referent is alive in `lives`, in order.
pub open spec fn valid_contents<L: Lifetimes>(entries: Seq<NodeId>, lives: &L) -> Seq<NodeId> {
    entries.filter(|id: NodeId| lives.alive(id))
}

impl Registry {
    /// No reference is held twice.
    pub open spec fn wf(&self) -> bool {
        self.entries@.no_duplicates()
    }

    /// A registry without members.
    pub fn new() -> (r: Registry)
        ensures
            r.wf(),
            r.entries@ == Seq::<NodeId>::empty(),
            r@ == Set::<NodeId>::empty(),
    {
        let r = Registry { entries: Vec::new() };
        assert(r.entries@.to_set() =~= Set::<NodeId>::empty());
        r
    }

    /// Whether no reference is held twice.
    pub fn is_wf(&self) -> (b: bool)
        ensures
            b == self.wf(),
    {
        let mut i: usize = 0;
        while i < self.entries.len()
            invariant
                i <= self.entries.len(),
                forall|a: int, b: int|
                    0 <= a < b < i ==> self.entries@[a] != self.entries@[b],
            decreases self.entries.len() - i,
        {
            let mut j: usize = 0;
            while j < i
                invariant
                    j <= i < self.entries.len(),
                    forall|a: int| 0 <= a < j ==> self.entries@[a] != self.entries@[i as int],
                decreases i - j,
            {
                if self.entries[j] == self.entries[i] {
                    return false;
                }
                j += 1;
            }
            i += 1;
        }
        true
    }

    /// Whether `id` was added and not removed since. The referent may be gone.
    pub fn contains(&self, id: NodeId) -> (b: bool)
        ensures
            b == self@.contains(id),
    {
        let mut i: usize = 0;
        while i < self.entries.len()
            invariant
                i <= self.entries.len(),
                forall|j: int| 0 <= j < i ==> self.entries@[j] != id,
            decreases self.entries.len() - i,
        {
            if self.entries[i] == id {
                return true;
            }
            i += 1;
        }
        false
    }

    /// Adds a reference to `id`. Adding a member again changes nothing.
    pub fn add(&mut self, id: NodeId)
        requires
            old(self).wf(),
        ensures
            final(self).wf(),
            final(self)@ == old(self)@.insert(id),
            final(self).entries@ == registered(old(self).entries@, id),
    {
        if !self.contains(id) {
            self.entries.push(id);
            assert(self.entries@.to_set() =~= old(self).entries@.to_set().insert(id)) by {
                assert forall|x: NodeId|
                    self.entries@.contains(x) <==> old(self).entries@.contains(x) || x == id by {
                    if old(self).entries@.contains(x) {
                        let j = choose|j: int|
                            0 <= j < old(self).entries@.len() && old(self).entries@[j] == x;
                        assert(self.entries@[j] == x);
                    }
                    if x == id {
                        assert(self.entries@[self.entries@.len() - 1] == x);
                    }
                }
            }
        } else {
            assert(self@ =~= old(self)@.insert(id));
        }
    }

    /// Drops the reference to `id`, if there is one.
    pub fn remove(&mut self, id: NodeId)
        requires
            old(self).wf(),
        ensures
            final(self).wf(),
            final(self)@ == old(self)@.remove(id),
            final(self).entries@ == without(old(self).entries@, id),
    {
        let mut i: usize = 0;
        while i < self.entries.len()
            invariant
                i <= self.entries.len(),
                self.entries@ == old(self).entries@,
                self.entries@.no_duplicates(),
                forall|j: int| 0 <= j < i ==> self.entries@[j] != id,
            decreases self.entries.len() - i,
        {
            if self.entries[i] == id {
                self.entries.remove(i);
                proof {
                    lemma_filter_remove_unique(old(self).entries@, i as int);
                    assert(self.entries@.to_set() =~= old(self).entries@.to_set().remove(id)) by {
                        assert forall|x: NodeId|
                            self.entries@.contains(x) <==> old(self).entries@.contains(x) && x
                                != id by {
                            if self.entries@.contains(x) {
                                let j = choose|j: int|
                                    0 <= j < self.entries@.len() && self.entries@[j] == x;
                                if j < i {
                                    assert(old(self).entries@[j] == x);
                                } else {
                                    assert(old(self).entries@[j + 1] == x);
                                }
                            }
                            if old(self).entries@.contains(x) && x != id {
                                let j = choose|j: int|
                                    0 <= j < old(self).entries@.len() && old(self).entries@[j]
                                        == x;
                                if j < i {
                                    assert(self.entries@[j] == x);
                                } else {
                                    assert(self.entries@[j - 1] == x);
                                }
                            }
                        }
                    }
                }
                return ;
            }
            i += 1;
        }
        proof {
            lemma_without_absent(self.entries@, id);
            assert(self@ =~= old(self)@.remove(id));
        }
    }

    /// Forgets every reference.
    pub fn clear(&mut self)
        ensures
            final(self).wf(),
            final(self).entries@ == Seq::<NodeId>::empty(),
            final(self)@ == Set::<NodeId>::empty(),
    {
        self.entries.clear();
        assert(self.entries@.to_set() =~= Set::<NodeId>::empty());
    }

    /// A snapshot of the members that are alive at the time of the call, in
    /// the order in which they were added. Members whose referent is gone are
    /// skipped. The snapshot is a value of its own: what is added to or
    /// removed from the registry afterwards does not show in it.
    pub fn get_valid_contents<L: Lifetimes>(&self, lives: &L) -> (r: Vec<NodeId>)
        requires
            self.wf(),
        ensures
            r@ == valid_contents(self.entries@, lives),
            r@.no_duplicates(),
            forall|id: NodeId| #[trigger] r@.contains(id) <==> self@.contains(id) && lives.alive(id),
    {
        let mut r: Vec<NodeId> = Vec::new();
        let mut i: usize = 0;
        proof {
            reveal(Seq::filter);
            assert(valid_contents(self.entries@.take(0), lives) =~= Seq::<NodeId>::empty());
        }
        while i < self.entries.len()
            invariant
                i <= self.entries.len(),
                r@ == valid_contents(self.entries@.take(i as int), lives),
            decreases self.entries.len() - i,
        {
            let id = self.entries[i];
            let keep = lives.is_alive(id);
            proof {
                reveal(Seq::filter);
                assert(self.entries@.take(i + 1).drop_last() =~= self.entries@.take(i as int));
                assert(self.entries@.take(i + 1).last() == id);
            }
            if keep {
                r.push(id);
            }
            i += 1;
        }
        proof {
            assert(self.entries@.take(i as int) =~= self.entries@);
            lemma_valid_contents(self.entries@, lives);
        }
        r
    }
}

/// Taking out what is not there changes nothing.
pub proof fn lemma_without_absent(s: Seq<NodeId>, id: NodeId)
    requires
        forall|j: int| 0 <= j < s.len() ==> s[j] != id,
    ensures
        without(s, id) == s,
    decreases s.len(),
{
    reveal(Seq::filter);
    if s.len() > 0 {
        lemma_without_absent(s.drop_last(), id);
        assert(s.drop_last().push(s.last()) =~= s);
    }
}

/// In a sequence without duplicates, taking an element out is removing it at
/// its position.
pub proof fn lemma_filter_remove_unique(s: Seq<NodeId>, i: int)
    requires
        s.no_duplicates(),
        0 <= i < s.len(),
    ensures
        without(s, s[i]) == s.remove(i),
        s.remove(i).no_duplicates(),
    decreases s.len(),
{
    reveal(Seq::filter);
    let id = s[i];
    if i == s.len() - 1 {
        lemma_without_absent(s.drop_last(), id);
        assert(s.remove(i) =~= s.drop_last());
    } else {
        lemma_filter_remove_unique(s.drop_last(), i);
        assert(s.drop_last()[i] == id);
        assert(s.drop_last().remove(i).push(s.last()) =~= s.remove(i));
    }
    assert(s.remove(i).no_duplicates());
}

/// Filtering keeps exactly the elements that pass, and makes no duplicates.
pub proof fn lemma_filter_members<A>(s: Seq<A>, p: spec_fn(A) -> bool)
    ensures
        forall|x: A| #[trigger] s.filter(p).contains(x) <==> s.contains(x) && p(x),
        s.no_duplicates() ==> s.filter(p).no_duplicates(),
    decreases s.len(),
{
    reveal(Seq::filter);
    let out = s.filter(p);
    if s.len() > 0 {
        let rest = s.drop_last();
        let last = s.last();
        let sub = rest.filter(p);
        lemma_filter_members(rest, p);
        assert forall|x: A| #[trigger] out.contains(x) <==> s.contains(x) && p(x) by {
            if out.contains(x) {
                let j = choose|j: int| 0 <= j < out.len() && out[j] == x;
                if p(last) && j == out.len() - 1 {
                    assert(s[s.len() - 1] == x);
                } else {
                    assert(sub[j] == x);
                    assert(sub.contains(x));
                    let k = choose|k: int| 0 <= k < rest.len() && rest[k] == x;
                    assert(s[k] == x);
                }
            }
            if s.contains(x) && p(x) {
                let k = choose|k: int| 0 <= k < s.len() && s[k] == x;
                if k == s.len() - 1 {
                    assert(out[out.len() - 1] == x);
                } else {
                    assert(rest[k] == x);
                    assert(rest.contains(x));
                    assert(sub.contains(x));
                    let j = choose|j: int| 0 <= j < sub.len() && sub[j] == x;
                    assert(out[j] == x);
                }
            }
        }
        if s.no_duplicates() {
            assert(rest.no_duplicates());
            if p(last) {
                assert(!sub.contains(last)) by {
                    if sub.contains(last) {
                        assert(rest.contains(last));
                        let k = choose|k: int| 0 <= k < rest.len() && rest[k] == last;
                        assert(s[k] == s[s.len() - 1]);
                    }
                }
            }
        }
    }
}

/// What a snapshot holds: each live member, once.
pub proof fn lemma_valid_contents<L: Lifetimes>(entries: Seq<NodeId>, lives: &L)
    requires
        entries.no_duplicates(),
    ensures
        valid_contents(entries, lives).no_duplicates(),
        forall|id: NodeId|
            #[trigger] valid_contents(entries, lives).contains(id) <==> entries.contains(id)
                && lives.alive(id),
{
    lemma_filter_members(entries, |id: NodeId| lives.alive(id));
}

/// What is left when `id` is taken out: everything else.
pub proof fn lemma_without_contains(s: Seq<NodeId>, id: NodeId)
    ensures
        forall|x: NodeId| #[trigger] without(s, id).contains(x) <==> s.contains(x) && x != id,
    decreases s.len(),
{
    reveal(Seq::filter);
    let out = without(s, id);
    if s.len() > 0 {
        let rest = s.drop_last();
        let sub = without(rest, id);
        lemma_without_contains(rest, id);
        assert forall|x: NodeId| #[trigger] out.contains(x) <==> s.contains(x) && x != id by {
            if out.contains(x) {
                let j = choose|j: int| 0 <= j < out.len() && out[j] == x;
                if s.last() != id && j == out.len() - 1 {
                    assert(s[s.len() - 1] == x);
                } else {
                    assert(sub[j] == x);
                    assert(sub.contains(x));
                    let k = choose|k: int| 0 <= k < rest.len() && rest[k] == x;
                    assert(s[k] == x);
                }
            }
            if s.contains(x) && x != id {
                let k = choose|k: int| 0 <= k < s.len() && s[k] == x;
                if k == s.len() - 1 {
                    assert(out[out.len() - 1] == x);
                } else {
                    assert(rest[k] == x);
                    assert(rest.contains(x));
                    assert(sub.contains(x));
                    let j = choose|j: int| 0 <= j < sub.len() && sub[j] == x;
                    assert(out[j] == x);
                }
            }
        }
    }
}

/// Two tests that agree on every element filter alike.
pub proof fn lemma_filter_agree<A>(s: Seq<A>, p: spec_fn(A) -> bool, q: spec_fn(A) -> bool)
    requires
        forall|x: A| #[trigger] p(x) == q(x),
    ensures
        s.filter(p) == s.filter(q),
    decreases s.len(),
{
    reveal(Seq::filter);
    if s.len() > 0 {
        lemma_filter_agree(s.drop_last(), p, q);
    }
}

/// What is registered after `id` was: what was before, and `id`.
pub proof fn lemma_registered_contains(ids: Seq<NodeId>, id: NodeId)
    ensures
        forall|x: NodeId| #[trigger] registered(ids, id).contains(x) <==> ids.contains(x) || x == id,
        ids.no_duplicates() ==> registered(ids, id).no_duplicates(),
{
    let after = registered(ids, id);
    assert forall|x: NodeId| #[trigger] after.contains(x) <==> ids.contains(x) || x == id by {
        if ids.to_set().contains(id) {
            assert(ids.contains(id));
        } else {
            assert(!ids.contains(id));
            if after.contains(x) {
                let j = choose|j: int| 0 <= j < after.len() && after[j] == x;
                if j < ids.len() {
                    assert(ids[j] == x);
                }
            }
            if ids.contains(x) {
                let j = choose|j: int| 0 <= j < ids.len() && ids[j] == x;
                assert(after[j] == x);
            }
            if x == id {
                assert(after[after.len() - 1] == x);
            }
        }
    }
    if ids.no_duplicates() && !ids.to_set().contains(id) {
        assert(!ids.contains(id));
    }
}

/// A snapshot sees a registration whole or not at all: the snapshot of a
/// registry to which `id` was added is the snapshot from before, if `id` was
/// a member already or its referent is gone, and else that snapshot with
/// `id` at its end.
pub proof fn lemma_snapshot_of_added<L: Lifetimes>(entries: Seq<NodeId>, id: NodeId, lives: &L)
    ensures
        valid_contents(registered(entries, id), lives) == (if !entries.contains(id) && lives.alive(
            id,
        ) {
            valid_contents(entries, lives).push(id)
        } else {
            valid_contents(entries, lives)
        }),
{
    reveal(Seq::filter);
    if entries.to_set().contains(id) {
        assert(entries.contains(id));
    } else {
        assert(!entries.contains(id));
        assert(entries.push(id).drop_last() =~= entries);
    }
}

} // verus!
