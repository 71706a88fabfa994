//! Ranking: the order in which the handlers receive the input of a method.

use crate::input::method::InputMethod;
use crate::input::{biased, half, Distance};
use crate::registry::NodeId;
use crate::scene::{Scene, SceneView};
use vstd::prelude::*;

verus! {

/// A handler and the distance by which it is ranked.
pub type Ranked = (NodeId, Distance);

/// `sorted` with `item` put in behind everything that is not farther.
pub open spec fn insert_ranked(sorted: Seq<Ranked>, item: Ranked) -> Seq<Ranked>
    decreases sorted.len(),
{
    if sorted.len() == 0 {
        seq![item]
    } else if sorted.last().1 <= item.1 {
        sorted.push(item)
    } else {
        insert_ranked(sorted.drop_last(), item).push(sorted.last())
    }
}

/// No element of `s` is farther than one behind it.
pub open spec fn ascending(s: Seq<Ranked>) -> bool {
    forall|i: int, j: int| 0 <= i <= j < s.len() ==> (#[trigger] s[i]).1 <= (#[trigger] s[j]).1
}

/// The handlers of `s`, in order.
pub open spec fn handlers_of(s: Seq<Ranked>) -> Seq<NodeId> {
    s.map_values(|r: Ranked| r.0)
}

impl<D> SceneView<D> {
    /// The order of handlers that the client of the method `m` has set and
    /// that is in force. An empty order is none.
    pub open spec fn manual_order(self, m: NodeId) -> Option<Seq<NodeId>> {
        if self.is_method(m) && self.method(m).handler_order.is_some() && self.method(
            m,
        ).handler_order.unwrap().len() > 0 {
            self.method(m).handler_order
        } else {
            None
        }
    }

    /// The distance by which the method `m` ranks the handler `h` that is at
    /// the true distance `d`.
    pub open spec fn rank_distance(self, m: NodeId, h: NodeId, d: Distance) -> Distance {
        biased(self.method(m).captures.contains(h), d as int) as Distance
    }

    /// The ranking of `candidates` by distance from the method `m`: those
    /// that carry an input handler, each with the distance by which `m`
    /// ranks it, nearest first. Of two at the same distance, the one that
    /// comes first in `candidates` comes first.
    pub open spec fn by_distance(self, m: NodeId, candidates: Seq<Ranked>) -> Seq<Ranked>
        decreases candidates.len(),
    {
        if candidates.len() == 0 {
            Seq::empty()
        } else {
            let before = self.by_distance(m, candidates.drop_last());
            let c = candidates.last();
            if self.is_handler(c.0) {
                insert_ranked(before, (c.0, self.rank_distance(m, c.0, c.1)))
            } else {
                before
            }
        }
    }

    /// The order in which handlers receive the input of the method `m`.
    ///
    /// If the client of the method has set an order, that order decides,
    /// whatever the distances: the handlers it names that still exist, in the
    /// order given. Otherwise the handlers among `candidates`, each given
    /// with its true distance, are ranked by distance.
    pub open spec fn ranking(self, m: NodeId, candidates: Seq<Ranked>) -> Seq<NodeId> {
        if !self.is_method(m) {
            Seq::empty()
        } else {
            match self.manual_order(m) {
                Some(order) => self.handlers_among(order),
                None => handlers_of(self.by_distance(m, candidates)),
            }
        }
    }
}

/// Putting `item` in is inserting it at the place `at`, where everything
/// from `at` on is farther and what stands before `at` is not.
proof fn lemma_insert_at(s: Seq<Ranked>, item: Ranked, at: int)
    requires
        0 <= at <= s.len(),
        forall|j: int| at <= j < s.len() ==> (#[trigger] s[j]).1 > item.1,
        at > 0 ==> s[at - 1].1 <= item.1,
    ensures
        insert_ranked(s, item) == s.insert(at, item),
    decreases s.len(),
{
    if s.len() == 0 {
        assert(seq![item] =~= s.insert(at, item));
    } else if s.last().1 <= item.1 {
        assert(at == s.len()) by {
            if at < s.len() {
                assert(s[s.len() - 1].1 > item.1);
            }
        }
        assert(s.push(item) =~= s.insert(at, item));
    } else {
        assert(at < s.len());
        let rest = s.drop_last();
        assert forall|j: int| at <= j < rest.len() implies (#[trigger] rest[j]).1 > item.1 by {
            assert(s[j].1 > item.1);
        }
        lemma_insert_at(rest, item, at);
        assert(rest.insert(at, item).push(s.last()) =~= s.insert(at, item));
    }
}

/// Puts `item` into `sorted`, behind everything that is not farther.
fn put_ranked(sorted: &mut Vec<Ranked>, item: Ranked)
    ensures
        final(sorted)@ == insert_ranked(old(sorted)@, item),
{
    let mut at: usize = sorted.len();
    while at > 0 && sorted[at - 1].1 > item.1
        invariant
            at <= sorted.len(),
            sorted@ == old(sorted)@,
            forall|j: int| at <= j < sorted.len() ==> (#[trigger] sorted@[j]).1 > item.1,
        decreases at,
    {
        at -= 1;
    }
    proof {
        lemma_insert_at(sorted@, item, at as int);
    }
    sorted.insert(at, item);
}

impl<D> InputMethod<D> {
    /// The order in which handlers receive the input of the method at
    /// `method`, given each candidate with its true distance from the
    /// method.
    pub fn rank_handlers(scene: &Scene<D>, method: NodeId, candidates: &Vec<Ranked>) -> (r: Vec<
        NodeId,
    >)
        requires
            scene.wf(),
        ensures
            r@ == scene@.ranking(method, candidates@),
    {
        let mut r: Vec<NodeId> = Vec::new();
        let this = match scene.input_method(method) {
            Some(this) => this,
            None => { return r; },
        };
        let manual: Option<&Vec<NodeId>> = match &this.handler_order {
            Some(order) => if order.len() > 0 {
                Some(order)
            } else {
                None
            },
            None => None,
        };
        match manual {
            Some(order) => {
                let mut i: usize = 0;
                proof {
                    reveal(Seq::filter);
                    assert(order@.take(0) =~= Seq::<NodeId>::empty());
                }
                while i < order.len()
                    invariant
                        i <= order.len(),
                        r@ == scene@.handlers_among(order@.take(i as int)),
                    decreases order.len() - i,
                {
                    proof {
                        reveal(Seq::filter);
                        assert(order@.take(i + 1).drop_last() =~= order@.take(i as int));
                        assert(order@.take(i + 1).last() == order@[i as int]);
                    }
                    if scene.input_handler(order[i]).is_some() {
                        r.push(order[i]);
                    }
                    i += 1;
                }
                assert(order@.take(i as int) =~= order@);
                r
            },
            None => {
                let mut ranked: Vec<Ranked> = Vec::new();
                let mut i: usize = 0;
                assert(candidates@.take(0) =~= Seq::<Ranked>::empty());
                while i < candidates.len()
                    invariant
                        scene.wf(),
                        this.wf(),
                        scene@.is_method(method),
                        this@ == scene@.method(method),
                        i <= candidates.len(),
                        ranked@ == scene@.by_distance(method, candidates@.take(i as int)),
                    decreases candidates.len() - i,
                {
                    proof {
                        assert(candidates@.take(i + 1).drop_last() =~= candidates@.take(i as int));
                        assert(candidates@.take(i + 1).last() == candidates@[i as int]);
                    }
                    let c = candidates[i];
                    match scene.input_handler(c.0) {
                        Some(handler) => {
                            let d = this.compare_distance(handler, c.1);
                            assert(handler@.node == c.0);
                            put_ranked(&mut ranked, (c.0, d));
                        },
                        None => {},
                    }
                    i += 1;
                }
                assert(candidates@.take(i as int) =~= candidates@);
                let mut k: usize = 0;
                while k < ranked.len()
                    invariant
                        k <= ranked.len(),
                        r@ == handlers_of(ranked@.take(k as int)),
                    decreases ranked.len() - k,
                {
                    r.push(ranked[k].0);
                    assert(r@ =~= handlers_of(ranked@.take(k + 1)));
                    k += 1;
                }
                assert(ranked@.take(k as int) =~= ranked@);
                r
            },
        }
    }
}

/// Putting an item into an ascending sequence leaves it ascending, and adds
/// the item and nothing else.
pub proof fn lemma_insert_ranked(sorted: Seq<Ranked>, item: Ranked)
    requires
        ascending(sorted),
    ensures
        ascending(insert_ranked(sorted, item)),
        insert_ranked(sorted, item).len() == sorted.len() + 1,
        forall|r: Ranked| #[trigger]
            insert_ranked(sorted, item).contains(r) <==> sorted.contains(r) || r == item,
    decreases sorted.len(),
{
    let out = insert_ranked(sorted, item);
    if sorted.len() == 0 {
        assert(out[0] == item);
    } else if sorted.last().1 <= item.1 {
        assert forall|i: int, j: int| 0 <= i <= j < out.len() implies (#[trigger] out[i]).1 <= (
        #[trigger] out[j]).1 by {
            if j == sorted.len() {
                if i < sorted.len() {
                    assert(sorted[i].1 <= sorted[sorted.len() - 1].1);
                }
            } else {
                assert(sorted[i].1 <= sorted[j].1);
            }
        }
        assert forall|r: Ranked| #[trigger] out.contains(r) <==> sorted.contains(r) || r
            == item by {
            if sorted.contains(r) {
                let k = choose|k: int| 0 <= k < sorted.len() && sorted[k] == r;
                assert(out[k] == r);
            }
            if r == item {
                assert(out[out.len() - 1] == r);
            }
            if out.contains(r) {
                let k = choose|k: int| 0 <= k < out.len() && out[k] == r;
                if k < sorted.len() {
                    assert(sorted[k] == r);
                }
            }
        }
    } else {
        let rest = sorted.drop_last();
        let sub = insert_ranked(rest, item);
        assert(ascending(rest)) by {
            assert forall|i: int, j: int| 0 <= i <= j < rest.len() implies (#[trigger] rest[i]).1
                <= (#[trigger] rest[j]).1 by {
                assert(sorted[i].1 <= sorted[j].1);
            }
        }
        lemma_insert_ranked(rest, item);
        assert forall|r: Ranked| #[trigger] out.contains(r) <==> sorted.contains(r) || r
            == item by {
            if out.contains(r) {
                let k = choose|k: int| 0 <= k < out.len() && out[k] == r;
                if k < sub.len() {
                    assert(sub[k] == r);
                    assert(sub.contains(r));
                    if rest.contains(r) {
                        let q = choose|q: int| 0 <= q < rest.len() && rest[q] == r;
                        assert(sorted[q] == r);
                    }
                } else {
                    assert(sorted[sorted.len() - 1] == r);
                }
            }
            if sorted.contains(r) {
                let k = choose|k: int| 0 <= k < sorted.len() && sorted[k] == r;
                if k < rest.len() {
                    assert(rest[k] == r);
                    assert(rest.contains(r));
                    assert(sub.contains(r));
                    let q = choose|q: int| 0 <= q < sub.len() && sub[q] == r;
                    assert(out[q] == r);
                } else {
                    assert(out[out.len() - 1] == r);
                }
            }
            if r == item {
                assert(sub.contains(r));
                let q = choose|q: int| 0 <= q < sub.len() && sub[q] == r;
                assert(out[q] == r);
            }
        }
        assert forall|i: int, j: int| 0 <= i <= j < out.len() implies (#[trigger] out[i]).1 <= (
        #[trigger] out[j]).1 by {
            if j < sub.len() {
                assert(sub[i].1 <= sub[j].1);
            } else if i < sub.len() {
                assert(sub.contains(sub[i]));
                if sub[i] != item {
                    assert(rest.contains(sub[i]));
                    let q = choose|q: int| 0 <= q < rest.len() && rest[q] == sub[i];
                    assert(sorted[q].1 <= sorted[sorted.len() - 1].1);
                }
            }
        }
    }
}

impl<D> SceneView<D> {
    /// The ranking by distance is in order of distance, nearest first, and
    /// holds exactly the candidates that carry an input handler, each with
    /// the distance by which the method ranks it.
    pub proof fn lemma_by_distance(self, m: NodeId, candidates: Seq<Ranked>)
        ensures
            ascending(self.by_distance(m, candidates)),
            forall|r: Ranked| #[trigger]
                self.by_distance(m, candidates).contains(r) <==> exists|k: int|
                    0 <= k < candidates.len() && self.is_handler((#[trigger] candidates[k]).0)
                        && r == (candidates[k].0, self.rank_distance(
                        m,
                        candidates[k].0,
                        candidates[k].1,
                    )),
        decreases candidates.len(),
    {
        let out = self.by_distance(m, candidates);
        if candidates.len() > 0 {
            let rest = candidates.drop_last();
            let before = self.by_distance(m, rest);
            let c = candidates.last();
            self.lemma_by_distance(m, rest);
            let item = (c.0, self.rank_distance(m, c.0, c.1));
            if self.is_handler(c.0) {
                lemma_insert_ranked(before, item);
            }
            assert forall|r: Ranked| #[trigger]
                out.contains(r) <==> exists|k: int|
                    0 <= k < candidates.len() && self.is_handler((#[trigger] candidates[k]).0)
                        && r == (candidates[k].0, self.rank_distance(
                        m,
                        candidates[k].0,
                        candidates[k].1,
                    )) by {
                if out.contains(r) {
                    if self.is_handler(c.0) && r == item {
                        assert(candidates[candidates.len() - 1] == c);
                    } else {
                        assert(before.contains(r));
                        let k = choose|k: int|
                            0 <= k < rest.len() && self.is_handler((#[trigger] rest[k]).0) && r == (
                                rest[k].0,
                                self.rank_distance(m, rest[k].0, rest[k].1),
                            );
                        assert(candidates[k] == rest[k]);
                    }
                }
                if exists|k: int|
                    0 <= k < candidates.len() && self.is_handler((#[trigger] candidates[k]).0)
                        && r == (candidates[k].0, self.rank_distance(
                        m,
                        candidates[k].0,
                        candidates[k].1,
                    )) {
                    let k = choose|k: int|
                        0 <= k < candidates.len() && self.is_handler((#[trigger] candidates[k]).0)
                            && r == (candidates[k].0, self.rank_distance(
                            m,
                            candidates[k].0,
                            candidates[k].1,
                        ));
                    if k < rest.len() {
                        assert(rest[k] == candidates[k]);
                        assert(before.contains(r));
                    }
                }
            }
        } else {
            assert forall|r: Ranked| !(#[trigger] out.contains(r)) by {}
        }
    }

    /// The ranking by distance leaves no candidate out and takes none
    /// twice: it is as long as the list of the candidates that carry an
    /// input handler.
    pub proof fn lemma_by_distance_len(self, m: NodeId, candidates: Seq<Ranked>)
        ensures
            self.by_distance(m, candidates).len() == self.handlers_among(
                handlers_of(candidates),
            ).len(),
        decreases candidates.len(),
    {
        reveal(Seq::filter);
        if candidates.len() > 0 {
            let rest = candidates.drop_last();
            self.lemma_by_distance_len(m, rest);
            self.lemma_by_distance(m, rest);
            let c = candidates.last();
            if self.is_handler(c.0) {
                lemma_insert_ranked(
                    self.by_distance(m, rest),
                    (c.0, self.rank_distance(m, c.0, c.1)),
                );
            }
            assert(handlers_of(candidates).drop_last() =~= handlers_of(rest));
            assert(handlers_of(candidates).last() == c.0);
        } else {
            assert(handlers_of(candidates) =~= Seq::<NodeId>::empty());
        }
    }

    /// A handler that has captured the method is ranked by half its true
    /// distance; any other handler by its true distance.
    pub proof fn lemma_rank_distance(self, m: NodeId, h: NodeId, d: Distance)
        ensures
            self.rank_distance(m, h, d) == (if self.method(m).captures.contains(h) {
                half(d as int)
            } else {
                d as int
            }),
    {
    }

    /// An order that the client has set decides, whatever the distances:
    /// once the order of the method `m` is set to `second` before `first`,
    /// both carrying an input handler, the ranking is `second`, then
    /// `first`, for any candidates at any distances.
    pub proof fn lemma_manual_order_decides(
        self,
        m: NodeId,
        first: NodeId,
        second: NodeId,
        candidates: Seq<Ranked>,
    )
        requires
            self.is_method(m),
            self.is_handler(first),
            self.is_handler(second),
        ensures
            self.set_handler_order(m, Some(seq![second, first])).ranking(m, candidates) == seq![
                second,
                first,
            ],
    {
        reveal_with_fuel(Seq::filter, 3);
        let order = seq![second, first];
        assert(order.drop_last() =~= seq![second]);
        assert(order.drop_last().drop_last() =~= Seq::<NodeId>::empty());
        assert(self.handlers_among(order) =~= order);
        let after = self.set_handler_order(m, Some(order));
        assert(after.manual_order(m) == Some(order));
        assert forall|id: NodeId| after.is_handler(id) == self.is_handler(id) by {
            let _ = after.nodes[id as int];
        }
        assert(after.handlers_among(order) =~= order);
    }

    /// Taking the order back, or setting an empty one, brings back the
    /// ranking by distance.
    pub proof fn lemma_order_reverts(self, m: NodeId, candidates: Seq<Ranked>)
        requires
            self.is_method(m),
        ensures
            self.set_handler_order(m, None).ranking(m, candidates) == handlers_of(
                self.set_handler_order(m, None).by_distance(m, candidates),
            ),
            self.set_handler_order(m, Some(Seq::empty())).ranking(m, candidates) == handlers_of(
                self.set_handler_order(m, Some(Seq::empty())).by_distance(m, candidates),
            ),
    {
        reveal(Seq::filter);
        assert(self.handlers_among(Seq::empty()) =~= Seq::<NodeId>::empty());
    }
}

} // verus!
