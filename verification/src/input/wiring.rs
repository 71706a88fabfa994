//! What the wiring of methods and handlers guarantees.

use crate::alias::{AliasInfoView, Name};
use crate::input::{handler_alias_info, method_alias_info};
use crate::node_collections::AliasKey;
use crate::registry::{lemma_filter_members, NodeId};
use crate::scene::{held_in, ClientId, SceneView};
use stardust_xr::values::Datamap;
use vstd::prelude::*;

verus! {

impl<D> SceneView<D> {
    /// The node `alias` is the one alias mounted beneath `parent` under
    /// `name` in the namespace of `client`; it stands for `target` and lets
    /// through what `info` lists.
    pub open spec fn sole_alias(
        self,
        alias: NodeId,
        client: ClientId,
        parent: NodeId,
        name: Name,
        target: NodeId,
        info: AliasInfoView,
    ) -> bool {
        &&& self.is_alias(alias)
        &&& self.node(alias).client == client
        &&& self.alias(alias).parent == parent
        &&& self.alias(alias).name == name
        &&& self.alias(alias).target == target
        &&& self.alias(alias).info == info
        &&& forall|other: NodeId|
            #![trigger self.nodes[other as int]]
            self.is_alias(other) && self.node(other).client == client && self.alias(other).parent
                == parent && self.alias(other).name == name ==> other == alias
    }

    /// The client of the method `m` sees the handler `h`: the method holds,
    /// under the key of `h`, the one alias of `h` in that client's
    /// namespace, which lets the handler's transform be read.
    pub open spec fn method_sees(self, m: NodeId, h: NodeId) -> bool {
        &&& self.is_method(m)
        &&& self.method(m).handler_aliases.contains_key(AliasKey::Peer(h))
        &&& self.sole_alias(
            self.method(m).handler_aliases[AliasKey::Peer(h)],
            self.node(m).client,
            m,
            Name::Peer(h),
            h,
            handler_alias_info(),
        )
    }

    /// The client of the handler `h` sees the method `m`: the handler
    /// holds, under the key of `m`, the one alias of `m` in that client's
    /// namespace, which lets only the capture event through.
    pub open spec fn handler_sees(self, h: NodeId, m: NodeId) -> bool {
        &&& self.is_handler(h)
        &&& self.handler(h).method_aliases.contains_key(AliasKey::Peer(m))
        &&& self.sole_alias(
            self.handler(h).method_aliases[AliasKey::Peer(m)],
            self.node(h).client,
            h,
            Name::Peer(m),
            m,
            method_alias_info(),
        )
    }

    /// The pair of the method `m` and the handler `h` can be wired: both
    /// exist on different nodes, the connections of both clients are up,
    /// and nothing is mounted where the two aliases are to go.
    pub open spec fn wirable(self, m: NodeId, h: NodeId) -> bool {
        &&& self.is_method(m)
        &&& self.is_handler(h)
        &&& m != h
        &&& self.alias_outcome(self.node(m).client, m, Name::Peer(h), h).is_ok()
        &&& self.alias_outcome(self.node(h).client, h, Name::Peer(m), m).is_ok()
    }

    /// Wiring a pair that can be wired shows each of the two to the client
    /// of the other, through exactly one alias each way; the alias of the
    /// method starts disabled.
    pub proof fn lemma_wire_shows(self, m: NodeId, h: NodeId)
        requires
            self.wirable(m, h),
            self.wire(m, h).0.fits(),
        ensures
            self.wire(m, h).0.method_sees(m, h),
            self.wire(m, h).0.handler_sees(h, m),
            !self.wire(m, h).0.alias(
                self.wire(m, h).0.handler(h).method_aliases[AliasKey::Peer(m)],
            ).enabled,
    {
        let client = self.node(m).client;
        let shown = self.handle_new_handler(m, h).0;
        let a1 = self.nodes.len() as NodeId;
        assert(shown.is_method(m));
        assert(shown.method(m).handler_aliases.contains_key(AliasKey::Peer(h)));
        assert(shown.method(m).handler_aliases[AliasKey::Peer(h)] == a1);
        assert(shown.is_alias(a1));
        assert(shown.method_sees(m, h));
        let after = shown.make_alias(m, h);
        assert(shown.is_handler(h));
        assert(shown.mount_free(shown.node(h).client, h, Name::Peer(m))) by {
            assert forall|i: NodeId|
                #![trigger shown.nodes[i as int]]
                shown.is_alias(i) && shown.node(i).client == shown.node(h).client implies !(
                shown.alias(i).parent == h && shown.alias(i).name == Name::Peer(m)) by {
                if i < self.nodes.len() {
                    let _ = self.nodes[i as int];
                }
            }
        }
        assert(after.method_sees(m, h));
        assert(after.handler_sees(h, m));
    }

    /// Wiring a pair takes nothing away: no slot, no client, no method and
    /// no handler.
    pub proof fn lemma_wire_grows(self, m: NodeId, h: NodeId)
        ensures
            self.wire(m, h).0.nodes.len() >= self.nodes.len(),
            self.wire(m, h).0.clients == self.clients,
            self.keeps_aspects(self.wire(m, h).0),
    {
    }

    /// Wiring one pair leaves what another pair sees as it is.
    pub proof fn lemma_wire_keeps_shown(self, m: NodeId, h: NodeId, m2: NodeId, h2: NodeId)
        requires
            m2 != m || h2 != h,
            self.wire(m, h).0.fits(),
        ensures
            self.method_sees(m2, h2) ==> self.wire(m, h).0.method_sees(m2, h2),
            self.handler_sees(h2, m2) ==> self.wire(m, h).0.handler_sees(h2, m2),
    {
        let shown = self.handle_new_handler(m, h).0;
        let after = shown.make_alias(m, h);
        if self.method_sees(m2, h2) {
            let a = self.method(m2).handler_aliases[AliasKey::Peer(h2)];
            assert(shown.method_sees(m2, h2)) by {
                assert(shown.method(m2).handler_aliases[AliasKey::Peer(h2)] == a);
                assert forall|other: NodeId|
                    #![trigger shown.nodes[other as int]]
                    shown.is_alias(other) && shown.node(other).client == shown.node(m2).client
                        && shown.alias(other).parent == m2 && shown.alias(other).name == Name::Peer(
                        h2,
                    ) implies other == a by {
                    if other < self.nodes.len() {
                        let _ = self.nodes[other as int];
                    }
                }
            }
            assert(after.method_sees(m2, h2)) by {
                assert(after.method(m2).handler_aliases[AliasKey::Peer(h2)] == a);
                assert forall|other: NodeId|
                    #![trigger after.nodes[other as int]]
                    after.is_alias(other) && after.node(other).client == after.node(m2).client
                        && after.alias(other).parent == m2 && after.alias(other).name == Name::Peer(
                        h2,
                    ) implies other == a by {
                    if other < shown.nodes.len() {
                        let _ = shown.nodes[other as int];
                    }
                }
            }
        }
        if self.handler_sees(h2, m2) {
            let a = self.handler(h2).method_aliases[AliasKey::Peer(m2)];
            assert(shown.handler_sees(h2, m2)) by {
                assert(shown.handler(h2).method_aliases[AliasKey::Peer(m2)] == a);
                assert forall|other: NodeId|
                    #![trigger shown.nodes[other as int]]
                    shown.is_alias(other) && shown.node(other).client == shown.node(h2).client
                        && shown.alias(other).parent == h2 && shown.alias(other).name == Name::Peer(
                        m2,
                    ) implies other == a by {
                    if other < self.nodes.len() {
                        let _ = self.nodes[other as int];
                    }
                }
            }
            assert(after.handler_sees(h2, m2)) by {
                assert(after.handler(h2).method_aliases[AliasKey::Peer(m2)] == a);
                assert forall|other: NodeId|
                    #![trigger after.nodes[other as int]]
                    after.is_alias(other) && after.node(other).client == after.node(h2).client
                        && after.alias(other).parent == h2 && after.alias(other).name == Name::Peer(
                        m2,
                    ) implies other == a by {
                    if other < shown.nodes.len() {
                        let _ = shown.nodes[other as int];
                    }
                }
            }
        }
    }

    /// Wiring one pair leaves another pair, and that pair turned round, as
    /// ready to be wired as it was.
    pub proof fn lemma_wire_keeps_wirable(self, m: NodeId, h: NodeId, m2: NodeId, h2: NodeId)
        requires
            m2 != m || h2 != h,
            m2 != h || h2 != m,
            self.wirable(m2, h2),
            self.wire(m, h).0.fits(),
        ensures
            self.wire(m, h).0.wirable(m2, h2),
    {
        let shown = self.handle_new_handler(m, h).0;
        let after = shown.make_alias(m, h);
        assert(shown.wirable(m2, h2)) by {
            assert forall|i: NodeId|
                #![trigger shown.nodes[i as int]]
                shown.is_alias(i) && shown.node(i).client == shown.node(m2).client implies !(
                shown.alias(i).parent == m2 && shown.alias(i).name == Name::Peer(h2)) by {
                if i < self.nodes.len() {
                    let _ = self.nodes[i as int];
                }
            }
            assert forall|i: NodeId|
                #![trigger shown.nodes[i as int]]
                shown.is_alias(i) && shown.node(i).client == shown.node(h2).client implies !(
                shown.alias(i).parent == h2 && shown.alias(i).name == Name::Peer(m2)) by {
                if i < self.nodes.len() {
                    let _ = self.nodes[i as int];
                }
            }
        }
        assert(after.wirable(m2, h2)) by {
            assert forall|i: NodeId|
                #![trigger after.nodes[i as int]]
                after.is_alias(i) && after.node(i).client == after.node(m2).client implies !(
                after.alias(i).parent == m2 && after.alias(i).name == Name::Peer(h2)) by {
                if i < shown.nodes.len() {
                    let _ = shown.nodes[i as int];
                }
            }
            assert forall|i: NodeId|
                #![trigger after.nodes[i as int]]
                after.is_alias(i) && after.node(i).client == after.node(h2).client implies !(
                after.alias(i).parent == h2 && after.alias(i).name == Name::Peer(m2)) by {
                if i < shown.nodes.len() {
                    let _ = shown.nodes[i as int];
                }
            }
        }
    }

    /// Wiring a method with handlers takes nothing away.
    pub proof fn lemma_wire_handlers_grows(self, m: NodeId, hs: Seq<NodeId>)
        ensures
            self.wire_handlers(m, hs).0.nodes.len() >= self.nodes.len(),
            self.wire_handlers(m, hs).0.clients == self.clients,
            self.keeps_aspects(self.wire_handlers(m, hs).0),
        decreases hs.len(),
    {
        if hs.len() > 0 {
            self.lemma_wire_handlers_grows(m, hs.drop_last());
            let before = self.wire_handlers(m, hs.drop_last()).0;
            before.lemma_wire_grows(m, hs.last());
        }
    }

    /// Wiring a handler with methods takes nothing away.
    pub proof fn lemma_wire_methods_grows(self, ms: Seq<NodeId>, h: NodeId)
        ensures
            self.wire_methods(ms, h).0.nodes.len() >= self.nodes.len(),
            self.wire_methods(ms, h).0.clients == self.clients,
            self.keeps_aspects(self.wire_methods(ms, h).0),
        decreases ms.len(),
    {
        if ms.len() > 0 {
            self.lemma_wire_methods_grows(ms.drop_last(), h);
            let before = self.wire_methods(ms.drop_last(), h).0;
            before.lemma_wire_grows(ms.last(), h);
        }
    }

    /// A pair that can be wired still can after the method was wired with
    /// other handlers.
    proof fn lemma_wire_handlers_keeps_wirable(self, m: NodeId, hs: Seq<NodeId>, h: NodeId)
        requires
            !hs.contains(h),
            self.wirable(m, h),
            self.wire_handlers(m, hs).0.fits(),
        ensures
            self.wire_handlers(m, hs).0.wirable(m, h),
        decreases hs.len(),
    {
        if hs.len() > 0 {
            let rest = hs.drop_last();
            let before = self.wire_handlers(m, rest).0;
            before.lemma_wire_grows(m, hs.last());
            assert(!rest.contains(h)) by {
                if rest.contains(h) {
                    let k = choose|k: int| 0 <= k < rest.len() && rest[k] == h;
                    assert(hs[k] == h);
                }
            }
            assert(hs[hs.len() - 1] != h);
            self.lemma_wire_handlers_keeps_wirable(m, rest, h);
            before.lemma_wire_keeps_wirable(m, hs.last(), m, h);
        }
    }

    /// A pair that can be wired still can after the handler was wired with
    /// other methods.
    proof fn lemma_wire_methods_keeps_wirable(self, ms: Seq<NodeId>, h: NodeId, m: NodeId)
        requires
            !ms.contains(m),
            self.wirable(m, h),
            self.wire_methods(ms, h).0.fits(),
        ensures
            self.wire_methods(ms, h).0.wirable(m, h),
        decreases ms.len(),
    {
        if ms.len() > 0 {
            let rest = ms.drop_last();
            let before = self.wire_methods(rest, h).0;
            before.lemma_wire_grows(ms.last(), h);
            assert(!rest.contains(m)) by {
                if rest.contains(m) {
                    let k = choose|k: int| 0 <= k < rest.len() && rest[k] == m;
                    assert(ms[k] == m);
                }
            }
            assert(ms[ms.len() - 1] != m);
            self.lemma_wire_methods_keeps_wirable(rest, h, m);
            before.lemma_wire_keeps_wirable(ms.last(), h, m, h);
        }
    }

    /// After a method was wired with a list of distinct handlers, it is
    /// wired both ways with each of them that could be wired.
    pub proof fn lemma_wire_handlers_shows(self, m: NodeId, hs: Seq<NodeId>, h: NodeId)
        requires
            hs.no_duplicates(),
            hs.contains(h),
            self.wirable(m, h),
            self.wire_handlers(m, hs).0.fits(),
        ensures
            self.wire_handlers(m, hs).0.method_sees(m, h),
            self.wire_handlers(m, hs).0.handler_sees(h, m),
        decreases hs.len(),
    {
        let rest = hs.drop_last();
        let before = self.wire_handlers(m, rest).0;
        before.lemma_wire_grows(m, hs.last());
        if hs.last() == h {
            assert(!rest.contains(h)) by {
                if rest.contains(h) {
                    let k = choose|k: int| 0 <= k < rest.len() && rest[k] == h;
                    assert(hs[k] == hs[hs.len() - 1]);
                }
            }
            self.lemma_wire_handlers_keeps_wirable(m, rest, h);
            before.lemma_wire_shows(m, h);
        } else {
            let k = choose|k: int| 0 <= k < hs.len() && hs[k] == h;
            assert(rest[k] == h);
            assert(rest.contains(h));
            self.lemma_wire_handlers_shows(m, rest, h);
            before.lemma_wire_keeps_shown(m, hs.last(), m, h);
        }
    }

    /// After a handler was wired with a list of distinct methods, it is
    /// wired both ways with each of them that could be wired.
    pub proof fn lemma_wire_methods_shows(self, ms: Seq<NodeId>, h: NodeId, m: NodeId)
        requires
            ms.no_duplicates(),
            ms.contains(m),
            self.wirable(m, h),
            self.wire_methods(ms, h).0.fits(),
        ensures
            self.wire_methods(ms, h).0.method_sees(m, h),
            self.wire_methods(ms, h).0.handler_sees(h, m),
        decreases ms.len(),
    {
        let rest = ms.drop_last();
        let before = self.wire_methods(rest, h).0;
        before.lemma_wire_grows(ms.last(), h);
        if ms.last() == m {
            assert(!rest.contains(m)) by {
                if rest.contains(m) {
                    let k = choose|k: int| 0 <= k < rest.len() && rest[k] == m;
                    assert(ms[k] == ms[ms.len() - 1]);
                }
            }
            self.lemma_wire_methods_keeps_wirable(rest, h, m);
            before.lemma_wire_shows(m, h);
        } else {
            let k = choose|k: int| 0 <= k < ms.len() && ms[k] == m;
            assert(rest[k] == m);
            assert(rest.contains(m));
            self.lemma_wire_methods_shows(rest, h, m);
            before.lemma_wire_keeps_shown(ms.last(), h, m, h);
        }
    }

    /// The handler `h` exists, on another node than `node`; the connections
    /// of both clients are up; and nothing is mounted where the aliases of a
    /// method at `node` and of `h` are to go.
    pub open spec fn ready_for_method(self, node: NodeId, h: NodeId) -> bool {
        &&& self.is_handler(h)
        &&& node != h
        &&& self.alias_outcome(self.node(node).client, node, Name::Peer(h), h).is_ok()
        &&& self.alias_outcome(self.node(h).client, h, Name::Peer(node), node).is_ok()
    }

    /// The method `m` exists, on another node than `node`; the connections
    /// of both clients are up; and nothing is mounted where the aliases of a
    /// handler at `node` and of `m` are to go.
    pub open spec fn ready_for_handler(self, node: NodeId, m: NodeId) -> bool {
        &&& self.is_method(m)
        &&& node != m
        &&& self.alias_outcome(self.node(m).client, m, Name::Peer(node), node).is_ok()
        &&& self.alias_outcome(self.node(node).client, node, Name::Peer(m), m).is_ok()
    }

    /// A new input method is wired with every handler that exists when it
    /// is made: once the method is added to `node`, its client sees each such
    /// handler through exactly one alias, and the client of each such
    /// handler sees the method through exactly one alias. This holds of
    /// every handler that is ready to be wired.
    pub proof fn lemma_add_method_wires(self, node: NodeId, data: D, datamap: Datamap, h: NodeId)
        requires
            self.inv(),
            self.can_add_method(node).is_ok(),
            self.ready_for_method(node, h),
            self.add_method(node, data, datamap).0.fits(),
        ensures
            self.add_method(node, data, datamap).0.method_sees(node, h),
            self.add_method(node, data, datamap).0.handler_sees(h, node),
    {
        let start = self.with_new_method(node, data, datamap);
        let hs = self.live(self.input_handlers);
        lemma_filter_members(self.input_handlers, |id: NodeId| self.alive(id));
        assert(self.input_handlers.contains(h));
        assert(hs.contains(h));
        assert(start.wirable(node, h)) by {
            assert forall|i: NodeId|
                #![trigger start.nodes[i as int]]
                start.is_alias(i) && start.node(i).client == start.node(node).client implies !(
                start.alias(i).parent == node && start.alias(i).name == Name::Peer(h)) by {
                let _ = self.nodes[i as int];
            }
            assert forall|i: NodeId|
                #![trigger start.nodes[i as int]]
                start.is_alias(i) && start.node(i).client == start.node(h).client implies !(
                start.alias(i).parent == h && start.alias(i).name == Name::Peer(node)) by {
                let _ = self.nodes[i as int];
            }
        }
        start.lemma_wire_handlers_shows(node, hs, h);
    }

    /// A new input handler is wired with every method that exists when it
    /// is made: once the handler is added to `node`, the client of each such
    /// method sees it through exactly one alias, and its client sees each
    /// such method through exactly one alias. This holds of every method
    /// that is ready to be wired.
    pub proof fn lemma_add_handler_wires(self, node: NodeId, field: NodeId, m: NodeId)
        requires
            self.inv(),
            self.can_add_handler(node, field).is_ok(),
            self.ready_for_handler(node, m),
            self.add_handler(node, field).0.fits(),
        ensures
            self.add_handler(node, field).0.method_sees(m, node),
            self.add_handler(node, field).0.handler_sees(node, m),
    {
        let start = self.with_new_handler(node, field);
        let ms = self.live(self.input_methods);
        lemma_filter_members(self.input_methods, |id: NodeId| self.alive(id));
        assert(self.input_methods.contains(m));
        assert(ms.contains(m));
        assert(start.wirable(m, node)) by {
            assert forall|i: NodeId|
                #![trigger start.nodes[i as int]]
                start.is_alias(i) && start.node(i).client == start.node(m).client implies !(
                start.alias(i).parent == m && start.alias(i).name == Name::Peer(node)) by {
                let _ = self.nodes[i as int];
            }
            assert forall|i: NodeId|
                #![trigger start.nodes[i as int]]
                start.is_alias(i) && start.node(i).client == start.node(node).client implies !(
                start.alias(i).parent == node && start.alias(i).name == Name::Peer(m)) by {
                let _ = self.nodes[i as int];
            }
        }
        start.lemma_wire_methods_shows(ms, node, m);
    }

    /// What the method `m` holds under `key` in `after` it held in `self`
    /// already; what it held in `self` and no longer holds in `after` is no
    /// alias node any more; and no alias node has come into being.
    pub open spec fn released_towards(self, after: SceneView<D>, m: NodeId, key: AliasKey) -> bool {
        let held = self.method(m).handler_aliases;
        let left = after.method(m).handler_aliases;
        &&& after.is_method(m)
        &&& left.contains_key(key) ==> held.contains_key(key) && left[key] == held[key]
        &&& held.contains_key(key) && !left.contains_key(key) ==> !after.is_alias(held[key])
        &&& forall|a: NodeId|
            #![trigger after.nodes[a as int]]
            !self.is_alias(a) ==> !after.is_alias(a)
        &&& after.nodes.len() == self.nodes.len()
        &&& forall|x: NodeId|
            #![trigger after.nodes[x as int]]
            after.is_handler(x) == self.is_handler(x) && (self.is_handler(x) ==> after.handler(x)
                == self.handler(x))
    }

    /// Taking a handler from the sight of one method only lets go.
    proof fn lemma_handle_drop_handler_releases(
        self,
        m2: NodeId,
        h: NodeId,
        m: NodeId,
        key: AliasKey,
    )
        requires
            self.is_method(m),
        ensures
            self.released_towards(self.handle_drop_handler(m2, h).0, m, key),
    {
        let first = self.release_from_method(m2, AliasKey::Peer(h));
        assert(self.released_towards(first, m, key));
        let second = first.release_from_method(m2, AliasKey::PeerField(h));
        assert(first.released_towards(second, m, key));
    }

    /// Letting go twice is letting go.
    proof fn lemma_released_twice(
        self,
        mid: SceneView<D>,
        after: SceneView<D>,
        m: NodeId,
        key: AliasKey,
    )
        requires
            self.is_method(m),
            self.released_towards(mid, m, key),
            mid.released_towards(after, m, key),
        ensures
            self.released_towards(after, m, key),
    {
        let held = self.method(m).handler_aliases;
        if held.contains_key(key) && !after.method(m).handler_aliases.contains_key(key) {
            let a = held[key];
            if !mid.method(m).handler_aliases.contains_key(key) {
                assert(!mid.is_alias(a));
                let _ = after.nodes[a as int];
            }
        }
        assert forall|a: NodeId| #![trigger after.nodes[a as int]] !self.is_alias(a) implies
            !after.is_alias(a) by {
            let _ = mid.nodes[a as int];
        }
        assert forall|x: NodeId| #![trigger after.nodes[x as int]]
            after.is_handler(x) == self.is_handler(x) && (self.is_handler(x) ==> after.handler(x)
                == self.handler(x)) by {
            let _ = mid.nodes[x as int];
        }
    }

    /// Taking a handler from the sight of methods only lets go.
    proof fn lemma_drop_handler_releases(self, ms: Seq<NodeId>, h: NodeId, m: NodeId, key: AliasKey)
        requires
            self.is_method(m),
        ensures
            self.released_towards(self.drop_handler(ms, h).0, m, key),
        decreases ms.len(),
    {
        if ms.len() > 0 {
            let before = self.drop_handler(ms.drop_last(), h).0;
            self.lemma_drop_handler_releases(ms.drop_last(), h, m, key);
            before.lemma_handle_drop_handler_releases(ms.last(), h, m, key);
            self.lemma_released_twice(before, before.handle_drop_handler(ms.last(), h).0, m, key);
        }
    }

    /// Once a handler was taken from the sight of a list of methods, none
    /// of them holds an alias of it or of its field.
    proof fn lemma_drop_handler_forgets(self, ms: Seq<NodeId>, h: NodeId, m: NodeId)
        requires
            self.is_method(m),
            ms.contains(m),
        ensures
            !self.drop_handler(ms, h).0.method(m).handler_aliases.contains_key(AliasKey::Peer(h)),
            !self.drop_handler(ms, h).0.method(m).handler_aliases.contains_key(
                AliasKey::PeerField(h),
            ),
        decreases ms.len(),
    {
        let rest = ms.drop_last();
        let before = self.drop_handler(rest, h).0;
        self.lemma_drop_handler_releases(rest, h, m, AliasKey::Peer(h));
        before.lemma_handle_drop_handler_releases(ms.last(), h, m, AliasKey::Peer(h));
        before.lemma_handle_drop_handler_releases(ms.last(), h, m, AliasKey::PeerField(h));
        if ms.last() != m {
            let k = choose|k: int| 0 <= k < ms.len() && ms[k] == m;
            assert(rest[k] == m);
            assert(rest.contains(m));
            self.lemma_drop_handler_forgets(rest, h, m);
        }
    }

    /// Destroying the node of a handler unwires it from every method: the
    /// handler is gone; no method holds an alias of it or of its field; the
    /// alias nodes through which the two saw each other are gone; and the
    /// method is no longer captured by it.
    pub proof fn lemma_destroy_unwires(self, h: NodeId, m: NodeId)
        requires
            self.inv(),
            self.fits(),
            self.is_handler(h),
            self.is_method(m),
            m != h,
        ensures
            !self.destroy(h).0.alive(h),
            self.destroy(h).0.is_method(m),
            !self.destroy(h).0.method(m).handler_aliases.contains_key(AliasKey::Peer(h)),
            !self.destroy(h).0.method(m).handler_aliases.contains_key(AliasKey::PeerField(h)),
            self.method(m).handler_aliases.contains_key(AliasKey::Peer(h)) ==> !self.destroy(
                h,
            ).0.is_alias(self.method(m).handler_aliases[AliasKey::Peer(h)]),
            self.method(m).handler_aliases.contains_key(AliasKey::PeerField(h)) ==> !self.destroy(
                h,
            ).0.is_alias(self.method(m).handler_aliases[AliasKey::PeerField(h)]),
            self.handler(h).method_aliases.contains_key(AliasKey::Peer(m)) ==> !self.destroy(
                h,
            ).0.is_alias(self.handler(h).method_aliases[AliasKey::Peer(m)]),
            !self.destroy(h).0.captured_by(m, h),
    {
        let ms = self.live(self.input_methods);
        lemma_filter_members(self.input_methods, |id: NodeId| self.alive(id));
        assert(self.input_methods.contains(m));
        assert(ms.contains(m));
        let torn = self.drop_handler(ms, h).0;
        self.lemma_drop_handler_releases(ms, h, m, AliasKey::Peer(h));
        self.lemma_drop_handler_releases(ms, h, m, AliasKey::PeerField(h));
        self.lemma_drop_handler_forgets(ms, h, m);
        let after = self.destroy(h).0;
        let gone = torn.without_node(h).without_held(torn.held_by(h));
        assert(after.nodes == gone.nodes);
        assert(torn.is_handler(h) && torn.handler(h) == self.handler(h)) by {
            let _ = torn.nodes[h as int];
        }
        assert(gone.nodes[m as int] == torn.nodes[m as int]);
        if self.method(m).handler_aliases.contains_key(AliasKey::Peer(h)) {
            let a = self.method(m).handler_aliases[AliasKey::Peer(h)];
            assert(!torn.is_alias(a));
            let _ = gone.nodes[a as int];
        }
        if self.method(m).handler_aliases.contains_key(AliasKey::PeerField(h)) {
            let a = self.method(m).handler_aliases[AliasKey::PeerField(h)];
            assert(!torn.is_alias(a));
            let _ = gone.nodes[a as int];
        }
        if self.handler(h).method_aliases.contains_key(AliasKey::Peer(m)) {
            let a = self.handler(h).method_aliases[AliasKey::Peer(m)];
            assert(held_in(torn.handler(h).method_aliases).contains(a));
            assert(torn.held_by(h).contains(a));
            let _ = gone.nodes[a as int];
        }
    }

    /// The node `id` holds the alias node `alias`, through its input method
    /// or through its input handler.
    pub open spec fn holds(self, id: NodeId, alias: NodeId) -> bool {
        ||| self.is_method(id) && exists|key: AliasKey| #[trigger]
            self.method(id).handler_aliases.contains_key(key) && self.method(
                id,
            ).handler_aliases[key] == alias
        ||| self.is_handler(id) && exists|key: AliasKey| #[trigger]
            self.handler(id).method_aliases.contains_key(key) && self.handler(
                id,
            ).method_aliases[key] == alias
    }

    /// An alias lives no longer than what holds it: once a node is
    /// destroyed, the alias nodes that its input method and its input
    /// handler held are gone.
    pub proof fn lemma_destroy_takes_held(self, id: NodeId, alias: NodeId)
        requires
            self.fits(),
            self.holds(id, alias),
        ensures
            !self.destroy(id).0.is_alias(alias),
    {
        let ms = self.live(self.input_methods);
        let torn = self.destroy_torn(id);
        let gone = torn.without_node(id).without_held(torn.held_by(id));
        assert(self.destroy(id).0.nodes == gone.nodes);
        if self.is_handler(id) {
            self.lemma_drop_handler_kept_handler(ms, id, id);
        }
        if self.is_method(id) && exists|key: AliasKey| #[trigger]
            self.method(id).handler_aliases.contains_key(key) && self.method(
                id,
            ).handler_aliases[key] == alias {
            let key = choose|key: AliasKey| #[trigger]
                self.method(id).handler_aliases.contains_key(key) && self.method(
                    id,
                ).handler_aliases[key] == alias;
            if self.is_handler(id) {
                self.lemma_drop_handler_releases(ms, id, id, key);
            }
            if torn.method(id).handler_aliases.contains_key(key) {
                assert(held_in(torn.method(id).handler_aliases).contains(alias));
            }
        } else {
            let key = choose|key: AliasKey| #[trigger]
                self.handler(id).method_aliases.contains_key(key) && self.handler(
                    id,
                ).method_aliases[key] == alias;
            assert(held_in(torn.handler(id).method_aliases).contains(alias));
        }
        let _ = gone.nodes[alias as int];
    }

    /// Taking a handler from the sight of methods leaves every handler as
    /// it is.
    proof fn lemma_drop_handler_kept_handler(self, ms: Seq<NodeId>, h: NodeId, x: NodeId)
        requires
            self.is_handler(x),
        ensures
            self.drop_handler(ms, h).0.is_handler(x),
            self.drop_handler(ms, h).0.handler(x) == self.handler(x),
        decreases ms.len(),
    {
        if ms.len() > 0 {
            self.lemma_drop_handler_kept_handler(ms.drop_last(), h, x);
            let before = self.drop_handler(ms.drop_last(), h).0;
            let after = before.handle_drop_handler(ms.last(), h).0;
            let first = before.release_from_method(ms.last(), AliasKey::Peer(h));
            assert(first.is_handler(x) && first.handler(x) == before.handler(x));
            assert(after.is_handler(x) && after.handler(x) == first.handler(x));
        }
    }

    /// An alias lives no longer than its target, as far as anyone can
    /// tell: once a node is destroyed, no alias of it passes anything on,
    /// and none is handed out at a lookup.
    pub proof fn lemma_destroyed_target_is_out_of_reach(
        self,
        target: NodeId,
        alias: NodeId,
        name: Seq<char>,
    )
        requires
            self.fits(),
            self.alive(target),
            self.is_alias(alias),
            self.alias(alias).target == target,
        ensures
            !self.destroy(target).0.usable(alias),
            self.destroy(target).0.signal_target(alias, name).is_none(),
            self.destroy(target).0.method_target(alias, name).is_none(),
    {
        let ms = self.live(self.input_methods);
        let torn = self.destroy_torn(target);
        let gone = torn.without_node(target).without_held(torn.held_by(target));
        assert(self.destroy(target).0.nodes == gone.nodes);
        if self.is_handler(target) {
            self.lemma_drop_handler_frame(ms, target);
            self.lemma_drop_handler_keeps_aliases(ms, target, alias);
        }
        let _ = gone.nodes[alias as int];
        let _ = gone.nodes[target as int];
    }

    /// Taking a handler from the sight of methods changes no alias; it only
    /// takes aliases away.
    proof fn lemma_drop_handler_keeps_aliases(self, ms: Seq<NodeId>, h: NodeId, alias: NodeId)
        requires
            self.is_alias(alias),
        ensures
            self.drop_handler(ms, h).0.nodes.len() == self.nodes.len(),
            self.drop_handler(ms, h).0.is_alias(alias) ==> self.drop_handler(ms, h).0.alias(alias)
                == self.alias(alias),
        decreases ms.len(),
    {
        if ms.len() > 0 {
            self.lemma_drop_handler_keeps_aliases(ms.drop_last(), h, alias);
            let before = self.drop_handler(ms.drop_last(), h).0;
            let first = before.release_from_method(ms.last(), AliasKey::Peer(h));
            let after = before.handle_drop_handler(ms.last(), h).0;
            assert(first.nodes.len() == before.nodes.len());
            assert(first.is_alias(alias) ==> before.is_alias(alias) && first.alias(alias)
                == before.alias(alias));
            assert(after.nodes.len() == first.nodes.len());
            assert(after.is_alias(alias) ==> first.is_alias(alias) && after.alias(alias)
                == first.alias(alias));
        }
    }
}

} // verus!
