//! Input methods: sources of input, each anchored at one spatial.

use crate::alias::{Alias, Name};
use crate::input::handler::{HandlerView, InputHandler};
use crate::input::{
    biased, field_alias_info, halve, handler_alias_info, make_field_alias_info,
    make_handler_alias_info, make_method_alias_info, method_alias_info, Distance, Notice,
};
use crate::node_collections::{AliasKey, LifeLinkedNodeMap};
use crate::registry::{
    lemma_filter_agree, lemma_registered_contains, registered, Lifetimes, NodeId, Registry,
};
use crate::scene::{NodeError, NodeKind, Scene, SceneView};
use stardust_xr::values::Datamap;
use vstd::prelude::*;

verus! {

/// The auxiliary key-value data that travels with an input method. Its
/// contents are not read here.
#[verifier::external_type_specification]
#[verifier::external_body]
pub struct ExDatamap(Datamap);

/// One source of input, with payload of type `D`.
pub struct InputMethod<D> {
    /// The node that the method is attached to.
    pub node: NodeId,
    pub enabled: bool,
    /// The node whose spatial anchors the method. Set once, at creation.
    pub spatial: NodeId,
    pub data: D,
    pub datamap: Datamap,
    /// The handlers that have claimed the method. May hold handlers that are
    /// gone.
    pub captures: Registry,
    /// The aliases of handlers in the namespace of the method's client.
    pub handler_aliases: LifeLinkedNodeMap,
    /// The order in which handlers are to receive input, if the client set
    /// one. May name handlers that are gone.
    pub handler_order: Option<Vec<NodeId>>,
}

/// An input method as plain values: its registry of captures as the
/// sequence of its members, its aliases as a map, its order as a sequence.
pub struct MethodView<D> {
    pub node: NodeId,
    pub enabled: bool,
    pub spatial: NodeId,
    pub data: D,
    pub datamap: Datamap,
    pub captures: Seq<NodeId>,
    pub handler_aliases: Map<AliasKey, NodeId>,
    pub handler_order: Option<Seq<NodeId>>,
}

impl<D> View for InputMethod<D> {
    type V = MethodView<D>;

    open spec fn view(&self) -> MethodView<D> {
        MethodView {
            node: self.node,
            enabled: self.enabled,
            spatial: self.spatial,
            data: self.data,
            datamap: self.datamap,
            captures: self.captures.entries@,
            handler_aliases: self.handler_aliases@,
            handler_order: match self.handler_order {
                Some(order) => Some(order@),
                None => None,
            },
        }
    }
}

impl<D> InputMethod<D> {
    /// The collections of the method are sound.
    pub open spec fn wf(&self) -> bool {
        self.captures.wf() && self.handler_aliases.wf()
    }
}

impl<D> SceneView<D> {
    /// The scene in which the method `m` holds the alias `alias` under `key`.
    pub open spec fn hold_for_method(self, m: NodeId, key: AliasKey, alias: NodeId) -> SceneView<
        D,
    > {
        if self.is_method(m) {
            self.with_method(
                m,
                MethodView {
                    handler_aliases: self.method(m).handler_aliases.insert(key, alias),
                    ..self.method(m)
                },
            )
        } else {
            self
        }
    }

    /// The scene in which the handler `h` holds the alias `alias` under `key`.
    pub open spec fn hold_for_handler(self, h: NodeId, key: AliasKey, alias: NodeId) -> SceneView<
        D,
    > {
        if self.is_handler(h) {
            self.with_handler(
                h,
                HandlerView {
                    method_aliases: self.handler(h).method_aliases.insert(key, alias),
                    ..self.handler(h)
                },
            )
        } else {
            self
        }
    }

    /// The scene without the alias node `alias`; unchanged where `alias` is
    /// no alias.
    pub open spec fn drop_alias(self, alias: NodeId) -> SceneView<D> {
        if self.is_alias(alias) {
            self.without_node(alias)
        } else {
            self
        }
    }

    /// The scene in which the method `m` has let go of what it held under
    /// `key`: the entry is gone, and with it the alias node.
    pub open spec fn release_from_method(self, m: NodeId, key: AliasKey) -> SceneView<D> {
        if self.is_method(m) && self.method(m).handler_aliases.contains_key(key) {
            self.with_method(
                m,
                MethodView {
                    handler_aliases: self.method(m).handler_aliases.remove(key),
                    ..self.method(m)
                },
            ).drop_alias(self.method(m).handler_aliases[key])
        } else {
            self
        }
    }

    /// Shows the handler `h` to the client of the method `m`.
    ///
    /// An alias of `h` that lets the handler's transform be read is mounted
    /// beneath `m` under the name of `h`, and `m` holds it under the key of
    /// `h`. If the node of the handler's field exists, an alias of it is
    /// mounted beneath the first alias, and `m` holds it under the field key
    /// of `h`. The notice that `h` can be reached is owed once all of this is
    /// done. Where an alias cannot be made, the step ends there: what was
    /// done before stays, and no notice is owed.
    pub open spec fn handle_new_handler(self, m: NodeId, h: NodeId) -> (
        SceneView<D>,
        Option<Notice>,
    ) {
        if !self.is_method(m) || !self.is_handler(h) {
            (self, None)
        } else {
            let client = self.node(m).client;
            match self.alias_outcome(client, m, Name::Peer(h), h) {
                Err(_) => (self, None),
                Ok(handler_alias) => {
                    let shown = self.create_alias(
                        client,
                        m,
                        Name::Peer(h),
                        h,
                        handler_alias_info(),
                    ).hold_for_method(m, AliasKey::Peer(h), handler_alias);
                    let field = self.handler(h).field;
                    let notice = Some(Notice::HandlerCreated { method: m, handler: h });
                    if !self.alive(field) {
                        (shown, notice)
                    } else {
                        match shown.alias_outcome(client, handler_alias, Name::Field, field) {
                            Err(_) => (shown, None),
                            Ok(field_alias) => (
                                shown.create_alias(
                                    client,
                                    handler_alias,
                                    Name::Field,
                                    field,
                                    field_alias_info(),
                                ).hold_for_method(m, AliasKey::PeerField(h), field_alias),
                                notice,
                            ),
                        }
                    }
                },
            }
        }
    }

    /// Shows the method `m` to the client of the handler `h`.
    ///
    /// An alias of `m` that lets only the capture event through is mounted
    /// beneath `h` under the name of `m`, disabled, and `h` holds it under
    /// the key of `m`. Where the alias cannot be made, nothing changes.
    pub open spec fn make_alias(self, m: NodeId, h: NodeId) -> SceneView<D> {
        if !self.is_method(m) || !self.is_handler(h) {
            self
        } else {
            let client = self.node(h).client;
            match self.alias_outcome(client, h, Name::Peer(m), m) {
                Err(_) => self,
                Ok(method_alias) => self.create_alias(
                    client,
                    h,
                    Name::Peer(m),
                    m,
                    method_alias_info(),
                ).alias_enabled(method_alias, false).hold_for_handler(
                    h,
                    AliasKey::Peer(m),
                    method_alias,
                ),
            }
        }
    }

    /// Takes the handler `h` from the sight of the client of the method `m`:
    /// `m` lets go of the alias of `h` and of the alias of its field. The
    /// notice that `h` is gone is owed.
    pub open spec fn handle_drop_handler(self, m: NodeId, h: NodeId) -> (
        SceneView<D>,
        Option<Notice>,
    ) {
        if !self.is_method(m) {
            (self, None)
        } else {
            (
                self.release_from_method(m, AliasKey::Peer(h)).release_from_method(
                    m,
                    AliasKey::PeerField(h),
                ),
                Some(Notice::HandlerDestroyed { method: m, handler: h }),
            )
        }
    }
}

impl<D> Scene<D> {
    /// Has the method `m` hold `alias` under `key`.
    pub fn hold_for_method(&mut self, m: NodeId, key: AliasKey, alias: NodeId)
        requires
            old(self).wf(),
        ensures
            final(self).wf(),
            final(self)@ == old(self)@.hold_for_method(m, key, alias),
    {
        if m < self.nodes.len() {
            match &mut self.nodes[m] {
                Some(node) => {
                    match &mut node.kind {
                        NodeKind::Object(aspects) => {
                            match &mut aspects.input_method {
                                Some(method) => {
                                    method.handler_aliases.add(key, alias);
                                },
                                None => {},
                            }
                        },
                        NodeKind::Alias(_) => {},
                    }
                },
                None => {},
            }
        }
        assert(self@.clients =~= old(self)@.clients);
        assert(self@.nodes =~= old(self)@.hold_for_method(m, key, alias).nodes);
    }

    /// Has the handler `h` hold `alias` under `key`.
    pub fn hold_for_handler(&mut self, h: NodeId, key: AliasKey, alias: NodeId)
        requires
            old(self).wf(),
        ensures
            final(self).wf(),
            final(self)@ == old(self)@.hold_for_handler(h, key, alias),
    {
        if h < self.nodes.len() {
            match &mut self.nodes[h] {
                Some(node) => {
                    match &mut node.kind {
                        NodeKind::Object(aspects) => {
                            match &mut aspects.input_handler {
                                Some(handler) => {
                                    handler.method_aliases.add(key, alias);
                                },
                                None => {},
                            }
                        },
                        NodeKind::Alias(_) => {},
                    }
                },
                None => {},
            }
        }
        assert(self@.clients =~= old(self)@.clients);
        assert(self@.nodes =~= old(self)@.hold_for_handler(h, key, alias).nodes);
    }
}

impl<D> Scene<D> {
    /// Destroys the alias node `alias`. Does nothing where `alias` is no
    /// alias.
    pub fn drop_alias(&mut self, alias: NodeId)
        requires
            old(self).wf(),
        ensures
            final(self).wf(),
            final(self)@ == old(self)@.drop_alias(alias),
    {
        self.drop_alias_node(alias);
        proof {
            old(self)@.lemma_keeps_inv(self@);
        }
    }

    /// Has the method `m` let go of what it holds under `key`.
    pub fn release_from_method(&mut self, m: NodeId, key: AliasKey)
        requires
            old(self).wf(),
        ensures
            final(self).wf(),
            final(self)@ == old(self)@.release_from_method(m, key),
    {
        let mut held: Option<NodeId> = None;
        if m < self.nodes.len() {
            match &mut self.nodes[m] {
                Some(node) => {
                    match &mut node.kind {
                        NodeKind::Object(aspects) => {
                            match &mut aspects.input_method {
                                Some(method) => {
                                    held = method.handler_aliases.remove(key);
                                },
                                None => {},
                            }
                        },
                        NodeKind::Alias(_) => {},
                    }
                },
                None => {},
            }
        }
        assert(self@.clients =~= old(self)@.clients);
        match held {
            Some(alias) => {
                assert(self@.nodes =~= old(self)@.with_method(
                    m,
                    MethodView {
                        handler_aliases: old(self)@.method(m).handler_aliases.remove(key),
                        ..old(self)@.method(m)
                    },
                ).nodes);
                self.drop_alias(alias);
            },
            None => {
                proof {
                    if old(self)@.is_method(m) {
                        let held_before = old(self)@.method(m).handler_aliases;
                        assert(held_before.remove(key) =~= held_before);
                    }
                }
                assert(self@.nodes =~= old(self)@.nodes);
            },
        }
    }
}

impl<D> InputMethod<D> {
    /// Shows the handler `handler` to the client of the method `method`, and
    /// says whether the notice that the handler can be reached is owed.
    pub fn handle_new_handler(scene: &mut Scene<D>, method: NodeId, handler: NodeId) -> (notice:
        Option<Notice>)
        requires
            old(scene).wf(),
        ensures
            final(scene).wf(),
            final(scene)@ == old(scene)@.handle_new_handler(method, handler).0,
            notice == old(scene)@.handle_new_handler(method, handler).1,
    {
        let client = match scene.node(method) {
            Some(node) => node.client,
            None => { return None; },
        };
        if scene.input_method(method).is_none() {
            return None;
        }
        let field = match scene.input_handler(handler) {
            Some(h) => h.field,
            None => { return None; },
        };
        let has_field = scene.is_alive(field);
        let handler_alias = match Alias::create(
            scene,
            client,
            method,
            Name::Peer(handler),
            handler,
            make_handler_alias_info(),
        ) {
            Ok(alias) => alias,
            Err(_) => { return None; },
        };
        scene.hold_for_method(method, AliasKey::Peer(handler), handler_alias);
        if has_field {
            let field_alias = match Alias::create(
                scene,
                client,
                handler_alias,
                Name::Field,
                field,
                make_field_alias_info(),
            ) {
                Ok(alias) => alias,
                Err(_) => { return None; },
            };
            scene.hold_for_method(method, AliasKey::PeerField(handler), field_alias);
        }
        Some(Notice::HandlerCreated { method, handler })
    }

    /// Shows the method `method` to the client of the handler `handler`,
    /// through an alias that starts disabled.
    pub fn make_alias(scene: &mut Scene<D>, method: NodeId, handler: NodeId)
        requires
            old(scene).wf(),
        ensures
            final(scene).wf(),
            final(scene)@ == old(scene)@.make_alias(method, handler),
    {
        if scene.input_method(method).is_none() {
            return ;
        }
        if scene.input_handler(handler).is_none() {
            return ;
        }
        let client = match scene.node(handler) {
            Some(node) => node.client,
            None => { return ; },
        };
        let method_alias = match Alias::create(
            scene,
            client,
            handler,
            Name::Peer(method),
            method,
            make_method_alias_info(),
        ) {
            Ok(alias) => alias,
            Err(_) => { return ; },
        };
        scene.set_alias_enabled(method_alias, false);
        scene.hold_for_handler(handler, AliasKey::Peer(method), method_alias);
    }

    /// Takes the handler `handler` from the sight of the client of the
    /// method `method`, and says whether the notice that the handler is gone
    /// is owed.
    pub fn handle_drop_handler(scene: &mut Scene<D>, method: NodeId, handler: NodeId) -> (notice:
        Option<Notice>)
        requires
            old(scene).wf(),
        ensures
            final(scene).wf(),
            final(scene)@ == old(scene)@.handle_drop_handler(method, handler).0,
            notice == old(scene)@.handle_drop_handler(method, handler).1,
    {
        if scene.input_method(method).is_none() {
            return None;
        }
        scene.release_from_method(method, AliasKey::Peer(handler));
        scene.release_from_method(method, AliasKey::PeerField(handler));
        Some(Notice::HandlerDestroyed { method, handler })
    }
}

impl<D> SceneView<D> {
    /// Those of `ids` whose node exists, in order.
    pub open spec fn live(self, ids: Seq<NodeId>) -> Seq<NodeId> {
        ids.filter(|id: NodeId| self.alive(id))
    }

    /// Wires the pair of the method `m` and the handler `h`: first the
    /// handler is shown to the client of the method, then the method to the
    /// client of the handler. Neither step depends on whether the other
    /// succeeded.
    pub open spec fn wire(self, m: NodeId, h: NodeId) -> (SceneView<D>, Option<Notice>) {
        let shown = self.handle_new_handler(m, h);
        (shown.0.make_alias(m, h), shown.1)
    }

    /// Wires the method `m` with each of the handlers `hs` in turn, and
    /// collects the notices that are owed.
    pub open spec fn wire_handlers(self, m: NodeId, hs: Seq<NodeId>) -> (SceneView<D>, Seq<Notice>)
        decreases hs.len(),
    {
        if hs.len() == 0 {
            (self, Seq::empty())
        } else {
            let before = self.wire_handlers(m, hs.drop_last());
            let after = before.0.wire(m, hs.last());
            (
                after.0,
                match after.1 {
                    Some(notice) => before.1.push(notice),
                    None => before.1,
                },
            )
        }
    }

    /// Whether an input method can be attached to `node`, and if not, why:
    /// the node must be a client's own, have a spatial, and have no input
    /// method yet.
    pub open spec fn can_add_method(self, node: NodeId) -> Result<(), NodeError> {
        if !self.is_object(node) {
            Err(NodeError::NodeNotFound)
        } else if !self.aspects(node).spatial {
            Err(NodeError::SpatialNotFound)
        } else if self.aspects(node).input_method.is_some() {
            Err(NodeError::AlreadyAttached)
        } else {
            Ok(())
        }
    }

    /// The scene with a new input method at `node`, registered and not yet
    /// wired: enabled, anchored at the spatial of `node`, captured by no
    /// handler, holding no alias, with no order of handlers set.
    pub open spec fn with_new_method(self, node: NodeId, data: D, datamap: Datamap) -> SceneView<
        D,
    > {
        SceneView {
            input_methods: registered(self.input_methods, node),
            ..self.with_method(
                node,
                MethodView {
                    node,
                    enabled: true,
                    spatial: node,
                    data,
                    datamap,
                    captures: Seq::empty(),
                    handler_aliases: Map::empty(),
                    handler_order: None,
                },
            )
        }
    }

    /// The scene after an input method was added to `node`, and the notices
    /// owed: the new method is wired with every handler that is registered
    /// and alive at that time, in the order of the registry. Where the method
    /// cannot be attached, nothing changes.
    pub open spec fn add_method(self, node: NodeId, data: D, datamap: Datamap) -> (
        SceneView<D>,
        Seq<Notice>,
    ) {
        if self.can_add_method(node).is_ok() {
            self.with_new_method(node, data, datamap).wire_handlers(
                node,
                self.live(self.input_handlers),
            )
        } else {
            (self, Seq::empty())
        }
    }
}

impl<D> Scene<D> {
    /// The registered handlers that are alive, in the order of the registry.
    pub fn live_handlers(&self) -> (r: Vec<NodeId>)
        requires
            self.wf(),
        ensures
            r@ == self@.live(self@.input_handlers),
    {
        let r = self.input_handlers.get_valid_contents(self);
        proof {
            lemma_filter_agree(
                self.input_handlers.entries@,
                |id: NodeId| self.alive(id),
                |id: NodeId| self@.alive(id),
            );
        }
        r
    }

    /// The registered methods that are alive, in the order of the registry.
    pub fn live_methods(&self) -> (r: Vec<NodeId>)
        requires
            self.wf(),
        ensures
            r@ == self@.live(self@.input_methods),
    {
        let r = self.input_methods.get_valid_contents(self);
        proof {
            lemma_filter_agree(
                self.input_methods.entries@,
                |id: NodeId| self.alive(id),
                |id: NodeId| self@.alive(id),
            );
        }
        r
    }

    /// Wires the pair of `method` and `handler`.
    pub fn wire(&mut self, method: NodeId, handler: NodeId) -> (notice: Option<Notice>)
        requires
            old(self).wf(),
        ensures
            final(self).wf(),
            final(self)@ == old(self)@.wire(method, handler).0,
            notice == old(self)@.wire(method, handler).1,
    {
        let notice = InputMethod::handle_new_handler(self, method, handler);
        InputMethod::make_alias(self, method, handler);
        notice
    }
}

impl<D> InputMethod<D> {
    /// Attaches an input method with payload `data` and auxiliary data
    /// `datamap` to `node`, registers it, and wires it with every live
    /// handler. Returns the notices owed to the client of the method, one
    /// for each handler that was shown to it in full.
    pub fn add_to(scene: &mut Scene<D>, node: NodeId, data: D, datamap: Datamap) -> (r: Result<
        Vec<Notice>,
        NodeError,
    >)
        requires
            old(scene).wf(),
        ensures
            final(scene).wf(),
            final(scene)@ == old(scene)@.add_method(node, data, datamap).0,
            match r {
                Ok(notices) => old(scene)@.can_add_method(node).is_ok() && notices@ == old(
                    scene,
                )@.add_method(node, data, datamap).1,
                Err(e) => old(scene)@.can_add_method(node) == Err::<(), NodeError>(e),
            },
            r.is_ok() ==> forall|h: NodeId|
                #![trigger final(scene)@.method_sees(node, h)]
                #![trigger final(scene)@.handler_sees(h, node)]
                old(scene)@.ready_for_method(node, h) ==> final(scene)@.method_sees(node, h)
                    && final(scene)@.handler_sees(h, node),
    {
        match scene.aspects(node) {
            None => { return Err(NodeError::NodeNotFound); },
            Some(aspects) => {
                if !aspects.spatial {
                    return Err(NodeError::SpatialNotFound);
                }
                if aspects.input_method.is_some() {
                    return Err(NodeError::AlreadyAttached);
                }
            },
        }
        let handlers = scene.live_handlers();
        let method = InputMethod {
            node,
            enabled: true,
            spatial: node,
            data,
            datamap,
            captures: Registry::new(),
            handler_aliases: LifeLinkedNodeMap::new(),
            handler_order: None,
        };
        match &mut scene.nodes[node] {
            Some(slot) => {
                match &mut slot.kind {
                    NodeKind::Object(aspects) => {
                        aspects.input_method = Some(method);
                    },
                    NodeKind::Alias(_) => {},
                }
            },
            None => {},
        }
        scene.input_methods.add(node);
        let ghost start = old(scene)@.with_new_method(node, data, datamap);
        assert(scene@.clients =~= start.clients);
        assert(scene@.nodes =~= start.nodes);
        assert(scene@ == start);
        proof {
            lemma_registered_contains(old(scene)@.input_methods, node);
            old(scene)@.lemma_registered_inv(start, node);
        }
        let mut notices: Vec<Notice> = Vec::new();
        let mut i: usize = 0;
        while i < handlers.len()
            invariant
                scene.wf(),
                i <= handlers.len(),
                scene@ == start.wire_handlers(node, handlers@.take(i as int)).0,
                notices@ == start.wire_handlers(node, handlers@.take(i as int)).1,
            decreases handlers.len() - i,
        {
            proof {
                assert(handlers@.take(i + 1).drop_last() =~= handlers@.take(i as int));
                assert(handlers@.take(i + 1).last() == handlers@[i as int]);
            }
            match scene.wire(node, handlers[i]) {
                Some(notice) => {
                    notices.push(notice);
                },
                None => {},
            }
            i += 1;
        }
        assert(handlers@.take(i as int) =~= handlers@);
        proof {
            assert forall|h: NodeId|
                #![trigger scene@.method_sees(node, h)]
                #![trigger scene@.handler_sees(h, node)]
                old(scene)@.ready_for_method(node, h) implies scene@.method_sees(node, h)
                && scene@.handler_sees(h, node) by {
                old(scene)@.lemma_add_method_wires(node, data, datamap, h);
            }
        }
        Ok(notices)
    }
}

impl<D> SceneView<D> {
    /// Those of `ids` that carry an input handler, in order.
    pub open spec fn handlers_among(self, ids: Seq<NodeId>) -> Seq<NodeId> {
        ids.filter(|id: NodeId| self.is_handler(id))
    }

    /// The handler `h` exists and has captured the method `m`. A handler
    /// that is gone has captured nothing, whatever the method remembers.
    pub open spec fn captured_by(self, m: NodeId, h: NodeId) -> bool {
        self.is_method(m) && self.is_handler(h) && self.method(m).captures.contains(h)
    }

    /// The scene with the payload of the method at `node` replaced.
    pub open spec fn set_input(self, node: NodeId, data: D) -> SceneView<D> {
        if self.is_method(node) {
            self.with_method(node, MethodView { data, ..self.method(node) })
        } else {
            self
        }
    }

    /// The scene with the method at `node` enabled or disabled.
    pub open spec fn set_enabled(self, node: NodeId, enabled: bool) -> SceneView<D> {
        if self.is_method(node) {
            self.with_method(node, MethodView { enabled, ..self.method(node) })
        } else {
            self
        }
    }

    /// The scene with the auxiliary data of the method at `node` replaced.
    pub open spec fn set_datamap(self, node: NodeId, datamap: Datamap) -> SceneView<D> {
        if self.is_method(node) {
            self.with_method(node, MethodView { datamap, ..self.method(node) })
        } else {
            self
        }
    }

    /// The scene with the order of handlers of the method at `node` set:
    /// to none, or to those of `handlers` that carry an input handler, in
    /// the order given.
    pub open spec fn set_handler_order(self, node: NodeId, handlers: Option<Seq<NodeId>>)
        -> SceneView<D> {
        if self.is_method(node) {
            self.with_method(
                node,
                MethodView {
                    handler_order: match handlers {
                        Some(order) => Some(self.handlers_among(order)),
                        None => None,
                    },
                    ..self.method(node)
                },
            )
        } else {
            self
        }
    }

    /// Whether the handler at `handler` can capture the method at `node`,
    /// and if not, which capability is missing.
    pub open spec fn can_capture(self, node: NodeId, handler: NodeId) -> Result<(), NodeError> {
        if !self.is_method(node) {
            Err(NodeError::InputMethodNotFound)
        } else if !self.is_handler(handler) {
            Err(NodeError::InputHandlerNotFound)
        } else {
            Ok(())
        }
    }

    /// The scene in which the handler at `handler` has captured the method
    /// at `node`. Capturing again changes nothing.
    pub open spec fn capture(self, node: NodeId, handler: NodeId) -> SceneView<D> {
        if self.can_capture(node, handler).is_ok() {
            self.with_method(
                node,
                MethodView {
                    captures: registered(self.method(node).captures, handler),
                    ..self.method(node)
                },
            )
        } else {
            self
        }
    }

    /// The scene in which no handler has captured the method at `node`.
    pub open spec fn release_captures(self, node: NodeId) -> SceneView<D> {
        if self.is_method(node) {
            self.with_method(node, MethodView { captures: Seq::empty(), ..self.method(node) })
        } else {
            self
        }
    }
}

impl<D> InputMethod<D> {
    /// The distance by which this method ranks the handler `to`, given the
    /// true distance from the method to the field of `to`: half the true
    /// distance if `to` has captured the method, the true distance if not.
    pub fn compare_distance(&self, to: &InputHandler, true_distance: Distance) -> (r: Distance)
        requires
            self.wf(),
        ensures
            r == biased(self@.captures.contains(to@.node), true_distance as int),
    {
        if self.captures.contains(to.node) {
            halve(true_distance)
        } else {
            true_distance
        }
    }

    /// Replaces the payload of the method at `node`. The kind of payload is
    /// meant to stay the same for as long as the method lives; this is not
    /// checked.
    pub fn set_input(scene: &mut Scene<D>, node: NodeId, input: D) -> (r: Result<(), NodeError>)
        requires
            old(scene).wf(),
        ensures
            final(scene).wf(),
            final(scene)@ == old(scene)@.set_input(node, input),
            r == (if old(scene)@.is_method(node) {
                Ok(())
            } else {
                Err(NodeError::InputMethodNotFound)
            }),
    {
        let mut r = Err(NodeError::InputMethodNotFound);
        if node < scene.nodes.len() {
            match &mut scene.nodes[node] {
                Some(slot) => {
                    match &mut slot.kind {
                        NodeKind::Object(aspects) => {
                            match &mut aspects.input_method {
                                Some(method) => {
                                    method.data = input;
                                    r = Ok(());
                                },
                                None => {},
                            }
                        },
                        NodeKind::Alias(_) => {},
                    }
                },
                None => {},
            }
        }
        assert(scene@.clients =~= old(scene)@.clients);
        assert(scene@.nodes =~= old(scene)@.set_input(node, input).nodes);
        r
    }

    /// Enables or disables the method at `node`. A disabled method takes
    /// no part in a round of input.
    pub fn set_enabled(scene: &mut Scene<D>, node: NodeId, enabled: bool) -> (r: Result<
        (),
        NodeError,
    >)
        requires
            old(scene).wf(),
        ensures
            final(scene).wf(),
            final(scene)@ == old(scene)@.set_enabled(node, enabled),
            r == (if old(scene)@.is_method(node) {
                Ok(())
            } else {
                Err(NodeError::InputMethodNotFound)
            }),
    {
        let mut r = Err(NodeError::InputMethodNotFound);
        if node < scene.nodes.len() {
            match &mut scene.nodes[node] {
                Some(slot) => {
                    match &mut slot.kind {
                        NodeKind::Object(aspects) => {
                            match &mut aspects.input_method {
                                Some(method) => {
                                    method.enabled = enabled;
                                    r = Ok(());
                                },
                                None => {},
                            }
                        },
                        NodeKind::Alias(_) => {},
                    }
                },
                None => {},
            }
        }
        assert(scene@.clients =~= old(scene)@.clients);
        assert(scene@.nodes =~= old(scene)@.set_enabled(node, enabled).nodes);
        r
    }

    /// Replaces the auxiliary data of the method at `node`.
    pub fn set_datamap(scene: &mut Scene<D>, node: NodeId, datamap: Datamap) -> (r: Result<
        (),
        NodeError,
    >)
        requires
            old(scene).wf(),
        ensures
            final(scene).wf(),
            final(scene)@ == old(scene)@.set_datamap(node, datamap),
            r == (if old(scene)@.is_method(node) {
                Ok(())
            } else {
                Err(NodeError::InputMethodNotFound)
            }),
    {
        let mut r = Err(NodeError::InputMethodNotFound);
        if node < scene.nodes.len() {
            match &mut scene.nodes[node] {
                Some(slot) => {
                    match &mut slot.kind {
                        NodeKind::Object(aspects) => {
                            match &mut aspects.input_method {
                                Some(method) => {
                                    method.datamap = datamap;
                                    r = Ok(());
                                },
                                None => {},
                            }
                        },
                        NodeKind::Alias(_) => {},
                    }
                },
                None => {},
            }
        }
        assert(scene@.clients =~= old(scene)@.clients);
        assert(scene@.nodes =~= old(scene)@.set_datamap(node, datamap).nodes);
        r
    }

    /// Sets the order in which handlers are to receive the input of the
    /// method at `node`, in place of ranking by distance, or takes that
    /// order back. Entries of `handlers` that carry no input handler are left
    /// out without complaint.
    pub fn set_handler_order(scene: &mut Scene<D>, node: NodeId, handlers: Option<Vec<NodeId>>)
        -> (r: Result<(), NodeError>)
        requires
            old(scene).wf(),
        ensures
            final(scene).wf(),
            final(scene)@ == old(scene)@.set_handler_order(
                node,
                match handlers {
                    Some(order) => Some(order@),
                    None => None,
                },
            ),
            r == (if old(scene)@.is_method(node) {
                Ok(())
            } else {
                Err(NodeError::InputMethodNotFound)
            }),
    {
        if scene.input_method(node).is_none() {
            return Err(NodeError::InputMethodNotFound);
        }
        let resolved: Option<Vec<NodeId>> = match &handlers {
            None => None,
            Some(order) => {
                let mut kept: Vec<NodeId> = Vec::new();
                let mut i: usize = 0;
                proof {
                    reveal(Seq::filter);
                    assert(order@.take(0) =~= Seq::<NodeId>::empty());
                }
                while i < order.len()
                    invariant
                        i <= order.len(),
                        kept@ == scene@.handlers_among(order@.take(i as int)),
                    decreases order.len() - i,
                {
                    proof {
                        reveal(Seq::filter);
                        assert(order@.take(i + 1).drop_last() =~= order@.take(i as int));
                        assert(order@.take(i + 1).last() == order@[i as int]);
                    }
                    if scene.input_handler(order[i]).is_some() {
                        kept.push(order[i]);
                    }
                    i += 1;
                }
                assert(order@.take(i as int) =~= order@);
                Some(kept)
            },
        };
        match &mut scene.nodes[node] {
            Some(slot) => {
                match &mut slot.kind {
                    NodeKind::Object(aspects) => {
                        match &mut aspects.input_method {
                            Some(method) => {
                                method.handler_order = resolved;
                            },
                            None => {},
                        }
                    },
                    NodeKind::Alias(_) => {},
                }
            },
            None => {},
        }
        assert(scene@.clients =~= old(scene)@.clients);
        assert(scene@.nodes =~= old(scene)@.set_handler_order(
            node,
            match handlers {
                Some(order) => Some(order@),
                None => None,
            },
        ).nodes);
        Ok(())
    }

    /// Has the handler at `handler` capture the method at `node`, until the
    /// captures are next released.
    pub fn capture(scene: &mut Scene<D>, node: NodeId, handler: NodeId) -> (r: Result<
        (),
        NodeError,
    >)
        requires
            old(scene).wf(),
        ensures
            final(scene).wf(),
            final(scene)@ == old(scene)@.capture(node, handler),
            r == old(scene)@.can_capture(node, handler),
            r.is_ok() ==> final(scene)@.captured_by(node, handler),
    {
        if scene.input_method(node).is_none() {
            return Err(NodeError::InputMethodNotFound);
        }
        if scene.input_handler(handler).is_none() {
            return Err(NodeError::InputHandlerNotFound);
        }
        match &mut scene.nodes[node] {
            Some(slot) => {
                match &mut slot.kind {
                    NodeKind::Object(aspects) => {
                        match &mut aspects.input_method {
                            Some(method) => {
                                method.captures.add(handler);
                            },
                            None => {},
                        }
                    },
                    NodeKind::Alias(_) => {},
                }
            },
            None => {},
        }
        assert(scene@.clients =~= old(scene)@.clients);
        assert(scene@.nodes =~= old(scene)@.capture(node, handler).nodes);
        proof {
            lemma_registered_contains(old(scene)@.method(node).captures, handler);
        }
        Ok(())
    }

    /// Forgets every capture of the method at `node`, so that the next
    /// ranking is by true distance unless a handler captures again. Does
    /// nothing where there is no method.
    pub fn release_captures(scene: &mut Scene<D>, node: NodeId)
        requires
            old(scene).wf(),
        ensures
            final(scene).wf(),
            final(scene)@ == old(scene)@.release_captures(node),
    {
        if node < scene.nodes.len() {
            match &mut scene.nodes[node] {
                Some(slot) => {
                    match &mut slot.kind {
                        NodeKind::Object(aspects) => {
                            match &mut aspects.input_method {
                                Some(method) => {
                                    method.captures.clear();
                                },
                                None => {},
                            }
                        },
                        NodeKind::Alias(_) => {},
                    }
                },
                None => {},
            }
        }
        assert(scene@.clients =~= old(scene)@.clients);
        assert(scene@.nodes =~= old(scene)@.release_captures(node).nodes);
    }

    /// Whether the handler at `handler` holds a capture of the method at
    /// `node`. A handler that is gone holds none.
    pub fn is_captured_by(scene: &Scene<D>, node: NodeId, handler: NodeId) -> (b: bool)
        requires
            scene.wf(),
        ensures
            b == scene@.captured_by(node, handler),
    {
        match scene.input_method(node) {
            Some(method) => scene.input_handler(handler).is_some() && method.captures.contains(
                handler,
            ),
            None => false,
        }
    }
}

impl<D> SceneView<D> {
    /// The alias node `alias` exists and so does its target.
    pub open spec fn usable(self, alias: NodeId) -> bool {
        self.is_alias(alias) && self.alive(self.alias(alias).target)
    }

    /// Looks up the alias through which the client of the method `m` sees
    /// the handler `h`. An alias whose target is gone is not handed out: the
    /// method lets go of it at this lookup.
    pub open spec fn handler_alias(self, m: NodeId, h: NodeId) -> (SceneView<D>, Option<NodeId>) {
        if self.is_method(m) && self.method(m).handler_aliases.contains_key(AliasKey::Peer(h)) {
            let alias = self.method(m).handler_aliases[AliasKey::Peer(h)];
            if self.usable(alias) {
                (self, Some(alias))
            } else {
                (self.release_from_method(m, AliasKey::Peer(h)), None)
            }
        } else {
            (self, None)
        }
    }
}

impl<D> InputMethod<D> {
    /// The alias through which the client of the method at `method` sees
    /// the handler `handler`, if the method holds one and its target still
    /// exists. An alias whose target is gone is pruned here.
    pub fn handler_alias(scene: &mut Scene<D>, method: NodeId, handler: NodeId) -> (r: Option<
        NodeId,
    >)
        requires
            old(scene).wf(),
        ensures
            final(scene).wf(),
            final(scene)@ == old(scene)@.handler_alias(method, handler).0,
            r == old(scene)@.handler_alias(method, handler).1,
    {
        let held = match scene.input_method(method) {
            Some(this) => this.handler_aliases.get(AliasKey::Peer(handler)),
            None => None,
        };
        match held {
            Some(alias) => {
                let usable = match scene.alias(alias) {
                    Some(a) => scene.is_alive(a.target),
                    None => false,
                };
                if usable {
                    Some(alias)
                } else {
                    scene.release_from_method(method, AliasKey::Peer(handler));
                    None
                }
            },
            None => None,
        }
    }
}

impl<D> SceneView<D> {
    /// Capturing twice is capturing once.
    pub proof fn lemma_capture_idempotent(self, m: NodeId, h: NodeId)
        ensures
            self.capture(m, h).capture(m, h) == self.capture(m, h),
    {
        let once = self.capture(m, h);
        let twice = once.capture(m, h);
        if self.can_capture(m, h).is_ok() {
            lemma_registered_contains(self.method(m).captures, h);
            assert(once.method(m).captures.contains(h));
            assert(once.method(m).captures.to_set().contains(h));
            assert(twice.nodes =~= once.nodes);
        }
    }

    /// A handler that captures a method has captured it, and is from then
    /// on ranked by half its true distance; one that has not is ranked by
    /// its true distance.
    pub proof fn lemma_capture_biases(self, m: NodeId, h: NodeId, d: Distance)
        requires
            self.can_capture(m, h).is_ok(),
        ensures
            self.capture(m, h).captured_by(m, h),
            biased(self.capture(m, h).method(m).captures.contains(h), d as int) == d as int / 2,
            !self.method(m).captures.contains(h) ==> biased(
                self.method(m).captures.contains(h),
                d as int,
            ) == d as int,
    {
        lemma_registered_contains(self.method(m).captures, h);
    }
}

} // verus!
