//! Input handlers: regions that consume input, each backed by a field.

use crate::input::Notice;
use crate::node_collections::{AliasKey, LifeLinkedNodeMap};
use crate::registry::{lemma_registered_contains, registered, Lifetimes, NodeId};
use crate::scene::{NodeError, NodeKind, Scene, SceneView};
use vstd::prelude::*;

verus! {

/// One consumer of input.
pub struct InputHandler {
    /// The node that the handler is attached to.
    pub node: NodeId,
    /// The node whose field bounds the handler.
    pub field: NodeId,
    /// The aliases of methods in the namespace of the handler's client.
    pub method_aliases: LifeLinkedNodeMap,
}

/// An input handler as plain values.
pub struct HandlerView {
    pub node: NodeId,
    pub field: NodeId,
    pub method_aliases: Map<AliasKey, NodeId>,
}

impl View for InputHandler {
    type V = HandlerView;

    open spec fn view(&self) -> HandlerView {
        HandlerView { node: self.node, field: self.field, method_aliases: self.method_aliases@ }
    }
}

impl InputHandler {
    /// The collection of the handler is sound.
    pub open spec fn wf(&self) -> bool {
        self.method_aliases.wf()
    }
}

impl<D> SceneView<D> {
    /// Wires the handler `h` with each of the methods `ms` in turn, and
    /// collects the notices that are owed.
    pub open spec fn wire_methods(self, ms: Seq<NodeId>, h: NodeId) -> (SceneView<D>, Seq<Notice>)
        decreases ms.len(),
    {
        if ms.len() == 0 {
            (self, Seq::empty())
        } else {
            let before = self.wire_methods(ms.drop_last(), h);
            let after = before.0.wire(ms.last(), h);
            (
                after.0,
                match after.1 {
                    Some(notice) => before.1.push(notice),
                    None => before.1,
                },
            )
        }
    }

    /// The node `id` is a client's own and has a field.
    pub open spec fn has_field(self, id: NodeId) -> bool {
        self.is_object(id) && self.aspects(id).field
    }

    /// Whether an input handler bounded by the field of `field` can be
    /// attached to `node`, and if not, why.
    pub open spec fn can_add_handler(self, node: NodeId, field: NodeId) -> Result<(), NodeError> {
        if !self.is_object(node) {
            Err(NodeError::NodeNotFound)
        } else if !self.has_field(field) {
            Err(NodeError::FieldNotFound)
        } else if self.aspects(node).input_handler.is_some() {
            Err(NodeError::AlreadyAttached)
        } else {
            Ok(())
        }
    }

    /// The scene with a new input handler at `node`, registered and not yet
    /// wired.
    pub open spec fn with_new_handler(self, node: NodeId, field: NodeId) -> SceneView<D> {
        SceneView {
            input_handlers: registered(self.input_handlers, node),
            ..self.with_handler(node, HandlerView { node, field, method_aliases: Map::empty() })
        }
    }

    /// The scene after an input handler was added to `node`, and the notices
    /// owed: the new handler is wired with every method that is registered
    /// and alive at that time, in the order of the registry. Where the
    /// handler cannot be attached, nothing changes.
    pub open spec fn add_handler(self, node: NodeId, field: NodeId) -> (SceneView<D>, Seq<Notice>) {
        if self.can_add_handler(node, field).is_ok() {
            self.with_new_handler(node, field).wire_methods(self.live(self.input_methods), node)
        } else {
            (self, Seq::empty())
        }
    }
}

impl InputHandler {
    /// Attaches an input handler bounded by the field of `field` to `node`,
    /// registers it, and wires it with every live method. Returns the
    /// notices owed to the clients of those methods, one for each method
    /// that the handler was shown to in full.
    pub fn add_to<D>(scene: &mut Scene<D>, node: NodeId, field: NodeId) -> (r: Result<
        Vec<Notice>,
        NodeError,
    >)
        requires
            old(scene).wf(),
        ensures
            final(scene).wf(),
            final(scene)@ == old(scene)@.add_handler(node, field).0,
            match r {
                Ok(notices) => old(scene)@.can_add_handler(node, field).is_ok() && notices@ == old(
                    scene,
                )@.add_handler(node, field).1,
                Err(e) => old(scene)@.can_add_handler(node, field) == Err::<(), NodeError>(e),
            },
            r.is_ok() ==> forall|m: NodeId|
                #![trigger final(scene)@.method_sees(m, node)]
                #![trigger final(scene)@.handler_sees(node, m)]
                old(scene)@.ready_for_handler(node, m) ==> final(scene)@.method_sees(m, node)
                    && final(scene)@.handler_sees(node, m),
    {
        match scene.aspects(node) {
            None => { return Err(NodeError::NodeNotFound); },
            Some(aspects) => {
                let has_field = match scene.aspects(field) {
                    Some(of_field) => of_field.field,
                    None => false,
                };
                if !has_field {
                    return Err(NodeError::FieldNotFound);
                }
                if aspects.input_handler.is_some() {
                    return Err(NodeError::AlreadyAttached);
                }
            },
        }
        let methods = scene.live_methods();
        let handler = InputHandler { node, field, method_aliases: LifeLinkedNodeMap::new() };
        match &mut scene.nodes[node] {
            Some(slot) => {
                match &mut slot.kind {
                    NodeKind::Object(aspects) => {
                        aspects.input_handler = Some(handler);
                    },
                    NodeKind::Alias(_) => {},
                }
            },
            None => {},
        }
        scene.input_handlers.add(node);
        let ghost start = old(scene)@.with_new_handler(node, field);
        assert(scene@.clients =~= start.clients);
        assert(scene@.nodes =~= start.nodes);
        assert(scene@ == start);
        proof {
            lemma_registered_contains(old(scene)@.input_handlers, node);
            old(scene)@.lemma_registered_inv(start, node);
        }
        let mut notices: Vec<Notice> = Vec::new();
        let mut i: usize = 0;
        while i < methods.len()
            invariant
                scene.wf(),
                i <= methods.len(),
                scene@ == start.wire_methods(methods@.take(i as int), node).0,
                notices@ == start.wire_methods(methods@.take(i as int), node).1,
            decreases methods.len() - i,
        {
            proof {
                assert(methods@.take(i + 1).drop_last() =~= methods@.take(i as int));
                assert(methods@.take(i + 1).last() == methods@[i as int]);
            }
            match scene.wire(methods[i], node) {
                Some(notice) => {
                    notices.push(notice);
                },
                None => {},
            }
            i += 1;
        }
        assert(methods@.take(i as int) =~= methods@);
        proof {
            assert forall|m: NodeId|
                #![trigger scene@.method_sees(m, node)]
                #![trigger scene@.handler_sees(node, m)]
                old(scene)@.ready_for_handler(node, m) implies scene@.method_sees(m, node)
                && scene@.handler_sees(node, m) by {
                old(scene)@.lemma_add_handler_wires(node, field, m);
            }
        }
        Ok(notices)
    }
}

impl<D> SceneView<D> {
    /// The scene in which the handler `h` has let go of what it held under
    /// `key`: the entry is gone, and with it the alias node.
    pub open spec fn release_from_handler(self, h: NodeId, key: AliasKey) -> SceneView<D> {
        if self.is_handler(h) && self.handler(h).method_aliases.contains_key(key) {
            self.with_handler(
                h,
                HandlerView {
                    method_aliases: self.handler(h).method_aliases.remove(key),
                    ..self.handler(h)
                },
            ).drop_alias(self.handler(h).method_aliases[key])
        } else {
            self
        }
    }

    /// Looks up the alias through which the client of the handler `h` sees
    /// the method `m`. An alias whose target is gone is not handed out: the
    /// handler lets go of it at this lookup.
    pub open spec fn method_alias(self, h: NodeId, m: NodeId) -> (SceneView<D>, Option<NodeId>) {
        if self.is_handler(h) && self.handler(h).method_aliases.contains_key(AliasKey::Peer(m)) {
            let alias = self.handler(h).method_aliases[AliasKey::Peer(m)];
            if self.usable(alias) {
                (self, Some(alias))
            } else {
                (self.release_from_handler(h, AliasKey::Peer(m)), None)
            }
        } else {
            (self, None)
        }
    }
}

impl<D> Scene<D> {
    /// Has the handler `h` let go of what it holds under `key`.
    pub fn release_from_handler(&mut self, h: NodeId, key: AliasKey)
        requires
            old(self).wf(),
        ensures
            final(self).wf(),
            final(self)@ == old(self)@.release_from_handler(h, key),
    {
        let mut held: Option<NodeId> = None;
        if h < self.nodes.len() {
            match &mut self.nodes[h] {
                Some(node) => {
                    match &mut node.kind {
                        NodeKind::Object(aspects) => {
                            match &mut aspects.input_handler {
                                Some(handler) => {
                                    held = handler.method_aliases.remove(key);
                                },
                                None => {},
                            }
                        },
                        NodeKind::Alias(_) => {},
                    }
                },
                None => {},
            }
        }
        assert(self@.clients =~= old(self)@.clients);
        match held {
            Some(alias) => {
                assert(self@.nodes =~= old(self)@.with_handler(
                    h,
                    HandlerView {
                        method_aliases: old(self)@.handler(h).method_aliases.remove(key),
                        ..old(self)@.handler(h)
                    },
                ).nodes);
                proof {
                    old(self)@.lemma_keeps_inv(self@);
                }
                self.drop_alias(alias);
            },
            None => {
                proof {
                    if old(self)@.is_handler(h) {
                        let held_before = old(self)@.handler(h).method_aliases;
                        assert(held_before.remove(key) =~= held_before);
                    }
                }
                assert(self@.nodes =~= old(self)@.nodes);
            },
        }
    }
}

impl InputHandler {
    /// The alias through which the client of the handler at `handler` sees
    /// the method `method`, if the handler holds one and its target still
    /// exists. An alias whose target is gone is pruned here.
    pub fn method_alias<D>(scene: &mut Scene<D>, handler: NodeId, method: NodeId) -> (r: Option<
        NodeId,
    >)
        requires
            old(scene).wf(),
        ensures
            final(scene).wf(),
            final(scene)@ == old(scene)@.method_alias(handler, method).0,
            r == old(scene)@.method_alias(handler, method).1,
    {
        let held = match scene.input_handler(handler) {
            Some(this) => this.method_aliases.get(AliasKey::Peer(method)),
            None => None,
        };
        match held {
            Some(alias) => {
                let usable = match scene.alias(alias) {
                    Some(a) => scene.is_alive(a.target),
                    None => false,
                };
                if usable {
                    Some(alias)
                } else {
                    scene.release_from_handler(handler, AliasKey::Peer(method));
                    None
                }
            },
            None => None,
        }
    }
}

} // verus!
