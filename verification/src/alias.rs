//! Aliases: proxies that show one client's node in another client's
//! namespace, restricted to an allowlist of operations.

use crate::registry::{Lifetimes, NodeId};
use crate::scene::{ClientId, KindView, Node, NodeKind, NodeView, Scene, SceneView};
use vstd::prelude::*;

verus! {

/// The local name of an alias beneath its mount point.
#[derive(Clone, Copy, Debug, PartialEq, Eq, Structural)]
pub enum Name {
    /// Named after the peer that the alias stands for.
    Peer(NodeId),
    /// The field of the alias it is mounted beneath.
    Field,
}

/// What an alias lets through: the events that the server may emit through
/// it and the operations that may be called through it. Everything else on
/// the target is invisible.
pub struct AliasInfo {
    pub server_signals: Vec<String>,
    pub server_methods: Vec<String>,
}

/// An allowlist as the names it holds.
pub struct AliasInfoView {
    pub server_signals: Seq<Seq<char>>,
    pub server_methods: Seq<Seq<char>>,
}

impl View for AliasInfo {
    type V = AliasInfoView;

    open spec fn view(&self) -> AliasInfoView {
        AliasInfoView {
            server_signals: self.server_signals.deep_view(),
            server_methods: self.server_methods.deep_view(),
        }
    }
}

/// A proxy for `target`, mounted beneath `parent` under `name` in the
/// namespace of the client that owns the alias node.
pub struct Alias {
    pub parent: NodeId,
    pub name: Name,
    pub target: NodeId,
    pub info: AliasInfo,
    pub enabled: bool,
}

/// An alias as plain values.
pub struct AliasView {
    pub parent: NodeId,
    pub name: Name,
    pub target: NodeId,
    pub info: AliasInfoView,
    pub enabled: bool,
}

impl View for Alias {
    type V = AliasView;

    open spec fn view(&self) -> AliasView {
        AliasView {
            parent: self.parent,
            name: self.name,
            target: self.target,
            info: self.info@,
            enabled: self.enabled,
        }
    }
}

/// Why an alias could not be made.
#[derive(Clone, Copy, Debug, PartialEq, Eq, Structural)]
pub enum AliasError {
    /// The connection of the requesting client is gone.
    ClientGone,
    /// The target has no owning client that can be resolved.
    TargetOrphaned,
    /// Something is mounted at the path already.
    PathCollision,
}

impl AliasInfoView {
    /// An event named `name` may be emitted.
    pub open spec fn allows_signal(self, name: Seq<char>) -> bool {
        self.server_signals.contains(name)
    }

    /// An operation named `name` may be called.
    pub open spec fn allows_method(self, name: Seq<char>) -> bool {
        self.server_methods.contains(name)
    }
}

impl AliasView {
    /// The alias passes an event named `name` on. A disabled alias passes
    /// nothing.
    pub open spec fn forwards_signal(self, name: Seq<char>) -> bool {
        self.enabled && self.info.allows_signal(name)
    }

    /// The alias passes a call of `name` on. A disabled alias passes nothing.
    pub open spec fn forwards_method(self, name: Seq<char>) -> bool {
        self.enabled && self.info.allows_method(name)
    }
}

/// Whether `names` holds `name`.
fn lists(names: &Vec<String>, name: &String) -> (b: bool)
    ensures
        b == names.deep_view().contains(name@),
{
    let mut i: usize = 0;
    while i < names.len()
        invariant
            i <= names.len(),
            forall|j: int| 0 <= j < i ==> names.deep_view()[j] != name@,
        decreases names.len() - i,
    {
        assert(names.deep_view()[i as int] == names@[i as int]@);
        if names[i] == *name {
            return true;
        }
        i += 1;
    }
    false
}

impl AliasInfo {
    /// An allowlist that lets nothing through.
    pub fn none() -> (info: AliasInfo)
        ensures
            info@.server_signals == Seq::<Seq<char>>::empty(),
            info@.server_methods == Seq::<Seq<char>>::empty(),
    {
        let info = AliasInfo { server_signals: Vec::new(), server_methods: Vec::new() };
        assert(info@.server_signals =~= Seq::<Seq<char>>::empty());
        assert(info@.server_methods =~= Seq::<Seq<char>>::empty());
        info
    }

    /// Whether an event named `name` may be emitted.
    pub fn allows_signal(&self, name: &String) -> (b: bool)
        ensures
            b == self@.allows_signal(name@),
    {
        lists(&self.server_signals, name)
    }

    /// Whether an operation named `name` may be called.
    pub fn allows_method(&self, name: &String) -> (b: bool)
        ensures
            b == self@.allows_method(name@),
    {
        lists(&self.server_methods, name)
    }
}

impl Alias {
    /// Whether the alias passes an event named `name` on.
    pub fn forwards_signal(&self, name: &String) -> (b: bool)
        ensures
            b == self@.forwards_signal(name@),
    {
        self.enabled && self.info.allows_signal(name)
    }

    /// Whether the alias passes a call of `name` on.
    pub fn forwards_method(&self, name: &String) -> (b: bool)
        ensures
            b == self@.forwards_method(name@),
    {
        self.enabled && self.info.allows_method(name)
    }
}

impl<D> SceneView<D> {
    /// How making an alias for `target` beneath `parent` under `name`, in the
    /// namespace of `client`, ends: with the identifier of the new alias, or
    /// with the first of the three obstacles that holds.
    pub open spec fn alias_outcome(
        self,
        client: ClientId,
        parent: NodeId,
        name: Name,
        target: NodeId,
    ) -> Result<NodeId, AliasError> {
        if !self.connected(client) {
            Err(AliasError::ClientGone)
        } else if !self.reachable(target) {
            Err(AliasError::TargetOrphaned)
        } else if !self.mount_free(client, parent, name) {
            Err(AliasError::PathCollision)
        } else {
            Ok(self.nodes.len() as NodeId)
        }
    }

    /// The scene after an attempt to make that alias: with the alias in a new
    /// slot, enabled, if nothing stood in the way; unchanged otherwise.
    pub open spec fn create_alias(
        self,
        client: ClientId,
        parent: NodeId,
        name: Name,
        target: NodeId,
        info: AliasInfoView,
    ) -> SceneView<D> {
        if self.alias_outcome(client, parent, name, target).is_ok() {
            self.with_new(
                NodeView {
                    client,
                    kind: KindView::Alias(AliasView { parent, name, target, info, enabled: true }),
                },
            )
        } else {
            self
        }
    }

    /// The scene with the alias `id` enabled or disabled; unchanged where
    /// `id` is no alias.
    pub open spec fn alias_enabled(self, id: NodeId, enabled: bool) -> SceneView<D> {
        if self.is_alias(id) {
            self.with_node(
                id,
                NodeView { kind: KindView::Alias(AliasView { enabled, ..self.alias(id) }), ..self.node(id) },
            )
        } else {
            self
        }
    }

    /// The node that an event named `name`, emitted at the alias `id`, is
    /// passed on to, if it is passed on: the alias must be enabled and list
    /// the event, and its target must exist.
    pub open spec fn signal_target(self, id: NodeId, name: Seq<char>) -> Option<NodeId> {
        if self.is_alias(id) && self.alias(id).forwards_signal(name) && self.alive(
            self.alias(id).target,
        ) {
            Some(self.alias(id).target)
        } else {
            None
        }
    }

    /// The node that a call of `name`, made at the alias `id`, is passed on
    /// to, if it is passed on.
    pub open spec fn method_target(self, id: NodeId, name: Seq<char>) -> Option<NodeId> {
        if self.is_alias(id) && self.alias(id).forwards_method(name) && self.alive(
            self.alias(id).target,
        ) {
            Some(self.alias(id).target)
        } else {
            None
        }
    }
}

impl<D> Scene<D> {
    /// Whether nothing is mounted beneath `parent` under `name` in the
    /// namespace of `client`.
    pub fn is_mount_free(&self, client: ClientId, parent: NodeId, name: Name) -> (b: bool)
        ensures
            b == self@.mount_free(client, parent, name),
    {
        let mut i: usize = 0;
        while i < self.nodes.len()
            invariant
                i <= self.nodes.len(),
                forall|j: NodeId|
                    #![trigger self@.nodes[j as int]]
                    j < i && self@.is_alias(j) && self@.node(j).client == client ==> !(self@.alias(
                        j,
                    ).parent == parent && self@.alias(j).name == name),
            decreases self.nodes.len() - i,
        {
            match &self.nodes[i] {
                Some(node) => {
                    match &node.kind {
                        NodeKind::Alias(alias) => {
                            if node.client == client && alias.parent == parent && alias.name
                                == name {
                                assert(self@.is_alias(i));
                                return false;
                            }
                        },
                        NodeKind::Object(_) => {},
                    }
                },
                None => {},
            }
            i += 1;
        }
        true
    }

    /// Enables or disables the alias `id`. Does nothing where `id` is no
    /// alias.
    pub fn set_alias_enabled(&mut self, id: NodeId, enabled: bool)
        requires
            old(self).wf(),
        ensures
            final(self).wf(),
            final(self)@ == old(self)@.alias_enabled(id, enabled),
    {
        if id < self.nodes.len() {
            match &mut self.nodes[id] {
                Some(node) => {
                    match &mut node.kind {
                        NodeKind::Alias(alias) => {
                            alias.enabled = enabled;
                        },
                        NodeKind::Object(_) => {},
                    }
                },
                None => {},
            }
        }
        assert(self@.clients =~= old(self)@.clients);
        assert(self@.nodes =~= old(self)@.alias_enabled(id, enabled).nodes);
    }

    /// Where an event named `name`, emitted at the alias `id`, goes.
    pub fn signal_target(&self, id: NodeId, name: &String) -> (r: Option<NodeId>)
        ensures
            r == self@.signal_target(id, name@),
    {
        if id < self.nodes.len() {
            match &self.nodes[id] {
                Some(node) => {
                    match &node.kind {
                        NodeKind::Alias(alias) => {
                            if alias.forwards_signal(name) && self.is_alive(alias.target) {
                                return Some(alias.target);
                            }
                        },
                        NodeKind::Object(_) => {},
                    }
                },
                None => {},
            }
        }
        None
    }

    /// Where a call of `name`, made at the alias `id`, goes.
    pub fn method_target(&self, id: NodeId, name: &String) -> (r: Option<NodeId>)
        ensures
            r == self@.method_target(id, name@),
    {
        if id < self.nodes.len() {
            match &self.nodes[id] {
                Some(node) => {
                    match &node.kind {
                        NodeKind::Alias(alias) => {
                            if alias.forwards_method(name) && self.is_alive(alias.target) {
                                return Some(alias.target);
                            }
                        },
                        NodeKind::Object(_) => {},
                    }
                },
                None => {},
            }
        }
        None
    }
}

impl Alias {
    /// Makes an alias for `target` in the namespace of `client`, mounted
    /// beneath `parent` under `name`, that lets through what `info` lists.
    /// The alias starts enabled.
    ///
    /// Fails, and leaves the scene as it was, when the connection of `client`
    /// is gone, when `target` has no owning client that can be resolved, or
    /// when something is mounted at that place already.
    pub fn create<D>(
        scene: &mut Scene<D>,
        client: ClientId,
        parent: NodeId,
        name: Name,
        target: NodeId,
        info: AliasInfo,
    ) -> (r: Result<NodeId, AliasError>)
        requires
            old(scene).wf(),
        ensures
            final(scene).wf(),
            r == old(scene)@.alias_outcome(client, parent, name, target),
            final(scene)@ == old(scene)@.create_alias(client, parent, name, target, info@),
    {
        if !scene.is_connected(client) {
            return Err(AliasError::ClientGone);
        }
        if !scene.is_reachable(target) {
            return Err(AliasError::TargetOrphaned);
        }
        if !scene.is_mount_free(client, parent, name) {
            return Err(AliasError::PathCollision);
        }
        let id = scene.nodes.len();
        let ghost shown = info@;
        scene.nodes.push(
            Some(
                Node {
                    client,
                    kind: NodeKind::Alias(Alias { parent, name, target, info, enabled: true }),
                },
            ),
        );
        assert(scene@.clients =~= old(scene)@.clients);
        assert(scene@.nodes =~= old(scene)@.create_alias(client, parent, name, target, shown).nodes);
        assert(scene@.nodes.len() == scene.nodes.len());
        Ok(id)
    }
}

} // verus!
