//! The scene: every client, every node, and the registries of the
//! capabilities attached to nodes.

use crate::alias::{Alias, AliasView, Name};
use crate::input::handler::{HandlerView, InputHandler};
use crate::input::method::{InputMethod, MethodView};
use crate::input::Notice;
use crate::node_collections::{
    lemma_entry, lemma_key_position, position, AliasKey, LifeLinkedNodeMap,
};
use crate::registry::{lemma_without_contains, without, Lifetimes, NodeId, Registry};
use vstd::prelude::*;

verus! {

/// Identifier of a client.
pub type ClientId = usize;

/// A client, as far as the scene needs to know it.
pub struct Client {
    /// Whether the connection is up.
    pub connected: bool,
}

/// The capabilities attached to a node.
pub struct Aspects<D> {
    pub spatial: bool,
    pub field: bool,
    pub input_method: Option<InputMethod<D>>,
    pub input_handler: Option<InputHandler>,
}

/// What a node is.
pub enum NodeKind<D> {
    /// A node of its client's own, with its capabilities.
    Object(Aspects<D>),
    /// A proxy for a node of another client.
    Alias(Alias),
}

/// A node in the namespace of a client.
pub struct Node<D> {
    /// The client in whose namespace the node lives.
    pub client: ClientId,
    pub kind: NodeKind<D>,
}

/// All clients and nodes. A node's identifier is its position in `nodes`;
/// the slot of a destroyed node stays empty, so that no identifier comes
/// back.
pub struct Scene<D> {
    pub clients: Vec<Client>,
    pub nodes: Vec<Option<Node<D>>>,
    /// Every live input method.
    pub input_methods: Registry,
    /// Every live input handler.
    pub input_handlers: Registry,
}

/// The capabilities of a node as plain values.
pub struct AspectsView<D> {
    pub spatial: bool,
    pub field: bool,
    pub input_method: Option<MethodView<D>>,
    pub input_handler: Option<HandlerView>,
}

/// What a node is, as plain values.
pub enum KindView<D> {
    Object(AspectsView<D>),
    Alias(AliasView),
}

/// A node as plain values.
pub struct NodeView<D> {
    pub client: ClientId,
    pub kind: KindView<D>,
}

/// The scene as plain values: for each client whether its connection is
/// up, for each slot the node in it, and the members of both registries in
/// the order in which they were added. Everything that the scene does is
/// stated over this.
pub struct SceneView<D> {
    pub clients: Seq<bool>,
    pub nodes: Seq<Option<NodeView<D>>>,
    pub input_methods: Seq<NodeId>,
    pub input_handlers: Seq<NodeId>,
}

impl<D> View for Aspects<D> {
    type V = AspectsView<D>;

    open spec fn view(&self) -> AspectsView<D> {
        AspectsView {
            spatial: self.spatial,
            field: self.field,
            input_method: match self.input_method {
                Some(m) => Some(m@),
                None => None,
            },
            input_handler: match self.input_handler {
                Some(h) => Some(h@),
                None => None,
            },
        }
    }
}

impl<D> View for Node<D> {
    type V = NodeView<D>;

    open spec fn view(&self) -> NodeView<D> {
        NodeView {
            client: self.client,
            kind: match self.kind {
                NodeKind::Object(a) => KindView::Object(a@),
                NodeKind::Alias(a) => KindView::Alias(a@),
            },
        }
    }
}

/// The view of a slot.
pub open spec fn slot_view<D>(slot: Option<Node<D>>) -> Option<NodeView<D>> {
    match slot {
        Some(n) => Some(n@),
        None => None,
    }
}

impl<D> View for Scene<D> {
    type V = SceneView<D>;

    open spec fn view(&self) -> SceneView<D> {
        SceneView {
            clients: Seq::new(self.clients@.len(), |i: int| self.clients@[i].connected),
            nodes: Seq::new(self.nodes@.len(), |i: int| slot_view(self.nodes@[i])),
            input_methods: self.input_methods.entries@,
            input_handlers: self.input_handlers.entries@,
        }
    }
}

impl<D> SceneView<D> {
    /// The connection of `client` is up.
    pub open spec fn connected(self, client: ClientId) -> bool {
        client < self.clients.len() && self.clients[client as int]
    }

    /// The node `id` exists.
    pub open spec fn alive(self, id: NodeId) -> bool {
        id < self.nodes.len() && self.nodes[id as int].is_some()
    }

    /// The node `id`, where it exists.
    pub open spec fn node(self, id: NodeId) -> NodeView<D> {
        self.nodes[id as int].unwrap()
    }

    /// The node `id` exists and its owning client can be resolved.
    pub open spec fn reachable(self, id: NodeId) -> bool {
        self.alive(id) && self.connected(self.node(id).client)
    }

    /// The node `id` is a client's own node.
    pub open spec fn is_object(self, id: NodeId) -> bool {
        self.alive(id) && self.node(id).kind is Object
    }

    /// The capabilities of `id`, where it is a client's own node.
    pub open spec fn aspects(self, id: NodeId) -> AspectsView<D> {
        self.node(id).kind->Object_0
    }

    /// The node `id` is an alias.
    pub open spec fn is_alias(self, id: NodeId) -> bool {
        self.alive(id) && self.node(id).kind is Alias
    }

    /// The alias at `id`, where it is one.
    pub open spec fn alias(self, id: NodeId) -> AliasView {
        self.node(id).kind->Alias_0
    }

    /// The node `id` carries an input method.
    pub open spec fn is_method(self, id: NodeId) -> bool {
        self.is_object(id) && self.aspects(id).input_method.is_some()
    }

    /// The input method of `id`, where it carries one.
    pub open spec fn method(self, id: NodeId) -> MethodView<D> {
        self.aspects(id).input_method.unwrap()
    }

    /// The node `id` carries an input handler.
    pub open spec fn is_handler(self, id: NodeId) -> bool {
        self.is_object(id) && self.aspects(id).input_handler.is_some()
    }

    /// The input handler of `id`, where it carries one.
    pub open spec fn handler(self, id: NodeId) -> HandlerView {
        self.aspects(id).input_handler.unwrap()
    }

    /// Nothing is mounted beneath `parent` under `name` in the namespace of
    /// `client`.
    pub open spec fn mount_free(self, client: ClientId, parent: NodeId, name: Name) -> bool {
        forall|i: NodeId|
            #![trigger self.nodes[i as int]]
            self.is_alias(i) && self.node(i).client == client ==> !(self.alias(i).parent == parent
                && self.alias(i).name == name)
    }

    /// Every slot of the scene has an identifier.
    pub open spec fn fits(self) -> bool {
        self.nodes.len() <= usize::MAX
    }

    /// The registries hold what lives: an input method is registered for as
    /// long as its node exists, and so is an input handler.
    pub open spec fn inv(self) -> bool {
        &&& self.input_methods.no_duplicates()
        &&& self.input_handlers.no_duplicates()
        &&& forall|i: NodeId|
            #![trigger self.nodes[i as int]]
            self.is_method(i) ==> self.input_methods.contains(i)
        &&& forall|i: NodeId| #[trigger]
            self.input_methods.contains(i) ==> self.is_method(i)
        &&& forall|i: NodeId|
            #![trigger self.nodes[i as int]]
            self.is_handler(i) ==> self.input_handlers.contains(i)
        &&& forall|i: NodeId| #[trigger]
            self.input_handlers.contains(i) ==> self.is_handler(i)
    }

    /// `after` has the registries of `self` and, in the slots of `self`, an
    /// input method where `self` has one and an input handler where `self`
    /// has one; what it has in further slots carries neither.
    pub open spec fn keeps_aspects(self, after: SceneView<D>) -> bool {
        &&& after.input_methods == self.input_methods
        &&& after.input_handlers == self.input_handlers
        &&& forall|i: NodeId|
            #![trigger after.nodes[i as int]]
            after.is_method(i) == self.is_method(i) && after.is_handler(i) == self.is_handler(i)
    }

    /// What keeps the capabilities and the registries keeps the registries
    /// right.
    pub proof fn lemma_keeps_inv(self, after: SceneView<D>)
        requires
            self.inv(),
            self.keeps_aspects(after),
        ensures
            after.inv(),
    {
        assert forall|i: NodeId| #[trigger] after.input_methods.contains(i) implies after.is_method(
            i,
        ) by {
            assert(self.is_method(i));
            let _ = after.nodes[i as int];
        }
        assert forall|i: NodeId| #[trigger] after.input_handlers.contains(i) implies after.is_handler(
            i,
        ) by {
            assert(self.is_handler(i));
            let _ = after.nodes[i as int];
        }
    }

    /// Registering what was just attached keeps the registries right:
    /// `after` differs from `self` in that the node `id` has gained an input
    /// method, an input handler or both, each registered.
    pub proof fn lemma_registered_inv(self, after: SceneView<D>, id: NodeId)
        requires
            self.inv(),
            forall|i: NodeId|
                #![trigger after.nodes[i as int]]
                i != id ==> after.is_method(i) == self.is_method(i) && after.is_handler(i)
                    == self.is_handler(i),
            forall|x: NodeId| #[trigger]
                after.input_methods.contains(x) <==> self.input_methods.contains(x) || (x == id
                    && after.is_method(id)),
            forall|x: NodeId| #[trigger]
                after.input_handlers.contains(x) <==> self.input_handlers.contains(x) || (x == id
                    && after.is_handler(id)),
            self.is_method(id) ==> after.is_method(id),
            self.is_handler(id) ==> after.is_handler(id),
            after.input_methods.no_duplicates(),
            after.input_handlers.no_duplicates(),
        ensures
            after.inv(),
    {
        assert forall|i: NodeId| #[trigger] after.input_methods.contains(i) implies after.is_method(
            i,
        ) by {
            if i != id {
                assert(self.is_method(i));
                let _ = after.nodes[i as int];
            } else if self.input_methods.contains(i) {
                assert(self.is_method(i));
            }
        }
        assert forall|i: NodeId| #[trigger] after.input_handlers.contains(i) implies after.is_handler(
            i,
        ) by {
            if i != id {
                assert(self.is_handler(i));
                let _ = after.nodes[i as int];
            } else if self.input_handlers.contains(i) {
                assert(self.is_handler(i));
            }
        }
        assert forall|i: NodeId| #![trigger after.nodes[i as int]] after.is_method(i) implies
            after.input_methods.contains(i) by {
            if i != id {
                assert(self.is_method(i));
            }
        }
        assert forall|i: NodeId| #![trigger after.nodes[i as int]] after.is_handler(i) implies
            after.input_handlers.contains(i) by {
            if i != id {
                assert(self.is_handler(i));
            }
        }
    }

    /// The scene with `node` in a new slot at the end.
    pub open spec fn with_new(self, node: NodeView<D>) -> SceneView<D> {
        SceneView { nodes: self.nodes.push(Some(node)), ..self }
    }

    /// The scene with `node` in the slot `id`.
    pub open spec fn with_node(self, id: NodeId, node: NodeView<D>) -> SceneView<D> {
        SceneView { nodes: self.nodes.update(id as int, Some(node)), ..self }
    }

    /// The scene with the slot `id` empty.
    pub open spec fn without_node(self, id: NodeId) -> SceneView<D> {
        SceneView { nodes: self.nodes.update(id as int, None), ..self }
    }

    /// The scene with the capabilities of the object `id` replaced.
    pub open spec fn with_aspects(self, id: NodeId, aspects: AspectsView<D>) -> SceneView<D> {
        self.with_node(id, NodeView { kind: KindView::Object(aspects), ..self.node(id) })
    }

    /// The scene with the input method of `id` replaced.
    pub open spec fn with_method(self, id: NodeId, method: MethodView<D>) -> SceneView<D> {
        self.with_aspects(id, AspectsView { input_method: Some(method), ..self.aspects(id) })
    }

    /// The scene with the input handler of `id` replaced.
    pub open spec fn with_handler(self, id: NodeId, handler: HandlerView) -> SceneView<D> {
        self.with_aspects(id, AspectsView { input_handler: Some(handler), ..self.aspects(id) })
    }
}

impl<D> Lifetimes for Scene<D> {
    open spec fn alive(&self, id: NodeId) -> bool {
        self@.alive(id)
    }

    fn is_alive(&self, id: NodeId) -> (b: bool) {
        id < self.nodes.len() && self.nodes[id].is_some()
    }
}

impl<D> Node<D> {
    /// The node is sound as the node `id`: its collections are sound, and
    /// what is attached to it knows `id` as its node.
    pub open spec fn wf(&self, id: NodeId) -> bool {
        match self.kind {
            NodeKind::Object(a) => {
                &&& a.input_method matches Some(m) ==> m.wf() && m.node == id
                &&& a.input_handler matches Some(h) ==> h.wf() && h.node == id
            },
            NodeKind::Alias(_) => true,
        }
    }
}

impl<D> Scene<D> {
    /// The scene is well formed: its collections are sound and the
    /// registries hold what lives.
    pub open spec fn wf(&self) -> bool {
        self.sound() && self@.inv() && self@.fits()
    }

    /// The collections of the scene are sound: no registry holds a reference
    /// twice, no map holds a key twice, and every input method and input
    /// handler knows the node that it is attached to.
    pub open spec fn sound(&self) -> bool {
        &&& self.input_methods.wf()
        &&& self.input_handlers.wf()
        &&& forall|i: int|
            0 <= i < self.nodes@.len() ==> ((#[trigger] self.nodes@[i]) matches Some(n) ==> n.wf(
                i as NodeId,
            ))
    }

    /// A scene without clients or nodes.
    pub fn new() -> (scene: Scene<D>)
        ensures
            scene.wf(),
            scene@.clients == Seq::<bool>::empty(),
            scene@.nodes == Seq::<Option<NodeView<D>>>::empty(),
            scene@.input_methods == Seq::<NodeId>::empty(),
            scene@.input_handlers == Seq::<NodeId>::empty(),
    {
        let scene = Scene {
            clients: Vec::new(),
            nodes: Vec::new(),
            input_methods: Registry::new(),
            input_handlers: Registry::new(),
        };
        assert(scene@.clients =~= Seq::<bool>::empty());
        assert(scene@.nodes =~= Seq::<Option<NodeView<D>>>::empty());
        scene
    }

    /// Takes in a client whose connection is up.
    pub fn connect_client(&mut self) -> (client: ClientId)
        requires
            old(self).wf(),
        ensures
            final(self).wf(),
            client == old(self)@.clients.len(),
            final(self)@ == (SceneView { clients: old(self)@.clients.push(true), ..old(self)@ }),
    {
        let client = self.clients.len();
        self.clients.push(Client { connected: true });
        assert(self@.clients =~= old(self)@.clients.push(true));
        assert(self@.nodes =~= old(self)@.nodes);
        client
    }

    /// Marks the connection of `client` as gone. Its nodes stay until they
    /// are destroyed.
    pub fn disconnect_client(&mut self, client: ClientId)
        requires
            old(self).wf(),
        ensures
            final(self).wf(),
            final(self)@ == (if client < old(self)@.clients.len() {
                SceneView {
                    clients: old(self)@.clients.update(client as int, false),
                    ..old(self)@
                }
            } else {
                old(self)@
            }),
    {
        if client < self.clients.len() {
            self.clients[client].connected = false;
            assert(self@.clients =~= old(self)@.clients.update(client as int, false));
        } else {
            assert(self@.clients =~= old(self)@.clients);
        }
        assert(self@.nodes =~= old(self)@.nodes);
    }

    /// Whether the connection of `client` is up.
    pub fn is_connected(&self, client: ClientId) -> (b: bool)
        ensures
            b == self@.connected(client),
    {
        client < self.clients.len() && self.clients[client].connected
    }

    /// Whether the owning client of `id` can be resolved.
    pub fn is_reachable(&self, id: NodeId) -> (b: bool)
        ensures
            b == self@.reachable(id),
    {
        if id < self.nodes.len() {
            match &self.nodes[id] {
                Some(node) => self.is_connected(node.client),
                None => false,
            }
        } else {
            false
        }
    }
}

/// Why an operation on a node was rejected.
#[derive(Clone, Copy, Debug, PartialEq, Eq, Structural)]
pub enum NodeError {
    /// The connection of the client is gone.
    ClientGone,
    /// There is no such node of a client's own.
    NodeNotFound,
    /// The node has no spatial.
    SpatialNotFound,
    /// The node has no field.
    FieldNotFound,
    /// The node has no input method.
    InputMethodNotFound,
    /// The node has no input handler.
    InputHandlerNotFound,
    /// The node has that capability already.
    AlreadyAttached,
}

impl<D> Scene<D> {
    /// Creates a node of `client`'s own, with a spatial and a field as asked
    /// for. Fails when the connection of `client` is gone.
    pub fn create_node(&mut self, client: ClientId, spatial: bool, field: bool) -> (r: Result<
        NodeId,
        NodeError,
    >)
        requires
            old(self).wf(),
        ensures
            final(self).wf(),
            r == (if old(self)@.connected(client) {
                Ok(old(self)@.nodes.len() as NodeId)
            } else {
                Err(NodeError::ClientGone)
            }),
            final(self)@ == (if old(self)@.connected(client) {
                old(self)@.with_new(
                    NodeView {
                        client,
                        kind: KindView::Object(
                            AspectsView { spatial, field, input_method: None, input_handler: None },
                        ),
                    },
                )
            } else {
                old(self)@
            }),
    {
        if !self.is_connected(client) {
            return Err(NodeError::ClientGone);
        }
        let id = self.nodes.len();
        self.nodes.push(
            Some(
                Node {
                    client,
                    kind: NodeKind::Object(
                        Aspects { spatial, field, input_method: None, input_handler: None },
                    ),
                },
            ),
        );
        assert(self@.clients =~= old(self)@.clients);
        assert(self@.nodes =~= old(self)@.nodes.push(
            Some(
                NodeView {
                    client,
                    kind: KindView::Object(
                        AspectsView { spatial, field, input_method: None, input_handler: None },
                    ),
                },
            ),
        ));
        proof {
            old(self)@.lemma_keeps_inv(self@);
            assert(self@.nodes.len() == self.nodes.len());
        }
        Ok(id)
    }

    /// Gives the node `id` a spatial. Fails where `id` is no node of a
    /// client's own.
    pub fn add_spatial(&mut self, id: NodeId) -> (r: Result<(), NodeError>)
        requires
            old(self).wf(),
        ensures
            final(self).wf(),
            r == (if old(self)@.is_object(id) {
                Ok(())
            } else {
                Err(NodeError::NodeNotFound)
            }),
            final(self)@ == (if old(self)@.is_object(id) {
                old(self)@.with_aspects(id, AspectsView { spatial: true, ..old(self)@.aspects(id) })
            } else {
                old(self)@
            }),
    {
        let mut r = Err(NodeError::NodeNotFound);
        if id < self.nodes.len() {
            match &mut self.nodes[id] {
                Some(node) => {
                    match &mut node.kind {
                        NodeKind::Object(aspects) => {
                            aspects.spatial = true;
                            r = Ok(());
                        },
                        NodeKind::Alias(_) => {},
                    }
                },
                None => {},
            }
        }
        assert(self@.clients =~= old(self)@.clients);
        if r.is_ok() {
            assert(self@.nodes =~= old(self)@.with_aspects(
                id,
                AspectsView { spatial: true, ..old(self)@.aspects(id) },
            ).nodes);
        } else {
            assert(self@.nodes =~= old(self)@.nodes);
        }
        proof {
            old(self)@.lemma_keeps_inv(self@);
        }
        r
    }

    /// Gives the node `id` a field. Fails where `id` is no node of a
    /// client's own.
    pub fn add_field(&mut self, id: NodeId) -> (r: Result<(), NodeError>)
        requires
            old(self).wf(),
        ensures
            final(self).wf(),
            r == (if old(self)@.is_object(id) {
                Ok(())
            } else {
                Err(NodeError::NodeNotFound)
            }),
            final(self)@ == (if old(self)@.is_object(id) {
                old(self)@.with_aspects(id, AspectsView { field: true, ..old(self)@.aspects(id) })
            } else {
                old(self)@
            }),
    {
        let mut r = Err(NodeError::NodeNotFound);
        if id < self.nodes.len() {
            match &mut self.nodes[id] {
                Some(node) => {
                    match &mut node.kind {
                        NodeKind::Object(aspects) => {
                            aspects.field = true;
                            r = Ok(());
                        },
                        NodeKind::Alias(_) => {},
                    }
                },
                None => {},
            }
        }
        assert(self@.clients =~= old(self)@.clients);
        if r.is_ok() {
            assert(self@.nodes =~= old(self)@.with_aspects(
                id,
                AspectsView { field: true, ..old(self)@.aspects(id) },
            ).nodes);
        } else {
            assert(self@.nodes =~= old(self)@.nodes);
        }
        proof {
            old(self)@.lemma_keeps_inv(self@);
        }
        r
    }

    /// The node `id`, if it exists.
    pub fn node(&self, id: NodeId) -> (r: Option<&Node<D>>)
        ensures
            r.is_some() == self@.alive(id),
            r matches Some(n) ==> n@ == self@.node(id) && (self.wf() ==> n.wf(id)),
    {
        if id < self.nodes.len() {
            self.nodes[id].as_ref()
        } else {
            None
        }
    }

    /// The capabilities of `id`, if it is a client's own node.
    pub fn aspects(&self, id: NodeId) -> (r: Option<&Aspects<D>>)
        ensures
            r.is_some() == self@.is_object(id),
            r matches Some(a) ==> a@ == self@.aspects(id) && (self.wf() ==> {
                &&& a.input_method matches Some(m) ==> m.wf() && m.node == id
                &&& a.input_handler matches Some(h) ==> h.wf() && h.node == id
            }),
    {
        match self.node(id) {
            Some(node) => match &node.kind {
                NodeKind::Object(aspects) => Some(aspects),
                NodeKind::Alias(_) => None,
            },
            None => None,
        }
    }

    /// The alias at `id`, if it is one.
    pub fn alias(&self, id: NodeId) -> (r: Option<&Alias>)
        ensures
            r.is_some() == self@.is_alias(id),
            r matches Some(a) ==> a@ == self@.alias(id),
    {
        match self.node(id) {
            Some(node) => match &node.kind {
                NodeKind::Object(_) => None,
                NodeKind::Alias(alias) => Some(alias),
            },
            None => None,
        }
    }

    /// The input method attached to `id`, if there is one.
    pub fn input_method(&self, id: NodeId) -> (r: Option<&InputMethod<D>>)
        ensures
            r.is_some() == self@.is_method(id),
            r matches Some(m) ==> m@ == self@.method(id) && (self.wf() ==> m.wf() && m.node == id),
    {
        match self.aspects(id) {
            Some(aspects) => aspects.input_method.as_ref(),
            None => None,
        }
    }

    /// The input handler attached to `id`, if there is one.
    pub fn input_handler(&self, id: NodeId) -> (r: Option<&InputHandler>)
        ensures
            r.is_some() == self@.is_handler(id),
            r matches Some(h) ==> h@ == self@.handler(id) && (self.wf() ==> h.wf() && h.node == id),
    {
        match self.aspects(id) {
            Some(aspects) => aspects.input_handler.as_ref(),
            None => None,
        }
    }
}

/// The nodes that `map` holds.
pub open spec fn held_in(map: Map<AliasKey, NodeId>) -> Set<NodeId> {
    Set::new(|a: NodeId| exists|key: AliasKey| #[trigger] map.contains_key(key) && map[key] == a)
}

/// The nodes that the first `n` of `entries` hold.
pub open spec fn held_among(entries: Seq<(AliasKey, NodeId)>, n: int) -> Set<NodeId> {
    Set::new(|a: NodeId| exists|j: int| 0 <= j < n && (#[trigger] entries[j]).1 == a)
}

impl<D> SceneView<D> {
    /// The scene without the alias nodes among `held`.
    pub open spec fn without_held(self, held: Set<NodeId>) -> SceneView<D> {
        SceneView {
            nodes: Seq::new(
                self.nodes.len(),
                |i: int|
                    if held.contains(i as NodeId) && self.is_alias(i as NodeId) {
                        None
                    } else {
                        self.nodes[i]
                    },
            ),
            ..self
        }
    }

    /// Takes the handler `h` from the sight of each of the methods `ms` in
    /// turn, and collects the notices that are owed.
    pub open spec fn drop_handler(self, ms: Seq<NodeId>, h: NodeId) -> (SceneView<D>, Seq<Notice>)
        decreases ms.len(),
    {
        if ms.len() == 0 {
            (self, Seq::empty())
        } else {
            let before = self.drop_handler(ms.drop_last(), h);
            let after = before.0.handle_drop_handler(ms.last(), h);
            (
                after.0,
                match after.1 {
                    Some(notice) => before.1.push(notice),
                    None => before.1,
                },
            )
        }
    }

    /// The alias nodes that the node `id` holds, through its input method
    /// and through its input handler.
    pub open spec fn held_by(self, id: NodeId) -> Set<NodeId> {
        (if self.is_method(id) {
            held_in(self.method(id).handler_aliases)
        } else {
            Set::empty()
        }).union(
            if self.is_handler(id) {
                held_in(self.handler(id).method_aliases)
            } else {
                Set::empty()
            },
        )
    }

    /// The scene once the handler of the live node `id`, if it has one, was
    /// taken from the sight of every live method.
    pub open spec fn destroy_torn(self, id: NodeId) -> SceneView<D> {
        if self.is_handler(id) {
            self.drop_handler(self.live(self.input_methods), id).0
        } else {
            self
        }
    }

    /// The scene after the node `id` was destroyed, and the notices owed.
    ///
    /// If the node carries an input handler, the handler is first taken from
    /// the sight of every live method. Then the node goes, and with it the
    /// alias nodes that it holds; it leaves both registries. Aliases of the
    /// node that others hold stay where they are: their target is gone.
    /// Where there is no such node, nothing changes.
    pub open spec fn destroy(self, id: NodeId) -> (SceneView<D>, Seq<Notice>) {
        if !self.alive(id) {
            (self, Seq::empty())
        } else {
            let torn = if self.is_handler(id) {
                self.drop_handler(self.live(self.input_methods), id)
            } else {
                (self, Seq::empty())
            };
            (
                SceneView {
                    input_methods: without(torn.0.input_methods, id),
                    input_handlers: without(torn.0.input_handlers, id),
                    ..torn.0.without_node(id).without_held(torn.0.held_by(id))
                },
                torn.1,
            )
        }
    }
}

impl<D> SceneView<D> {
    /// Two scenes with the same clients, registries and number of slots, in
    /// which the same slots hold a client's own node.
    pub open spec fn same_objects(self, other: SceneView<D>) -> bool {
        &&& self.clients == other.clients
        &&& self.input_methods == other.input_methods
        &&& self.input_handlers == other.input_handlers
        &&& self.nodes.len() == other.nodes.len()
        &&& forall|i: NodeId| #![trigger self.nodes[i as int]] self.is_object(i) == other.is_object(i)
        &&& forall|i: NodeId|
            #![trigger self.nodes[i as int]]
            self.is_object(i) ==> self.node(i).client == other.node(i).client && self.aspects(
                i,
            ).spatial == other.aspects(i).spatial && self.aspects(i).field == other.aspects(i).field
                && self.is_method(i) == other.is_method(i) && self.is_handler(i)
                == other.is_handler(i)
    }

    /// Taking a handler from the sight of a method touches no client, no
    /// registry and no node of a client's own but the method's.
    pub proof fn lemma_handle_drop_handler_frame(self, m: NodeId, h: NodeId)
        ensures
            self.same_objects(self.handle_drop_handler(m, h).0),
    {
    }

    /// Taking a handler from the sight of methods touches no client, no
    /// registry, and leaves every node of a client's own in place.
    pub proof fn lemma_drop_handler_frame(self, ms: Seq<NodeId>, h: NodeId)
        ensures
            self.same_objects(self.drop_handler(ms, h).0),
        decreases ms.len(),
    {
        if ms.len() > 0 {
            self.lemma_drop_handler_frame(ms.drop_last(), h);
            let before = self.drop_handler(ms.drop_last(), h).0;
            before.lemma_handle_drop_handler_frame(ms.last(), h);
        }
    }
}

impl<D> Scene<D> {
    /// Empties the slot `alias` if an alias node is in it.
    pub(crate) fn drop_alias_node(&mut self, alias: NodeId)
        requires
            old(self).sound(),
        ensures
            final(self).sound(),
            final(self)@ == old(self)@.drop_alias(alias),
    {
        if self.alias(alias).is_some() {
            self.nodes[alias] = None;
            assert(self@.nodes =~= old(self)@.drop_alias(alias).nodes);
        } else {
            assert(self@.nodes =~= old(self)@.nodes);
        }
        assert(self@.clients =~= old(self)@.clients);
    }

    /// Destroys the alias nodes that `map` holds.
    fn drop_held(&mut self, map: &LifeLinkedNodeMap)
        requires
            old(self).sound(),
            map.wf(),
        ensures
            final(self).sound(),
            final(self)@ == old(self)@.without_held(held_in(map@)),
    {
        let mut i: usize = 0;
        assert(self@.nodes =~= old(self)@.without_held(held_among(map.entries@, 0)).nodes);
        while i < map.entries.len()
            invariant
                self.sound(),
                map.wf(),
                i <= map.entries.len(),
                self@ == old(self)@.without_held(held_among(map.entries@, i as int)),
            decreases map.entries.len() - i,
        {
            let alias = map.entries[i].1;
            let ghost before = self@;
            self.drop_alias_node(alias);
            proof {
                let smaller = held_among(map.entries@, i as int);
                let larger = held_among(map.entries@, i + 1);
                let goal = old(self)@.without_held(larger);
                assert(self@.nodes.len() == goal.nodes.len());
                assert(goal.nodes.len() == self.nodes.len());
                assert forall|k: int| 0 <= k < goal.nodes.len() implies self@.nodes[k]
                    == goal.nodes[k] by {
                    let a = k as NodeId;
                    assert(before.nodes[k] == if smaller.contains(a) && old(self)@.is_alias(a) {
                        None
                    } else {
                        old(self)@.nodes[k]
                    });
                    assert(self@.nodes[k] == if before.is_alias(alias) && a == alias {
                        None
                    } else {
                        before.nodes[k]
                    });
                    if smaller.contains(a) {
                        let j = choose|j: int| 0 <= j < i && (#[trigger] map.entries@[j]).1 == a;
                        assert(map.entries@[j].1 == a);
                        assert(larger.contains(a));
                    }
                    if a == alias {
                        assert(map.entries@[i as int].1 == a);
                        assert(larger.contains(a));
                    }
                    if larger.contains(a) {
                        let j = choose|j: int|
                            0 <= j < i + 1 && (#[trigger] map.entries@[j]).1 == a;
                        if j < i {
                            assert(smaller.contains(a));
                        }
                    }
                }
                assert(self@.nodes =~= goal.nodes);
            }
            i += 1;
        }
        proof {
            let all = held_among(map.entries@, i as int);
            assert forall|a: NodeId| all.contains(a) <==> held_in(map@).contains(a) by {
                if all.contains(a) {
                    let j = choose|j: int| 0 <= j < i && (#[trigger] map.entries@[j]).1 == a;
                    lemma_entry(map.entries@, j);
                    assert(map@.contains_key(map.entries@[j].0));
                }
                if held_in(map@).contains(a) {
                    let key = choose|key: AliasKey| #[trigger]
                        map@.contains_key(key) && map@[key] == a;
                    lemma_key_position(map.entries@, key);
                    assert(map.entries@[position(map.entries@, key)].1 == a);
                }
            }
            assert(all =~= held_in(map@));
        }
    }

    /// Destroys the node `id`, with all that hangs on it, and returns the
    /// notices owed. Does nothing where there is no such node.
    pub fn destroy_node(&mut self, id: NodeId) -> (notices: Vec<Notice>)
        requires
            old(self).wf(),
        ensures
            final(self).wf(),
            final(self)@ == old(self)@.destroy(id).0,
            notices@ == old(self)@.destroy(id).1,
            !final(self)@.alive(id),
            forall|m: NodeId|
                #![trigger final(self)@.nodes[m as int]]
                old(self)@.is_handler(id) && old(self)@.is_method(m) && m != id ==> {
                    &&& final(self)@.is_method(m)
                    &&& !final(self)@.method(m).handler_aliases.contains_key(AliasKey::Peer(id))
                    &&& !final(self)@.method(m).handler_aliases.contains_key(
                        AliasKey::PeerField(id),
                    )
                    &&& !final(self)@.captured_by(m, id)
                },
    {
        let mut notices: Vec<Notice> = Vec::new();
        if !self.is_alive(id) {
            return notices;
        }
        if self.input_handler(id).is_some() {
            let methods = self.live_methods();
            let mut i: usize = 0;
            while i < methods.len()
                invariant
                    self.wf(),
                    i <= methods.len(),
                    self@ == old(self)@.drop_handler(methods@.take(i as int), id).0,
                    notices@ == old(self)@.drop_handler(methods@.take(i as int), id).1,
                decreases methods.len() - i,
            {
                proof {
                    assert(methods@.take(i + 1).drop_last() =~= methods@.take(i as int));
                    assert(methods@.take(i + 1).last() == methods@[i as int]);
                }
                match InputMethod::handle_drop_handler(self, methods[i], id) {
                    Some(notice) => {
                        notices.push(notice);
                    },
                    None => {},
                }
                i += 1;
            }
            assert(methods@.take(i as int) =~= methods@);
        }
        let ghost torn = self@;
        proof {
            if old(self)@.is_handler(id) {
                old(self)@.lemma_drop_handler_frame(old(self)@.live(old(self)@.input_methods), id);
            }
        }
        assert(torn == old(self)@.destroy_torn(id));
        let slot = &mut self.nodes[id];
        let taken = slot.take();
        assert(self@.clients =~= torn.clients);
        assert(self@.nodes =~= torn.without_node(id).nodes);
        match taken {
            Some(node) => {
                match node.kind {
                    NodeKind::Object(aspects) => {
                        match aspects.input_method {
                            Some(method) => {
                                self.drop_held(&method.handler_aliases);
                            },
                            None => {},
                        }
                        match aspects.input_handler {
                            Some(handler) => {
                                self.drop_held(&handler.method_aliases);
                            },
                            None => {},
                        }
                    },
                    NodeKind::Alias(_) => {},
                }
            },
            None => {},
        }
        assert(self@.nodes =~= torn.without_node(id).without_held(torn.held_by(id)).nodes);
        self.input_methods.remove(id);
        self.input_handlers.remove(id);
        assert(self@.nodes =~= torn.without_node(id).without_held(torn.held_by(id)).nodes);
        proof {
            lemma_without_contains(torn.input_methods, id);
            lemma_without_contains(torn.input_handlers, id);
            assert forall|i: NodeId| #![trigger self@.nodes[i as int]] self@.is_method(i) implies
                self@.input_methods.contains(i) by {
                assert(torn.is_method(i));
                let _ = torn.nodes[i as int];
            }
            assert forall|i: NodeId| #![trigger self@.nodes[i as int]] self@.is_handler(i) implies
                self@.input_handlers.contains(i) by {
                assert(torn.is_handler(i));
                let _ = torn.nodes[i as int];
            }
            assert forall|i: NodeId| #[trigger] self@.input_methods.contains(i) implies self@.is_method(
                i,
            ) by {
                assert(torn.input_methods.contains(i));
                assert(torn.is_method(i));
            }
            assert forall|i: NodeId| #[trigger] self@.input_handlers.contains(i) implies self@.is_handler(
                i,
            ) by {
                assert(torn.input_handlers.contains(i));
                assert(torn.is_handler(i));
            }
            assert forall|m: NodeId|
                #![trigger self@.nodes[m as int]]
                old(self)@.is_handler(id) && old(self)@.is_method(m) && m != id implies self@.is_method(
                m,
            ) && !self@.method(m).handler_aliases.contains_key(AliasKey::Peer(id))
                && !self@.method(m).handler_aliases.contains_key(AliasKey::PeerField(id))
                && !self@.captured_by(m, id) by {
                old(self)@.lemma_destroy_unwires(id, m);
            }
        }
        notices
    }
}

impl<D> Node<D> {
    /// Whether the node is sound as the node `id`.
    pub fn is_wf(&self, id: NodeId) -> (b: bool)
        ensures
            b == self.wf(id),
    {
        match &self.kind {
            NodeKind::Object(aspects) => {
                let method = match &aspects.input_method {
                    Some(m) => m.captures.is_wf() && m.handler_aliases.is_wf() && m.node == id,
                    None => true,
                };
                let handler = match &aspects.input_handler {
                    Some(h) => h.method_aliases.is_wf() && h.node == id,
                    None => true,
                };
                method && handler
            },
            NodeKind::Alias(_) => true,
        }
    }
}

impl<D> Scene<D> {
    /// Whether the scene is well formed. A scene that was made by
    /// [`Scene::new`] and changed only by the functions of this library is;
    /// one that was put together by hand may not be.
    pub fn is_well_formed(&self) -> (b: bool)
        ensures
            b == self.wf(),
    {
        assert(self@.nodes.len() == self.nodes.len());
        if !self.input_methods.is_wf() || !self.input_handlers.is_wf() {
            return false;
        }
        let mut i: usize = 0;
        while i < self.nodes.len()
            invariant
                i <= self.nodes.len(),
                forall|k: int|
                    0 <= k < i ==> ((#[trigger] self.nodes@[k]) matches Some(n) ==> n.wf(k as NodeId)),
                forall|k: NodeId|
                    #![trigger self@.nodes[k as int]]
                    k < i && self@.is_method(k) ==> self@.input_methods.contains(k),
                forall|k: NodeId|
                    #![trigger self@.nodes[k as int]]
                    k < i && self@.is_handler(k) ==> self@.input_handlers.contains(k),
            decreases self.nodes.len() - i,
        {
            match &self.nodes[i] {
                Some(node) => {
                    if !node.is_wf(i) {
                        return false;
                    }
                    let is_method = self.input_method(i).is_some();
                    let is_handler = self.input_handler(i).is_some();
                    if is_method && !self.input_methods.contains(i) {
                        return false;
                    }
                    if is_handler && !self.input_handlers.contains(i) {
                        return false;
                    }
                },
                None => {},
            }
            i += 1;
        }
        let mut j: usize = 0;
        while j < self.input_methods.entries.len()
            invariant
                j <= self.input_methods.entries.len(),
                forall|k: int|
                    0 <= k < j ==> self@.is_method(#[trigger] self.input_methods.entries@[k]),
            decreases self.input_methods.entries.len() - j,
        {
            if self.input_method(self.input_methods.entries[j]).is_none() {
                assert(self@.input_methods.contains(self.input_methods.entries@[j as int]));
                return false;
            }
            j += 1;
        }
        let mut j: usize = 0;
        while j < self.input_handlers.entries.len()
            invariant
                j <= self.input_handlers.entries.len(),
                forall|k: int|
                    0 <= k < j ==> self@.is_handler(#[trigger] self.input_handlers.entries@[k]),
            decreases self.input_handlers.entries.len() - j,
        {
            if self.input_handler(self.input_handlers.entries[j]).is_none() {
                assert(self@.input_handlers.contains(self.input_handlers.entries@[j as int]));
                return false;
            }
            j += 1;
        }
        true
    }
}

} // verus!
