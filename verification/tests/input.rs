use stardust_server::alias::Name;
use stardust_server::input::handler::InputHandler;
use stardust_server::input::method::InputMethod;
use stardust_server::input::{halve, Distance, Notice};
use stardust_server::node_collections::AliasKey;
use stardust_server::scene::{NodeError, NodeKind, Scene};
use stardust_xr::values::Datamap;
use std::collections::BTreeMap;

#[derive(Clone, Debug, PartialEq)]
enum Payload {
    Pointer { origin: [f32; 3], direction: [f32; 3] },
    Tip { origin: [f32; 3] },
}

fn datamap(key: &str, value: i32) -> Datamap {
    let mut map = BTreeMap::new();
    map.insert(key.to_string(), value);
    Datamap::from_typed(map).unwrap()
}

fn pointer_at(z: f32) -> Payload {
    Payload::Pointer { origin: [0.0, 0.0, z], direction: [0.0, 0.0, -1.0] }
}

/// The distance from `point` to a sphere of radius `radius` about the
/// origin, in thousandths.
fn sphere_distance(point: [f32; 3], radius: f32) -> Distance {
    let length = (point[0] * point[0] + point[1] * point[1] + point[2] * point[2]).sqrt();
    ((length - radius) * 1000.0).round() as Distance
}

fn handler_on(scene: &mut Scene<Payload>, client: usize) -> usize {
    let node = scene.create_node(client, true, true).unwrap();
    InputHandler::add_to(scene, node, node).unwrap();
    node
}

fn alias_at(scene: &Scene<Payload>, id: usize) -> (usize, usize, Name, usize, bool) {
    let node = scene.node(id).unwrap();
    match &node.kind {
        NodeKind::Alias(a) => (node.client, a.parent, a.name, a.target, a.enabled),
        NodeKind::Object(_) => panic!("node {} is no alias", id),
    }
}

#[test]
fn handler_then_method_end_to_end() {
    let mut scene: Scene<Payload> = Scene::new();
    let handler_client = scene.connect_client();
    let method_client = scene.connect_client();
    let h = handler_on(&mut scene, handler_client);
    let m = scene.create_node(method_client, true, false).unwrap();
    let notices = InputMethod::add_to(&mut scene, m, pointer_at(3.0), datamap("select", 0)).unwrap();
    assert_eq!(notices, vec![Notice::HandlerCreated { method: m, handler: h }]);

    let method = scene.input_method(m).unwrap();
    let handler_alias = method.handler_aliases.get(AliasKey::Peer(h)).unwrap();
    let field_alias = method.handler_aliases.get(AliasKey::PeerField(h)).unwrap();
    assert_eq!(alias_at(&scene, handler_alias), (method_client, m, Name::Peer(h), h, true));
    assert_eq!(alias_at(&scene, field_alias), (method_client, handler_alias, Name::Field, h, true));
    let method_alias =
        scene.input_handler(h).unwrap().method_aliases.get(AliasKey::Peer(m)).unwrap();
    assert_eq!(alias_at(&scene, method_alias), (handler_client, h, Name::Peer(m), m, false));

    let raw = sphere_distance([0.0, 0.0, 3.0], 1.0);
    assert_eq!(raw, 2000);
    let method = scene.input_method(m).unwrap();
    let handler = scene.input_handler(h).unwrap();
    assert_eq!(method.compare_distance(handler, raw), 2000);
    assert!(!InputMethod::is_captured_by(&scene, m, h));

    assert_eq!(InputMethod::capture(&mut scene, m, h), Ok(()));
    let method = scene.input_method(m).unwrap();
    let handler = scene.input_handler(h).unwrap();
    assert_eq!(method.compare_distance(handler, raw), 1000);
    assert!(InputMethod::is_captured_by(&scene, m, h));

    let notices = scene.destroy_node(h);
    assert_eq!(notices, vec![Notice::HandlerDestroyed { method: m, handler: h }]);
    assert!(!InputMethod::is_captured_by(&scene, m, h));
    let method = scene.input_method(m).unwrap();
    assert_eq!(method.handler_aliases.get(AliasKey::Peer(h)), None);
    assert_eq!(method.handler_aliases.get(AliasKey::PeerField(h)), None);
    assert!(method.handler_aliases.entries.is_empty());
    assert!(scene.node(handler_alias).is_none());
    assert!(scene.node(field_alias).is_none());
    assert!(scene.node(method_alias).is_none());
    assert!(scene.node(h).is_none());
    assert!(scene.input_handlers.entries.is_empty());
    assert_eq!(scene.input_methods.entries, vec![m]);
}

#[test]
fn two_handlers_before_method_are_wired_both_ways() {
    let mut scene: Scene<Payload> = Scene::new();
    let c1 = scene.connect_client();
    let c2 = scene.connect_client();
    let c3 = scene.connect_client();
    let near = handler_on(&mut scene, c1);
    let far = handler_on(&mut scene, c2);
    let m = scene.create_node(c3, true, false).unwrap();
    let notices = InputMethod::add_to(&mut scene, m, pointer_at(1.0), datamap("a", 1)).unwrap();
    assert_eq!(
        notices,
        vec![
            Notice::HandlerCreated { method: m, handler: near },
            Notice::HandlerCreated { method: m, handler: far },
        ]
    );
    let method = scene.input_method(m).unwrap();
    for h in [near, far] {
        let alias = method.handler_aliases.get(AliasKey::Peer(h)).unwrap();
        assert_eq!(alias_at(&scene, alias), (c3, m, Name::Peer(h), h, true));
        let field = method.handler_aliases.get(AliasKey::PeerField(h)).unwrap();
        assert_eq!(alias_at(&scene, field), (c3, alias, Name::Field, h, true));
        let client = scene.node(h).unwrap().client;
        let back = scene.input_handler(h).unwrap().method_aliases.get(AliasKey::Peer(m)).unwrap();
        assert_eq!(alias_at(&scene, back), (client, h, Name::Peer(m), m, false));
    }
    assert_eq!(method.handler_aliases.entries.len(), 4);
    assert_eq!(scene.input_handler(near).unwrap().method_aliases.entries.len(), 1);
    assert_eq!(scene.input_handler(far).unwrap().method_aliases.entries.len(), 1);
    assert_eq!(scene.nodes.len(), 3 + 6);
}

#[test]
fn method_then_handler_is_wired_the_same() {
    let mut scene: Scene<Payload> = Scene::new();
    let c1 = scene.connect_client();
    let c2 = scene.connect_client();
    let m = scene.create_node(c1, true, false).unwrap();
    assert_eq!(InputMethod::add_to(&mut scene, m, pointer_at(1.0), datamap("a", 1)), Ok(vec![]));
    let field = scene.create_node(c2, true, true).unwrap();
    let h = scene.create_node(c2, true, false).unwrap();
    let notices = InputHandler::add_to(&mut scene, h, field).unwrap();
    assert_eq!(notices, vec![Notice::HandlerCreated { method: m, handler: h }]);
    let method = scene.input_method(m).unwrap();
    let alias = method.handler_aliases.get(AliasKey::Peer(h)).unwrap();
    assert_eq!(alias_at(&scene, alias), (c1, m, Name::Peer(h), h, true));
    let field_alias = method.handler_aliases.get(AliasKey::PeerField(h)).unwrap();
    assert_eq!(alias_at(&scene, field_alias), (c1, alias, Name::Field, field, true));
    let back = scene.input_handler(h).unwrap().method_aliases.get(AliasKey::Peer(m)).unwrap();
    assert_eq!(alias_at(&scene, back), (c2, h, Name::Peer(m), m, false));
    assert_eq!(scene.input_handler(h).unwrap().field, field);
}

#[test]
fn new_method_starts_enabled_and_unclaimed() {
    let mut scene: Scene<Payload> = Scene::new();
    let c = scene.connect_client();
    let m = scene.create_node(c, true, false).unwrap();
    InputMethod::add_to(&mut scene, m, pointer_at(1.0), datamap("a", 1)).unwrap();
    let method = scene.input_method(m).unwrap();
    assert_eq!(method.node, m);
    assert_eq!(method.spatial, m);
    assert!(method.enabled);
    assert_eq!(method.data, pointer_at(1.0));
    assert_eq!(method.datamap, datamap("a", 1));
    assert!(method.captures.entries.is_empty());
    assert!(method.handler_aliases.entries.is_empty());
    assert_eq!(method.handler_order, None);
    assert_eq!(scene.input_methods.entries, vec![m]);
}

#[test]
fn method_needs_a_node_with_a_spatial() {
    let mut scene: Scene<Payload> = Scene::new();
    let c = scene.connect_client();
    let bare = scene.create_node(c, false, false).unwrap();
    let good = scene.create_node(c, true, false).unwrap();
    assert_eq!(
        InputMethod::add_to(&mut scene, 9, pointer_at(1.0), datamap("a", 1)),
        Err(NodeError::NodeNotFound)
    );
    assert_eq!(
        InputMethod::add_to(&mut scene, bare, pointer_at(1.0), datamap("a", 1)),
        Err(NodeError::SpatialNotFound)
    );
    assert_eq!(InputMethod::add_to(&mut scene, good, pointer_at(1.0), datamap("a", 1)), Ok(vec![]));
    assert_eq!(
        InputMethod::add_to(&mut scene, good, pointer_at(2.0), datamap("a", 1)),
        Err(NodeError::AlreadyAttached)
    );
    assert_eq!(scene.input_method(good).unwrap().data, pointer_at(1.0));
    assert_eq!(scene.input_methods.entries, vec![good]);
}

#[test]
fn handler_needs_a_field() {
    let mut scene: Scene<Payload> = Scene::new();
    let c = scene.connect_client();
    let no_field = scene.create_node(c, true, false).unwrap();
    let field = scene.create_node(c, true, true).unwrap();
    assert_eq!(InputHandler::add_to(&mut scene, 9, field), Err(NodeError::NodeNotFound));
    assert_eq!(InputHandler::add_to(&mut scene, no_field, no_field), Err(NodeError::FieldNotFound));
    assert_eq!(InputHandler::add_to(&mut scene, no_field, 9), Err(NodeError::FieldNotFound));
    assert_eq!(InputHandler::add_to(&mut scene, no_field, field), Ok(vec![]));
    assert_eq!(InputHandler::add_to(&mut scene, no_field, field), Err(NodeError::AlreadyAttached));
    assert_eq!(scene.input_handlers.entries, vec![no_field]);
}

#[test]
fn aliases_are_no_nodes_to_attach_to() {
    let mut scene: Scene<Payload> = Scene::new();
    let c1 = scene.connect_client();
    let c2 = scene.connect_client();
    let h = handler_on(&mut scene, c1);
    let m = scene.create_node(c2, true, false).unwrap();
    InputMethod::add_to(&mut scene, m, pointer_at(1.0), datamap("a", 1)).unwrap();
    let alias = scene.input_method(m).unwrap().handler_aliases.get(AliasKey::Peer(h)).unwrap();
    assert_eq!(
        InputMethod::add_to(&mut scene, alias, pointer_at(1.0), datamap("a", 1)),
        Err(NodeError::NodeNotFound)
    );
    assert_eq!(InputHandler::add_to(&mut scene, alias, h), Err(NodeError::NodeNotFound));
}

#[test]
fn wiring_is_skipped_for_a_handler_whose_client_is_gone() {
    let mut scene: Scene<Payload> = Scene::new();
    let c1 = scene.connect_client();
    let c2 = scene.connect_client();
    let c3 = scene.connect_client();
    let gone = handler_on(&mut scene, c1);
    let here = handler_on(&mut scene, c2);
    scene.disconnect_client(c1);
    let m = scene.create_node(c3, true, false).unwrap();
    let notices = InputMethod::add_to(&mut scene, m, pointer_at(1.0), datamap("a", 1)).unwrap();
    assert_eq!(notices, vec![Notice::HandlerCreated { method: m, handler: here }]);
    let method = scene.input_method(m).unwrap();
    assert_eq!(method.handler_aliases.get(AliasKey::Peer(gone)), None);
    assert!(method.handler_aliases.get(AliasKey::Peer(here)).is_some());
    assert!(scene.input_handler(gone).unwrap().method_aliases.entries.is_empty());
}

#[test]
fn wiring_is_skipped_when_the_method_client_is_gone() {
    let mut scene: Scene<Payload> = Scene::new();
    let c1 = scene.connect_client();
    let c2 = scene.connect_client();
    let h = handler_on(&mut scene, c1);
    let m = scene.create_node(c2, true, false).unwrap();
    scene.disconnect_client(c2);
    let notices = InputMethod::add_to(&mut scene, m, pointer_at(1.0), datamap("a", 1)).unwrap();
    assert_eq!(notices, vec![]);
    assert!(scene.input_method(m).unwrap().handler_aliases.entries.is_empty());
    assert!(scene.input_handler(h).unwrap().method_aliases.entries.is_empty());
    assert_eq!(scene.nodes.len(), 2);
}

#[test]
fn wiring_twice_collides_and_changes_nothing() {
    let mut scene: Scene<Payload> = Scene::new();
    let c1 = scene.connect_client();
    let c2 = scene.connect_client();
    let h = handler_on(&mut scene, c1);
    let m = scene.create_node(c2, true, false).unwrap();
    InputMethod::add_to(&mut scene, m, pointer_at(1.0), datamap("a", 1)).unwrap();
    let nodes = scene.nodes.len();
    let alias = scene.input_method(m).unwrap().handler_aliases.get(AliasKey::Peer(h));
    assert_eq!(InputMethod::handle_new_handler(&mut scene, m, h), None);
    InputMethod::make_alias(&mut scene, m, h);
    assert_eq!(scene.nodes.len(), nodes);
    assert_eq!(scene.input_method(m).unwrap().handler_aliases.get(AliasKey::Peer(h)), alias);
    assert_eq!(scene.input_method(m).unwrap().handler_aliases.entries.len(), 2);
    assert_eq!(scene.input_handler(h).unwrap().method_aliases.entries.len(), 1);
}

#[test]
fn handler_without_a_live_field_is_shown_without_it() {
    let mut scene: Scene<Payload> = Scene::new();
    let c1 = scene.connect_client();
    let c2 = scene.connect_client();
    let field = scene.create_node(c1, true, true).unwrap();
    let h = scene.create_node(c1, true, false).unwrap();
    InputHandler::add_to(&mut scene, h, field).unwrap();
    scene.destroy_node(field);
    let m = scene.create_node(c2, true, false).unwrap();
    let notices = InputMethod::add_to(&mut scene, m, pointer_at(1.0), datamap("a", 1)).unwrap();
    assert_eq!(notices, vec![Notice::HandlerCreated { method: m, handler: h }]);
    let method = scene.input_method(m).unwrap();
    assert!(method.handler_aliases.get(AliasKey::Peer(h)).is_some());
    assert_eq!(method.handler_aliases.get(AliasKey::PeerField(h)), None);
}

#[test]
fn no_notice_when_the_field_cannot_be_shown() {
    let mut scene: Scene<Payload> = Scene::new();
    let c1 = scene.connect_client();
    let c2 = scene.connect_client();
    let c3 = scene.connect_client();
    let field = scene.create_node(c3, true, true).unwrap();
    let h = scene.create_node(c1, true, false).unwrap();
    InputHandler::add_to(&mut scene, h, field).unwrap();
    scene.disconnect_client(c3);
    let m = scene.create_node(c2, true, false).unwrap();
    let notices = InputMethod::add_to(&mut scene, m, pointer_at(1.0), datamap("a", 1)).unwrap();
    assert_eq!(notices, vec![]);
    let method = scene.input_method(m).unwrap();
    assert!(method.handler_aliases.get(AliasKey::Peer(h)).is_some());
    assert_eq!(method.handler_aliases.get(AliasKey::PeerField(h)), None);
    assert!(scene.input_handler(h).unwrap().method_aliases.get(AliasKey::Peer(m)).is_some());
}

#[test]
fn the_aliases_carry_the_fixed_allowlists() {
    let mut scene: Scene<Payload> = Scene::new();
    let c1 = scene.connect_client();
    let c2 = scene.connect_client();
    let h = handler_on(&mut scene, c1);
    let m = scene.create_node(c2, true, false).unwrap();
    InputMethod::add_to(&mut scene, m, pointer_at(1.0), datamap("a", 1)).unwrap();
    let method = scene.input_method(m).unwrap();
    let handler_alias = method.handler_aliases.get(AliasKey::Peer(h)).unwrap();
    let field_alias = method.handler_aliases.get(AliasKey::PeerField(h)).unwrap();
    let method_alias =
        scene.input_handler(h).unwrap().method_aliases.get(AliasKey::Peer(m)).unwrap();
    let a = scene.alias(handler_alias).unwrap();
    assert_eq!(a.info.server_methods, vec!["get_transform".to_string()]);
    assert!(a.info.server_signals.is_empty());
    let f = scene.alias(field_alias).unwrap();
    assert_eq!(
        f.info.server_methods,
        vec![
            "distance".to_string(),
            "normal".to_string(),
            "closest_point".to_string(),
            "ray_march".to_string()
        ]
    );
    assert!(f.info.server_signals.is_empty());
    let b = scene.alias(method_alias).unwrap();
    assert_eq!(b.info.server_signals, vec!["capture".to_string()]);
    assert!(b.info.server_methods.is_empty());
}

#[test]
fn capture_event_is_held_back_until_the_alias_is_enabled() {
    let mut scene: Scene<Payload> = Scene::new();
    let c1 = scene.connect_client();
    let c2 = scene.connect_client();
    let h = handler_on(&mut scene, c1);
    let m = scene.create_node(c2, true, false).unwrap();
    InputMethod::add_to(&mut scene, m, pointer_at(1.0), datamap("a", 1)).unwrap();
    let method_alias = InputHandler::method_alias(&mut scene, h, m).unwrap();
    let capture = "capture".to_string();
    assert_eq!(scene.signal_target(method_alias, &capture), None);
    scene.set_alias_enabled(method_alias, true);
    assert_eq!(scene.signal_target(method_alias, &capture), Some(m));
    assert_eq!(scene.method_target(method_alias, &"get_transform".to_string()), None);
}

#[test]
fn capture_twice_is_capture_once() {
    let mut scene: Scene<Payload> = Scene::new();
    let c = scene.connect_client();
    let h = handler_on(&mut scene, c);
    let m = scene.create_node(c, true, false).unwrap();
    InputMethod::add_to(&mut scene, m, pointer_at(1.0), datamap("a", 1)).unwrap();
    InputMethod::capture(&mut scene, m, h).unwrap();
    let once = scene.input_method(m).unwrap().captures.entries.clone();
    InputMethod::capture(&mut scene, m, h).unwrap();
    let twice = scene.input_method(m).unwrap().captures.entries.clone();
    assert_eq!(once, vec![h]);
    assert_eq!(twice, once);
}

#[test]
fn capture_needs_both_capabilities() {
    let mut scene: Scene<Payload> = Scene::new();
    let c = scene.connect_client();
    let h = handler_on(&mut scene, c);
    let m = scene.create_node(c, true, false).unwrap();
    let plain = scene.create_node(c, true, false).unwrap();
    InputMethod::add_to(&mut scene, m, pointer_at(1.0), datamap("a", 1)).unwrap();
    assert_eq!(InputMethod::capture(&mut scene, plain, h), Err(NodeError::InputMethodNotFound));
    assert_eq!(InputMethod::capture(&mut scene, h, h), Err(NodeError::InputMethodNotFound));
    assert_eq!(InputMethod::capture(&mut scene, m, plain), Err(NodeError::InputHandlerNotFound));
    assert_eq!(InputMethod::capture(&mut scene, m, 99), Err(NodeError::InputHandlerNotFound));
    assert_eq!(InputMethod::capture(&mut scene, 99, 99), Err(NodeError::InputMethodNotFound));
    assert!(scene.input_method(m).unwrap().captures.entries.is_empty());
}

#[test]
fn released_captures_bias_nothing() {
    let mut scene: Scene<Payload> = Scene::new();
    let c = scene.connect_client();
    let h = handler_on(&mut scene, c);
    let m = scene.create_node(c, true, false).unwrap();
    InputMethod::add_to(&mut scene, m, pointer_at(1.0), datamap("a", 1)).unwrap();
    InputMethod::capture(&mut scene, m, h).unwrap();
    InputMethod::release_captures(&mut scene, m);
    assert!(!InputMethod::is_captured_by(&scene, m, h));
    let method = scene.input_method(m).unwrap();
    assert_eq!(method.compare_distance(scene.input_handler(h).unwrap(), 500), 500);
}

#[test]
fn compare_distance_halves_toward_minus_infinity() {
    let mut scene: Scene<Payload> = Scene::new();
    let c = scene.connect_client();
    let h = handler_on(&mut scene, c);
    let other = handler_on(&mut scene, c);
    let m = scene.create_node(c, true, false).unwrap();
    InputMethod::add_to(&mut scene, m, pointer_at(1.0), datamap("a", 1)).unwrap();
    InputMethod::capture(&mut scene, m, h).unwrap();
    let method = scene.input_method(m).unwrap();
    let captured = scene.input_handler(h).unwrap();
    let free = scene.input_handler(other).unwrap();
    assert_eq!(method.compare_distance(captured, 7), 3);
    assert_eq!(method.compare_distance(captured, -7), -4);
    assert_eq!(method.compare_distance(captured, 0), 0);
    assert_eq!(method.compare_distance(captured, -1), -1);
    assert_eq!(method.compare_distance(free, 7), 7);
    assert_eq!(method.compare_distance(free, -7), -7);
}

#[test]
fn halve_at_the_ends_of_the_range() {
    assert_eq!(halve(i64::MAX), i64::MAX / 2);
    assert_eq!(halve(i64::MIN), i64::MIN / 2);
    assert_eq!(halve(i64::MIN + 1), i64::MIN / 2);
    assert_eq!(halve(1), 0);
    assert_eq!(halve(-2), -1);
    assert_eq!(halve(-3), -2);
}

#[test]
fn set_input_replaces_the_payload() {
    let mut scene: Scene<Payload> = Scene::new();
    let c = scene.connect_client();
    let m = scene.create_node(c, true, false).unwrap();
    let plain = scene.create_node(c, true, false).unwrap();
    InputMethod::add_to(&mut scene, m, pointer_at(1.0), datamap("a", 1)).unwrap();
    assert_eq!(InputMethod::set_input(&mut scene, m, pointer_at(2.5)), Ok(()));
    assert_eq!(scene.input_method(m).unwrap().data, pointer_at(2.5));
    let tip = Payload::Tip { origin: [1.0, 2.0, 3.0] };
    assert_eq!(InputMethod::set_input(&mut scene, m, tip.clone()), Ok(()));
    assert_eq!(scene.input_method(m).unwrap().data, tip);
    assert_eq!(
        InputMethod::set_input(&mut scene, plain, pointer_at(1.0)),
        Err(NodeError::InputMethodNotFound)
    );
}

#[test]
fn set_datamap_replaces_the_datamap() {
    let mut scene: Scene<Payload> = Scene::new();
    let c = scene.connect_client();
    let m = scene.create_node(c, true, false).unwrap();
    InputMethod::add_to(&mut scene, m, pointer_at(1.0), datamap("a", 1)).unwrap();
    assert_eq!(InputMethod::set_datamap(&mut scene, m, datamap("grab", 2)), Ok(()));
    let method = scene.input_method(m).unwrap();
    assert_eq!(method.datamap, datamap("grab", 2));
    assert_ne!(method.datamap, datamap("a", 1));
    assert_eq!(method.data, pointer_at(1.0));
    assert_eq!(
        InputMethod::set_datamap(&mut scene, 42, datamap("grab", 2)),
        Err(NodeError::InputMethodNotFound)
    );
}

#[test]
fn stale_alias_is_pruned_at_lookup() {
    let mut scene: Scene<Payload> = Scene::new();
    let c1 = scene.connect_client();
    let c2 = scene.connect_client();
    let h = handler_on(&mut scene, c1);
    let m = scene.create_node(c2, true, false).unwrap();
    InputMethod::add_to(&mut scene, m, pointer_at(1.0), datamap("a", 1)).unwrap();
    let method_alias = InputHandler::method_alias(&mut scene, h, m).unwrap();
    assert_eq!(InputMethod::handler_alias(&mut scene, m, h).map(|a| alias_at(&scene, a).3), Some(h));
    assert_eq!(scene.destroy_node(m), vec![]);
    assert!(scene.input_methods.entries.is_empty());
    assert_eq!(
        scene.input_handler(h).unwrap().method_aliases.get(AliasKey::Peer(m)),
        Some(method_alias)
    );
    assert!(scene.node(method_alias).is_some());
    assert_eq!(InputHandler::method_alias(&mut scene, h, m), None);
    assert_eq!(scene.input_handler(h).unwrap().method_aliases.get(AliasKey::Peer(m)), None);
    assert!(scene.node(method_alias).is_none());
    assert_eq!(InputHandler::method_alias(&mut scene, h, m), None);
    assert_eq!(InputMethod::handler_alias(&mut scene, m, h), None);
}

#[test]
fn destroying_a_method_takes_its_aliases_along() {
    let mut scene: Scene<Payload> = Scene::new();
    let c1 = scene.connect_client();
    let c2 = scene.connect_client();
    let h = handler_on(&mut scene, c1);
    let m = scene.create_node(c2, true, false).unwrap();
    InputMethod::add_to(&mut scene, m, pointer_at(1.0), datamap("a", 1)).unwrap();
    let method = scene.input_method(m).unwrap();
    let handler_alias = method.handler_aliases.get(AliasKey::Peer(h)).unwrap();
    let field_alias = method.handler_aliases.get(AliasKey::PeerField(h)).unwrap();
    scene.destroy_node(m);
    assert!(scene.node(m).is_none());
    assert!(scene.node(handler_alias).is_none());
    assert!(scene.node(field_alias).is_none());
    assert!(scene.node(h).is_some());
    assert_eq!(scene.destroy_node(m), vec![]);
}

#[test]
fn a_stale_capture_counts_for_nothing() {
    let mut scene: Scene<Payload> = Scene::new();
    let c = scene.connect_client();
    let h = handler_on(&mut scene, c);
    let m = scene.create_node(c, true, false).unwrap();
    InputMethod::add_to(&mut scene, m, pointer_at(1.0), datamap("a", 1)).unwrap();
    InputMethod::capture(&mut scene, m, h).unwrap();
    scene.destroy_node(h);
    assert_eq!(scene.input_method(m).unwrap().captures.entries, vec![h]);
    assert!(!InputMethod::is_captured_by(&scene, m, h));
    assert!(scene.input_method(m).unwrap().captures.get_valid_contents(&scene).is_empty());
}

#[test]
fn every_method_is_told_that_a_handler_is_gone() {
    let mut scene: Scene<Payload> = Scene::new();
    let c = scene.connect_client();
    let m1 = scene.create_node(c, true, false).unwrap();
    let m2 = scene.create_node(c, true, false).unwrap();
    InputMethod::add_to(&mut scene, m1, pointer_at(1.0), datamap("a", 1)).unwrap();
    InputMethod::add_to(&mut scene, m2, pointer_at(1.0), datamap("a", 1)).unwrap();
    let h = scene.create_node(c, true, true).unwrap();
    assert_eq!(
        InputHandler::add_to(&mut scene, h, h),
        Ok(vec![
            Notice::HandlerCreated { method: m1, handler: h },
            Notice::HandlerCreated { method: m2, handler: h },
        ])
    );
    assert_eq!(
        scene.destroy_node(h),
        vec![
            Notice::HandlerDestroyed { method: m1, handler: h },
            Notice::HandlerDestroyed { method: m2, handler: h },
        ]
    );
    for m in [m1, m2] {
        assert!(scene.input_method(m).unwrap().handler_aliases.entries.is_empty());
    }
    let live: Vec<bool> = scene.nodes.iter().map(|n| n.is_some()).collect();
    assert_eq!(live, vec![true, true, false, false, false, false, false, false, false]);
}

#[test]
fn method_can_be_disabled_and_enabled() {
    let mut scene: Scene<Payload> = Scene::new();
    let c = scene.connect_client();
    let m = scene.create_node(c, true, false).unwrap();
    InputMethod::add_to(&mut scene, m, pointer_at(1.0), datamap("a", 1)).unwrap();
    assert_eq!(InputMethod::set_enabled(&mut scene, m, false), Ok(()));
    assert!(!scene.input_method(m).unwrap().enabled);
    assert_eq!(InputMethod::set_enabled(&mut scene, m, true), Ok(()));
    assert!(scene.input_method(m).unwrap().enabled);
    assert_eq!(InputMethod::set_enabled(&mut scene, 5, true), Err(NodeError::InputMethodNotFound));
}

#[test]
fn wiring_and_teardown_keep_the_scene_well_formed() {
    let mut scene: Scene<Payload> = Scene::new();
    let c1 = scene.connect_client();
    let c2 = scene.connect_client();
    let h = handler_on(&mut scene, c1);
    let m = scene.create_node(c2, true, false).unwrap();
    InputMethod::add_to(&mut scene, m, pointer_at(1.0), datamap("a", 1)).unwrap();
    assert!(scene.is_well_formed());
    InputMethod::capture(&mut scene, m, h).unwrap();
    InputMethod::set_handler_order(&mut scene, m, Some(vec![h])).unwrap();
    assert!(scene.is_well_formed());
    scene.destroy_node(h);
    assert!(scene.is_well_formed());
    scene.destroy_node(m);
    assert!(scene.is_well_formed());
    assert!(scene.input_methods.entries.is_empty());
}

#[test]
fn a_method_that_names_another_node_is_not_well_formed() {
    let mut scene: Scene<Payload> = Scene::new();
    let c = scene.connect_client();
    let m = scene.create_node(c, true, false).unwrap();
    InputMethod::add_to(&mut scene, m, pointer_at(1.0), datamap("a", 1)).unwrap();
    assert!(scene.is_well_formed());
    if let Some(node) = scene.nodes[m].as_mut() {
        if let NodeKind::Object(aspects) = &mut node.kind {
            aspects.input_method.as_mut().unwrap().node = 5;
        }
    }
    assert!(!scene.is_well_formed());
}
