use stardust_server::alias::{Alias, AliasError, AliasInfo, Name};
use stardust_server::scene::{NodeError, NodeKind, Scene};

fn info(signals: &[&str], methods: &[&str]) -> AliasInfo {
    AliasInfo {
        server_signals: signals.iter().map(|s| s.to_string()).collect(),
        server_methods: methods.iter().map(|s| s.to_string()).collect(),
    }
}

#[test]
fn node_needs_a_connected_client() {
    let mut scene: Scene<u8> = Scene::new();
    assert_eq!(scene.create_node(0, true, false), Err(NodeError::ClientGone));
    let client = scene.connect_client();
    assert_eq!(scene.create_node(client, true, false), Ok(0));
    scene.disconnect_client(client);
    assert!(!scene.is_connected(client));
    assert_eq!(scene.create_node(client, true, false), Err(NodeError::ClientGone));
    assert_eq!(scene.nodes.len(), 1);
}

#[test]
fn alias_is_created_enabled_in_the_requesting_namespace() {
    let mut scene: Scene<u8> = Scene::new();
    let a = scene.connect_client();
    let b = scene.connect_client();
    let target = scene.create_node(a, true, false).unwrap();
    let mount = scene.create_node(b, true, false).unwrap();
    let alias = Alias::create(
        &mut scene,
        b,
        mount,
        Name::Peer(target),
        target,
        info(&["capture"], &["get_transform"]),
    )
    .unwrap();
    assert_eq!(alias, 2);
    let node = scene.node(alias).unwrap();
    assert_eq!(node.client, b);
    match &node.kind {
        NodeKind::Alias(made) => {
            assert_eq!(made.parent, mount);
            assert_eq!(made.name, Name::Peer(target));
            assert_eq!(made.target, target);
            assert!(made.enabled);
            assert_eq!(made.info.server_signals, vec!["capture".to_string()]);
            assert_eq!(made.info.server_methods, vec!["get_transform".to_string()]);
        }
        NodeKind::Object(_) => panic!("an alias was asked for"),
    }
}

#[test]
fn alias_fails_when_the_requesting_client_is_gone() {
    let mut scene: Scene<u8> = Scene::new();
    let a = scene.connect_client();
    let b = scene.connect_client();
    let target = scene.create_node(a, true, false).unwrap();
    let mount = scene.create_node(b, true, false).unwrap();
    scene.disconnect_client(b);
    let r = Alias::create(&mut scene, b, mount, Name::Peer(target), target, AliasInfo::none());
    assert_eq!(r, Err(AliasError::ClientGone));
    assert_eq!(scene.nodes.len(), 2);
}

#[test]
fn alias_fails_when_the_target_has_no_client() {
    let mut scene: Scene<u8> = Scene::new();
    let a = scene.connect_client();
    let b = scene.connect_client();
    let target = scene.create_node(a, true, false).unwrap();
    let mount = scene.create_node(b, true, false).unwrap();
    scene.disconnect_client(a);
    let r = Alias::create(&mut scene, b, mount, Name::Peer(target), target, AliasInfo::none());
    assert_eq!(r, Err(AliasError::TargetOrphaned));
    let r = Alias::create(&mut scene, b, mount, Name::Peer(7), 7, AliasInfo::none());
    assert_eq!(r, Err(AliasError::TargetOrphaned));
    assert_eq!(scene.nodes.len(), 2);
}

#[test]
fn alias_fails_when_the_path_is_taken() {
    let mut scene: Scene<u8> = Scene::new();
    let a = scene.connect_client();
    let b = scene.connect_client();
    let target = scene.create_node(a, true, false).unwrap();
    let mount = scene.create_node(b, true, false).unwrap();
    let first =
        Alias::create(&mut scene, b, mount, Name::Peer(target), target, AliasInfo::none());
    assert_eq!(first, Ok(2));
    let second =
        Alias::create(&mut scene, b, mount, Name::Peer(target), target, AliasInfo::none());
    assert_eq!(second, Err(AliasError::PathCollision));
    assert_eq!(scene.nodes.len(), 3);
    let field = Alias::create(&mut scene, b, mount, Name::Field, target, AliasInfo::none());
    assert_eq!(field, Ok(3));
    let elsewhere =
        Alias::create(&mut scene, a, mount, Name::Peer(target), target, AliasInfo::none());
    assert_eq!(elsewhere, Ok(4));
}

#[test]
fn first_obstacle_is_reported() {
    let mut scene: Scene<u8> = Scene::new();
    let a = scene.connect_client();
    let b = scene.connect_client();
    let target = scene.create_node(a, true, false).unwrap();
    let mount = scene.create_node(b, true, false).unwrap();
    Alias::create(&mut scene, b, mount, Name::Field, target, AliasInfo::none()).unwrap();
    scene.disconnect_client(a);
    let r = Alias::create(&mut scene, b, mount, Name::Field, target, AliasInfo::none());
    assert_eq!(r, Err(AliasError::TargetOrphaned));
    scene.disconnect_client(b);
    let r = Alias::create(&mut scene, b, mount, Name::Field, target, AliasInfo::none());
    assert_eq!(r, Err(AliasError::ClientGone));
}

#[test]
fn alias_lets_through_only_what_is_listed() {
    let mut scene: Scene<u8> = Scene::new();
    let a = scene.connect_client();
    let b = scene.connect_client();
    let target = scene.create_node(a, true, false).unwrap();
    let mount = scene.create_node(b, true, false).unwrap();
    let alias = Alias::create(
        &mut scene,
        b,
        mount,
        Name::Peer(target),
        target,
        info(&["capture"], &["get_transform"]),
    )
    .unwrap();
    let capture = "capture".to_string();
    let get_transform = "get_transform".to_string();
    let destroy = "destroy".to_string();
    assert_eq!(scene.signal_target(alias, &capture), Some(target));
    assert_eq!(scene.signal_target(alias, &get_transform), None);
    assert_eq!(scene.method_target(alias, &get_transform), Some(target));
    assert_eq!(scene.method_target(alias, &capture), None);
    assert_eq!(scene.method_target(alias, &destroy), None);
    assert_eq!(scene.signal_target(target, &capture), None);
}

#[test]
fn disabled_alias_lets_nothing_through() {
    let mut scene: Scene<u8> = Scene::new();
    let a = scene.connect_client();
    let b = scene.connect_client();
    let target = scene.create_node(a, true, false).unwrap();
    let mount = scene.create_node(b, true, false).unwrap();
    let alias =
        Alias::create(&mut scene, b, mount, Name::Peer(target), target, info(&["capture"], &[]))
            .unwrap();
    let capture = "capture".to_string();
    scene.set_alias_enabled(alias, false);
    assert!(!scene.alias(alias).unwrap().enabled);
    assert_eq!(scene.signal_target(alias, &capture), None);
    scene.set_alias_enabled(alias, true);
    assert_eq!(scene.signal_target(alias, &capture), Some(target));
    scene.set_alias_enabled(target, false);
    assert!(scene.alias(target).is_none());
}

#[test]
fn alias_of_a_destroyed_target_leads_nowhere() {
    let mut scene: Scene<u8> = Scene::new();
    let a = scene.connect_client();
    let b = scene.connect_client();
    let target = scene.create_node(a, true, false).unwrap();
    let mount = scene.create_node(b, true, false).unwrap();
    let alias =
        Alias::create(&mut scene, b, mount, Name::Peer(target), target, info(&["capture"], &[]))
            .unwrap();
    scene.destroy_node(target);
    assert!(scene.alias(alias).is_some());
    assert_eq!(scene.signal_target(alias, &"capture".to_string()), None);
}

#[test]
fn allowlist_of_nothing_allows_nothing() {
    let none = AliasInfo::none();
    assert!(none.server_signals.is_empty());
    assert!(none.server_methods.is_empty());
    assert!(!none.allows_signal(&"capture".to_string()));
    assert!(!none.allows_method(&"get_transform".to_string()));
}

#[test]
fn spatial_and_field_can_be_added_later() {
    let mut scene: Scene<u8> = Scene::new();
    let c = scene.connect_client();
    let node = scene.create_node(c, false, false).unwrap();
    assert_eq!(scene.add_spatial(node), Ok(()));
    assert!(scene.aspects(node).unwrap().spatial);
    assert!(!scene.aspects(node).unwrap().field);
    assert_eq!(scene.add_field(node), Ok(()));
    assert!(scene.aspects(node).unwrap().field);
    assert_eq!(scene.add_field(9), Err(NodeError::NodeNotFound));
    assert_eq!(scene.add_spatial(9), Err(NodeError::NodeNotFound));
    let other = scene.connect_client();
    let alias =
        Alias::create(&mut scene, other, node, Name::Field, node, AliasInfo::none()).unwrap();
    assert_eq!(scene.add_field(alias), Err(NodeError::NodeNotFound));
}
