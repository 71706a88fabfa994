use stardust_server::node_collections::{AliasKey, LifeLinkedNodeMap};
use stardust_server::registry::{Lifetimes, Registry};
use stardust_server::scene::Scene;

fn scene_with_nodes(n: usize) -> Scene<u8> {
    let mut scene: Scene<u8> = Scene::new();
    let client = scene.connect_client();
    for _ in 0..n {
        scene.create_node(client, true, true).unwrap();
    }
    scene
}

#[test]
fn registry_starts_empty() {
    let r = Registry::new();
    assert!(r.entries.is_empty());
    assert!(!r.contains(0));
}

#[test]
fn registry_add_is_idempotent() {
    let mut r = Registry::new();
    r.add(3);
    r.add(3);
    assert_eq!(r.entries, vec![3]);
    assert!(r.contains(3));
}

#[test]
fn registry_keeps_order_of_adding() {
    let mut r = Registry::new();
    r.add(2);
    r.add(0);
    r.add(1);
    r.add(0);
    assert_eq!(r.entries, vec![2, 0, 1]);
}

#[test]
fn registry_remove_takes_only_that_member() {
    let mut r = Registry::new();
    r.add(4);
    r.add(5);
    r.add(6);
    r.remove(5);
    assert_eq!(r.entries, vec![4, 6]);
    assert!(!r.contains(5));
    r.remove(5);
    assert_eq!(r.entries, vec![4, 6]);
}

#[test]
fn registry_clear_forgets_all() {
    let mut r = Registry::new();
    r.add(1);
    r.add(2);
    r.clear();
    assert!(r.entries.is_empty());
}

#[test]
fn snapshot_skips_what_is_gone() {
    let mut scene = scene_with_nodes(3);
    let mut r = Registry::new();
    r.add(0);
    r.add(1);
    r.add(2);
    r.add(9);
    scene.destroy_node(1);
    assert!(scene.is_alive(0));
    assert!(!scene.is_alive(1));
    assert!(!scene.is_alive(9));
    assert_eq!(r.get_valid_contents(&scene), vec![0, 2]);
    assert!(r.contains(1));
}

#[test]
fn snapshot_is_not_touched_by_later_registration() {
    let scene = scene_with_nodes(3);
    let mut r = Registry::new();
    r.add(0);
    r.add(1);
    let before = r.get_valid_contents(&scene);
    r.add(2);
    let after = r.get_valid_contents(&scene);
    assert_eq!(before, vec![0, 1]);
    assert_eq!(after, vec![0, 1, 2]);
}

#[test]
fn map_holds_one_node_per_key() {
    let mut m = LifeLinkedNodeMap::new();
    assert_eq!(m.get(AliasKey::Peer(1)), None);
    m.add(AliasKey::Peer(1), 10);
    m.add(AliasKey::PeerField(1), 11);
    assert_eq!(m.get(AliasKey::Peer(1)), Some(10));
    assert_eq!(m.get(AliasKey::PeerField(1)), Some(11));
    m.add(AliasKey::Peer(1), 12);
    assert_eq!(m.get(AliasKey::Peer(1)), Some(12));
    assert_eq!(m.entries.len(), 2);
}

#[test]
fn map_remove_hands_out_what_was_held() {
    let mut m = LifeLinkedNodeMap::new();
    m.add(AliasKey::Peer(1), 10);
    m.add(AliasKey::Peer(2), 20);
    assert_eq!(m.remove(AliasKey::Peer(1)), Some(10));
    assert_eq!(m.remove(AliasKey::Peer(1)), None);
    assert_eq!(m.get(AliasKey::Peer(2)), Some(20));
}

#[test]
fn scenes_made_by_the_library_are_well_formed() {
    let mut scene = scene_with_nodes(3);
    assert!(scene.is_well_formed());
    scene.destroy_node(1);
    assert!(scene.is_well_formed());
    let empty: Scene<u8> = Scene::new();
    assert!(empty.is_well_formed());
}

#[test]
fn a_registry_that_holds_what_is_gone_is_not_well_formed() {
    let mut scene = scene_with_nodes(2);
    scene.input_methods.entries.push(0);
    assert!(!scene.is_well_formed());
    scene.input_methods.entries.clear();
    assert!(scene.is_well_formed());
    scene.input_handlers.entries.push(7);
    assert!(!scene.is_well_formed());
}

#[test]
fn duplicates_are_not_sound() {
    let mut r = Registry::new();
    r.add(1);
    r.add(2);
    assert!(r.is_wf());
    r.entries.push(1);
    assert!(!r.is_wf());
    let mut m = LifeLinkedNodeMap::new();
    m.add(AliasKey::Peer(1), 5);
    m.add(AliasKey::PeerField(1), 6);
    assert!(m.is_wf());
    m.entries.push((AliasKey::Peer(1), 7));
    assert!(!m.is_wf());
}
