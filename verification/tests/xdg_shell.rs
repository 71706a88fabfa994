use stardust_server::wayland::xdg_shell::{
    ack_configure, new_popup_id, resize_request, to_signed, to_unsigned, toplevel_committed,
    ChildInfo, CommitAction, Geometry, ResizeDirections, ResizeEdge, SurfaceId, SurfaceRef,
    ToplevelFacts, ToplevelState, XdgBackend,
};

fn directions(up: bool, down: bool, left: bool, right: bool) -> ResizeDirections {
    ResizeDirections { up, down, left, right }
}

fn backend() -> XdgBackend<&'static str, &'static str, u8> {
    XdgBackend::create("toplevel", 7)
}

fn geometry(x: i32, y: i32, w: u32, h: u32) -> Geometry {
    Geometry { origin: (x, y), size: (w, h) }
}

fn facts() -> ToplevelFacts {
    ToplevelFacts {
        parent: None,
        title: Some("Editor".to_string()),
        app_id: Some("org.example.editor".to_string()),
        cursor_size: None,
        configured_size: None,
        surface_size: None,
        min_size: (0, 0),
        max_size: (0, 0),
        geometry: None,
    }
}

#[test]
fn geometry_from_a_rectangle() {
    assert_eq!(Geometry::from_rectangle(3, -4, 640, 480), geometry(3, -4, 640, 480));
    assert_eq!(Geometry::from_rectangle(0, 0, -1, 0), geometry(0, 0, u32::MAX, 0));
    assert_eq!(Geometry::from_rectangle(0, 0, i32::MIN, i32::MAX), geometry(0, 0, 1 << 31, (1 << 31) - 1));
    assert_eq!(Geometry::sized((12, 34)), geometry(0, 0, 12, 34));
}

#[test]
fn extents_wrap_round() {
    assert_eq!(to_unsigned(5), 5);
    assert_eq!(to_unsigned(-5), u32::MAX - 4);
    assert_eq!(to_signed(5), 5);
    assert_eq!(to_signed(u32::MAX), -1);
    assert_eq!(to_signed(1 << 31), i32::MIN);
    assert_eq!(to_signed((1 << 31) - 1), i32::MAX);
}

#[test]
fn resize_edges_name_their_sides() {
    assert_eq!(resize_request(ResizeEdge::Nowhere), directions(false, false, false, false));
    assert_eq!(resize_request(ResizeEdge::Top), directions(true, false, false, false));
    assert_eq!(resize_request(ResizeEdge::Bottom), directions(false, true, false, false));
    assert_eq!(resize_request(ResizeEdge::Left), directions(false, false, true, false));
    assert_eq!(resize_request(ResizeEdge::TopLeft), directions(true, false, true, false));
    assert_eq!(resize_request(ResizeEdge::BottomLeft), directions(false, true, true, false));
    assert_eq!(resize_request(ResizeEdge::Right), directions(false, false, false, true));
    assert_eq!(resize_request(ResizeEdge::TopRight), directions(true, false, false, true));
    assert_eq!(resize_request(ResizeEdge::BottomRight), directions(false, true, false, true));
    assert_eq!(resize_request(ResizeEdge::Other), directions(false, false, false, false));
}

#[test]
fn new_toplevel_is_tiled_and_maximized() {
    let mut before = ToplevelState::blank();
    before.fullscreen = true;
    before.size = Some((10, 20));
    let s = before.new_toplevel();
    assert!(s.server_side_decoration);
    assert!(s.tiled_top && s.tiled_bottom && s.tiled_left && s.tiled_right);
    assert!(s.maximized);
    assert!(!s.fullscreen);
    assert!(!s.activated);
    assert_eq!(s.size, Some((10, 20)));
}

#[test]
fn maximize_and_fullscreen_exclude_each_other() {
    let s = ToplevelState::blank().new_toplevel();
    let full = s.fullscreen_request();
    assert!(full.fullscreen && !full.maximized);
    assert!(full.tiled_top && full.server_side_decoration);
    let max = full.maximize_request();
    assert!(max.maximized && !max.fullscreen);
    assert_eq!(max, s);
}

#[test]
fn size_and_focus_touch_nothing_else() {
    let s = ToplevelState::blank().new_toplevel();
    let sized = s.set_toplevel_size((800, 600));
    assert_eq!(sized.size, Some((800, 600)));
    assert_eq!(sized.auto_size_toplevel(), s);
    assert_eq!(s.set_toplevel_size((u32::MAX, 0)).size, Some((-1, 0)));
    let focused = s.set_toplevel_focused_visuals(true);
    assert!(focused.activated);
    assert_eq!(focused.set_toplevel_focused_visuals(false), s);
}

#[test]
fn commit_without_panel_item_configures_again() {
    assert_eq!(toplevel_committed(false, None), CommitAction::Configure);
    assert_eq!(toplevel_committed(false, Some((1, 1))), CommitAction::Configure);
    assert_eq!(toplevel_committed(true, Some((3, 4))), CommitAction::SizeChanged((3, 4)));
    assert_eq!(toplevel_committed(true, None), CommitAction::Nothing);
}

#[test]
fn acknowledged_size_is_passed_on() {
    assert_eq!(ack_configure(Some((640, 480))), Some((640, 480)));
    assert_eq!(ack_configure(Some((-1, 2))), Some((u32::MAX, 2)));
    assert_eq!(ack_configure(None), None);
}

#[test]
fn popup_identifiers_stay_below_the_top() {
    for _ in 0..64 {
        assert!(new_popup_id() < u64::MAX);
    }
}

#[test]
fn backend_starts_with_its_toplevel_and_no_popups() {
    let b = backend();
    assert_eq!(b.toplevel, Some("toplevel"));
    assert_eq!(b.seat, 7);
    assert!(b.popups.is_empty());
    assert!(b.children().is_empty());
    assert_eq!(b.child_data(1), None);
    assert!(b.has_panel_item(true));
    assert!(!b.has_panel_item(false));
}

#[test]
fn new_popup_is_kept_and_reported() {
    let mut b = backend();
    let g = geometry(1, 2, 30, 40);
    let told = b.new_popup(11, "menu", SurfaceId::Toplevel, g, true);
    assert_eq!(told, Some(ChildInfo { id: 11, parent: SurfaceId::Toplevel, geometry: g }));
    assert_eq!(b.child_data(11), told);
    assert_eq!(b.child_data(12), None);
    let nested = b.new_popup(12, "submenu", SurfaceId::Child(11), geometry(5, 5, 6, 7), true);
    assert_eq!(
        nested,
        Some(ChildInfo { id: 12, parent: SurfaceId::Child(11), geometry: geometry(5, 5, 6, 7) })
    );
    assert_eq!(b.popups.len(), 2);
    assert_eq!(b.popups.get(&11).unwrap().popup, "menu");
}

#[test]
fn new_popup_without_panel_item_is_dropped() {
    let mut b = backend();
    assert_eq!(b.new_popup(11, "menu", SurfaceId::Toplevel, geometry(0, 0, 1, 1), false), None);
    assert!(b.popups.is_empty());
    b.toplevel_destroyed();
    assert_eq!(b.new_popup(11, "menu", SurfaceId::Toplevel, geometry(0, 0, 1, 1), true), None);
    assert!(b.popups.is_empty());
}

#[test]
fn reposition_moves_only_that_popup() {
    let mut b = backend();
    b.new_popup(1, "a", SurfaceId::Toplevel, geometry(0, 0, 1, 1), true);
    b.new_popup(2, "b", SurfaceId::Child(1), geometry(0, 0, 2, 2), true);
    let moved = geometry(9, 9, 3, 3);
    assert_eq!(b.reposition_popup(2, moved, true), Some(moved));
    assert_eq!(
        b.child_data(2),
        Some(ChildInfo { id: 2, parent: SurfaceId::Child(1), geometry: moved })
    );
    assert_eq!(b.popups.get(&2).unwrap().popup, "b");
    assert_eq!(b.child_data(1).unwrap().geometry, geometry(0, 0, 1, 1));
    assert_eq!(b.popups.len(), 2);
}

#[test]
fn reposition_of_what_is_not_there_does_nothing() {
    let mut b = backend();
    b.new_popup(1, "a", SurfaceId::Toplevel, geometry(0, 0, 1, 1), true);
    assert_eq!(b.reposition_popup(5, geometry(9, 9, 3, 3), true), None);
    assert_eq!(b.reposition_popup(1, geometry(9, 9, 3, 3), false), None);
    assert_eq!(b.child_data(1).unwrap().geometry, geometry(0, 0, 1, 1));
    assert_eq!(b.popups.len(), 1);
}

#[test]
fn drop_popup_names_the_child_to_destroy() {
    let mut b = backend();
    b.new_popup(1, "a", SurfaceId::Toplevel, geometry(0, 0, 1, 1), true);
    assert_eq!(b.drop_popup(1, true), Some(1));
    assert_eq!(b.drop_popup(1, false), None);
    assert_eq!(b.popups.len(), 1);
    b.toplevel_destroyed();
    assert_eq!(b.drop_popup(1, true), None);
}

#[test]
fn surfaces_are_found_by_their_identifier() {
    let mut b = backend();
    b.new_popup(4, "menu", SurfaceId::Toplevel, geometry(0, 0, 1, 1), true);
    assert!(matches!(b.wl_surface_from_id(&SurfaceId::Toplevel), Some(SurfaceRef::Toplevel(t)) if *t == "toplevel"));
    assert!(matches!(b.wl_surface_from_id(&SurfaceId::Child(4)), Some(SurfaceRef::Popup(p)) if *p == "menu"));
    assert!(b.wl_surface_from_id(&SurfaceId::Child(5)).is_none());
    b.toplevel_destroyed();
    assert!(b.wl_surface_from_id(&SurfaceId::Toplevel).is_none());
    assert!(b.wl_surface_from_id(&SurfaceId::Child(4)).is_none());
}

#[test]
fn destroyed_toplevel_lets_go_of_everything() {
    let mut b = backend();
    b.new_popup(1, "a", SurfaceId::Toplevel, geometry(0, 0, 1, 1), true);
    b.new_popup(2, "b", SurfaceId::Toplevel, geometry(0, 0, 1, 1), true);
    b.toplevel_destroyed();
    assert_eq!(b.toplevel, None);
    assert!(b.popups.is_empty());
    assert_eq!(b.seat, 7);
}

#[test]
fn children_list_every_popup_once() {
    let mut b = backend();
    b.new_popup(3, "c", SurfaceId::Toplevel, geometry(3, 3, 3, 3), true);
    b.new_popup(1, "a", SurfaceId::Toplevel, geometry(1, 1, 1, 1), true);
    b.new_popup(2, "b", SurfaceId::Child(1), geometry(2, 2, 2, 2), true);
    b.new_popup(1, "a2", SurfaceId::Toplevel, geometry(7, 7, 7, 7), true);
    let mut children = b.children();
    children.sort_by_key(|c| c.id);
    assert_eq!(
        children,
        vec![
            ChildInfo { id: 1, parent: SurfaceId::Toplevel, geometry: geometry(7, 7, 7, 7) },
            ChildInfo { id: 2, parent: SurfaceId::Child(1), geometry: geometry(2, 2, 2, 2) },
            ChildInfo { id: 3, parent: SurfaceId::Toplevel, geometry: geometry(3, 3, 3, 3) },
        ]
    );
}

#[test]
fn toplevel_size_falls_back_to_the_surface() {
    let mut f = facts();
    f.configured_size = Some((800, 600));
    f.surface_size = Some((1, 1));
    assert_eq!(f.toplevel_info().size, (800, 600));
    let mut f = facts();
    f.surface_size = Some((320, 200));
    assert_eq!(f.toplevel_info().size, (320, 200));
    assert_eq!(facts().toplevel_info().size, (0, 0));
}

#[test]
fn size_limits_need_both_extents() {
    let mut f = facts();
    f.min_size = (100, 50);
    f.max_size = (0, 900);
    let info = f.toplevel_info();
    assert_eq!(info.min_size, Some((100, 50)));
    assert_eq!(info.max_size, None);
    let mut f = facts();
    f.min_size = (100, 0);
    f.max_size = (1000, 900);
    let info = f.toplevel_info();
    assert_eq!(info.min_size, None);
    assert_eq!(info.max_size, Some((1000, 900)));
}

#[test]
fn logical_rectangle_defaults_to_the_whole_surface() {
    let mut f = facts();
    f.surface_size = Some((320, 200));
    assert_eq!(f.toplevel_info().logical_rectangle, geometry(0, 0, 320, 200));
    let mut f = facts();
    f.surface_size = Some((320, 200));
    f.geometry = Some((10, 20, 300, 180));
    assert_eq!(f.toplevel_info().logical_rectangle, geometry(10, 20, 300, 180));
}

#[test]
fn start_data_gathers_toplevel_cursor_and_children() {
    let mut b = backend();
    b.new_popup(1, "a", SurfaceId::Toplevel, geometry(1, 1, 1, 1), true);
    let mut f = facts();
    f.parent = Some("parent-item".to_string());
    f.cursor_size = Some((24, 24));
    f.surface_size = Some((640, 480));
    let data = b.start_data(f);
    assert_eq!(data.cursor, Some(geometry(0, 0, 24, 24)));
    assert_eq!(data.toplevel.parent, Some("parent-item".to_string()));
    assert_eq!(data.toplevel.title, Some("Editor".to_string()));
    assert_eq!(data.toplevel.app_id, Some("org.example.editor".to_string()));
    assert_eq!(data.toplevel.size, (640, 480));
    assert_eq!(data.toplevel.logical_rectangle, geometry(0, 0, 640, 480));
    assert_eq!(
        data.children,
        vec![ChildInfo { id: 1, parent: SurfaceId::Toplevel, geometry: geometry(1, 1, 1, 1) }]
    );
    assert_eq!(data.pointer_grab, None);
    assert_eq!(data.keyboard_grab, None);
    let data = b.start_data(facts());
    assert_eq!(data.cursor, None);
}
