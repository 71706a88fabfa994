//! Toplevel windows and their popups, as panel items see them.

use rand::Rng;
use rustc_hash::{FxHashMap, FxHasher};
use std::hash::BuildHasherDefault;
use vstd::prelude::*;

verus! {

/// The hasher of the popup table. Nothing is said of it here.
#[verifier::external_type_specification]
#[verifier::external_body]
pub struct ExFxHasher(FxHasher);

/// The maker of that hasher. Nothing is said of it here.
#[verifier::external_type_specification]
#[verifier::external_body]
#[verifier::reject_recursive_types(H)]
pub struct ExBuildHasherDefault<H>(BuildHasherDefault<H>);

/// A rectangle on a surface: where it starts and how large it is.
#[derive(Clone, Copy, Debug, PartialEq, Eq)]
pub struct Geometry {
    pub origin: (i32, i32),
    pub size: (u32, u32),
}

/// A signed extent read as an unsigned one: a negative extent wraps round.
pub open spec fn unsigned_extent(extent: i32) -> u32 {
    if extent >= 0 {
        extent as u32
    } else {
        (extent + 0x1_0000_0000) as u32
    }
}

/// An unsigned extent read as a signed one: an extent beyond the largest
/// signed one wraps round.
pub open spec fn signed_extent(extent: u32) -> i32 {
    if extent <= i32::MAX {
        extent as i32
    } else {
        (extent - 0x1_0000_0000) as i32
    }
}

/// `extent` read as an unsigned extent.
pub fn to_unsigned(extent: i32) -> (r: u32)
    ensures
        r == unsigned_extent(extent),
{
    if extent >= 0 {
        extent as u32
    } else {
        (extent as i64 + 0x1_0000_0000i64) as u32
    }
}

/// `extent` read as a signed extent.
pub fn to_signed(extent: u32) -> (r: i32)
    ensures
        r == signed_extent(extent),
{
    if extent <= 0x7fff_ffffu32 {
        extent as i32
    } else {
        (extent as i64 - 0x1_0000_0000i64) as i32
    }
}

impl Geometry {
    /// The geometry of the rectangle that starts at (`x`, `y`) and is `w`
    /// wide and `h` high.
    pub fn from_rectangle(x: i32, y: i32, w: i32, h: i32) -> (g: Geometry)
        ensures
            g == (Geometry { origin: (x, y), size: (unsigned_extent(w), unsigned_extent(h)) }),
    {
        Geometry { origin: (x, y), size: (to_unsigned(w), to_unsigned(h)) }
    }

    /// The geometry of a surface of size `size` that starts at the origin.
    pub fn sized(size: (u32, u32)) -> (g: Geometry)
        ensures
            g == (Geometry { origin: (0i32, 0i32), size }),
    {
        Geometry { origin: (0, 0), size }
    }
}

/// The edge or corner by which a client asks to resize a window.
#[derive(Clone, Copy, Debug, PartialEq, Eq, Structural)]
pub enum ResizeEdge {
    /// No edge at all.
    Nowhere,
    Top,
    Bottom,
    Left,
    TopLeft,
    BottomLeft,
    Right,
    TopRight,
    BottomRight,
    /// An edge that is not known here.
    Other,
}

/// The directions in which a window is to be resized.
#[derive(Clone, Copy, Debug, PartialEq, Eq, Structural)]
pub struct ResizeDirections {
    pub up: bool,
    pub down: bool,
    pub left: bool,
    pub right: bool,
}

impl ResizeEdge {
    /// The edge or corner lies on the top side.
    pub open spec fn touches_top(self) -> bool {
        self is Top || self is TopLeft || self is TopRight
    }

    /// The edge or corner lies on the bottom side.
    pub open spec fn touches_bottom(self) -> bool {
        self is Bottom || self is BottomLeft || self is BottomRight
    }

    /// The edge or corner lies on the left side.
    pub open spec fn touches_left(self) -> bool {
        self is Left || self is TopLeft || self is BottomLeft
    }

    /// The edge or corner lies on the right side.
    pub open spec fn touches_right(self) -> bool {
        self is Right || self is TopRight || self is BottomRight
    }
}

/// The directions that a request to resize by `edge` stands for: those of
/// the sides that the edge or corner touches. An unknown edge stands for
/// none.
pub fn resize_request(edge: ResizeEdge) -> (r: ResizeDirections)
    ensures
        r.up == edge.touches_top(),
        r.down == edge.touches_bottom(),
        r.left == edge.touches_left(),
        r.right == edge.touches_right(),
{
    let (up, down, left, right) = match edge {
        ResizeEdge::Nowhere => (false, false, false, false),
        ResizeEdge::Top => (true, false, false, false),
        ResizeEdge::Bottom => (false, true, false, false),
        ResizeEdge::Left => (false, false, true, false),
        ResizeEdge::TopLeft => (true, false, true, false),
        ResizeEdge::BottomLeft => (false, true, true, false),
        ResizeEdge::Right => (false, false, false, true),
        ResizeEdge::TopRight => (true, false, false, true),
        ResizeEdge::BottomRight => (false, true, false, true),
        ResizeEdge::Other => (false, false, false, false),
    };
    ResizeDirections { up, down, left, right }
}

/// What a toplevel window is told about itself at its next configure.
#[derive(Clone, Copy, Debug, PartialEq, Eq)]
pub struct ToplevelState {
    /// The server draws the decorations.
    pub server_side_decoration: bool,
    pub tiled_top: bool,
    pub tiled_bottom: bool,
    pub tiled_left: bool,
    pub tiled_right: bool,
    pub maximized: bool,
    pub fullscreen: bool,
    pub activated: bool,
    /// The size the window is to take, if the server sets one.
    pub size: Option<(i32, i32)>,
}

impl ToplevelState {
    /// The state of a window that has been told nothing yet.
    pub fn blank() -> (s: ToplevelState)
        ensures
            s == (ToplevelState {
                server_side_decoration: false,
                tiled_top: false,
                tiled_bottom: false,
                tiled_left: false,
                tiled_right: false,
                maximized: false,
                fullscreen: false,
                activated: false,
                size: None,
            }),
    {
        ToplevelState {
            server_side_decoration: false,
            tiled_top: false,
            tiled_bottom: false,
            tiled_left: false,
            tiled_right: false,
            maximized: false,
            fullscreen: false,
            activated: false,
            size: None,
        }
    }

    /// A new toplevel: decorated by the server, tiled on all four sides,
    /// maximized and not fullscreen. The rest stays as it was.
    pub fn new_toplevel(self) -> (s: ToplevelState)
        ensures
            s == (ToplevelState {
                server_side_decoration: true,
                tiled_top: true,
                tiled_bottom: true,
                tiled_left: true,
                tiled_right: true,
                maximized: true,
                fullscreen: false,
                ..self
            }),
    {
        ToplevelState {
            server_side_decoration: true,
            tiled_top: true,
            tiled_bottom: true,
            tiled_left: true,
            tiled_right: true,
            maximized: true,
            fullscreen: false,
            activated: self.activated,
            size: self.size,
        }
    }

    /// The client asks to be maximized: maximized, and not fullscreen.
    pub fn maximize_request(self) -> (s: ToplevelState)
        ensures
            s == (ToplevelState { maximized: true, fullscreen: false, ..self }),
    {
        let mut s = self;
        s.maximized = true;
        s.fullscreen = false;
        s
    }

    /// The client asks to be fullscreen: fullscreen, and not maximized.
    pub fn fullscreen_request(self) -> (s: ToplevelState)
        ensures
            s == (ToplevelState { fullscreen: true, maximized: false, ..self }),
    {
        let mut s = self;
        s.fullscreen = true;
        s.maximized = false;
        s
    }

    /// The window is to pick its own size.
    pub fn auto_size_toplevel(self) -> (s: ToplevelState)
        ensures
            s == (ToplevelState { size: None, ..self }),
    {
        let mut s = self;
        s.size = None;
        s
    }

    /// The window is to take the size `size`.
    pub fn set_toplevel_size(self, size: (u32, u32)) -> (s: ToplevelState)
        ensures
            s == (ToplevelState {
                size: Some((signed_extent(size.0), signed_extent(size.1))),
                ..self
            }),
    {
        let mut s = self;
        s.size = Some((to_signed(size.0), to_signed(size.1)));
        s
    }

    /// The window is to look focused, or not.
    pub fn set_toplevel_focused_visuals(self, focused: bool) -> (s: ToplevelState)
        ensures
            s == (ToplevelState { activated: focused, ..self }),
    {
        let mut s = self;
        s.activated = focused;
        s
    }
}

/// Which surface of a panel item is meant.
#[derive(Clone, Copy, Debug, PartialEq, Eq, Structural)]
pub enum SurfaceId {
    Toplevel,
    /// The popup with this identifier.
    Child(u64),
}

/// What a panel item is told of one of its popups.
#[derive(Clone, Copy, Debug, PartialEq, Eq)]
pub struct ChildInfo {
    pub id: u64,
    /// The surface that the popup belongs to.
    pub parent: SurfaceId,
    pub geometry: Geometry,
}

/// What the backend keeps of a popup: the popup itself, the surface it
/// belongs to, and where its positioner puts it.
pub struct PopupEntry<P> {
    pub popup: P,
    pub parent: SurfaceId,
    pub geometry: Geometry,
}

impl<P> PopupEntry<P> {
    /// What a panel item is told of this popup, kept under `id`.
    pub open spec fn info(self, id: u64) -> ChildInfo {
        ChildInfo { id, parent: self.parent, geometry: self.geometry }
    }
}

/// A surface that the backend holds.
pub enum SurfaceRef<'a, T, P> {
    Toplevel(&'a T),
    Popup(&'a P),
}

/// The table without popups.
pub open spec fn no_popups<P>() -> Map<u64, PopupEntry<P>> {
    Map::empty()
}

/// Calls `FxHashMap::default`. Claims that the new table is empty.
#[verifier::external_body]
fn popups_new<P>() -> (m: FxHashMap<u64, PopupEntry<P>>)
    ensures
        m@ == no_popups::<P>(),
{
    FxHashMap::default()
}

/// Calls `HashMap::insert` on a table hashed by `FxHasher`. Claims that the
/// table then holds `entry` under `id` and is otherwise unchanged, and that
/// what it held under `id` before is handed out.
#[verifier::external_body]
fn popups_insert<P>(m: &mut FxHashMap<u64, PopupEntry<P>>, id: u64, entry: PopupEntry<P>) -> (r:
    Option<PopupEntry<P>>)
    ensures
        final(m)@ == old(m)@.insert(id, entry),
        r == (if old(m)@.contains_key(id) {
            Some(old(m)@[id])
        } else {
            None
        }),
{
    m.insert(id, entry)
}

/// Calls `HashMap::remove` on a table hashed by `FxHasher`. Claims that
/// what the table held under `id` is handed out, and that the table no
/// longer holds anything under `id` and is otherwise unchanged.
#[verifier::external_body]
fn popups_remove<P>(m: &mut FxHashMap<u64, PopupEntry<P>>, id: u64) -> (r: Option<PopupEntry<P>>)
    ensures
        final(m)@ == old(m)@.remove(id),
        r == (if old(m)@.contains_key(id) {
            Some(old(m)@[id])
        } else {
            None
        }),
{
    m.remove(&id)
}

/// Calls `HashMap::get` on a table hashed by `FxHasher`. Claims that the
/// result is what the table holds under `id`, if anything.
#[verifier::external_body]
fn popups_get<P>(m: &FxHashMap<u64, PopupEntry<P>>, id: u64) -> (r: Option<&PopupEntry<P>>)
    ensures
        r == (if m@.contains_key(id) {
            Some(&m@[id])
        } else {
            None
        }),
{
    m.get(&id)
}

/// Calls `HashMap::keys` on a table hashed by `FxHasher` and collects what
/// it yields. Claims that each key of the table comes out once; nothing is
/// said of the order.
#[verifier::external_body]
fn popups_keys<P>(m: &FxHashMap<u64, PopupEntry<P>>) -> (ids: Vec<u64>)
    ensures
        ids@.no_duplicates(),
        forall|id: u64| #[trigger] ids@.contains(id) <==> m@.contains_key(id),
{
    m.keys().copied().collect()
}

/// Calls `rand::thread_rng` and `Rng::gen_range` with the range from 0 up
/// to, and without, the largest `u64`. Claims that the number drawn lies in
/// that range. Which number is drawn depends on chance. The generator
/// panics if the system gives it no seed.
#[verifier::external_body]
fn random_popup_id() -> (id: u64)
    ensures
        id < u64::MAX,
{
    rand::thread_rng().gen_range(0..u64::MAX)
}

/// An identifier for a new popup, drawn at random. It is not checked
/// against the identifiers in use.
pub fn new_popup_id() -> (id: u64)
    ensures
        id < u64::MAX,
{
    random_popup_id()
}

/// What stands behind a panel item: a toplevel of type `T`, its popups of
/// type `P`, and the seat of type `S` through which its input goes.
pub struct XdgBackend<T, P, S> {
    pub toplevel: Option<T>,
    pub popups: FxHashMap<u64, PopupEntry<P>>,
    pub seat: S,
}

impl<T, P, S> XdgBackend<T, P, S> {
    /// The backend of `toplevel`, without popups.
    pub fn create(toplevel: T, seat: S) -> (backend: Self)
        ensures
            backend.toplevel == Some(toplevel),
            backend.popups@ == no_popups::<P>(),
            backend.seat == seat,
    {
        XdgBackend { toplevel: Some(toplevel), popups: popups_new(), seat }
    }

    /// The surface that `id` means, if the backend holds it.
    pub fn wl_surface_from_id(&self, id: &SurfaceId) -> (r: Option<SurfaceRef<'_, T, P>>)
        ensures
            match *id {
                SurfaceId::Toplevel => match self.toplevel {
                    Some(toplevel) => r matches Some(SurfaceRef::Toplevel(t)) && *t == toplevel,
                    None => r.is_none(),
                },
                SurfaceId::Child(popup) => if self.popups@.contains_key(popup) {
                    r matches Some(SurfaceRef::Popup(p)) && *p == self.popups@[popup].popup
                } else {
                    r.is_none()
                },
            },
    {
        match id {
            SurfaceId::Toplevel => match &self.toplevel {
                Some(toplevel) => Some(SurfaceRef::Toplevel(toplevel)),
                None => None,
            },
            SurfaceId::Child(popup) => match popups_get(&self.popups, *popup) {
                Some(entry) => Some(SurfaceRef::Popup(&entry.popup)),
                None => None,
            },
        }
    }

    /// Whether the backend can have a panel item: it can while it holds its
    /// toplevel and the panel item of that toplevel is alive.
    pub fn has_panel_item(&self, panel_item_alive: bool) -> (b: bool)
        ensures
            b == (self.toplevel.is_some() && panel_item_alive),
    {
        self.toplevel.is_some() && panel_item_alive
    }

    /// Takes in the popup `popup` of the surface `parent` under `id`, placed
    /// at `geometry`, and returns what the panel item is to be told of its
    /// new child. Without a panel item nothing is kept and nothing is told.
    pub fn new_popup(
        &mut self,
        id: u64,
        popup: P,
        parent: SurfaceId,
        geometry: Geometry,
        panel_item_alive: bool,
    ) -> (r: Option<ChildInfo>)
        ensures
            final(self).toplevel == old(self).toplevel,
            final(self).seat == old(self).seat,
            old(self).toplevel.is_some() && panel_item_alive ==> final(self).popups@ == old(
                self,
            ).popups@.insert(id, PopupEntry { popup, parent, geometry }) && r == Some(
                ChildInfo { id, parent, geometry },
            ),
            !(old(self).toplevel.is_some() && panel_item_alive) ==> final(self).popups@ == old(
                self,
            ).popups@ && r.is_none(),
    {
        if !self.has_panel_item(panel_item_alive) {
            return None;
        }
        let _ = popups_insert(&mut self.popups, id, PopupEntry { popup, parent, geometry });
        Some(ChildInfo { id, parent, geometry })
    }

    /// Moves the popup `id` to `geometry` and returns what the panel item
    /// is to be told: the new geometry. Where there is no such popup, or no
    /// panel item, nothing changes and nothing is told.
    pub fn reposition_popup(&mut self, id: u64, geometry: Geometry, panel_item_alive: bool) -> (r:
        Option<Geometry>)
        ensures
            final(self).toplevel == old(self).toplevel,
            final(self).seat == old(self).seat,
            old(self).popups@.contains_key(id) && old(self).toplevel.is_some() && panel_item_alive
                ==> final(self).popups@ == old(self).popups@.insert(
                id,
                PopupEntry { geometry, ..old(self).popups@[id] },
            ) && r == Some(geometry),
            !(old(self).popups@.contains_key(id) && old(self).toplevel.is_some()
                && panel_item_alive) ==> final(self).popups@ == old(self).popups@ && r.is_none(),
    {
        if popups_get(&self.popups, id).is_none() {
            return None;
        }
        if !self.has_panel_item(panel_item_alive) {
            return None;
        }
        match popups_remove(&mut self.popups, id) {
            Some(entry) => {
                let _ = popups_insert(
                    &mut self.popups,
                    id,
                    PopupEntry { popup: entry.popup, parent: entry.parent, geometry },
                );
                assert(self.popups@ =~= old(self).popups@.insert(
                    id,
                    PopupEntry { geometry, ..old(self).popups@[id] },
                ));
                Some(geometry)
            },
            None => None,
        }
    }

    /// The popup `id` is gone: returns the child that the panel item is to
    /// destroy, if there is a panel item. The backend keeps what it has.
    pub fn drop_popup(&self, id: u64, panel_item_alive: bool) -> (r: Option<u64>)
        ensures
            r == (if self.toplevel.is_some() && panel_item_alive {
                Some(id)
            } else {
                None
            }),
    {
        if self.has_panel_item(panel_item_alive) {
            Some(id)
        } else {
            None
        }
    }

    /// What a panel item is told of the popup `id`, if the backend holds it.
    pub fn child_data(&self, id: u64) -> (r: Option<ChildInfo>)
        ensures
            r == (if self.popups@.contains_key(id) {
                Some(self.popups@[id].info(id))
            } else {
                None
            }),
    {
        match popups_get(&self.popups, id) {
            Some(entry) => Some(ChildInfo { id, parent: entry.parent, geometry: entry.geometry }),
            None => None,
        }
    }

    /// What a panel item is told of all popups: each popup of the backend
    /// once, in no particular order.
    pub fn children(&self) -> (r: Vec<ChildInfo>)
        ensures
            r@.len() == self.popups@.dom().len(),
            forall|i: int|
                0 <= i < r@.len() ==> self.popups@.contains_key((#[trigger] r@[i]).id) && r@[i]
                    == self.popups@[r@[i].id].info(r@[i].id),
            forall|i: int, j: int| 0 <= i < j < r@.len() ==> r@[i].id != r@[j].id,
            forall|id: u64|
                self.popups@.contains_key(id) ==> exists|i: int|
                    0 <= i < r@.len() && (#[trigger] r@[i]).id == id,
    {
        let ids = popups_keys(&self.popups);
        let mut r: Vec<ChildInfo> = Vec::new();
        let mut i: usize = 0;
        while i < ids.len()
            invariant
                i <= ids.len(),
                r@.len() == i,
                forall|id: u64| #[trigger] ids@.contains(id) <==> self.popups@.contains_key(id),
                forall|k: int|
                    0 <= k < i ==> (#[trigger] r@[k]).id == ids@[k] && r@[k] == self.popups@[ids@[k]].info(
                        ids@[k],
                    ),
            decreases ids.len() - i,
        {
            assert(ids@.contains(ids@[i as int]));
            match self.child_data(ids[i]) {
                Some(info) => {
                    r.push(info);
                },
                None => {},
            }
            i += 1;
        }
        proof {
            assert forall|id: u64| self.popups@.contains_key(id) implies exists|k: int|
                0 <= k < r@.len() && (#[trigger] r@[k]).id == id by {
                assert(ids@.contains(id));
                let k = choose|k: int| 0 <= k < ids@.len() && ids@[k] == id;
                assert(r@[k].id == id);
            }
            assert forall|k: int| 0 <= k < r@.len() implies self.popups@.contains_key(
                (#[trigger] r@[k]).id,
            ) by {
                assert(ids@.contains(ids@[k]));
            }
            ids@.unique_seq_to_set();
            assert(ids@.to_set() =~= self.popups@.dom());
        }
        r
    }

    /// The toplevel is gone: the backend lets go of it and of every popup.
    pub fn toplevel_destroyed(&mut self)
        ensures
            final(self).toplevel.is_none(),
            final(self).popups@ == no_popups::<P>(),
            final(self).seat == old(self).seat,
    {
        self.toplevel = None;
        self.popups = popups_new();
    }
}

/// What the server does when a toplevel commits.
#[derive(Clone, Copy, Debug, PartialEq, Eq)]
pub enum CommitAction {
    /// The toplevel has no panel item yet: configure it once more.
    Configure,
    /// Tell the panel item the size of the toplevel.
    SizeChanged((u32, u32)),
    Nothing,
}

/// What to do when a toplevel commits: while it has no panel item it is
/// configured again; once it has one, the panel item is told the size of
/// the surface, if the surface has one.
pub fn toplevel_committed(has_panel_item: bool, surface_size: Option<(u32, u32)>) -> (r:
    CommitAction)
    ensures
        r == (if !has_panel_item {
            CommitAction::Configure
        } else {
            match surface_size {
                Some(size) => CommitAction::SizeChanged(size),
                None => CommitAction::Nothing,
            }
        }),
{
    if !has_panel_item {
        CommitAction::Configure
    } else {
        match surface_size {
            Some(size) => CommitAction::SizeChanged(size),
            None => CommitAction::Nothing,
        }
    }
}

/// The size that a panel item is told when the client acknowledges a
/// configure that set the size `size`.
pub fn ack_configure(size: Option<(i32, i32)>) -> (r: Option<(u32, u32)>)
    ensures
        r == (match size {
            Some(s) => Some((unsigned_extent(s.0), unsigned_extent(s.1))),
            None => None,
        }),
{
    match size {
        Some(s) => Some((to_unsigned(s.0), to_unsigned(s.1))),
        None => None,
    }
}

/// What the server has read of a toplevel and its surface.
pub struct ToplevelFacts {
    /// The panel item of the parent window, if there is one.
    pub parent: Option<String>,
    pub title: Option<String>,
    pub app_id: Option<String>,
    /// The size of the cursor surface, if there is one with a size.
    pub cursor_size: Option<(u32, u32)>,
    /// The size that the toplevel was last configured with.
    pub configured_size: Option<(i32, i32)>,
    /// The size of the surface of the toplevel.
    pub surface_size: Option<(u32, u32)>,
    /// The least size that the client allows; 0 stands for no limit.
    pub min_size: (i32, i32),
    /// The largest size that the client allows; 0 stands for no limit.
    pub max_size: (i32, i32),
    /// The window geometry that the client set: x, y, width, height.
    pub geometry: Option<(i32, i32, i32, i32)>,
}

/// What a panel item is told of its toplevel.
pub struct ToplevelInfo {
    pub parent: Option<String>,
    pub title: Option<String>,
    pub app_id: Option<String>,
    pub size: (u32, u32),
    pub min_size: Option<(i32, i32)>,
    pub max_size: Option<(i32, i32)>,
    pub logical_rectangle: Geometry,
}

/// What a panel item is told when it starts.
pub struct PanelItemInitData {
    pub cursor: Option<Geometry>,
    pub toplevel: ToplevelInfo,
    pub children: Vec<ChildInfo>,
    pub pointer_grab: Option<SurfaceId>,
    pub keyboard_grab: Option<SurfaceId>,
}

/// The size of a toplevel: the size it was configured with, or else the
/// size of its surface, or else nothing at all.
pub open spec fn toplevel_size(
    configured_size: Option<(i32, i32)>,
    surface_size: Option<(u32, u32)>,
) -> (u32, u32) {
    match configured_size {
        Some(s) => (unsigned_extent(s.0), unsigned_extent(s.1)),
        None => match surface_size {
            Some(s) => s,
            None => (0u32, 0u32),
        },
    }
}

/// A limit on the size holds only if it limits both width and height.
pub open spec fn size_limit(limit: (i32, i32)) -> Option<(i32, i32)> {
    if limit.0 != 0 && limit.1 != 0 {
        Some(limit)
    } else {
        None
    }
}

/// The rectangle of a toplevel that counts as the window: the geometry
/// that the client set, or else the whole surface.
pub open spec fn logical_rectangle(geometry: Option<(i32, i32, i32, i32)>, size: (u32, u32))
    -> Geometry {
    match geometry {
        Some(g) => Geometry {
            origin: (g.0, g.1),
            size: (unsigned_extent(g.2), unsigned_extent(g.3)),
        },
        None => Geometry { origin: (0i32, 0i32), size },
    }
}

impl ToplevelFacts {
    /// What a panel item is told of the toplevel that these facts are of.
    pub fn toplevel_info(self) -> (info: ToplevelInfo)
        ensures
            info.parent == self.parent,
            info.title == self.title,
            info.app_id == self.app_id,
            info.size == toplevel_size(self.configured_size, self.surface_size),
            info.min_size == size_limit(self.min_size),
            info.max_size == size_limit(self.max_size),
            info.logical_rectangle == logical_rectangle(self.geometry, info.size),
    {
        let size = match self.configured_size {
            Some(s) => (to_unsigned(s.0), to_unsigned(s.1)),
            None => match self.surface_size {
                Some(s) => s,
                None => (0, 0),
            },
        };
        let min_size = if self.min_size.0 != 0 && self.min_size.1 != 0 {
            Some(self.min_size)
        } else {
            None
        };
        let max_size = if self.max_size.0 != 0 && self.max_size.1 != 0 {
            Some(self.max_size)
        } else {
            None
        };
        let logical_rectangle = match self.geometry {
            Some(g) => Geometry::from_rectangle(g.0, g.1, g.2, g.3),
            None => Geometry::sized(size),
        };
        ToplevelInfo {
            parent: self.parent,
            title: self.title,
            app_id: self.app_id,
            size,
            min_size,
            max_size,
            logical_rectangle,
        }
    }
}

impl<T, P, S> XdgBackend<T, P, S> {
    /// What a panel item is told when it starts: the cursor at the size of
    /// its surface, the toplevel as `facts` have it, every popup of the
    /// backend, and no grab.
    pub fn start_data(&self, facts: ToplevelFacts) -> (data: PanelItemInitData)
        requires
            self.toplevel.is_some(),
        ensures
            data.cursor == (match facts.cursor_size {
                Some(size) => Some(Geometry { origin: (0i32, 0i32), size }),
                None => None,
            }),
            data.toplevel.parent == facts.parent,
            data.toplevel.title == facts.title,
            data.toplevel.app_id == facts.app_id,
            data.toplevel.size == toplevel_size(facts.configured_size, facts.surface_size),
            data.toplevel.min_size == size_limit(facts.min_size),
            data.toplevel.max_size == size_limit(facts.max_size),
            data.toplevel.logical_rectangle == logical_rectangle(
                facts.geometry,
                data.toplevel.size,
            ),
            data.children@.len() == self.popups@.dom().len(),
            forall|i: int|
                0 <= i < data.children@.len() ==> self.popups@.contains_key(
                    (#[trigger] data.children@[i]).id,
                ) && data.children@[i] == self.popups@[data.children@[i].id].info(
                    data.children@[i].id,
                ),
            forall|i: int, j: int|
                0 <= i < j < data.children@.len() ==> data.children@[i].id != data.children@[j].id,
            forall|id: u64|
                self.popups@.contains_key(id) ==> exists|i: int|
                    0 <= i < data.children@.len() && (#[trigger] data.children@[i]).id == id,
            data.pointer_grab.is_none(),
            data.keyboard_grab.is_none(),
    {
        let cursor = match facts.cursor_size {
            Some(size) => Some(Geometry::sized(size)),
            None => None,
        };
        let children = self.children();
        PanelItemInitData {
            cursor,
            toplevel: facts.toplevel_info(),
            children,
            pointer_grab: None,
            keyboard_grab: None,
        }
    }
}

} // verus!
