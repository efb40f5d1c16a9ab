//! State of the main window: visibility, dragging, snapping, pinning and the
//! refreshes that were deferred while it was not visible.
use vstd::prelude::*;

verus! {

#[derive(Debug, Clone, Copy, PartialEq, Eq, Structural)]
pub enum WindowState {
    Hidden,
    Visible,
    Minimized,
}

#[derive(Debug, Clone, Copy, PartialEq, Eq, Structural)]
pub enum SnapEdge {
    NoEdge,
    Left,
    Right,
    Top,
    Bottom,
}

/// The main window's state. The snap ratio, a float, is kept by the caller.
#[derive(Debug)]
pub struct MainWindowState {
    pub state: WindowState,
    pub is_dragging: bool,
    pub is_snapped: bool,
    pub is_hidden: bool,
    pub is_pinned: bool,
    pub snap_edge: SnapEdge,
    pub snap_position: Option<(i32, i32)>,
    pub snap_monitor_id: Option<String>,
    pub clipboard_refresh_pending: bool,
    pub favorites_refresh_pending: bool,
    pub groups_refresh_pending: bool,
}

/// Hidden, nothing dragged, snapped, hidden, pinned or pending.
pub open spec fn is_default_state(s: MainWindowState) -> bool {
    &&& s.state == WindowState::Hidden
    &&& !s.is_dragging && !s.is_snapped && !s.is_hidden && !s.is_pinned
    &&& s.snap_edge == SnapEdge::NoEdge
    &&& s.snap_position is None
    &&& s.snap_monitor_id is None
    &&& !s.clipboard_refresh_pending && !s.favorites_refresh_pending && !s.groups_refresh_pending
}

impl Default for MainWindowState {
    fn default() -> (s: Self)
        ensures
            is_default_state(s),
    {
        MainWindowState {
            state: WindowState::Hidden,
            is_dragging: false,
            is_snapped: false,
            is_hidden: false,
            is_pinned: false,
            snap_edge: SnapEdge::NoEdge,
            snap_position: None,
            snap_monitor_id: None,
            clipboard_refresh_pending: false,
            favorites_refresh_pending: false,
            groups_refresh_pending: false,
        }
    }
}

/// The state after `take_pending_refresh_flags`, and the flags it returns.
pub open spec fn take_flags(s: MainWindowState) -> (MainWindowState, (bool, bool, bool)) {
    (
        MainWindowState {
            clipboard_refresh_pending: false,
            favorites_refresh_pending: false,
            groups_refresh_pending: false,
            ..s
        },
        (s.clipboard_refresh_pending, s.favorites_refresh_pending, s.groups_refresh_pending),
    )
}

pub open spec fn mark_clipboard(s: MainWindowState) -> MainWindowState {
    MainWindowState { clipboard_refresh_pending: true, ..s }
}

pub open spec fn mark_favorites(s: MainWindowState) -> MainWindowState {
    MainWindowState { favorites_refresh_pending: true, clipboard_refresh_pending: true, ..s }
}

pub open spec fn mark_groups(s: MainWindowState) -> MainWindowState {
    MainWindowState { groups_refresh_pending: true, ..s }
}

pub fn set_window_state(window: &mut MainWindowState, state: WindowState)
    ensures
        *final(window) == (MainWindowState { state, ..*old(window) }),
{
    window.state = state;
}

/// The window counts as visible when it is `Visible` and not hidden.
pub fn is_main_window_visible_for_updates(window: &MainWindowState) -> (r: bool)
    ensures
        r == (window.state == WindowState::Visible && !window.is_hidden),
{
    window.state == WindowState::Visible && !window.is_hidden
}

pub fn set_dragging(window: &mut MainWindowState, is_dragging: bool)
    ensures
        *final(window) == (MainWindowState { is_dragging, ..*old(window) }),
{
    window.is_dragging = is_dragging;
}

pub fn set_hidden(window: &mut MainWindowState, is_hidden: bool)
    ensures
        *final(window) == (MainWindowState { is_hidden, ..*old(window) }),
{
    window.is_hidden = is_hidden;
}

pub fn mark_clipboard_refresh_pending(window: &mut MainWindowState)
    ensures
        *final(window) == mark_clipboard(*old(window)),
{
    window.clipboard_refresh_pending = true;
}

/// Marks favorites pending, and with them the clipboard list.
pub fn mark_favorites_refresh_pending(window: &mut MainWindowState)
    ensures
        *final(window) == mark_favorites(*old(window)),
{
    window.favorites_refresh_pending = true;
    window.clipboard_refresh_pending = true;
}

pub fn mark_groups_refresh_pending(window: &mut MainWindowState)
    ensures
        *final(window) == mark_groups(*old(window)),
{
    window.groups_refresh_pending = true;
}

/// Returns the pending (clipboard, favorites, groups) flags and clears them.
pub fn take_pending_refresh_flags(window: &mut MainWindowState) -> (r: (bool, bool, bool))
    ensures
        (*final(window), r) == take_flags(*old(window)),
{
    let flags = (window.clipboard_refresh_pending, window.favorites_refresh_pending, window.groups_refresh_pending);
    window.clipboard_refresh_pending = false;
    window.favorites_refresh_pending = false;
    window.groups_refresh_pending = false;
    flags
}

/// Records the snap edge and where it applies; the window is snapped unless
/// the edge is `None`.
pub fn set_snap_edge(
    window: &mut MainWindowState,
    edge: SnapEdge,
    position: Option<(i32, i32)>,
    monitor_id: Option<String>,
)
    ensures
        *final(window) == (MainWindowState {
            is_snapped: edge != SnapEdge::NoEdge,
            snap_edge: edge,
            snap_position: position,
            snap_monitor_id: monitor_id,
            ..*old(window)
        }),
{
    window.is_snapped = edge != SnapEdge::NoEdge;
    window.snap_edge = edge;
    window.snap_position = position;
    window.snap_monitor_id = monitor_id;
}

pub fn is_snapped(window: &MainWindowState) -> (r: bool)
    ensures
        r == window.is_snapped,
{
    window.is_snapped
}

/// Clears the snap and the hidden flag together.
pub fn clear_snap(window: &mut MainWindowState)
    ensures
        *final(window) == (MainWindowState {
            is_snapped: false,
            is_hidden: false,
            snap_edge: SnapEdge::NoEdge,
            snap_position: None,
            snap_monitor_id: None,
            ..*old(window)
        }),
{
    window.is_snapped = false;
    window.is_hidden = false;
    window.snap_edge = SnapEdge::NoEdge;
    window.snap_position = None;
    window.snap_monitor_id = None;
}

pub fn set_pinned(window: &mut MainWindowState, is_pinned: bool)
    ensures
        *final(window) == (MainWindowState { is_pinned, ..*old(window) }),
{
    window.is_pinned = is_pinned;
}

pub fn is_pinned(window: &MainWindowState) -> (r: bool)
    ensures
        r == window.is_pinned,
{
    window.is_pinned
}

/// Taking the flags reports what was marked since the last take and leaves
/// nothing pending; marking favorites also marks the clipboard list, while
/// clipboard and groups mark only themselves.
pub proof fn law_pending_refresh_flags(s: MainWindowState)
    ensures
        take_flags(take_flags(s).0).1 == (false, false, false),
        take_flags(mark_clipboard(take_flags(s).0)).1 == (true, false, false),
        take_flags(mark_favorites(take_flags(s).0)).1 == (true, true, false),
        take_flags(mark_groups(take_flags(s).0)).1 == (false, false, true),
        take_flags(mark_groups(mark_favorites(mark_clipboard(take_flags(s).0)))).1 == (true, true, true),
{
}

} // verus!
