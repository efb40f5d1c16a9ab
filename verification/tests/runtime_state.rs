use quickclipboard_core::low_memory::{
    finish_exit_low_memory, init_window_activity_timestamp, is_low_memory_mode,
    is_user_requested_exit, last_window_activity_at_ms, mark_window_activity_at,
    set_low_memory_mode, set_user_requested_exit, try_mark_auto_manager_started,
    try_start_exit_low_memory, LowMemoryState,
};
use quickclipboard_core::window_state::{
    clear_snap, is_main_window_visible_for_updates, is_pinned, is_snapped,
    mark_clipboard_refresh_pending, mark_favorites_refresh_pending, mark_groups_refresh_pending,
    set_dragging, set_hidden, set_pinned, set_snap_edge, set_window_state,
    take_pending_refresh_flags, MainWindowState, SnapEdge, WindowState,
};

#[test]
fn low_memory_mode_flag_round_trips_and_defaults_to_false() {
    let mut state = LowMemoryState::new();
    set_low_memory_mode(&mut state, false);
    assert!(!is_low_memory_mode(&state), "初始/关闭状态应为 false");
    set_low_memory_mode(&mut state, true);
    assert!(is_low_memory_mode(&state), "set(true) 后应进入低占用模式");
    set_low_memory_mode(&mut state, false);
    assert!(!is_low_memory_mode(&state), "set(false) 后应退出低占用模式");
}

#[test]
fn init_window_activity_timestamp_sets_nonzero_timestamp() {
    let mut state = LowMemoryState::new();
    init_window_activity_timestamp(&mut state);
    assert!(last_window_activity_at_ms(&state) > 0, "初始化后时间戳应非零");
}

#[test]
fn window_activity_is_recorded_exactly() {
    let mut state = LowMemoryState::new();
    mark_window_activity_at(&mut state, 1234);
    assert_eq!(last_window_activity_at_ms(&state), 1234);
}

#[test]
fn user_requested_exit_flag_round_trips_and_defaults_to_false() {
    let mut state = LowMemoryState::new();
    set_user_requested_exit(&mut state, false);
    assert!(!is_user_requested_exit(&state), "初始状态应为 false");
    set_user_requested_exit(&mut state, true);
    assert!(is_user_requested_exit(&state), "set(true) 后应标记为用户主动退出");
    set_user_requested_exit(&mut state, false);
    assert!(!is_user_requested_exit(&state), "set(false) 后应清除标记");
}

#[test]
fn auto_manager_started_flag_is_set_exactly_once() {
    let mut state = LowMemoryState::new();
    assert!(try_mark_auto_manager_started(&mut state), "第一次调用应成功抢占");
    assert!(!try_mark_auto_manager_started(&mut state), "第二次调用应失败");
    assert!(!try_mark_auto_manager_started(&mut state), "第三次调用仍应失败");
}

#[test]
fn exit_low_memory_guard_blocks_concurrent_exit_until_finished() {
    let mut state = LowMemoryState::new();
    finish_exit_low_memory(&mut state);
    assert!(try_start_exit_low_memory(&mut state), "空闲时应能成功开始退出");
    assert!(!try_start_exit_low_memory(&mut state), "退出进行中应拒绝并发退出");
    assert!(!try_start_exit_low_memory(&mut state), "退出进行中继续拒绝");
    finish_exit_low_memory(&mut state);
    assert!(try_start_exit_low_memory(&mut state), "finish 后应恢复为可再次退出");
    finish_exit_low_memory(&mut state);
}

fn reset_state(w: &mut MainWindowState) {
    clear_snap(w);
    set_hidden(w, false);
    set_window_state(w, WindowState::Hidden);
    set_pinned(w, false);
    set_dragging(w, false);
    take_pending_refresh_flags(w);
}

#[test]
fn default_state_is_hidden_and_clean() {
    let state = MainWindowState::default();
    assert_eq!(state.state, WindowState::Hidden);
    assert!(!state.is_dragging);
    assert!(!state.is_snapped);
    assert!(!state.is_hidden);
    assert!(!state.is_pinned);
    assert_eq!(state.snap_edge, SnapEdge::NoEdge);
    assert_eq!(state.snap_position, None);
    assert_eq!(state.snap_monitor_id, None);
    assert!(!state.clipboard_refresh_pending);
    assert!(!state.favorites_refresh_pending);
    assert!(!state.groups_refresh_pending);
}

#[test]
fn window_state_round_trip_and_visibility_rule() {
    let mut w = MainWindowState::default();
    reset_state(&mut w);
    set_window_state(&mut w, WindowState::Visible);
    assert_eq!(w.state, WindowState::Visible);
    assert!(is_main_window_visible_for_updates(&w), "Visible 且未隐藏应视为可见");
    set_window_state(&mut w, WindowState::Minimized);
    assert!(!is_main_window_visible_for_updates(&w), "Minimized 不算可见");
    set_window_state(&mut w, WindowState::Visible);
    set_hidden(&mut w, true);
    assert!(!is_main_window_visible_for_updates(&w), "Visible 但隐藏也不算可见");
    set_hidden(&mut w, false);
    assert!(is_main_window_visible_for_updates(&w));
}

#[test]
fn set_snap_edge_marks_snapped_only_for_real_edge() {
    let mut w = MainWindowState::default();
    reset_state(&mut w);
    set_snap_edge(&mut w, SnapEdge::Left, Some((10, 20)), Some("monitor-1".into()));
    assert!(is_snapped(&w));
    assert_eq!(w.snap_edge, SnapEdge::Left);
    assert_eq!(w.snap_position, Some((10, 20)));
    assert_eq!(w.snap_monitor_id.as_deref(), Some("monitor-1"));
    set_snap_edge(&mut w, SnapEdge::NoEdge, None, None);
    assert!(!is_snapped(&w), "None 边不应标记为 snapped");
    assert_eq!(w.snap_edge, SnapEdge::NoEdge);
    assert_eq!(w.snap_position, None);
    assert_eq!(w.snap_monitor_id, None);
}

#[test]
fn pending_refresh_flags_follow_marking_rules() {
    let mut w = MainWindowState::default();
    reset_state(&mut w);
    assert_eq!(take_pending_refresh_flags(&mut w), (false, false, false));

    mark_clipboard_refresh_pending(&mut w);
    assert_eq!(take_pending_refresh_flags(&mut w), (true, false, false), "clipboard 只标记自身");
    assert_eq!(take_pending_refresh_flags(&mut w), (false, false, false), "take 后复位");

    mark_favorites_refresh_pending(&mut w);
    assert_eq!(take_pending_refresh_flags(&mut w), (true, true, false), "favorites 连带标记 clipboard");

    mark_groups_refresh_pending(&mut w);
    assert_eq!(take_pending_refresh_flags(&mut w), (false, false, true), "groups 只标记自身");

    mark_clipboard_refresh_pending(&mut w);
    mark_favorites_refresh_pending(&mut w);
    mark_groups_refresh_pending(&mut w);
    assert_eq!(take_pending_refresh_flags(&mut w), (true, true, true));
}

#[test]
fn clear_snap_resets_snap_and_hidden_together() {
    let mut w = MainWindowState::default();
    reset_state(&mut w);
    set_snap_edge(&mut w, SnapEdge::Right, Some((5, 5)), Some("m".into()));
    set_hidden(&mut w, true);
    clear_snap(&mut w);
    assert!(!is_snapped(&w));
    assert!(!w.is_hidden, "clear_snap 必须同时清除 hidden");
    assert_eq!(w.snap_edge, SnapEdge::NoEdge);
    assert_eq!(w.snap_position, None);
    assert_eq!(w.snap_monitor_id, None);
}

#[test]
fn pin_and_dragging_flags_round_trip() {
    let mut w = MainWindowState::default();
    reset_state(&mut w);
    assert!(!is_pinned(&w));
    set_pinned(&mut w, true);
    assert!(is_pinned(&w));
    set_pinned(&mut w, false);
    assert!(!is_pinned(&w));
    set_dragging(&mut w, true);
    assert!(w.is_dragging);
    set_dragging(&mut w, false);
    assert!(!w.is_dragging);
}
