use quickclipboard_core::entry::{
    is_maintenance_mode_requested, startup_notification_body, startup_notification_shortcut,
};
use quickclipboard_core::startup::{
    current_startup_stage, detect_blocking_previous_instance, format_panic_log_entry,
    is_known_tao_reentrant_panic, mark_ready, mark_starting, panic_detail, report_startup_error,
    set_startup_stage, set_startup_stage_if_starting, should_suppress_startup_panic_dialog,
    StartupDiagnostics, StartupStatus,
};

#[test]
fn no_env_no_args_is_normal_mode() {
    assert!(!is_maintenance_mode_requested(None, &[]));
}

#[test]
fn env_value_one_triggers_maintenance() {
    assert!(is_maintenance_mode_requested(Some("1"), &[]));
    assert!(is_maintenance_mode_requested(Some("1"), &["--maintenance".to_string()]));
}

#[test]
fn env_value_zero_does_not_trigger_maintenance() {
    assert!(!is_maintenance_mode_requested(Some("0"), &[]));
    assert!(is_maintenance_mode_requested(Some("0"), &["--maintenance".to_string()]));
}

#[test]
fn env_value_must_equal_one_exactly() {
    assert!(!is_maintenance_mode_requested(Some(""), &[]));
    assert!(!is_maintenance_mode_requested(Some(" 1"), &[]));
    assert!(!is_maintenance_mode_requested(Some("1 "), &[]));
    assert!(!is_maintenance_mode_requested(Some("01"), &[]));
}

#[test]
fn arg_maintenance_triggers_without_env() {
    assert!(is_maintenance_mode_requested(None, &["--maintenance".to_string()]));
    assert!(is_maintenance_mode_requested(None, &["--maintenance".to_string(), "--x".to_string()]));
}

#[test]
fn arg_must_match_exactly() {
    assert!(!is_maintenance_mode_requested(None, &["--maintenancex".to_string()]));
    assert!(!is_maintenance_mode_requested(None, &["--MAINTENANCE".to_string()]));
    assert!(!is_maintenance_mode_requested(None, &["maintenance".to_string()]));
}

#[test]
fn unrelated_args_do_not_trigger() {
    assert!(!is_maintenance_mode_requested(None, &["--foo".to_string(), "bar".to_string()]));
}

#[test]
fn startup_notification_falls_back_to_shift_space() {
    assert_eq!(startup_notification_shortcut(""), "Shift+Space");
    assert_eq!(startup_notification_shortcut("  "), "  ");
    assert_eq!(startup_notification_shortcut("Ctrl+Shift+A"), "Ctrl+Shift+A");
}

#[test]
fn startup_notification_body_embeds_shortcut_verbatim() {
    let body = startup_notification_body("Ctrl+Shift+A");
    assert!(body.starts_with("QuickClipboard已启动\n"));
    assert!(body.contains("按 Ctrl+Shift+A 打开剪贴板窗口"));
    assert_eq!(body, "QuickClipboard已启动\n按 Ctrl+Shift+A 打开剪贴板窗口");
}

#[test]
fn known_tao_reentrant_panic_detection() {
    let location = "cargo/registry/src/tao-0.30.0/src/event_loop/runner.rs:123";
    assert!(is_known_tao_reentrant_panic(location, "either event handler is re-entrant"));
    assert!(is_known_tao_reentrant_panic(location, "RefCell already borrowed"));
    assert!(!is_known_tao_reentrant_panic(location, "其他错误"));
    assert!(!is_known_tao_reentrant_panic(
        "src/event_loop/runner.rs:1",
        "either event handler is re-entrant"
    ));
    assert!(!is_known_tao_reentrant_panic(
        "tao-0.30.0/src/runner.rs:1",
        "either event handler is re-entrant"
    ));
    assert!(!is_known_tao_reentrant_panic(
        "tao-0.30.0/src/event_loop/mod.rs:1",
        "RefCell already borrowed"
    ));
    assert!(!is_known_tao_reentrant_panic(location, "EITHER EVENT HANDLER IS RE-ENTRANT"));
    assert!(!is_known_tao_reentrant_panic(
        "TAO-0.30.0/src/event_loop/runner.rs:1",
        "either event handler is re-entrant"
    ));
}

#[test]
fn suppress_dialog_outside_starting_state() {
    for state in ["ready", "panic", "failed"] {
        assert!(should_suppress_startup_panic_dialog(state, "任何位置", "任何消息"));
    }
}

#[test]
fn suppress_dialog_starting_state_depends_on_known_panic() {
    let tao_location = "tao-0.30.0/src/event_loop/runner.rs:12";
    assert!(should_suppress_startup_panic_dialog(
        "starting",
        tao_location,
        "either event handler is re-entrant"
    ));
    assert!(should_suppress_startup_panic_dialog("starting", tao_location, "RefCell already borrowed"));
    assert!(!should_suppress_startup_panic_dialog("starting", "src/main.rs:10", "普通 panic"));
    assert!(!should_suppress_startup_panic_dialog("starting", tao_location, "普通 panic"));
}

#[test]
fn stage_and_state_transitions() {
    let mut d = StartupDiagnostics::new();
    assert_eq!(current_startup_stage(&d), "准备启动应用");
    mark_starting(&mut d);
    set_startup_stage(&mut d, "执行启动安全检查");
    assert_eq!(current_startup_stage(&d), "执行启动安全检查");
    mark_ready(&mut d);
    assert_eq!(d.state, "ready");
    assert_eq!(current_startup_stage(&d), "应用已就绪");
    set_startup_stage_if_starting(&mut d, "晚到的阶段");
    assert_eq!(current_startup_stage(&d), "应用已就绪");
    mark_starting(&mut d);
    set_startup_stage_if_starting(&mut d, "新阶段");
    assert_eq!(current_startup_stage(&d), "新阶段");
}

#[test]
fn report_startup_error_marks_failed_and_formats_detail() {
    let mut d = StartupDiagnostics::new();
    set_startup_stage(&mut d, "初始化数据库");
    let detail = report_startup_error(&mut d, "数据库打开失败", "disk full");
    assert_eq!(d.state, "failed");
    assert_eq!(
        detail,
        "启动阶段：初始化数据库\n\n数据库打开失败\ndisk full\n\n请将此窗口截图反馈给开发者。"
    );
}

#[test]
fn blocking_instance_requires_other_live_starting_process() {
    let status = StartupStatus { pid: 42, state: "starting".to_string(), stage: "加载设置".to_string(), updated_at_ms: 1 };
    let msg = detect_blocking_previous_instance(Some(&status), 7, true).unwrap();
    assert!(msg.contains("旧进程 PID：42"));
    assert!(msg.contains("旧进程停留阶段：加载设置"));
    assert_eq!(detect_blocking_previous_instance(Some(&status), 42, true), None);
    assert_eq!(detect_blocking_previous_instance(Some(&status), 7, false), None);
    assert_eq!(detect_blocking_previous_instance(None, 7, true), None);
    let ready = StartupStatus { pid: 42, state: "ready".to_string(), stage: String::new(), updated_at_ms: 1 };
    assert_eq!(detect_blocking_previous_instance(Some(&ready), 7, true), None);
}

#[test]
fn panic_texts_are_formatted_exactly() {
    assert_eq!(
        panic_detail("阶段", "a.rs:1", "boom"),
        "启动阶段：阶段\n\n异常位置：a.rs:1\n\npanic 信息：boom\n\n请将此窗口截图反馈给开发者。"
    );
    assert_eq!(
        format_panic_log_entry(12, "starting", "阶段", "a.rs:1", "boom", true),
        "[12] 状态: starting\n阶段: 阶段\n位置: a.rs:1\npanic: boom\n处理: 仅记录\n\n"
    );
}
