//! Start-up diagnostics: the start-up stage and state, the decision whether a
//! panic during start-up deserves a dialog, and the texts shown to the user.
use vstd::prelude::*;
use crate::strs::{self, char_vec, contains_chars, push_dec, push_str, str_eq, string_from_str};

verus! {

/// Current start-up stage and state (`starting`, `ready`, `panic`, `failed`).
#[derive(Debug)]
pub struct StartupDiagnostics {
    pub stage: String,
    pub state: String,
}

/// What a previous instance left in its status file.
#[derive(Debug)]
pub struct StartupStatus {
    pub pid: u32,
    pub state: String,
    pub stage: String,
    pub updated_at_ms: u64,
}

impl StartupDiagnostics {
    /// State `starting`, stage `准备启动应用`.
    pub fn new() -> (d: Self)
        ensures
            d.stage@ == "准备启动应用"@,
            d.state@ == "starting"@,
    {
        StartupDiagnostics { stage: string_from_str("准备启动应用"), state: string_from_str("starting") }
    }
}

pub fn set_startup_stage(diag: &mut StartupDiagnostics, stage: &str)
    ensures
        final(diag).stage@ == stage@,
        final(diag).state@ == old(diag).state@,
{
    diag.stage = string_from_str(stage);
}

/// Sets the stage only while the state is `starting`.
pub fn set_startup_stage_if_starting(diag: &mut StartupDiagnostics, stage: &str)
    ensures
        final(diag).state@ == old(diag).state@,
        final(diag).stage@ == (if old(diag).state@ == "starting"@ { stage@ } else { old(diag).stage@ }),
{
    if str_eq(diag.state.as_str(), "starting") {
        set_startup_stage(diag, stage);
    }
}

pub fn current_startup_stage(diag: &StartupDiagnostics) -> (r: String)
    ensures
        r@ == diag.stage@,
{
    diag.stage.clone()
}

pub fn mark_starting(diag: &mut StartupDiagnostics)
    ensures
        final(diag).state@ == "starting"@,
        final(diag).stage@ == old(diag).stage@,
{
    diag.state = string_from_str("starting");
}

/// State `ready`, stage `应用已就绪`.
pub fn mark_ready(diag: &mut StartupDiagnostics)
    ensures
        final(diag).state@ == "ready"@,
        final(diag).stage@ == "应用已就绪"@,
{
    diag.state = string_from_str("ready");
    diag.stage = string_from_str("应用已就绪");
}

/// The detail text shown when start-up fails.
pub open spec fn failure_detail(stage: Seq<char>, summary: Seq<char>, error: Seq<char>) -> Seq<char> {
    "启动阶段："@ + stage + "\n\n"@ + summary + "\n"@ + error + "\n\n请将此窗口截图反馈给开发者。"@
}

/// Marks start-up as failed and returns the detail text for the error dialog.
pub fn report_startup_error(diag: &mut StartupDiagnostics, summary: &str, error: &str) -> (detail: String)
    ensures
        final(diag).state@ == "failed"@,
        final(diag).stage@ == old(diag).stage@,
        detail@ == failure_detail(old(diag).stage@, summary@, error@),
{
    diag.state = string_from_str("failed");
    let mut d = String::new();
    push_str(&mut d, "启动阶段：");
    push_str(&mut d, diag.stage.as_str());
    push_str(&mut d, "\n\n");
    push_str(&mut d, summary);
    push_str(&mut d, "\n");
    push_str(&mut d, error);
    push_str(&mut d, "\n\n请将此窗口截图反馈给开发者。");
    assert(d@ =~= failure_detail(old(diag).stage@, summary@, error@));
    d
}

/// The detail text shown when start-up panics.
pub open spec fn panic_detail_text(stage: Seq<char>, location: Seq<char>, message: Seq<char>) -> Seq<char> {
    "启动阶段："@ + stage + "\n\n异常位置："@ + location + "\n\npanic 信息："@ + message + "\n\n请将此窗口截图反馈给开发者。"@
}

/// The detail text for a start-up panic.
pub fn panic_detail(stage: &str, location: &str, message: &str) -> (r: String)
    ensures
        r@ == panic_detail_text(stage@, location@, message@),
{
    let mut d = String::new();
    push_str(&mut d, "启动阶段：");
    push_str(&mut d, stage);
    push_str(&mut d, "\n\n异常位置：");
    push_str(&mut d, location);
    push_str(&mut d, "\n\npanic 信息：");
    push_str(&mut d, message);
    push_str(&mut d, "\n\n请将此窗口截图反馈给开发者。");
    assert(d@ =~= panic_detail_text(stage@, location@, message@));
    d
}

/// A panic of the tao event loop's re-entrancy check: the location names a
/// `tao-` crate, `event_loop` and `runner.rs`, and the message is one of the
/// two known texts (case-sensitive).
pub open spec fn known_tao_reentrant_panic(location: Seq<char>, message: Seq<char>) -> bool {
    strs::contains_seq(location, "tao-"@) && strs::contains_seq(location, "event_loop"@) && strs::contains_seq(
        location,
        "runner.rs"@,
    ) && (strs::contains_seq(message, "either event handler is re-entrant"@) || strs::contains_seq(
        message,
        "RefCell already borrowed"@,
    ))
}

fn contains_str(hay: &str, needle: &str) -> (r: bool)
    ensures
        r == strs::contains_seq(hay@, needle@),
{
    let h = char_vec(hay);
    let n = char_vec(needle);
    contains_chars(&h, &n)
}

pub fn is_known_tao_reentrant_panic(location: &str, message: &str) -> (r: bool)
    ensures
        r == known_tao_reentrant_panic(location@, message@),
{
    contains_str(location, "tao-") && contains_str(location, "event_loop") && contains_str(location, "runner.rs")
        && (contains_str(message, "either event handler is re-entrant") || contains_str(
        message,
        "RefCell already borrowed",
    ))
}

/// Only panics while `starting` get a dialog, and not the known tao one.
pub fn should_suppress_startup_panic_dialog(startup_state: &str, location: &str, message: &str) -> (r: bool)
    ensures
        r == (startup_state@ != "starting"@ || known_tao_reentrant_panic(location@, message@)),
{
    if !str_eq(startup_state, "starting") {
        return true;
    }
    is_known_tao_reentrant_panic(location, message)
}

/// The warning about a previous instance stuck while starting.
pub open spec fn blocking_message(pid: u32, stage: Seq<char>) -> Seq<char> {
    "检测到一个可能异常卡住的旧进程，阻止了新实例正常启动。\n\n旧进程 PID："@ + strs::dec(pid as nat)
        + "\n旧进程停留阶段："@ + stage
        + "\n\n请先在任务管理器中结束该 QuickClipboard 进程，然后重新启动应用。\n\n如果问题仍然出现，请将此窗口截图反馈给开发者。"@
}

/// The warning when the status file names another process that is still
/// alive and still `starting`; `None` otherwise.
pub fn detect_blocking_previous_instance(status: Option<&StartupStatus>, current_pid: u32, previous_alive: bool) -> (r:
    Option<String>)
    ensures
        match status {
            None => r is None,
            Some(st) => if st.pid == current_pid || st.state@ != "starting"@ || !previous_alive {
                r is None
            } else {
                r matches Some(m) && m@ == blocking_message(st.pid, st.stage@)
            },
        },
{
    let st = match status {
        None => {
            return None;
        },
        Some(st) => st,
    };
    if st.pid == current_pid || !str_eq(st.state.as_str(), "starting") {
        return None;
    }
    if !previous_alive {
        return None;
    }
    let mut m = String::new();
    push_str(&mut m, "检测到一个可能异常卡住的旧进程，阻止了新实例正常启动。\n\n旧进程 PID：");
    push_dec(&mut m, st.pid as u64);
    push_str(&mut m, "\n旧进程停留阶段：");
    push_str(&mut m, st.stage.as_str());
    push_str(
        &mut m,
        "\n\n请先在任务管理器中结束该 QuickClipboard 进程，然后重新启动应用。\n\n如果问题仍然出现，请将此窗口截图反馈给开发者。",
    );
    assert(m@ =~= blocking_message(st.pid, st.stage@));
    Some(m)
}

/// A panic is logged only (no dialog) exactly when it is suppressed.
pub open spec fn panic_log_entry(now_ms: u64, state: Seq<char>, stage: Seq<char>, location: Seq<char>, message: Seq<char>, suppressed: bool) -> Seq<char> {
    "["@ + strs::dec(now_ms as nat) + "] 状态: "@ + state + "\n阶段: "@ + stage + "\n位置: "@ + location
        + "\npanic: "@ + message + "\n处理: "@ + (if suppressed { "仅记录"@ } else { "弹窗"@ }) + "\n\n"@
}

/// The entry appended to the panic log.
pub fn format_panic_log_entry(
    now_ms: u64,
    startup_state: &str,
    startup_stage: &str,
    location: &str,
    message: &str,
    suppress_dialog: bool,
) -> (r: String)
    ensures
        r@ == panic_log_entry(now_ms, startup_state@, startup_stage@, location@, message@, suppress_dialog),
{
    let mut e = String::new();
    push_str(&mut e, "[");
    push_dec(&mut e, now_ms);
    push_str(&mut e, "] 状态: ");
    push_str(&mut e, startup_state);
    push_str(&mut e, "\n阶段: ");
    push_str(&mut e, startup_stage);
    push_str(&mut e, "\n位置: ");
    push_str(&mut e, location);
    push_str(&mut e, "\npanic: ");
    push_str(&mut e, message);
    push_str(&mut e, "\n处理: ");
    if suppress_dialog {
        push_str(&mut e, "仅记录");
    } else {
        push_str(&mut e, "弹窗");
    }
    push_str(&mut e, "\n\n");
    assert(e@ =~= panic_log_entry(now_ms, startup_state@, startup_stage@, location@, message@, suppress_dialog));
    e
}

} // verus!
