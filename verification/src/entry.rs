//! Decisions made at process start: maintenance mode and the start-up
//! notification text.
use vstd::prelude::*;
use crate::strs::{push_str, str_eq, string_from_str};

verus! {

/// Maintenance mode is requested by `QUICKCLIPBOARD_MAINTENANCE` equal to
/// exactly `1`, or by an argument equal to exactly `--maintenance`.
pub fn is_maintenance_mode_requested(env_value: Option<&str>, args: &[String]) -> (r: bool)
    ensures
        r == ((env_value matches Some(v) && v@ == "1"@) || exists|i: int|
            0 <= i < args@.len() && (#[trigger] args@[i])@ == "--maintenance"@),
{
    let env_ok = match env_value {
        Some(v) => str_eq(v, "1"),
        None => false,
    };
    if env_ok {
        return true;
    }
    let mut i: usize = 0;
    while i < args.len()
        invariant
            0 <= i <= args@.len(),
            forall|j: int| 0 <= j < i ==> (#[trigger] args@[j])@ != "--maintenance"@,
        decreases args@.len() - i,
    {
        if str_eq(args[i].as_str(), "--maintenance") {
            return true;
        }
        i += 1;
    }
    false
}

/// The shortcut named in the start-up notification: the configured toggle
/// shortcut, or `Shift+Space` when none is configured.
pub fn startup_notification_shortcut(toggle_shortcut: &str) -> (r: String)
    ensures
        r@ == (if toggle_shortcut@.len() == 0 { "Shift+Space"@ } else { toggle_shortcut@ }),
{
    if toggle_shortcut.is_empty() {
        string_from_str("Shift+Space")
    } else {
        string_from_str(toggle_shortcut)
    }
}

/// The body of the start-up notification.
pub fn startup_notification_body(shortcut: &str) -> (r: String)
    ensures
        r@ == "QuickClipboard已启动\n按 "@ + shortcut@ + " 打开剪贴板窗口"@,
{
    let mut r = String::new();
    push_str(&mut r, "QuickClipboard已启动\n按 ");
    push_str(&mut r, shortcut);
    push_str(&mut r, " 打开剪贴板窗口");
    assert(r@ =~= "QuickClipboard已启动\n按 "@ + shortcut@ + " 打开剪贴板窗口"@);
    r
}

} // verus!
