use quickclipboard_core::webview_guard::{check_dangerous_webview2_args, dangerous_patterns};

const HEADER: &str = "环境变量: WEBVIEW2_ADDITIONAL_BROWSER_ARGUMENTS\n\n检测到的危险参数:\n";

#[test]
fn no_env_var_no_warning() {
    assert_eq!(check_dangerous_webview2_args(None), None);
}

#[test]
fn empty_env_var_no_warning() {
    assert_eq!(check_dangerous_webview2_args(Some("")), None);
}

#[test]
fn benign_args_no_warning() {
    assert_eq!(check_dangerous_webview2_args(Some("--disable-gpu --enable-logging --lang=zh-CN")), None);
}

#[test]
fn single_dangerous_pattern_detected_with_exact_format() {
    assert_eq!(
        check_dangerous_webview2_args(Some("--no-sandbox")).unwrap(),
        format!("{}• --no-sandbox (禁用沙箱)", HEADER)
    );
}

#[test]
fn detection_is_case_insensitive() {
    assert_eq!(
        check_dangerous_webview2_args(Some("--REMOTE-DEBUGGING-PORT=9222")).unwrap(),
        format!("{}• --remote-debugging-port (远程调试端口)", HEADER)
    );
}

#[test]
fn all_dangerous_patterns_are_listed() {
    let golden: &[(&str, &str)] = &[
        ("--auto-open-devtools-for-tabs", "自动打开开发者工具"),
        ("--remote-debugging-port", "远程调试端口"),
        ("--remote-debugging-pipe", "远程调试管道"),
        ("--remote-debugging-address", "远程调试地址"),
        ("--disable-web-security", "禁用网页安全策略"),
        ("--disable-site-isolation-trials", "禁用站点隔离"),
        ("--allow-running-insecure-content", "允许运行不安全内容"),
        ("--disable-features=IsolateOrigins", "禁用源隔离"),
        ("--load-extension", "加载外部扩展"),
        ("--disable-extensions-except", "扩展白名单绕过"),
        ("--user-data-dir", "自定义用户数据目录"),
        ("--disable-gpu-sandbox", "禁用 GPU 沙箱"),
        ("--no-sandbox", "禁用沙箱"),
        ("--disable-setuid-sandbox", "禁用 setuid 沙箱"),
    ];
    assert_eq!(dangerous_patterns().len(), golden.len());
    for (pattern, desc) in golden {
        let warning = check_dangerous_webview2_args(Some(pattern)).expect("detected");
        assert_eq!(warning, format!("{}• {} ({})", HEADER, pattern, desc), "{}", pattern);
    }
}

#[test]
fn multiple_dangerous_patterns_all_listed() {
    let warning = check_dangerous_webview2_args(Some("--disable-web-security --no-sandbox")).unwrap();
    assert_eq!(
        warning,
        format!("{}• --disable-web-security (禁用网页安全策略)\n• --no-sandbox (禁用沙箱)", HEADER)
    );
}

#[test]
fn substring_prefix_matches_are_detected() {
    assert!(check_dangerous_webview2_args(Some("--user-data-dirX")).is_some());
    assert!(check_dangerous_webview2_args(Some("--no-sandboxed-foo")).is_some());
}

#[test]
fn partial_flag_overlap_is_not_detected() {
    assert_eq!(check_dangerous_webview2_args(Some("--user-agent=foo")), None);
    assert_eq!(check_dangerous_webview2_args(Some("--disable-gpu")), None);
    assert_eq!(check_dangerous_webview2_args(Some("--remote-debugging")), None);
}
