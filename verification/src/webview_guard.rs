//! The WebView2 launch-argument check: which dangerous browser switches the
//! environment carries, and the warning that lists them. Reading the
//! environment, the dialog and the exit stay outside.
use vstd::prelude::*;
use crate::strs::{self, char_vec, contains_chars, push_str, string_from_str};
use crate::unicode::{self, to_lowercase};

verus! {

broadcast use vstd::seq::group_seq_axioms;

/// The dangerous switches with their descriptions, in report order.
pub open spec fn patterns() -> Seq<(Seq<char>, Seq<char>)> {
    seq![
        ("--auto-open-devtools-for-tabs"@, "自动打开开发者工具"@),
        ("--remote-debugging-port"@, "远程调试端口"@),
        ("--remote-debugging-pipe"@, "远程调试管道"@),
        ("--remote-debugging-address"@, "远程调试地址"@),
        ("--disable-web-security"@, "禁用网页安全策略"@),
        ("--disable-site-isolation-trials"@, "禁用站点隔离"@),
        ("--allow-running-insecure-content"@, "允许运行不安全内容"@),
        ("--disable-features=IsolateOrigins"@, "禁用源隔离"@),
        ("--load-extension"@, "加载外部扩展"@),
        ("--disable-extensions-except"@, "扩展白名单绕过"@),
        ("--user-data-dir"@, "自定义用户数据目录"@),
        ("--disable-gpu-sandbox"@, "禁用 GPU 沙箱"@),
        ("--no-sandbox"@, "禁用沙箱"@),
        ("--disable-setuid-sandbox"@, "禁用 setuid 沙箱"@),
    ]
}

pub open spec fn table_view(v: Seq<(&str, &str)>) -> Seq<(Seq<char>, Seq<char>)> {
    v.map_values(|p: (&str, &str)| (p.0@, p.1@))
}

/// The dangerous switches with their descriptions; see `patterns`.
pub fn dangerous_patterns() -> (r: Vec<(&'static str, &'static str)>)
    ensures
        table_view(r@) == patterns(),
{
    let v: Vec<(&'static str, &'static str)> = vec![
        ("--auto-open-devtools-for-tabs", "自动打开开发者工具"),
        ("--remote-debugging-port", "远程调试端口"),
        ("--remote-debugging-pipe", "远程调试管道"),
        ("--remote-debugging-address", "远程调试地址"),
        ("--disable-web-security", "禁用网页安全策略"),
        ("--disable-site-isolation-trials", "禁用站点隔离"),
        ("--allow-running-insecure-content", "允许运行不安全内容"),
        ("--disable-features=IsolateOrigins", "禁用源隔离"),
        ("--load-extension", "加载外部扩展"),
        ("--disable-extensions-except", "扩展白名单绕过"),
        ("--user-data-dir", "自定义用户数据目录"),
        ("--disable-gpu-sandbox", "禁用 GPU 沙箱"),
        ("--no-sandbox", "禁用沙箱"),
        ("--disable-setuid-sandbox", "禁用 setuid 沙箱"),
    ];
    assert(table_view(v@) =~= patterns());
    v
}

/// The report lines of the switches found in the lowercased arguments: a
/// switch is found when its lowercase form occurs in them.
pub open spec fn detected_lines(args_lower: Seq<char>, table: Seq<(Seq<char>, Seq<char>)>) -> Seq<Seq<char>>
    decreases table.len(),
{
    if table.len() == 0 {
        Seq::empty()
    } else {
        let rest = detected_lines(args_lower, table.drop_last());
        let p = table.last();
        if strs::contains_seq(args_lower, unicode::str_lowercase(p.0)) {
            rest.push("• "@ + p.0 + " ("@ + p.1 + ")"@)
        } else {
            rest
        }
    }
}

/// Lines joined with newlines.
pub open spec fn join_lines(lines: Seq<Seq<char>>) -> Seq<char>
    decreases lines.len(),
{
    if lines.len() == 0 {
        Seq::empty()
    } else if lines.len() == 1 {
        lines[0]
    } else {
        join_lines(lines.drop_last()) + "\n"@ + lines.last()
    }
}

/// The warning for the given launch arguments: none without arguments or
/// without a dangerous switch; else a header and one line per switch found.
pub open spec fn webview_warning(args: Option<Seq<char>>) -> Option<Seq<char>> {
    match args {
        None => None,
        Some(a) => {
            let lines = detected_lines(unicode::str_lowercase(a), patterns());
            if lines.len() == 0 {
                None
            } else {
                Some("环境变量: WEBVIEW2_ADDITIONAL_BROWSER_ARGUMENTS\n\n检测到的危险参数:\n"@ + join_lines(lines))
            }
        },
    }
}

pub open spec fn opt_str_view(o: Option<&str>) -> Option<Seq<char>> {
    match o {
        Some(s) => Some(s@),
        None => None,
    }
}

/// The warning for the value of `WEBVIEW2_ADDITIONAL_BROWSER_ARGUMENTS`;
/// see `webview_warning`.
pub fn check_dangerous_webview2_args(args: Option<&str>) -> (r: Option<String>)
    ensures
        r is Some == webview_warning(opt_str_view(args)) is Some,
        r matches Some(w) ==> w@ == webview_warning(opt_str_view(args)).unwrap(),
{
    let a = match args {
        Some(a) => a,
        None => return None,
    };
    let lower = to_lowercase(a);
    let hay = char_vec(lower.as_str());
    let table = dangerous_patterns();
    let ghost lv = unicode::str_lowercase(a@);
    let mut body = String::new();
    let mut count: usize = 0;
    let mut i: usize = 0;
    while i < table.len()
        invariant
            0 <= i <= table@.len(),
            table_view(table@) == patterns(),
            hay@ == lv,
            count <= i,
            count == detected_lines(lv, patterns().take(i as int)).len(),
            body@ == join_lines(detected_lines(lv, patterns().take(i as int))),
        decreases table@.len() - i,
    {
        let (pattern, desc) = table[i];
        proof {
            assert(patterns().take(i + 1).drop_last() =~= patterns().take(i as int));
            assert(patterns().take(i + 1).last() == (pattern@, desc@));
        }
        let pl = to_lowercase(pattern);
        let needle = char_vec(pl.as_str());
        if contains_chars(&hay, &needle) {
            let ghost before = detected_lines(lv, patterns().take(i as int));
            if count > 0 {
                push_str(&mut body, "\n");
            }
            push_str(&mut body, "• ");
            push_str(&mut body, pattern);
            push_str(&mut body, " (");
            push_str(&mut body, desc);
            push_str(&mut body, ")");
            count = count + 1;
            proof {
                let line = "• "@ + pattern@ + " ("@ + desc@ + ")"@;
                let after = before.push(line);
                assert(after.drop_last() =~= before);
                if before.len() == 0 {
                    assert(body@ =~= join_lines(after));
                } else {
                    assert(body@ =~= join_lines(after));
                }
            }
        }
        i += 1;
    }
    assert(patterns().take(14) =~= patterns());
    if count == 0 {
        return None;
    }
    let mut out = string_from_str("环境变量: WEBVIEW2_ADDITIONAL_BROWSER_ARGUMENTS\n\n检测到的危险参数:\n");
    push_str(&mut out, body.as_str());
    Some(out)
}

} // verus!
