use quickclipboard_core::app_links::app_links;

#[test]
fn app_links_parses_embedded_config_with_renamed_fields() {
    let links = app_links().expect("appLinks.json must parse");
    assert_eq!(links.website, "https://quickclipboard.cn/");
    assert_eq!(links.github, "https://github.com/mosheng1/QuickClipboard");
    assert_eq!(links.pd_channel, "https://pd.qq.com/s/blp3j847c");
    assert_eq!(links.qq_group_1, "https://qm.qq.com/q/nUCO76MX9C");
    assert_eq!(links.qq_group_2, "https://qm.qq.com/q/O5zOi3uTuy");
    assert_eq!(links.bilibili, "https://space.bilibili.com/438982697");
    assert_eq!(links.changelog, "https://quickclipboard.cn/zh/changelog");
    assert_eq!(links.releases_latest, "https://github.com/mosheng1/QuickClipboard/releases/latest");
}

#[test]
fn app_links_is_cached_and_stable_across_calls() {
    let a = app_links().unwrap();
    let b = app_links().unwrap();
    let fields = |l: &quickclipboard_core::app_links::AppLinks| {
        vec![
            l.website.clone(),
            l.github.clone(),
            l.pd_channel.clone(),
            l.qq_group_1.clone(),
            l.qq_group_2.clone(),
            l.bilibili.clone(),
            l.changelog.clone(),
            l.releases_latest.clone(),
        ]
    };
    assert_eq!(fields(&a), fields(&b));
}
