//! The application's fixed links: website, repository, community channels,
//! changelog and latest release.
use vstd::prelude::*;
use crate::strs::string_from_str;

verus! {

/// The application's links.
#[derive(Debug, Clone)]
pub struct AppLinks {
    pub website: String,
    pub github: String,
    pub pd_channel: String,
    pub qq_group_1: String,
    pub qq_group_2: String,
    pub bilibili: String,
    pub changelog: String,
    pub releases_latest: String,
}

/// The links the application ships with; they always load.
pub fn app_links() -> (r: Result<AppLinks, String>)
    ensures
        r matches Ok(l) && l.website@ == "https://quickclipboard.cn/"@ && l.github@ == "https://github.com/mosheng1/QuickClipboard"@
            && l.pd_channel@ == "https://pd.qq.com/s/blp3j847c"@ && l.qq_group_1@ == "https://qm.qq.com/q/nUCO76MX9C"@
            && l.qq_group_2@ == "https://qm.qq.com/q/O5zOi3uTuy"@ && l.bilibili@ == "https://space.bilibili.com/438982697"@
            && l.changelog@ == "https://quickclipboard.cn/zh/changelog"@
            && l.releases_latest@ == "https://github.com/mosheng1/QuickClipboard/releases/latest"@,
{
    Ok(
        AppLinks {
            website: string_from_str("https://quickclipboard.cn/"),
            github: string_from_str("https://github.com/mosheng1/QuickClipboard"),
            pd_channel: string_from_str("https://pd.qq.com/s/blp3j847c"),
            qq_group_1: string_from_str("https://qm.qq.com/q/nUCO76MX9C"),
            qq_group_2: string_from_str("https://qm.qq.com/q/O5zOi3uTuy"),
            bilibili: string_from_str("https://space.bilibili.com/438982697"),
            changelog: string_from_str("https://quickclipboard.cn/zh/changelog"),
            releases_latest: string_from_str("https://github.com/mosheng1/QuickClipboard/releases/latest"),
        },
    )
}

} // verus!
