//! Labels of the tray menu.

use vstd::prelude::*;
use crate::text::str_eq;

verus! {

/// The three entries of the tray menu.
pub struct TrayLabels {
    pub show: &'static str,
    pub lightweight: &'static str,
    pub quit: &'static str,
}

/// The menu labels for `language`: English for `en-US`, Chinese otherwise.
pub fn tray_labels(language: &str) -> (r: TrayLabels)
    ensures
        language@ == "en-US"@ ==> r.show@ == "Show Window"@ && r.lightweight@ == "Lightweight Mode"@
            && r.quit@ == "Quit"@,
        language@ != "en-US"@ ==> r.show@ == "显示窗口"@ && r.lightweight@ == "轻量模式"@ && r.quit@
            == "退出"@,
{
    if str_eq(language, "en-US") {
        TrayLabels { show: "Show Window", lightweight: "Lightweight Mode", quit: "Quit" }
    } else {
        TrayLabels { show: "显示窗口", lightweight: "轻量模式", quit: "退出" }
    }
}

} // verus!
