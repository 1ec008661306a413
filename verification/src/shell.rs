//! Decisions of the desktop shell around its window: where a navigation goes,
//! what the global toggle shortcut does, and how the webview is sent to the
//! host once it answers.

use vstd::prelude::*;

verus! {

/// The script that sends the webview to `url`.
pub open spec fn navigation_script_spec(url: Seq<char>) -> Seq<char> {
    "window.location.replace('"@ + url + "')"@
}

/// The script the boot thread evaluates in the main window once the host
/// answers.
pub fn navigation_script(url: &str) -> (script: String)
    ensures
        script@ == navigation_script_spec(url@),
{
    let mut script = String::from_str("window.location.replace('");
    script.append(url);
    script.append("')");
    script
}

/// Hosts whose pages load inside the webview; any other URL opens in the
/// system browser.
pub open spec fn is_local_host(host: Seq<char>) -> bool {
    host == "127.0.0.1"@ || host == "localhost"@
}

/// Whether a navigation to a URL with this host may proceed in the webview
/// (`false`: it opens in the default browser instead).
pub fn stays_in_webview(host: Option<&str>) -> (stay: bool)
    ensures
        stay == match host {
            Some(h) => is_local_host(h@),
            None => false,
        },
{
    match host {
        Some(h) => {
            let h = h.to_owned();
            h == String::from_str("127.0.0.1") || h == String::from_str("localhost")
        },
        None => false,
    }
}

/// What a press of the global toggle shortcut does to the main window.
#[derive(Debug, Clone, Copy, PartialEq, Eq, Structural)]
pub enum ShortcutAction {
    /// Nothing to do.
    Ignore,
    /// Hide the window.
    Hide,
    /// Show the window and focus it.
    ShowAndFocus,
}

/// Decide a shortcut event: only a press on an existing window acts; a window
/// known to be visible is hidden, any other (hidden, or of unknown visibility)
/// is shown and focused.
pub fn shortcut_action(pressed: bool, window_found: bool, visible: Option<bool>) -> (a:
    ShortcutAction)
    ensures
        a == if !pressed || !window_found {
            ShortcutAction::Ignore
        } else if visible == Some(true) {
            ShortcutAction::Hide
        } else {
            ShortcutAction::ShowAndFocus
        },
{
    if !pressed || !window_found {
        ShortcutAction::Ignore
    } else {
        match visible {
            Some(true) => ShortcutAction::Hide,
            _ => ShortcutAction::ShowAndFocus,
        }
    }
}

} // verus!
