//! The status panel's display modes and the window menu's commands.

use vstd::prelude::*;
use crate::text::same_text;

verus! {

/// How the status panel is displayed: `Pinned` gives it its own column and
/// shrinks the harness to fit, `Floating` overlays it, `Hidden` removes it.
#[derive(Clone, Copy, PartialEq, Eq, Debug, Structural)]
pub enum PanelMode {
    Pinned,
    Floating,
    Hidden,
}

impl Default for PanelMode {
    fn default() -> (r: Self)
        ensures
            r == PanelMode::Pinned,
    {
        PanelMode::Pinned
    }
}

/// The panel mode a menu item id selects.
pub open spec fn mode_for(id: Seq<char>) -> Option<PanelMode> {
    if id == "panel-pin"@ {
        Some(PanelMode::Pinned)
    } else if id == "panel-float"@ {
        Some(PanelMode::Floating)
    } else if id == "panel-hide"@ {
        Some(PanelMode::Hidden)
    } else {
        None
    }
}

impl PanelMode {
    /// The mode the menu item `id` selects, if it is one of the panel items.
    pub fn from_id(id: &str) -> (r: Option<Self>)
        ensures
            r == mode_for(id@),
    {
        if same_text(id, "panel-pin") {
            Some(PanelMode::Pinned)
        } else if same_text(id, "panel-float") {
            Some(PanelMode::Floating)
        } else if same_text(id, "panel-hide") {
            Some(PanelMode::Hidden)
        } else {
            None
        }
    }
}

/// What a menu item does.
#[derive(Clone, Copy, PartialEq, Eq, Debug, Structural)]
pub enum MenuAction {
    /// Switch the panel to this mode and lay the window out again.
    Panel(PanelMode),
    /// Open the log file.
    OpenLog,
    /// Show the folder holding the log file.
    OpenLogFolder,
    /// Open the harness page's developer tools.
    DevTools,
    /// Reload the harness page.
    Reload,
    /// Nothing: not one of this window's items.
    Ignore,
}

/// The action of the menu item `id`.
pub open spec fn action_for(id: Seq<char>) -> MenuAction {
    match mode_for(id) {
        Some(m) => MenuAction::Panel(m),
        None => if id == "open-log"@ {
            MenuAction::OpenLog
        } else if id == "open-log-dir"@ {
            MenuAction::OpenLogFolder
        } else if id == "devtools"@ {
            MenuAction::DevTools
        } else if id == "reload"@ {
            MenuAction::Reload
        } else {
            MenuAction::Ignore
        },
    }
}

/// The action of the menu item `id`.
pub fn menu_action(id: &str) -> (r: MenuAction)
    ensures
        r == action_for(id@),
{
    match PanelMode::from_id(id) {
        Some(m) => MenuAction::Panel(m),
        None => if same_text(id, "open-log") {
            MenuAction::OpenLog
        } else if same_text(id, "open-log-dir") {
            MenuAction::OpenLogFolder
        } else if same_text(id, "devtools") {
            MenuAction::DevTools
        } else if same_text(id, "reload") {
            MenuAction::Reload
        } else {
            MenuAction::Ignore
        },
    }
}

} // verus!
