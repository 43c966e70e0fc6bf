//! The system-tray menu: its events and entries. The StatusNotifierItem
//! backend that shows the icon and delivers clicks lives with the desktop
//! plumbing; it builds its menu from [`menu_entries`] and forwards each
//! activation as the entry's [`TrayEvent`].

use vstd::prelude::*;

verus! {

/// Menu events emitted by the tray.
#[derive(Clone, Copy, PartialEq, Eq, Debug, Structural)]
pub enum TrayEvent {
    /// Show and focus the main window (also the icon's left-click).
    Show,
    /// Hide the main window.
    Hide,
    /// Quit the application.
    Quit,
}

/// One item of the tray menu.
#[derive(Clone, Copy, Debug)]
pub enum TrayEntry {
    /// A clickable item: its label, its icon name (empty for none) and the
    /// event it sends.
    Item { label: &'static str, icon: &'static str, event: TrayEvent },
    /// A separator line.
    Separator,
}

/// The event of the icon's left-click.
pub fn activate_event() -> (e: TrayEvent)
    ensures
        e == TrayEvent::Show,
{
    TrayEvent::Show
}

/// The tray menu: show, hide, a separator, then quit.
pub fn menu_entries() -> (r: Vec<TrayEntry>)
    ensures
        r@.len() == 4,
        r@[0] matches TrayEntry::Item { label, icon, event } && label@ == "Show Catacomb"@
            && icon@.len() == 0 && event == TrayEvent::Show,
        r@[1] matches TrayEntry::Item { label, icon, event } && label@ == "Hide window"@
            && icon@.len() == 0 && event == TrayEvent::Hide,
        r@[2] == TrayEntry::Separator,
        r@[3] matches TrayEntry::Item { label, icon, event } && label@ == "Quit"@
            && icon@ == "application-exit"@ && event == TrayEvent::Quit,
{
    proof {
        reveal_strlit("");
    }
    let mut v: Vec<TrayEntry> = Vec::new();
    v.push(TrayEntry::Item { label: "Show Catacomb", icon: "", event: TrayEvent::Show });
    v.push(TrayEntry::Item { label: "Hide window", icon: "", event: TrayEvent::Hide });
    v.push(TrayEntry::Separator);
    v.push(TrayEntry::Item { label: "Quit", icon: "application-exit", event: TrayEvent::Quit });
    v
}

} // verus!
