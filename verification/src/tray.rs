//! Routing of tray menu events, and the model of the tray menu itself.
//! This layer only classifies an event; acting on it (opening the settings
//! window, closing windows, ending the process) is the host shell's job.

use vstd::prelude::*;
use vstd::string::StrSliceExecFns;

verus! {

/// What a tray menu selection asks for.
#[derive(Clone, Copy, Debug, PartialEq, Eq, Structural)]
pub enum TrayAction {
    /// Open the configuration surface.
    OpenConfig,
    /// Close every open window and end the process.
    Quit,
    /// The identifier is not one of ours: do nothing.
    Ignore,
}

/// The routing rule: `"config"` opens the configuration, `"quit"` quits,
/// anything else is ignored without error.
pub open spec fn route_spec(id: Seq<char>) -> TrayAction {
    if id == "config"@ {
        TrayAction::OpenConfig
    } else if id == "quit"@ {
        TrayAction::Quit
    } else {
        TrayAction::Ignore
    }
}

/// Character-for-character string comparison.
fn str_eq(a: &str, b: &str) -> (r: bool)
    ensures
        r == (a@ == b@),
{
    let la = a.unicode_len();
    let lb = b.unicode_len();
    if la != lb {
        return false;
    }
    let mut i: usize = 0;
    while i < la
        invariant
            la == a@.len(),
            la == b@.len(),
            i <= la,
            forall|k: int| 0 <= k < i ==> a@[k] == b@[k],
        decreases la - i,
    {
        if a.get_char(i) != b.get_char(i) {
            return false;
        }
        i += 1;
    }
    proof {
        assert(a@ =~= b@);
    }
    true
}

/// Translates one tray menu selection into the action it stands for.
pub fn route_tray_event(id: &str) -> (action: TrayAction)
    ensures
        action == route_spec(id@),
{
    if str_eq(id, "config") {
        TrayAction::OpenConfig
    } else if str_eq(id, "quit") {
        TrayAction::Quit
    } else {
        TrayAction::Ignore
    }
}

/// One entry of the tray menu.
#[derive(Debug, Clone)]
pub enum MenuEntry {
    /// A selectable item: the identifier handed back on selection, and the
    /// label shown to the user.
    Action { id: String, label: String },
    /// A visual divider between items.
    Divider,
}

/// The tray menu: a `Config` item and a `Quit` item, separated by a divider.
pub fn menu() -> (entries: Vec<MenuEntry>)
    ensures
        entries@.len() == 3,
        entries@[0] matches MenuEntry::Action { id, label } && id@ == "config"@ && label@
            == "Config"@,
        entries@[1] is Divider,
        entries@[2] matches MenuEntry::Action { id, label } && id@ == "quit"@ && label@ == "Quit"@,
{
    let mut entries: Vec<MenuEntry> = Vec::new();
    entries.push(MenuEntry::Action { id: "config".to_owned(), label: "Config".to_owned() });
    entries.push(MenuEntry::Divider);
    entries.push(MenuEntry::Action { id: "quit".to_owned(), label: "Quit".to_owned() });
    entries
}

} // verus!
