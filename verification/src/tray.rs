//! What the tray icon's menu entries and clicks do.
use vstd::prelude::*;

verus! {

/// What a tray menu entry or click asks for.
#[derive(Clone, Copy, PartialEq, Eq, Structural, Debug)]
pub enum TrayAction {
    /// Switch the panel to the settings view and show it at the cursor.
    ShowSettings,
    /// Switch the panel to the clipboard view and show it at the cursor.
    ShowClipboard,
    /// Exit the application.
    Quit,
}

/// The action of the menu entry with the given id (`settings`, `clipboard`
/// or `quit`); `None` for any other id.
pub fn menu_action(id: &str) -> (r: Option<TrayAction>)
    ensures
        id@ == seq!['s', 'e', 't', 't', 'i', 'n', 'g', 's'] ==> r == Some(TrayAction::ShowSettings),
        id@ == seq!['c', 'l', 'i', 'p', 'b', 'o', 'a', 'r', 'd'] ==> r == Some(
            TrayAction::ShowClipboard,
        ),
        id@ == seq!['q', 'u', 'i', 't'] ==> r == Some(TrayAction::Quit),
        id@ != seq!['s', 'e', 't', 't', 'i', 'n', 'g', 's'] && id@ != seq![
            'c',
            'l',
            'i',
            'p',
            'b',
            'o',
            'a',
            'r',
            'd',
        ] && id@ != seq!['q', 'u', 'i', 't'] ==> r is None,
{
    let given = String::from_str(id);
    let settings = String::from_str("settings");
    let clipboard = String::from_str("clipboard");
    let quit = String::from_str("quit");
    proof {
        reveal_strlit("settings");
        reveal_strlit("clipboard");
        reveal_strlit("quit");
        assert(settings@ =~= seq!['s', 'e', 't', 't', 'i', 'n', 'g', 's']);
        assert(clipboard@ =~= seq!['c', 'l', 'i', 'p', 'b', 'o', 'a', 'r', 'd']);
        assert(quit@ =~= seq!['q', 'u', 'i', 't']);
    }
    if given == settings {
        Some(TrayAction::ShowSettings)
    } else if given == clipboard {
        Some(TrayAction::ShowClipboard)
    } else if given == quit {
        Some(TrayAction::Quit)
    } else {
        None
    }
}

/// A click on the tray icon shows the clipboard panel when it is the left
/// button being released.
pub fn icon_click_action(left_button: bool, released: bool) -> (r: Option<TrayAction>)
    ensures
        r == (if left_button && released {
            Some(TrayAction::ShowClipboard)
        } else {
            None
        }),
{
    if left_button && released {
        Some(TrayAction::ShowClipboard)
    } else {
        None
    }
}

} // verus!
