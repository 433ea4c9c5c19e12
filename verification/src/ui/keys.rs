//! Key presses as the screens read them, and what a key asks of the tree
//! screen.

use vstd::prelude::*;

verus! {

/// A key press: a character (plain, or with Control held) or a named key.
#[derive(Debug, Clone, Copy, PartialEq, Eq, Structural)]
pub enum Key {
    Char(char),
    Ctrl(char),
    Up,
    Down,
    Left,
    Right,
    Tab,
    Enter,
    Esc,
    Backspace,
    Other,
}

/// What a key does on the tree screen.
#[derive(Debug, Clone, Copy, PartialEq, Eq, Structural)]
pub enum TreeCommand {
    Nothing,
    /// Move the cursor by this many rows.
    Move(isize),
    First,
    Last,
    /// Move by half a page in this direction.
    Page(isize),
    Expand,
    CollapseOrParent,
    JumpRecommend,
    /// Next (or, when `true`, previous) file row.
    NextMatch(bool),
    BeginFilter,
    ClearFilter,
    PopFilter,
    PushFilter(char),
    /// Stop editing the filter, keeping it.
    EndFilterEdit,
    /// Skip the selected file by hand, or include it again.
    ToggleSkip,
    /// Drop the hand-made override of the selected file.
    ClearSkip,
    /// Make the selected file the flow entry point.
    SetEntry,
    /// Fold or unfold the selected directory, or open the selected file.
    Activate,
}

/// The command of `key` on the tree screen: while the filter is being
/// edited keys edit it; otherwise they move, fold and open (`n`/`N` only
/// step through matches while a filter is set).
pub open spec fn tree_command_spec(key: Key, filter_editing: bool, filter_empty: bool) -> TreeCommand {
    if filter_editing {
        match key {
            Key::Esc | Key::Char('q') => TreeCommand::ClearFilter,
            Key::Char('n') => TreeCommand::NextMatch(false),
            Key::Char('N') => TreeCommand::NextMatch(true),
            Key::Backspace => TreeCommand::PopFilter,
            Key::Enter => TreeCommand::EndFilterEdit,
            Key::Char(c) => TreeCommand::PushFilter(c),
            _ => TreeCommand::Nothing,
        }
    } else {
        match key {
            Key::Char('j') | Key::Down => TreeCommand::Move(1),
            Key::Char('k') | Key::Up => TreeCommand::Move(-1isize),
            Key::Char('g') => TreeCommand::First,
            Key::Char('G') => TreeCommand::Last,
            Key::Ctrl('d') => TreeCommand::Page(1),
            Key::Ctrl('u') => TreeCommand::Page(-1isize),
            Key::Char(' ') | Key::Char('l') | Key::Right => TreeCommand::Expand,
            Key::Char('h') | Key::Left => TreeCommand::CollapseOrParent,
            Key::Tab => TreeCommand::JumpRecommend,
            Key::Char('n') => if filter_empty {
                TreeCommand::Nothing
            } else {
                TreeCommand::NextMatch(false)
            },
            Key::Char('N') => if filter_empty {
                TreeCommand::Nothing
            } else {
                TreeCommand::NextMatch(true)
            },
            Key::Char('/') => TreeCommand::BeginFilter,
            Key::Char('x') => TreeCommand::ToggleSkip,
            Key::Char('X') => TreeCommand::ClearSkip,
            Key::Char('e') => TreeCommand::SetEntry,
            Key::Enter => TreeCommand::Activate,
            _ => TreeCommand::Nothing,
        }
    }
}

pub fn tree_command(key: Key, filter_editing: bool, filter_empty: bool) -> (c: TreeCommand)
    ensures
        c == tree_command_spec(key, filter_editing, filter_empty),
{
    if filter_editing {
        match key {
            Key::Esc => TreeCommand::ClearFilter,
            Key::Char(c) => {
                if c == 'q' {
                    TreeCommand::ClearFilter
                } else if c == 'n' {
                    TreeCommand::NextMatch(false)
                } else if c == 'N' {
                    TreeCommand::NextMatch(true)
                } else {
                    TreeCommand::PushFilter(c)
                }
            },
            Key::Backspace => TreeCommand::PopFilter,
            Key::Enter => TreeCommand::EndFilterEdit,
            _ => TreeCommand::Nothing,
        }
    } else {
        match key {
            Key::Down => TreeCommand::Move(1),
            Key::Up => TreeCommand::Move(-1),
            Key::Right => TreeCommand::Expand,
            Key::Left => TreeCommand::CollapseOrParent,
            Key::Tab => TreeCommand::JumpRecommend,
            Key::Enter => TreeCommand::Activate,
            Key::Ctrl(c) => {
                if c == 'd' {
                    TreeCommand::Page(1)
                } else if c == 'u' {
                    TreeCommand::Page(-1)
                } else {
                    TreeCommand::Nothing
                }
            },
            Key::Char(c) => {
                if c == 'j' {
                    TreeCommand::Move(1)
                } else if c == 'k' {
                    TreeCommand::Move(-1)
                } else if c == 'g' {
                    TreeCommand::First
                } else if c == 'G' {
                    TreeCommand::Last
                } else if c == ' ' || c == 'l' {
                    TreeCommand::Expand
                } else if c == 'h' {
                    TreeCommand::CollapseOrParent
                } else if c == 'n' {
                    if filter_empty {
                        TreeCommand::Nothing
                    } else {
                        TreeCommand::NextMatch(false)
                    }
                } else if c == 'N' {
                    if filter_empty {
                        TreeCommand::Nothing
                    } else {
                        TreeCommand::NextMatch(true)
                    }
                } else if c == '/' {
                    TreeCommand::BeginFilter
                } else if c == 'x' {
                    TreeCommand::ToggleSkip
                } else if c == 'X' {
                    TreeCommand::ClearSkip
                } else if c == 'e' {
                    TreeCommand::SetEntry
                } else {
                    TreeCommand::Nothing
                }
            },
            _ => TreeCommand::Nothing,
        }
    }
}

/// Every key that edits the filter leaves the moving keys alone: while the
/// filter is edited, no key moves, folds, skips or opens anything.
pub proof fn law_filter_editing_only_edits(key: Key, filter_empty: bool)
    ensures
        match tree_command_spec(key, true, filter_empty) {
            TreeCommand::ClearFilter | TreeCommand::NextMatch(_) | TreeCommand::PopFilter
            | TreeCommand::PushFilter(_) | TreeCommand::EndFilterEdit | TreeCommand::Nothing => true,
            _ => false,
        },
{
}

/// The screen underneath any overlay.
#[derive(Debug, Clone, Copy, PartialEq, Eq, Structural)]
pub enum Place {
    Home,
    Tree,
    Typing,
    Result,
}

/// A panel drawn over the current screen.
#[derive(Debug, Clone, Copy, PartialEq, Eq, Structural)]
pub enum Overlay {
    Search,
    Settings,
    Stats,
    Pause,
}

/// Where a key press goes.
#[derive(Debug, Clone, Copy, PartialEq, Eq, Structural)]
pub enum Route {
    /// Leave the application (interrupting a typing session first).
    Quit,
    /// The key only dismisses the splash.
    DismissSplash,
    /// The key closes the help page.
    CloseHelp,
    /// The key is swallowed by the help page.
    Ignore,
    /// The key belongs to the pause panel.
    Pause,
    /// The key belongs to the typing screen.
    Typing,
    OpenHelp,
    /// The key belongs to the open overlay.
    ToOverlay(Overlay),
    OpenSettings,
    OpenStats,
    OpenSearch,
    /// Go back one screen, or quit from Home (when `q` was pressed).
    BackOrQuit(bool),
    /// The key belongs to the screen itself.
    ToPlace(Place),
}

/// Where `key` goes given what is on screen: Ctrl-C always quits; the
/// splash, the help page and the pause panel take every key; the typing
/// screen takes the rest while it is up; then the overlays, the global
/// shortcuts, and finally the screen itself.
pub open spec fn route_spec(key: Key, place: Place, overlay: Option<Overlay>, help: bool, splash: bool) -> Route {
    if key == Key::Ctrl('c') {
        Route::Quit
    } else if splash {
        Route::DismissSplash
    } else if help {
        if key == Key::Esc || key == Key::Char('q') || key == Key::Char('?') {
            Route::CloseHelp
        } else {
            Route::Ignore
        }
    } else if overlay == Some(Overlay::Pause) {
        Route::Pause
    } else if place == Place::Typing {
        Route::Typing
    } else if key == Key::Char('?') {
        Route::OpenHelp
    } else if overlay is Some {
        Route::ToOverlay(overlay.unwrap())
    } else if key == Key::Char(',') || (place == Place::Home && key == Key::Char('c')) {
        Route::OpenSettings
    } else if key == Key::Char('S') {
        Route::OpenStats
    } else if place == Place::Home && (key == Key::Char('/') || key == Key::Char('s')) {
        Route::OpenSearch
    } else if key == Key::Esc || key == Key::Char('q') {
        Route::BackOrQuit(key == Key::Char('q'))
    } else {
        Route::ToPlace(place)
    }
}

pub fn route_key(key: Key, place: Place, overlay: Option<Overlay>, help: bool, splash: bool) -> (r: Route)
    ensures
        r == route_spec(key, place, overlay, help, splash),
{
    if key == Key::Ctrl('c') {
        return Route::Quit;
    }
    if splash {
        return Route::DismissSplash;
    }
    if help {
        if key == Key::Esc || key == Key::Char('q') || key == Key::Char('?') {
            return Route::CloseHelp;
        }
        return Route::Ignore;
    }
    if overlay == Some(Overlay::Pause) {
        return Route::Pause;
    }
    if place == Place::Typing {
        return Route::Typing;
    }
    if key == Key::Char('?') {
        return Route::OpenHelp;
    }
    match overlay {
        Some(o) => {
            return Route::ToOverlay(o);
        },
        None => {},
    }
    if key == Key::Char(',') || (place == Place::Home && key == Key::Char('c')) {
        return Route::OpenSettings;
    }
    if key == Key::Char('S') {
        return Route::OpenStats;
    }
    if place == Place::Home && (key == Key::Char('/') || key == Key::Char('s')) {
        return Route::OpenSearch;
    }
    if key == Key::Esc || key == Key::Char('q') {
        return Route::BackOrQuit(key == Key::Char('q'));
    }
    Route::ToPlace(place)
}

/// What Esc or `q` does: from Home only `q` quits, Tree goes back Home,
/// Result goes back to the Tree, and the typing screen keeps the key.
pub open spec fn back_spec(place: Place, from_q: bool) -> (bool, Option<Place>) {
    match place {
        Place::Home => (from_q, None),
        Place::Tree => (false, Some(Place::Home)),
        Place::Result => (false, Some(Place::Tree)),
        Place::Typing => (false, None),
    }
}

/// Whether to quit, and which screen to go back to.
pub fn back_or_quit(place: Place, from_q: bool) -> (r: (bool, Option<Place>))
    ensures
        r == back_spec(place, from_q),
{
    match place {
        Place::Home => (from_q, None),
        Place::Tree => (false, Some(Place::Home)),
        Place::Result => (false, Some(Place::Tree)),
        Place::Typing => (false, None),
    }
}

/// The help page for what is on screen: the overlay's when help is open
/// over one, else the screen's.
pub fn help_context(place: Place, overlay: Option<Overlay>, help: bool) -> (c: crate::ui::help::HelpContext)
    ensures
        c == if help && overlay is Some {
            match overlay.unwrap() {
                Overlay::Search => crate::ui::help::HelpContext::Search,
                Overlay::Settings => crate::ui::help::HelpContext::Settings,
                Overlay::Stats => crate::ui::help::HelpContext::Stats,
                Overlay::Pause => crate::ui::help::HelpContext::Pause,
            }
        } else {
            match place {
                Place::Home => crate::ui::help::HelpContext::Home,
                Place::Tree => crate::ui::help::HelpContext::Tree,
                Place::Typing => crate::ui::help::HelpContext::Typing,
                Place::Result => crate::ui::help::HelpContext::Result,
            }
        },
{
    if help {
        match overlay {
            Some(Overlay::Search) => {
                return crate::ui::help::HelpContext::Search;
            },
            Some(Overlay::Settings) => {
                return crate::ui::help::HelpContext::Settings;
            },
            Some(Overlay::Stats) => {
                return crate::ui::help::HelpContext::Stats;
            },
            Some(Overlay::Pause) => {
                return crate::ui::help::HelpContext::Pause;
            },
            None => {},
        }
    }
    match place {
        Place::Home => crate::ui::help::HelpContext::Home,
        Place::Tree => crate::ui::help::HelpContext::Tree,
        Place::Typing => crate::ui::help::HelpContext::Typing,
        Place::Result => crate::ui::help::HelpContext::Result,
    }
}

/// Ctrl-C quits from anywhere, whatever is on screen.
pub proof fn law_ctrl_c_always_quits(place: Place, overlay: Option<Overlay>, help: bool, splash: bool)
    ensures
        route_spec(Key::Ctrl('c'), place, overlay, help, splash) == Route::Quit,
{
}

} // verus!
