//! VSCode-style keyboard mapping: (key, focus) -> action.

use vstd::prelude::*;
use vstd::utf8::encode_utf8;

use crate::model::{Focus, Panel};
use crate::text::string_push;

verus! {

/// High-level action to be applied by the update loop.
#[derive(Debug)]
pub enum Action {
    Quit,
    ToggleSidebar,
    ToggleTerminal,
    SelectPanel(Panel),
    Save,
    CloseTab,
    NextTab,
    PrevTab,
    // Editor
    Insert(char),
    Newline,
    InsertTab,
    Backspace,
    Delete,
    /// (direction, extend selection)
    Move(Motion, bool),
    SelectAll,
    Copy,
    Cut,
    Paste,
    Undo,
    Redo,
    // Sidebar navigation
    NavUp,
    NavDown,
    Activate,
    // Search input
    SearchSubmit,
    SearchToggleField,
    SearchToggleRegex,
    // In-editor find / replace widget
    OpenFind,
    OpenFindReplace,
    FindNext,
    FindPrev,
    FindToggleField,
    /// Terminal raw input.
    PtyInput(Vec<u8>),
    Escape,
}

#[derive(Clone, Copy, Debug, PartialEq, Eq, Structural)]
pub enum Motion {
    Left,
    Right,
    Up,
    Down,
    Home,
    End,
    PageUp,
    PageDown,
    WordLeft,
    WordRight,
}

/// The key of a key press.
#[derive(Clone, Copy, Debug, PartialEq, Eq, Structural)]
pub enum KeyCode {
    Char(char),
    Enter,
    Backspace,
    Tab,
    Esc,
    Left,
    Right,
    Up,
    Down,
    Home,
    End,
    Delete,
    PageUp,
    PageDown,
    /// Any other key (function keys, media keys, ...).
    Other,
}

/// A key press: the key and the Ctrl and Shift modifiers.
#[derive(Clone, Copy, Debug, PartialEq, Eq, Structural)]
pub struct Key {
    pub code: KeyCode,
    pub ctrl: bool,
    pub shift: bool,
}

/// Global shortcuts, in any focus (all with Ctrl).
pub open spec fn global_action(key: Key) -> Option<Action> {
    if !key.ctrl {
        None
    } else {
        match key.code {
            KeyCode::Char(c) => if c == 'q' {
                Some(Action::Quit)
            } else if c == 'b' {
                Some(Action::ToggleSidebar)
            } else if c == 'j' {
                Some(Action::ToggleTerminal)
            } else if c == 'w' {
                Some(Action::CloseTab)
            } else if c == 's' {
                Some(Action::Save)
            } else if c == 'e' && key.shift {
                Some(Action::SelectPanel(Panel::Files))
            } else if c == 'f' && key.shift {
                Some(Action::SelectPanel(Panel::Search))
            } else if c == 'g' && key.shift {
                Some(Action::SelectPanel(Panel::Git))
            } else if c == 'x' && key.shift {
                Some(Action::SelectPanel(Panel::Extensions))
            } else if c == 'f' {
                Some(Action::OpenFind)
            } else if c == 'h' {
                Some(Action::OpenFindReplace)
            } else if c == ',' {
                Some(Action::SelectPanel(Panel::Settings))
            } else {
                None
            },
            KeyCode::Tab => Some(
                if key.shift {
                    Action::PrevTab
                } else {
                    Action::NextTab
                },
            ),
            _ => None,
        }
    }
}

/// The editor's keys.
pub open spec fn editor_action(key: Key) -> Option<Action> {
    if key.ctrl {
        match key.code {
            KeyCode::Char(c) => if c == 'c' {
                Some(Action::Copy)
            } else if c == 'x' {
                Some(Action::Cut)
            } else if c == 'v' {
                Some(Action::Paste)
            } else if c == 'z' {
                Some(Action::Undo)
            } else if c == 'y' {
                Some(Action::Redo)
            } else if c == 'a' {
                Some(Action::SelectAll)
            } else {
                None
            },
            KeyCode::Left => Some(Action::Move(Motion::WordLeft, key.shift)),
            KeyCode::Right => Some(Action::Move(Motion::WordRight, key.shift)),
            _ => None,
        }
    } else {
        match key.code {
            KeyCode::Char(c) => Some(Action::Insert(c)),
            KeyCode::Enter => Some(Action::Newline),
            KeyCode::Tab => Some(Action::InsertTab),
            KeyCode::Backspace => Some(Action::Backspace),
            KeyCode::Delete => Some(Action::Delete),
            KeyCode::Left => Some(Action::Move(Motion::Left, key.shift)),
            KeyCode::Right => Some(Action::Move(Motion::Right, key.shift)),
            KeyCode::Up => Some(Action::Move(Motion::Up, key.shift)),
            KeyCode::Down => Some(Action::Move(Motion::Down, key.shift)),
            KeyCode::Home => Some(Action::Move(Motion::Home, key.shift)),
            KeyCode::End => Some(Action::Move(Motion::End, key.shift)),
            KeyCode::PageUp => Some(Action::Move(Motion::PageUp, key.shift)),
            KeyCode::PageDown => Some(Action::Move(Motion::PageDown, key.shift)),
            KeyCode::Esc => Some(Action::Escape),
            _ => None,
        }
    }
}

/// The keys of the focused sidebar, search input, commit box and find widget.
pub open spec fn panel_action(key: Key, focus: Focus) -> Option<Action> {
    match focus {
        Focus::Sidebar => match key.code {
            KeyCode::Up => Some(Action::NavUp),
            KeyCode::Down => Some(Action::NavDown),
            KeyCode::Enter => Some(Action::Activate),
            KeyCode::Right => Some(Action::Activate),
            KeyCode::Esc => Some(Action::Escape),
            _ => None,
        },
        Focus::SearchInput => if key.ctrl {
            if key.code == KeyCode::Char('r') {
                Some(Action::SearchToggleRegex)
            } else {
                None
            }
        } else {
            match key.code {
                KeyCode::Tab => Some(Action::SearchToggleField),
                KeyCode::Enter => Some(Action::SearchSubmit),
                KeyCode::Up => Some(Action::NavUp),
                KeyCode::Down => Some(Action::NavDown),
                KeyCode::Esc => Some(Action::Escape),
                _ => None,
            }
        },
        Focus::GitCommit => if key.code == KeyCode::Esc {
            Some(Action::Escape)
        } else {
            None
        },
        Focus::Find => match key.code {
            KeyCode::Tab => Some(Action::FindToggleField),
            KeyCode::Enter => Some(
                if key.shift {
                    Action::FindPrev
                } else {
                    Action::FindNext
                },
            ),
            KeyCode::Down => Some(Action::FindNext),
            KeyCode::Up => Some(Action::FindPrev),
            KeyCode::Esc => Some(Action::Escape),
            _ => None,
        },
        Focus::Editor => editor_action(key),
        Focus::Terminal => None,
    }
}

pub open spec fn is_ascii_letter(c: char) -> bool {
    ('a' <= c <= 'z') || ('A' <= c <= 'Z')
}

/// The control character of an ASCII letter (Ctrl+A = 0x01 ... Ctrl+Z = 0x1a).
pub open spec fn control_byte(c: char) -> u8 {
    if 'a' <= c <= 'z' {
        (c as u32 - 0x60) as u8
    } else {
        (c as u32 - 0x40) as u8
    }
}

/// Ctrl with a letter sends the letter's place in the alphabet (1 for A to
/// 26 for Z), the same for the upper- and the lower-case letter.
pub proof fn lemma_control_bytes(c: char)
    requires
        is_ascii_letter(c),
    ensures
        1 <= control_byte(c) <= 26,
        control_byte(c) as int == (if 'a' <= c <= 'z' {
            c as int - ('a' as int)
        } else {
            c as int - ('A' as int)
        }) + 1,
{
}

/// The bytes a key sends to the terminal: control characters for Ctrl+letter,
/// UTF-8 for other characters, and the usual escape sequences; `None` for a
/// key the terminal does not take.
pub open spec fn terminal_bytes(key: Key) -> Option<Seq<u8>> {
    match key.code {
        KeyCode::Char(c) => if key.ctrl && is_ascii_letter(c) {
            Some(seq![control_byte(c)])
        } else {
            Some(encode_utf8(seq![c]))
        },
        KeyCode::Enter => Some(seq![0x0du8]),
        KeyCode::Backspace => Some(seq![0x7fu8]),
        KeyCode::Tab => Some(seq![0x09u8]),
        KeyCode::Esc => Some(seq![0x1bu8]),
        KeyCode::Left => Some(seq![0x1bu8, 0x5bu8, 0x44u8]),
        KeyCode::Right => Some(seq![0x1bu8, 0x5bu8, 0x43u8]),
        KeyCode::Up => Some(seq![0x1bu8, 0x5bu8, 0x41u8]),
        KeyCode::Down => Some(seq![0x1bu8, 0x5bu8, 0x42u8]),
        KeyCode::Home => Some(seq![0x1bu8, 0x5bu8, 0x48u8]),
        KeyCode::End => Some(seq![0x1bu8, 0x5bu8, 0x46u8]),
        KeyCode::Delete => Some(seq![0x1bu8, 0x5bu8, 0x33u8, 0x7eu8]),
        KeyCode::PageUp => Some(seq![0x1bu8, 0x5bu8, 0x35u8, 0x7eu8]),
        KeyCode::PageDown => Some(seq![0x1bu8, 0x5bu8, 0x36u8, 0x7eu8]),
        KeyCode::Other => None,
    }
}

/// The UTF-8 encoding of `c`.
fn utf8_bytes(c: char) -> (v: Vec<u8>)
    ensures
        v@ == encode_utf8(seq![c]),
{
    let mut s = String::new();
    string_push(&mut s, c);
    proof {
        assert(s@ =~= seq![c]);
    }
    vstd::slice::slice_to_vec(s.as_str().as_bytes())
}

fn global(key: Key) -> (r: Option<Action>)
    ensures
        r == global_action(key),
{
    if !key.ctrl {
        return None;
    }
    match key.code {
        KeyCode::Char(c) => {
            if c == 'q' {
                Some(Action::Quit)
            } else if c == 'b' {
                Some(Action::ToggleSidebar)
            } else if c == 'j' {
                Some(Action::ToggleTerminal)
            } else if c == 'w' {
                Some(Action::CloseTab)
            } else if c == 's' {
                Some(Action::Save)
            } else if c == 'e' && key.shift {
                Some(Action::SelectPanel(Panel::Files))
            } else if c == 'f' && key.shift {
                Some(Action::SelectPanel(Panel::Search))
            } else if c == 'g' && key.shift {
                Some(Action::SelectPanel(Panel::Git))
            } else if c == 'x' && key.shift {
                Some(Action::SelectPanel(Panel::Extensions))
            } else if c == 'f' {
                // Ctrl+F: in-editor find. (Ctrl+Shift+F above is the workspace search panel.)
                Some(Action::OpenFind)
            } else if c == 'h' {
                Some(Action::OpenFindReplace)
            } else if c == ',' {
                Some(Action::SelectPanel(Panel::Settings))
            } else {
                None
            }
        },
        KeyCode::Tab => Some(
            if key.shift {
                Action::PrevTab
            } else {
                Action::NextTab
            },
        ),
        _ => None,
    }
}

fn resolve_editor(key: Key) -> (r: Option<Action>)
    ensures
        r == editor_action(key),
{
    if key.ctrl {
        return match key.code {
            KeyCode::Char(c) => {
                if c == 'c' {
                    Some(Action::Copy)
                } else if c == 'x' {
                    Some(Action::Cut)
                } else if c == 'v' {
                    Some(Action::Paste)
                } else if c == 'z' {
                    Some(Action::Undo)
                } else if c == 'y' {
                    Some(Action::Redo)
                } else if c == 'a' {
                    Some(Action::SelectAll)
                } else {
                    None
                }
            },
            // Ctrl+Left/Right: jump by word (Shift extends the selection).
            KeyCode::Left => Some(Action::Move(Motion::WordLeft, key.shift)),
            KeyCode::Right => Some(Action::Move(Motion::WordRight, key.shift)),
            _ => None,
        };
    }
    match key.code {
        KeyCode::Char(c) => Some(Action::Insert(c)),
        KeyCode::Enter => Some(Action::Newline),
        KeyCode::Tab => Some(Action::InsertTab),
        KeyCode::Backspace => Some(Action::Backspace),
        KeyCode::Delete => Some(Action::Delete),
        KeyCode::Left => Some(Action::Move(Motion::Left, key.shift)),
        KeyCode::Right => Some(Action::Move(Motion::Right, key.shift)),
        KeyCode::Up => Some(Action::Move(Motion::Up, key.shift)),
        KeyCode::Down => Some(Action::Move(Motion::Down, key.shift)),
        KeyCode::Home => Some(Action::Move(Motion::Home, key.shift)),
        KeyCode::End => Some(Action::Move(Motion::End, key.shift)),
        KeyCode::PageUp => Some(Action::Move(Motion::PageUp, key.shift)),
        KeyCode::PageDown => Some(Action::Move(Motion::PageDown, key.shift)),
        KeyCode::Esc => Some(Action::Escape),
        _ => None,
    }
}

fn resolve_panel(key: Key, focus: Focus) -> (r: Option<Action>)
    ensures
        r == panel_action(key, focus),
{
    match focus {
        Focus::Sidebar => match key.code {
            KeyCode::Up => Some(Action::NavUp),
            KeyCode::Down => Some(Action::NavDown),
            KeyCode::Enter | KeyCode::Right => Some(Action::Activate),
            KeyCode::Esc => Some(Action::Escape),
            _ => None,
        },
        Focus::SearchInput => {
            if key.ctrl {
                // Ctrl+R: toggle regex.
                if key.code == KeyCode::Char('r') {
                    Some(Action::SearchToggleRegex)
                } else {
                    None
                }
            } else {
                match key.code {
                    KeyCode::Tab => Some(Action::SearchToggleField),
                    KeyCode::Enter => Some(Action::SearchSubmit),
                    KeyCode::Up => Some(Action::NavUp),
                    KeyCode::Down => Some(Action::NavDown),
                    KeyCode::Esc => Some(Action::Escape),
                    _ => None,
                }
            }
        },
        // The commit box consumes typing; Esc blurs back to the sidebar.
        Focus::GitCommit => {
            if key.code == KeyCode::Esc {
                Some(Action::Escape)
            } else {
                None
            }
        },
        Focus::Find => match key.code {
            KeyCode::Tab => Some(Action::FindToggleField),
            KeyCode::Enter => Some(
                if key.shift {
                    Action::FindPrev
                } else {
                    Action::FindNext
                },
            ),
            // Up/Down step through matches (the inputs are single-line).
            KeyCode::Down => Some(Action::FindNext),
            KeyCode::Up => Some(Action::FindPrev),
            KeyCode::Esc => Some(Action::Escape),
            _ => None,
        },
        Focus::Editor => resolve_editor(key),
        Focus::Terminal => None,
    }
}

/// When the terminal is focused, converts keys into raw bytes to send to the PTY.
fn resolve_terminal(key: Key) -> (r: Option<Vec<u8>>)
    ensures
        match r {
            Some(v) => terminal_bytes(key) == Some(v@),
            None => terminal_bytes(key) is None,
        },
{
    match key.code {
        KeyCode::Char(c) => {
            if key.ctrl && 'a' <= c && c <= 'z' {
                // Ctrl+letter -> control character (0x01..0x1a)
                Some(vec![(c as u32 - 0x60) as u8])
            } else if key.ctrl && 'A' <= c && c <= 'Z' {
                Some(vec![(c as u32 - 0x40) as u8])
            } else {
                Some(utf8_bytes(c))
            }
        },
        KeyCode::Enter => Some(vec![0x0du8]),
        KeyCode::Backspace => Some(vec![0x7fu8]),
        KeyCode::Tab => Some(vec![0x09u8]),
        KeyCode::Esc => Some(vec![0x1bu8]),
        KeyCode::Left => Some(vec![0x1bu8, 0x5bu8, 0x44u8]),
        KeyCode::Right => Some(vec![0x1bu8, 0x5bu8, 0x43u8]),
        KeyCode::Up => Some(vec![0x1bu8, 0x5bu8, 0x41u8]),
        KeyCode::Down => Some(vec![0x1bu8, 0x5bu8, 0x42u8]),
        KeyCode::Home => Some(vec![0x1bu8, 0x5bu8, 0x48u8]),
        KeyCode::End => Some(vec![0x1bu8, 0x5bu8, 0x46u8]),
        KeyCode::Delete => Some(vec![0x1bu8, 0x5bu8, 0x33u8, 0x7eu8]),
        KeyCode::PageUp => Some(vec![0x1bu8, 0x5bu8, 0x35u8, 0x7eu8]),
        KeyCode::PageDown => Some(vec![0x1bu8, 0x5bu8, 0x36u8, 0x7eu8]),
        KeyCode::Other => None,
    }
}

/// The action of a key press outside the terminal: a global Ctrl shortcut
/// first, then the focused area's own keys.
pub open spec fn resolved(key: Key, focus: Focus) -> Option<Action> {
    if global_action(key) is Some {
        global_action(key)
    } else {
        panel_action(key, focus)
    }
}

/// In the editor, each editing command has its own key and no other key
/// reaches it: Ctrl+Z undoes, Ctrl+Y redoes, Ctrl+C copies, Ctrl+X cuts,
/// Ctrl+V pastes, Ctrl+A selects all; a character typed without Ctrl inserts
/// that very character; Enter, Backspace and Delete (without Ctrl) make a new
/// line, delete backwards and delete forwards.
pub proof fn lemma_editor_keys(key: Key)
    ensures
        resolved(key, Focus::Editor) == Some(Action::Undo) <==> key.ctrl && key.code == KeyCode::Char('z'),
        resolved(key, Focus::Editor) == Some(Action::Redo) <==> key.ctrl && key.code == KeyCode::Char('y'),
        resolved(key, Focus::Editor) == Some(Action::Copy) <==> key.ctrl && key.code == KeyCode::Char('c'),
        resolved(key, Focus::Editor) == Some(Action::Cut) <==> key.ctrl && key.code == KeyCode::Char('x')
            && !key.shift,
        resolved(key, Focus::Editor) == Some(Action::Paste) <==> key.ctrl && key.code == KeyCode::Char('v'),
        resolved(key, Focus::Editor) == Some(Action::SelectAll) <==> key.ctrl && key.code == KeyCode::Char('a'),
        forall|c: char|
            resolved(key, Focus::Editor) == Some(Action::Insert(c)) <==> !key.ctrl && key.code == KeyCode::Char(c),
        resolved(key, Focus::Editor) == Some(Action::Newline) <==> !key.ctrl && key.code == KeyCode::Enter,
        resolved(key, Focus::Editor) == Some(Action::Backspace) <==> !key.ctrl && key.code == KeyCode::Backspace,
        resolved(key, Focus::Editor) == Some(Action::Delete) <==> !key.ctrl && key.code == KeyCode::Delete,
{
}

/// In the find widget, Enter and Down go to the next match and Shift+Enter
/// and Up to the previous one, and nothing else does; Esc closes whatever
/// has the focus (outside the terminal, without Ctrl); in the sidebar Up and Down move the
/// selection and Enter or Right opens it.
pub proof fn lemma_panel_keys(key: Key, focus: Focus)
    ensures
        resolved(key, Focus::Find) == Some(Action::FindNext) <==> key.code == KeyCode::Down || (key.code
            == KeyCode::Enter && !key.shift),
        resolved(key, Focus::Find) == Some(Action::FindPrev) <==> key.code == KeyCode::Up || (key.code
            == KeyCode::Enter && key.shift),
        focus != Focus::Terminal && key.code == KeyCode::Esc && !key.ctrl ==> resolved(key, focus) == Some(Action::Escape),
        resolved(key, Focus::Sidebar) == Some(Action::NavUp) <==> key.code == KeyCode::Up,
        resolved(key, Focus::Sidebar) == Some(Action::NavDown) <==> key.code == KeyCode::Down,
        resolved(key, Focus::Sidebar) == Some(Action::Activate) <==> key.code == KeyCode::Enter || key.code
            == KeyCode::Right,
{
}

/// The action a key press means in the given focus: a global Ctrl shortcut
/// first, then the focused area's own keys (raw bytes for the terminal).
pub fn resolve(key: Key, focus: Focus) -> (r: Option<Action>)
    ensures
        focus != Focus::Terminal ==> r == resolved(key, focus),
        global_action(key) is Some ==> r == global_action(key),
        global_action(key) is None && focus != Focus::Terminal ==> r == panel_action(key, focus),
        global_action(key) is None && focus == Focus::Terminal ==> match terminal_bytes(key) {
            Some(b) => r matches Some(Action::PtyInput(v)) && v@ == b,
            None => r is None,
        },
{
    let g = global(key);
    if g.is_some() {
        return g;
    }
    match focus {
        Focus::Terminal => match resolve_terminal(key) {
            Some(bytes) => Some(Action::PtyInput(bytes)),
            None => None,
        },
        _ => resolve_panel(key, focus),
    }
}

} // verus!
