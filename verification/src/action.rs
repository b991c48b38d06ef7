//! Pure key mapping: key event -> [`Action`]. No state is mutated here.

use vstd::prelude::*;

use crate::keyspec::{hits, unmodified, Key, KeyPress};
use crate::state::{App, Mode, Visibility};
use crate::textedit::Motion;

verus! {

/// One user intent, applied by [`crate::app::apply`].
#[derive(Debug, Clone, Copy, PartialEq, Eq, Structural)]
pub enum Action {
    Nop,
    Quit,
    ToggleBar,
    OpenPalette,
    ClosePalette,
    PaletteAccept,
    Execute,
    SubmitColon,
    InsertChar(char),
    Backspace,
    DeleteForward,
    Motion(Motion),
    KillToStart,
    KillToEnd,
    KillWord,
    Transpose,
    MoveUp,
    MoveDown,
}

/// What a key does while the bar is hidden: only Ctrl+C and Ctrl+D (not
/// Alt+Ctrl+D, a mistyped Alt+D) quit.
pub open spec fn hidden_action(key: KeyPress) -> Action {
    match key.code {
        Key::Char(c) => if key.ctrl && c == 'c' {
            Action::Quit
        } else if key.ctrl && !key.alt && c == 'd' {
            Action::Quit
        } else {
            Action::Nop
        },
        _ => Action::Nop,
    }
}

/// What a key does on the shown bar: Enter accepts the palette row, submits
/// a `:` line or runs the input; arrows, Home/End and the readline Emacs
/// bindings move the caret or the selection; the readline kill keys edit;
/// Ctrl+C / Ctrl+D quit; a plain char is typed.
pub open spec fn shown_action(palette_open: bool, colon: bool, key: KeyPress) -> Action {
    let ctrl = key.ctrl;
    let alt = key.alt;
    match key.code {
        Key::Enter => if palette_open {
            Action::PaletteAccept
        } else if colon {
            Action::SubmitColon
        } else {
            Action::Execute
        },
        Key::Esc => Action::ToggleBar,
        Key::Up => Action::MoveUp,
        Key::Down => Action::MoveDown,
        Key::Tab => Action::MoveDown,
        Key::Backspace => if unmodified(key) {
            Action::Backspace
        } else {
            Action::Nop
        },
        Key::Delete => if unmodified(key) {
            Action::DeleteForward
        } else {
            Action::Nop
        },
        Key::Left => if ctrl || alt {
            Action::Motion(Motion::WordLeft)
        } else {
            Action::Motion(Motion::Left)
        },
        Key::Right => if ctrl || alt {
            Action::Motion(Motion::WordRight)
        } else {
            Action::Motion(Motion::Right)
        },
        Key::Home => Action::Motion(Motion::Home),
        Key::End => Action::Motion(Motion::End),
        Key::Char(c) => if ctrl && c == 'a' {
            Action::Motion(Motion::Home)
        } else if ctrl && c == 'e' {
            Action::Motion(Motion::End)
        } else if ctrl && c == 'b' {
            Action::Motion(Motion::Left)
        } else if ctrl && c == 'f' {
            Action::Motion(Motion::Right)
        } else if alt && c == 'b' {
            Action::Motion(Motion::WordLeft)
        } else if alt && c == 'f' {
            Action::Motion(Motion::WordRight)
        } else if ctrl && !alt && c == 'd' {
            Action::Quit
        } else if ctrl && c == 'h' {
            Action::Backspace
        } else if ctrl && c == 'k' {
            Action::KillToEnd
        } else if ctrl && c == 'u' {
            Action::KillToStart
        } else if ctrl && c == 'w' {
            Action::KillWord
        } else if ctrl && c == 't' {
            Action::Transpose
        } else if ctrl && c == 'n' {
            Action::MoveDown
        } else if ctrl && c == 'p' {
            Action::MoveUp
        } else if ctrl && c == 'c' {
            Action::Quit
        } else if !ctrl && !alt {
            Action::InsertChar(c)
        } else {
            Action::Nop
        },
        Key::Other => Action::Nop,
    }
}

/// What a key does: only presses count. Unmodified Esc closes an open
/// palette first, quits in summon mode and toggles the bar otherwise. The
/// palette key toggles the palette while the bar is shown (unless it is
/// also the wake key of a summoned bar); the wake key quits in summon mode
/// and toggles the bar otherwise. Everything else depends on whether the
/// bar is shown.
pub open spec fn key_action(app: App, key: KeyPress) -> Action {
    if !key.press {
        Action::Nop
    } else if key.code == Key::Esc && unmodified(key) {
        if app.palette is Some {
            Action::ClosePalette
        } else if app.summon {
            Action::Quit
        } else {
            Action::ToggleBar
        }
    } else if hits(app.command, key) && app.palette is Some {
        Action::ClosePalette
    } else if hits(app.command, key) && app.visibility == Visibility::Shown && !(app.summon
        && app.command == app.wake) {
        Action::OpenPalette
    } else if hits(app.wake, key) {
        if app.summon {
            Action::Quit
        } else {
            Action::ToggleBar
        }
    } else if app.visibility == Visibility::Hidden {
        hidden_action(key)
    } else {
        shown_action(app.palette is Some, app.input@.len() > 0 && app.input@[0] == ':', key)
    }
}

fn hidden_key(key: KeyPress) -> (a: Action)
    ensures
        a == hidden_action(key),
{
    match key.code {
        Key::Char(c) => if key.ctrl && c == 'c' {
            Action::Quit
        } else if key.ctrl && !key.alt && c == 'd' {
            Action::Quit
        } else {
            Action::Nop
        },
        _ => Action::Nop,
    }
}

fn shown_key(palette_open: bool, colon: bool, key: KeyPress) -> (a: Action)
    ensures
        a == shown_action(palette_open, colon, key),
{
    let ctrl = key.ctrl;
    let alt = key.alt;
    let plain = !key.alt && !key.ctrl && !key.shift && !key.extra;
    match key.code {
        Key::Enter => if palette_open {
            Action::PaletteAccept
        } else if colon {
            Action::SubmitColon
        } else {
            Action::Execute
        },
        Key::Esc => Action::ToggleBar,
        Key::Up => Action::MoveUp,
        Key::Down => Action::MoveDown,
        Key::Tab => Action::MoveDown,
        Key::Backspace => if plain {
            Action::Backspace
        } else {
            Action::Nop
        },
        Key::Delete => if plain {
            Action::DeleteForward
        } else {
            Action::Nop
        },
        Key::Left => if ctrl || alt {
            Action::Motion(Motion::WordLeft)
        } else {
            Action::Motion(Motion::Left)
        },
        Key::Right => if ctrl || alt {
            Action::Motion(Motion::WordRight)
        } else {
            Action::Motion(Motion::Right)
        },
        Key::Home => Action::Motion(Motion::Home),
        Key::End => Action::Motion(Motion::End),
        Key::Char(c) => if ctrl && c == 'a' {
            Action::Motion(Motion::Home)
        } else if ctrl && c == 'e' {
            Action::Motion(Motion::End)
        } else if ctrl && c == 'b' {
            Action::Motion(Motion::Left)
        } else if ctrl && c == 'f' {
            Action::Motion(Motion::Right)
        } else if alt && c == 'b' {
            Action::Motion(Motion::WordLeft)
        } else if alt && c == 'f' {
            Action::Motion(Motion::WordRight)
        } else if ctrl && !alt && c == 'd' {
            Action::Quit
        } else if ctrl && c == 'h' {
            Action::Backspace
        } else if ctrl && c == 'k' {
            Action::KillToEnd
        } else if ctrl && c == 'u' {
            Action::KillToStart
        } else if ctrl && c == 'w' {
            Action::KillWord
        } else if ctrl && c == 't' {
            Action::Transpose
        } else if ctrl && c == 'n' {
            Action::MoveDown
        } else if ctrl && c == 'p' {
            Action::MoveUp
        } else if ctrl && c == 'c' {
            Action::Quit
        } else if !ctrl && !alt {
            Action::InsertChar(c)
        } else {
            Action::Nop
        },
        Key::Other => Action::Nop,
    }
}

/// Map a key event to an action. Only presses are honoured: without the
/// filter, terminals that also report release/repeat would fire every
/// mapping twice.
pub fn on_key(app: &App, key: KeyPress) -> (a: Action)
    ensures
        a == key_action(*app, key),
{
    if !key.press {
        return Action::Nop;
    }
    let plain = !key.alt && !key.ctrl && !key.shift && !key.extra;
    if key.code == Key::Esc && plain {
        if app.palette.is_some() {
            return Action::ClosePalette;
        }
        return if app.summon {
            Action::Quit
        } else {
            Action::ToggleBar
        };
    }
    if crate::keyspec::matches(&app.command, &key) {
        if app.palette.is_some() {
            return Action::ClosePalette;
        }
        if app.visibility == Visibility::Shown && !(app.summon && app.command == app.wake) {
            return Action::OpenPalette;
        }
    }
    if crate::keyspec::matches(&app.wake, &key) {
        return if app.summon {
            Action::Quit
        } else {
            Action::ToggleBar
        };
    }
    match app.visibility {
        Visibility::Hidden => hidden_key(key),
        Visibility::Shown => {
            let v = crate::text::chars_of(app.input.as_str());
            let colon = v.len() > 0 && v[0] == ':';
            shown_key(app.palette.is_some(), colon, key)
        },
    }
}

/// Whether the settings page takes `key` rather than the launcher: it owns
/// every key while it is open, except the wake key, which stays global so
/// it can hide (or quit) the bar from any page. The command key is not
/// exempt: it would open the palette over the page.
pub fn settings_page_owns(app: &App, key: &KeyPress) -> (r: bool)
    ensures
        r == (app.mode is Settings && !hits(app.wake, *key)),
{
    match &app.mode {
        Mode::Settings(_) => !crate::keyspec::matches(&app.wake, key),
        Mode::Normal => false,
    }
}

} // verus!
