//! Input handling: translating key events into application commands.

use vstd::prelude::*;
use crate::app::{App, AppView, Navigation};

verus! {

/// The key of a key event, as far as the browser tells keys apart.
#[derive(Clone, Copy, Debug, PartialEq, Eq, Structural)]
pub enum KeyCode {
    Char(char),
    Up,
    Down,
    Left,
    Right,
    Home,
    End,
    Enter,
    Other,
}

/// A key event: which key, whether Control was held, and whether it is a
/// press (as opposed to a release or an auto-repeat).
#[derive(Clone, Copy, Debug, PartialEq, Eq, Structural)]
pub struct KeyEvent {
    pub code: KeyCode,
    pub control: bool,
    pub press: bool,
}

/// The commands that keys trigger.
#[derive(Clone, Copy, Debug, PartialEq, Eq, Structural)]
pub enum Command {
    Quit,
    MoveDown,
    MoveUp,
    JumpFirst,
    JumpLast,
    EnterSelected,
    EnterParent,
    /// Scroll the preview down by the given number of rows.
    ScrollPreviewDown(usize),
    /// Scroll the preview up by the given number of rows.
    ScrollPreviewUp(usize),
}

/// Rows the preview scrolls for `J` and `K`.
pub const LINE_SCROLL: usize = 1;

/// Rows the preview scrolls for Ctrl+D and Ctrl+U.
pub const PAGE_SCROLL: usize = 10;

/// The key map: `q` or Ctrl+C quit, `j`/Down and `k`/Up move, `g`/Home and
/// `G`/End jump, `l`/Right/Enter open, `h`/Left go to the parent, `J` and
/// Ctrl+D scroll the preview down, `K` and Ctrl+U scroll it up. Anything but
/// a press does nothing.
pub open spec fn key_command(key: KeyEvent) -> Option<Command> {
    if !key.press {
        None
    } else {
        match key.code {
            KeyCode::Char(c) => if c == 'q' {
                Some(Command::Quit)
            } else if c == 'c' && key.control {
                Some(Command::Quit)
            } else if c == 'j' {
                Some(Command::MoveDown)
            } else if c == 'k' {
                Some(Command::MoveUp)
            } else if c == 'g' {
                Some(Command::JumpFirst)
            } else if c == 'G' {
                Some(Command::JumpLast)
            } else if c == 'l' {
                Some(Command::EnterSelected)
            } else if c == 'h' {
                Some(Command::EnterParent)
            } else if c == 'J' {
                Some(Command::ScrollPreviewDown(LINE_SCROLL))
            } else if c == 'K' {
                Some(Command::ScrollPreviewUp(LINE_SCROLL))
            } else if c == 'd' && key.control {
                Some(Command::ScrollPreviewDown(PAGE_SCROLL))
            } else if c == 'u' && key.control {
                Some(Command::ScrollPreviewUp(PAGE_SCROLL))
            } else {
                None
            },
            KeyCode::Down => Some(Command::MoveDown),
            KeyCode::Up => Some(Command::MoveUp),
            KeyCode::Home => Some(Command::JumpFirst),
            KeyCode::End => Some(Command::JumpLast),
            KeyCode::Right => Some(Command::EnterSelected),
            KeyCode::Enter => Some(Command::EnterSelected),
            KeyCode::Left => Some(Command::EnterParent),
            KeyCode::Other => None,
        }
    }
}

/// The state after `command`; opening entries changes nothing by itself.
pub open spec fn apply_command(v: AppView, command: Option<Command>) -> AppView {
    match command {
        Some(Command::Quit) => v.quitting(),
        Some(Command::MoveDown) => v.moved_down(),
        Some(Command::MoveUp) => v.moved_up(),
        Some(Command::JumpFirst) => v.jumped_first(),
        Some(Command::JumpLast) => v.jumped_last(),
        Some(Command::ScrollPreviewDown(amount)) => v.preview_scrolled_down(amount as nat),
        Some(Command::ScrollPreviewUp(amount)) => v.preview_scrolled_up(amount as nat),
        _ => v,
    }
}

/// Where `command` asks to go, for the caller to resolve.
pub open spec fn command_navigation(v: AppView, command: Option<Command>) -> Option<Navigation> {
    match command {
        Some(Command::EnterSelected) => v.entry_target(),
        Some(Command::EnterParent) => Some(Navigation::Parent),
        _ => None,
    }
}

/// The command a key event triggers, if any.
pub fn command_for(key_event: &KeyEvent) -> (r: Option<Command>)
    ensures
        r == key_command(*key_event),
{
    if !key_event.press {
        return None;
    }
    match key_event.code {
        KeyCode::Char('q') => Some(Command::Quit),
        KeyCode::Char('c') if key_event.control => Some(Command::Quit),
        KeyCode::Char('j') | KeyCode::Down => Some(Command::MoveDown),
        KeyCode::Char('k') | KeyCode::Up => Some(Command::MoveUp),
        KeyCode::Char('g') | KeyCode::Home => Some(Command::JumpFirst),
        KeyCode::Char('G') | KeyCode::End => Some(Command::JumpLast),
        KeyCode::Char('l') | KeyCode::Right | KeyCode::Enter => Some(Command::EnterSelected),
        KeyCode::Char('h') | KeyCode::Left => Some(Command::EnterParent),
        KeyCode::Char('J') => Some(Command::ScrollPreviewDown(LINE_SCROLL)),
        KeyCode::Char('K') => Some(Command::ScrollPreviewUp(LINE_SCROLL)),
        KeyCode::Char('d') if key_event.control => Some(Command::ScrollPreviewDown(PAGE_SCROLL)),
        KeyCode::Char('u') if key_event.control => Some(Command::ScrollPreviewUp(PAGE_SCROLL)),
        _ => None,
    }
}

/// Apply a single key press to the application state. Key releases and repeats
/// are ignored so each physical press triggers exactly one command. A request
/// to open a directory or go to the parent is returned for the caller to
/// carry out with [`App::navigate_to`].
pub fn handle_key(app: &mut App, key_event: KeyEvent) -> (r: Option<Navigation>)
    ensures
        final(app)@ == apply_command(old(app)@, key_command(key_event)),
        r == command_navigation(old(app)@, key_command(key_event)),
{
    match command_for(&key_event) {
        Some(Command::Quit) => {
            app.quit();
            None
        },
        Some(Command::MoveDown) => {
            app.move_down();
            None
        },
        Some(Command::MoveUp) => {
            app.move_up();
            None
        },
        Some(Command::JumpFirst) => {
            app.jump_first();
            None
        },
        Some(Command::JumpLast) => {
            app.jump_last();
            None
        },
        Some(Command::ScrollPreviewDown(amount)) => {
            app.scroll_preview_down(amount);
            None
        },
        Some(Command::ScrollPreviewUp(amount)) => {
            app.scroll_preview_up(amount);
            None
        },
        Some(Command::EnterSelected) => app.enter_selected(),
        Some(Command::EnterParent) => Some(app.enter_parent()),
        None => None,
    }
}

/// Only presses act: a release or a repeat leaves the state alone and asks
/// for no navigation.
pub proof fn lemma_only_presses_act(v: AppView, key: KeyEvent)
    requires
        !key.press,
    ensures
        apply_command(v, key_command(key)) == v,
        command_navigation(v, key_command(key)) is None,
{
}

/// The preview keys scroll the preview and change nothing else; scrolling up
/// by what was scrolled down returns to where it was.
pub proof fn lemma_preview_keys_scroll_the_preview(v: AppView, down: KeyEvent, up: KeyEvent)
    requires
        down.press,
        up.press,
        down.code == KeyCode::Char('J') && up.code == KeyCode::Char('K') || down.code
            == KeyCode::Char('d') && down.control && up.code == KeyCode::Char('u') && up.control,
        v.preview_scroll + PAGE_SCROLL <= usize::MAX,
    ensures
        apply_command(v, key_command(down)) == (AppView {
            preview_scroll: apply_command(v, key_command(down)).preview_scroll,
            ..v
        }),
        apply_command(v, key_command(down)).preview_scroll > v.preview_scroll,
        apply_command(apply_command(v, key_command(down)), key_command(up)) == v,
        command_navigation(v, key_command(down)) is None,
        command_navigation(v, key_command(up)) is None,
{
}

/// What each key press does, stated on the cursor, the preview offset and
/// the quit flag: `j`/Down move the cursor to the next entry if there is one,
/// `k`/Up to the previous one if there is one, `g`/Home to the first and
/// `G`/End to the last; `q` and Ctrl+C set the quit flag; `J` and Ctrl+D add
/// 1 and 10 to the preview offset, `K` and Ctrl+U take 1 and 10 off it
/// (stopping at 0); `l`/Right/Enter and `h`/Left change nothing and ask to open
/// the selected directory and the parent. No key changes the listing, the
/// directory or the list's scroll offset.
pub proof fn lemma_key_press_effects(v: AppView, key: KeyEvent)
    requires
        key.press,
        v.preview_scroll + PAGE_SCROLL <= usize::MAX,
    ensures
        ({
            let after = apply_command(v, key_command(key));
            let nav = command_navigation(v, key_command(key));
            &&& after.entries == v.entries
            &&& after.current_dir == v.current_dir
            &&& after.scroll_offset == v.scroll_offset
            &&& (key.code == KeyCode::Char('j') || key.code == KeyCode::Down) ==> after.selected == (
            if v.selected + 1 < v.entries.len() {
                v.selected + 1
            } else {
                v.selected
            }) && nav is None
            &&& (key.code == KeyCode::Char('k') || key.code == KeyCode::Up) ==> after.selected == (
            if v.selected > 0 {
                v.selected - 1
            } else {
                v.selected as int
            }) && nav is None
            &&& (key.code == KeyCode::Char('g') || key.code == KeyCode::Home) ==> after.selected == 0
                && nav is None
            &&& (key.code == KeyCode::Char('G') || key.code == KeyCode::End) ==> after.selected + 1
                == v.entries.len() || (v.entries.len() == 0 && after.selected == 0)
            &&& (key.code == KeyCode::Char('q') || key.code == KeyCode::Char('c') && key.control)
                ==> after == (AppView { should_quit: true, ..v }) && nav is None
            &&& key.code == KeyCode::Char('J') ==> after == (AppView {
                preview_scroll: v.preview_scroll + 1,
                ..v
            }) && nav is None
            &&& key.code == KeyCode::Char('d') && key.control ==> after == (AppView {
                preview_scroll: v.preview_scroll + 10,
                ..v
            }) && nav is None
            &&& key.code == KeyCode::Char('K') ==> after.preview_scroll == (if v.preview_scroll
                >= 1 {
                v.preview_scroll - 1
            } else {
                0
            }) && after.selected == v.selected && nav is None
            &&& key.code == KeyCode::Char('u') && key.control ==> after.preview_scroll == (
            if v.preview_scroll >= 10 {
                v.preview_scroll - 10
            } else {
                0
            }) && after.selected == v.selected && nav is None
            &&& (key.code == KeyCode::Char('l') || key.code == KeyCode::Right || key.code
                == KeyCode::Enter) ==> after == v && nav == v.entry_target()
            &&& (key.code == KeyCode::Char('h') || key.code == KeyCode::Left) ==> after == v && nav
                == Some(Navigation::Parent)
        }),
{
}

/// A key acts by at most one command: either it changes the state or it asks
/// for a navigation, never both.
pub proof fn lemma_one_command_per_press(v: AppView, key: KeyEvent)
    ensures
        command_navigation(v, key_command(key)) is Some ==> apply_command(v, key_command(key)) == v,
{
}

} // verus!
