use std::path::PathBuf;

use filebrowser::app::{App, Navigation};
use filebrowser::entry::Entry;
use filebrowser::input::{
    command_for, handle_key, Command, KeyCode, KeyEvent, LINE_SCROLL, PAGE_SCROLL,
};

fn press(code: KeyCode) -> KeyEvent {
    KeyEvent { code, control: false, press: true }
}

fn app() -> App {
    let entries = vec![
        Entry { name: "..".to_string(), is_dir: true, size: 0, modified: 0 },
        Entry { name: "dir".to_string(), is_dir: true, size: 0, modified: 0 },
        Entry { name: "file".to_string(), is_dir: false, size: 3, modified: 0 },
    ];
    App::new(PathBuf::from("/x"), entries)
}

#[test]
fn key_map() {
    assert_eq!(command_for(&press(KeyCode::Char('q'))), Some(Command::Quit));
    assert_eq!(command_for(&press(KeyCode::Char('c'))), None);
    let ctrl_c = KeyEvent { code: KeyCode::Char('c'), control: true, press: true };
    assert_eq!(command_for(&ctrl_c), Some(Command::Quit));
    assert_eq!(command_for(&press(KeyCode::Char('j'))), Some(Command::MoveDown));
    assert_eq!(command_for(&press(KeyCode::Down)), Some(Command::MoveDown));
    assert_eq!(command_for(&press(KeyCode::Char('k'))), Some(Command::MoveUp));
    assert_eq!(command_for(&press(KeyCode::Up)), Some(Command::MoveUp));
    assert_eq!(command_for(&press(KeyCode::Char('g'))), Some(Command::JumpFirst));
    assert_eq!(command_for(&press(KeyCode::Home)), Some(Command::JumpFirst));
    assert_eq!(command_for(&press(KeyCode::Char('G'))), Some(Command::JumpLast));
    assert_eq!(command_for(&press(KeyCode::End)), Some(Command::JumpLast));
    assert_eq!(command_for(&press(KeyCode::Char('l'))), Some(Command::EnterSelected));
    assert_eq!(command_for(&press(KeyCode::Right)), Some(Command::EnterSelected));
    assert_eq!(command_for(&press(KeyCode::Enter)), Some(Command::EnterSelected));
    assert_eq!(command_for(&press(KeyCode::Char('h'))), Some(Command::EnterParent));
    assert_eq!(command_for(&press(KeyCode::Left)), Some(Command::EnterParent));
    assert_eq!(command_for(&press(KeyCode::Char('x'))), None);
    assert_eq!(command_for(&press(KeyCode::Other)), None);
}

#[test]
fn releases_and_repeats_are_ignored() {
    let mut app = app();
    let release = KeyEvent { code: KeyCode::Char('j'), control: false, press: false };
    assert_eq!(handle_key(&mut app, release), None);
    assert_eq!(app.selected(), 0);
    let quit = KeyEvent { code: KeyCode::Char('q'), control: false, press: false };
    handle_key(&mut app, quit);
    assert!(!app.should_quit());
}

#[test]
fn keys_drive_the_app() {
    let mut app = app();
    assert_eq!(handle_key(&mut app, press(KeyCode::Enter)), Some(Navigation::Parent));
    assert_eq!(handle_key(&mut app, press(KeyCode::Char('j'))), None);
    assert_eq!(app.selected(), 1);
    assert_eq!(
        handle_key(&mut app, press(KeyCode::Char('l'))),
        Some(Navigation::Child("dir".to_string()))
    );
    handle_key(&mut app, press(KeyCode::End));
    assert_eq!(app.selected(), 2);
    assert_eq!(handle_key(&mut app, press(KeyCode::Right)), None);
    assert_eq!(handle_key(&mut app, press(KeyCode::Left)), Some(Navigation::Parent));
    handle_key(&mut app, press(KeyCode::Char('g')));
    assert_eq!(app.selected(), 0);
    handle_key(&mut app, KeyEvent { code: KeyCode::Char('c'), control: true, press: true });
    assert!(app.should_quit());
}

#[test]
fn preview_keys_scroll_the_preview() {
    let ctrl = |c| KeyEvent { code: KeyCode::Char(c), control: true, press: true };
    assert_eq!(command_for(&press(KeyCode::Char('J'))), Some(Command::ScrollPreviewDown(LINE_SCROLL)));
    assert_eq!(command_for(&press(KeyCode::Char('K'))), Some(Command::ScrollPreviewUp(LINE_SCROLL)));
    assert_eq!(command_for(&ctrl('d')), Some(Command::ScrollPreviewDown(PAGE_SCROLL)));
    assert_eq!(command_for(&ctrl('u')), Some(Command::ScrollPreviewUp(PAGE_SCROLL)));
    assert_eq!(command_for(&press(KeyCode::Char('d'))), None);
    assert_eq!(command_for(&press(KeyCode::Char('u'))), None);

    let mut app = app();
    assert_eq!(handle_key(&mut app, press(KeyCode::Char('J'))), None);
    assert_eq!(app.preview_scroll(), 1);
    handle_key(&mut app, ctrl('d'));
    assert_eq!(app.preview_scroll(), 11);
    handle_key(&mut app, press(KeyCode::Char('K')));
    assert_eq!(app.preview_scroll(), 10);
    handle_key(&mut app, ctrl('u'));
    handle_key(&mut app, ctrl('u'));
    assert_eq!(app.preview_scroll(), 0);
    assert_eq!(app.selected(), 0);
    let release = KeyEvent { code: KeyCode::Char('J'), control: false, press: false };
    handle_key(&mut app, release);
    assert_eq!(app.preview_scroll(), 0);
}
