use std::path::PathBuf;

use filebrowser::app::{App, Navigation};
use filebrowser::entry::Entry;

fn entry(name: &str, is_dir: bool) -> Entry {
    Entry { name: name.to_string(), is_dir, size: 0, modified: 0 }
}

fn listing(n: usize) -> Vec<Entry> {
    (0..n).map(|i| entry(&format!("file{i}"), false)).collect()
}

#[test]
fn new_app_starts_at_the_top() {
    let app = App::new(PathBuf::from("/data"), listing(3));
    assert_eq!(app.current_dir(), &PathBuf::from("/data"));
    assert_eq!(app.entries().len(), 3);
    assert_eq!(app.selected(), 0);
    assert_eq!(app.scroll_offset(), 0);
    assert_eq!(app.preview_scroll(), 0);
    assert!(!app.should_quit());
    assert_eq!(app.selected_entry().map(|e| e.name.as_str()), Some("file0"));
}

#[test]
fn moving_stays_within_the_listing() {
    let mut app = App::new(PathBuf::from("/"), listing(3));
    app.move_up();
    assert_eq!(app.selected(), 0);
    app.move_down();
    app.move_down();
    app.move_down();
    assert_eq!(app.selected(), 2);
    app.move_up();
    assert_eq!(app.selected(), 1);
    app.jump_last();
    assert_eq!(app.selected(), 2);
    app.jump_first();
    assert_eq!(app.selected(), 0);
}

#[test]
fn empty_listing_has_no_selection() {
    let mut app = App::new(PathBuf::from("/"), Vec::new());
    app.move_down();
    app.jump_last();
    assert_eq!(app.selected(), 0);
    assert!(app.selected_entry().is_none());
    assert_eq!(app.enter_selected(), None);
}

#[test]
fn changing_selection_rewinds_the_preview() {
    let mut app = App::new(PathBuf::from("/"), listing(3));
    app.scroll_preview_down(7);
    assert_eq!(app.preview_scroll(), 7);
    app.move_up();
    assert_eq!(app.preview_scroll(), 7, "no move, no rewind");
    app.jump_first();
    assert_eq!(app.preview_scroll(), 7);
    app.move_down();
    assert_eq!(app.preview_scroll(), 0);
    app.scroll_preview_down(4);
    app.jump_last();
    assert_eq!(app.preview_scroll(), 0);
}

#[test]
fn preview_scrolling_saturates_and_clamps() {
    let mut app = App::new(PathBuf::from("/"), listing(1));
    app.scroll_preview_up(3);
    assert_eq!(app.preview_scroll(), 0);
    app.scroll_preview_down(usize::MAX);
    app.scroll_preview_down(5);
    assert_eq!(app.preview_scroll(), usize::MAX);
    app.clamp_preview_scroll(100, 30);
    assert_eq!(app.preview_scroll(), 70);
    app.clamp_preview_scroll(10, 30);
    assert_eq!(app.preview_scroll(), 0);
    app.scroll_preview_down(5);
    app.clamp_preview_scroll(100, 30);
    assert_eq!(app.preview_scroll(), 5);
    app.scroll_preview_up(2);
    assert_eq!(app.preview_scroll(), 3);
}

#[test]
fn clamp_scroll_keeps_the_selection_visible() {
    let mut app = App::new(PathBuf::from("/"), listing(20));
    for _ in 0..12 {
        app.move_down();
    }
    app.clamp_scroll(5);
    assert_eq!(app.scroll_offset(), 8);
    app.clamp_scroll(5);
    assert_eq!(app.scroll_offset(), 8);
    for _ in 0..10 {
        app.move_up();
    }
    app.clamp_scroll(5);
    assert_eq!(app.scroll_offset(), 2);
    app.clamp_scroll(0);
    assert_eq!(app.scroll_offset(), 2);
    app.move_down();
    app.clamp_scroll(0);
    assert_eq!(app.scroll_offset(), 3);
}

#[test]
fn enter_selected_names_the_target() {
    let mut app = App::new(
        PathBuf::from("/home"),
        vec![entry("..", true), entry("docs", true), entry("a.txt", false), entry("...", true)],
    );
    assert_eq!(app.enter_selected(), Some(Navigation::Parent));
    app.move_down();
    assert_eq!(app.enter_selected(), Some(Navigation::Child("docs".to_string())));
    app.move_down();
    assert_eq!(app.enter_selected(), None);
    app.move_down();
    assert_eq!(app.enter_selected(), Some(Navigation::Child("...".to_string())));
    assert_eq!(app.enter_parent(), Navigation::Parent);
}

#[test]
fn navigation_resets_cursor_and_keeps_quit_flag() {
    let mut app = App::new(PathBuf::from("/home"), listing(5));
    app.jump_last();
    app.clamp_scroll(2);
    app.scroll_preview_down(3);
    app.quit();
    app.navigate_to(PathBuf::from("/home/docs"), listing(2));
    assert_eq!(app.current_dir(), &PathBuf::from("/home/docs"));
    assert_eq!(app.entries().len(), 2);
    assert_eq!(app.selected(), 0);
    assert_eq!(app.scroll_offset(), 0);
    assert_eq!(app.preview_scroll(), 0);
    assert!(app.should_quit());
}

#[test]
fn reload_pulls_the_cursor_back_into_range() {
    let mut app = App::new(PathBuf::from("/"), listing(10));
    app.jump_last();
    app.clamp_scroll(3);
    assert_eq!(app.scroll_offset(), 7);
    app.reload_entries(listing(4));
    assert_eq!(app.selected(), 3);
    assert_eq!(app.scroll_offset(), 3);
    app.reload_entries(Vec::new());
    assert_eq!(app.selected(), 0);
    assert_eq!(app.scroll_offset(), 0);
    app.reload_entries(listing(6));
    assert_eq!(app.selected(), 0);
}

#[test]
fn move_up_undoes_move_down() {
    let mut app = App::new(PathBuf::from("/"), listing(4));
    app.move_down();
    app.scroll_preview_down(6);
    app.move_down();
    app.move_up();
    assert_eq!(app.selected(), 1);
    assert_eq!(app.preview_scroll(), 0);
    app.jump_last();
    app.move_down();
    assert_eq!(app.selected(), 3);
    app.jump_first();
    app.move_up();
    assert_eq!(app.selected(), 0);
}
