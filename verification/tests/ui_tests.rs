use std::path::PathBuf;

use filebrowser::app::App;
use filebrowser::entry::Entry;
use filebrowser::ui::{
    file_list_rows, preview_file_name, preview_lines, sanitize_for_terminal, status_text,
};

fn entry(name: &str, is_dir: bool, size: u64, modified: u64) -> Entry {
    Entry { name: name.to_string(), is_dir, size, modified }
}

fn sample_app() -> App {
    App::new(
        PathBuf::from("/home/user"),
        vec![
            entry("..", true, 0, 0),
            entry("src", true, 0, 10),
            entry("notes\u{1b}.txt", false, 1234, 1700000000),
            entry("readme.md", false, 5, 42),
        ],
    )
}

#[test]
fn terminal_controls_are_rendered_as_visible_text() {
    assert_eq!(
        sanitize_for_terminal("name\u{1b}]52;c;payload\u{7}", false),
        "name\\x1B]52;c;payload\\x07"
    );
    assert_eq!(sanitize_for_terminal("a\nb\t", true), "a\nb\\x09");
}

#[test]
fn newlines_are_escaped_unless_allowed() {
    assert_eq!(sanitize_for_terminal("a\nb", false), "a\\x0Ab");
    assert_eq!(sanitize_for_terminal("\u{7f}\u{9f}\u{a0}", false), "\\x7F\\x9F\u{a0}");
    assert_eq!(sanitize_for_terminal("plain text", false), "plain text");
}

#[test]
fn status_without_selection() {
    let app = App::new(PathBuf::from("/"), Vec::new());
    assert_eq!(
        status_text(&app),
        "j/k or arrows: move | h/l or arrows: parent/open | g/G: first/last | J/K or Ctrl-d/u: scroll preview | q or Ctrl+C: quit | 0 items | no selection"
    );
}

#[test]
fn status_describes_the_selected_entry() {
    let mut app = sample_app();
    app.move_down();
    app.move_down();
    assert_eq!(
        status_text(&app),
        "j/k or arrows: move | h/l or arrows: parent/open | g/G: first/last | J/K or Ctrl-d/u: scroll preview | q or Ctrl+C: quit | 4 items | selected: 1234 bytes, modified: 1700000000s"
    );
}

#[test]
fn file_list_shows_the_window_and_highlights_the_selection() {
    let mut app = sample_app();
    app.jump_last();
    app.clamp_scroll(2);
    assert_eq!(app.scroll_offset(), 2);
    let rows = file_list_rows(&app, 2);
    assert_eq!(rows.len(), 2);
    assert_eq!(rows[0].text, "  notes\\x1B.txt");
    assert!(!rows[0].highlighted);
    assert_eq!(rows[1].text, "  readme.md");
    assert!(rows[1].highlighted);

    app.jump_first();
    app.clamp_scroll(10);
    let rows = file_list_rows(&app, 10);
    assert_eq!(rows.len(), 4);
    assert_eq!(rows[0].text, "/ ..");
    assert!(rows[0].highlighted);
    assert_eq!(rows[1].text, "/ src");
    assert!(file_list_rows(&app, 0).is_empty());
}

#[test]
fn preview_of_nothing_a_directory_and_a_file() {
    let empty = App::new(PathBuf::from("/"), Vec::new());
    assert_eq!(preview_lines(&empty, 10, None), ("Preview".to_string(), Vec::new()));
    assert_eq!(preview_file_name(&empty), None);

    let mut app = sample_app();
    app.move_down();
    assert_eq!(preview_file_name(&app), None);
    assert_eq!(
        preview_lines(&app, 10, None),
        ("src".to_string(), vec!["<directory>".to_string()])
    );

    app.move_down();
    assert_eq!(preview_file_name(&app), Some("notes\u{1b}.txt".to_string()));
    let (title, lines) = preview_lines(&app, 6, Some("hello world\n\u{7}x".to_string()));
    assert_eq!(title, "notes\\x1B.txt");
    assert_eq!(lines, vec!["hello ", "world", "\\x07x"]);

    let (_, lines) = preview_lines(&app, 80, None);
    assert_eq!(lines, vec!["<binary or unreadable>"]);
}

#[test]
fn sanitized_output_holds_no_control_characters() {
    let all: String = (0u32..0x200).filter_map(char::from_u32).collect();
    for allow_newlines in [false, true] {
        let out = sanitize_for_terminal(&all, allow_newlines);
        for c in out.chars() {
            assert!(!c.is_control() || (c == '\n' && allow_newlines), "{c:?} left in output");
        }
    }
}
